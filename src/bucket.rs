use vstd::prelude::*;
use crate::event::Event;

verus! {

/// The earliest start and the latest end among a bucket's events.
#[derive(Clone, Copy, Debug, PartialEq, Eq, Structural)]
pub struct BucketMetadata {
    pub start: Option<i64>,
    pub end: Option<i64>,
}

/// A named container of events.
///
/// `created` is in nanoseconds since the epoch, `data` is JSON object text,
/// and `events` only seeds a bucket when it is created.
#[derive(Clone, Debug, PartialEq, Eq)]
pub struct Bucket {
    pub bid: Option<i64>,
    pub id: String,
    pub _type: String,
    pub client: String,
    pub hostname: String,
    pub created: Option<i64>,
    pub data: String,
    pub metadata: BucketMetadata,
    pub events: Option<Vec<Event>>,
    pub last_updated: Option<i64>,
}

/// The metadata of a bucket without events.
pub open spec fn empty_metadata() -> BucketMetadata {
    BucketMetadata { start: None, end: None }
}

/// Folds one written event into a bucket's metadata: the start is lowered
/// and the end raised as far as the event reaches.
pub open spec fn fold_event(m: BucketMetadata, e: Event) -> BucketMetadata {
    BucketMetadata {
        start: match m.start {
            None => Some(e.timestamp),
            Some(s) => if s > e.timestamp {
                Some(e.timestamp)
            } else {
                Some(s)
            },
        },
        end: match m.end {
            None => Some(e.spec_end() as i64),
            Some(x) => if x < e.spec_end() {
                Some(e.spec_end() as i64)
            } else {
                Some(x)
            },
        },
    }
}

/// Folds a sequence of written events, in order, into a bucket's metadata.
pub open spec fn fold_events(m: BucketMetadata, es: Seq<Event>) -> BucketMetadata
    decreases es.len(),
{
    if es.len() == 0 {
        m
    } else {
        fold_event(fold_events(m, es.drop_last()), es.last())
    }
}

/// `m` is the aggregate of `es` computed from scratch: no bounds for no
/// events, otherwise the least start and the greatest end.
pub open spec fn is_span_of(m: BucketMetadata, es: Seq<Event>) -> bool {
    if es.len() == 0 {
        m.start is None && m.end is None
    } else {
        &&& m.start is Some && m.end is Some
        &&& exists|k: int| 0 <= k < es.len() && es[k].timestamp == m.start->0
        &&& forall|k: int| 0 <= k < es.len() ==> m.start->0 <= #[trigger] es[k].timestamp
        &&& exists|k: int| 0 <= k < es.len() && es[k].spec_end() == m.end->0
        &&& forall|k: int| 0 <= k < es.len() ==> #[trigger] es[k].spec_end() <= m.end->0
    }
}

/// Metadata kept up to date event by event equals the aggregate over all
/// the events written, computed from scratch.
pub proof fn lemma_fold_is_span(es: Seq<Event>)
    requires
        forall|i: int| 0 <= i < es.len() ==> #[trigger] es[i].wf(),
    ensures
        is_span_of(fold_events(empty_metadata(), es), es),
    decreases es.len(),
{
    if es.len() > 0 {
        let init = es.drop_last();
        assert forall|i: int| 0 <= i < init.len() implies #[trigger] init[i].wf() by {
            assert(init[i] == es[i]);
        }
        lemma_fold_is_span(init);
        let m = fold_events(empty_metadata(), init);
        let last = es.last();
        let n = es.len() - 1;
        assert(es[n] == last);
        assert(last.wf());
        assert((last.spec_end() as i64) as int == last.spec_end());
        if init.len() == 0 {
            assert(es[0].timestamp == fold_events(empty_metadata(), es).start->0);
            assert(es[0].spec_end() == fold_events(empty_metadata(), es).end->0);
        } else {
            let r = fold_events(empty_metadata(), es);
            let ks = choose|k: int| 0 <= k < init.len() && init[k].timestamp == m.start->0;
            let ke = choose|k: int| 0 <= k < init.len() && init[k].spec_end() == m.end->0;
            assert(es[ks] == init[ks]);
            assert(es[ke] == init[ke]);
            assert forall|k: int| 0 <= k < es.len() implies r.start->0 <= #[trigger] es[k].timestamp by {
                if k < n {
                    assert(es[k] == init[k]);
                }
            }
            assert forall|k: int| 0 <= k < es.len() implies #[trigger] es[k].spec_end() <= r.end->0 by {
                if k < n {
                    assert(es[k] == init[k]);
                }
            }
        }
    }
}

/// Folding two runs of events one after the other is folding their
/// concatenation.
pub proof fn lemma_fold_concat(m: BucketMetadata, a: Seq<Event>, b: Seq<Event>)
    ensures
        fold_events(fold_events(m, a), b) == fold_events(m, a + b),
    decreases b.len(),
{
    if b.len() > 0 {
        lemma_fold_concat(m, a, b.drop_last());
        assert((a + b).drop_last() =~= a + b.drop_last());
        assert((a + b).last() == b.last());
    } else {
        assert(a + b =~= a);
    }
}

/// A bucket created with empty metadata and then given the runs of events
/// `first` and `second` has the metadata that aggregating all those events
/// from scratch gives: incremental upkeep agrees with a reload.
pub proof fn lemma_incremental_matches_reload(first: Seq<Event>, second: Seq<Event>)
    requires
        forall|i: int| 0 <= i < first.len() ==> #[trigger] first[i].wf(),
        forall|i: int| 0 <= i < second.len() ==> #[trigger] second[i].wf(),
    ensures
        is_span_of(fold_events(fold_events(empty_metadata(), first), second), first + second),
{
    lemma_fold_concat(empty_metadata(), first, second);
    let all = first + second;
    assert forall|i: int| 0 <= i < all.len() implies #[trigger] all[i].wf() by {
        if i < first.len() {
            assert(all[i] == first[i]);
        } else {
            assert(all[i] == second[i - first.len()]);
        }
    }
    lemma_fold_is_span(all);
}

/// Folding a run of one event is folding that event.
pub proof fn lemma_fold_single(m: BucketMetadata, e: Event)
    ensures
        fold_events(m, seq![e]) == fold_event(m, e),
{
    assert(seq![e].drop_last() =~= Seq::<Event>::empty());
    assert(seq![e].last() == e);
    assert(fold_events(m, Seq::<Event>::empty()) == m);
}

impl Bucket {
    /// The same bucket with other metadata.
    pub open spec fn with_metadata(self, m: BucketMetadata) -> Bucket {
        Bucket { metadata: m, ..self }
    }

    /// A field-by-field copy; seeding events are copied one by one.
    pub fn copied(&self) -> (r: Bucket)
        ensures
            self.events is None ==> r == *self,
            r == (Bucket { events: r.events, ..*self }),
            r.events is Some <==> self.events is Some,
            r.events is Some ==> r.events->0@ == self.events->0@,
    {
        let events = match &self.events {
            Some(v) => Some(crate::event::copy_events(v.as_slice())),
            None => None,
        };
        Bucket {
            bid: self.bid,
            id: self.id.clone(),
            _type: self._type.clone(),
            client: self.client.clone(),
            hostname: self.hostname.clone(),
            created: self.created,
            data: self.data.clone(),
            metadata: self.metadata,
            events,
            last_updated: self.last_updated,
        }
    }
}

} // verus!
