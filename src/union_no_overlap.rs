use vstd::prelude::*;
use crate::event::{Event, copy_events};

verus! {

/// Every event of `s` is well formed.
pub open spec fn all_wf(s: Seq<Event>) -> bool {
    forall|i: int| 0 <= i < s.len() ==> #[trigger] s[i].wf()
}

/// Events appear in ascending order of their start.
pub open spec fn sorted_by_timestamp(s: Seq<Event>) -> bool {
    forall|i: int, j: int| 0 <= i < j < s.len() ==> s[i].timestamp <= s[j].timestamp
}

/// Whether an event of `s` at index `from` or later covers time point `t`.
pub open spec fn covered_from(s: Seq<Event>, from: int, t: int) -> bool {
    exists|k: int| from <= k < s.len() && #[trigger] s[k].covers(t)
}

/// Whether some event of `s` covers time point `t`.
pub open spec fn covered(s: Seq<Event>, t: int) -> bool {
    covered_from(s, 0, t)
}

/// The points covered by the emitted events and by what is left of both
/// inputs.
pub open spec fn sweep_covers(
    out: Seq<Event>,
    s1: Seq<Event>,
    i1: int,
    s2: Seq<Event>,
    i2: int,
    t: int,
) -> bool {
    covered(out, t) || covered_from(s1, i1, t) || covered_from(s2, i2, t)
}

/// `p` is a part of `e`: same id and payload, interval inside `e`'s.
pub open spec fn piece_of(p: Event, e: Event) -> bool {
    &&& p.id == e.id
    &&& p.data == e.data
    &&& e.timestamp <= p.timestamp
    &&& p.spec_end() <= e.spec_end()
}

/// Every emitted event is an event of `a` or a part of an event of `b`.
pub open spec fn from_inputs(out: Seq<Event>, a: Seq<Event>, b: Seq<Event>) -> bool {
    forall|k: int|
        0 <= k < out.len() ==> a.contains(#[trigger] out[k]) || exists|j: int|
            0 <= j < b.len() && piece_of(out[k], b[j])
}

/// `s` is `v` sorted by start, events with equal starts kept in their order
/// in `v`.
pub open spec fn is_stable_sort_of(s: Seq<Event>, v: Seq<Event>) -> bool {
    &&& sorted_by_timestamp(s)
    &&& s.len() == v.len()
    &&& exists|p: Seq<int>|
        {
            &&& p.len() == s.len()
            &&& forall|i: int| 0 <= i < p.len() ==> 0 <= #[trigger] p[i] < v.len() && s[i] == v[p[i]]
            &&& forall|i: int, j: int| 0 <= i < j < p.len() ==> p[i] != p[j]
            &&& forall|i: int, j: int|
                0 <= i < j < p.len() && s[i].timestamp == s[j].timestamp ==> p[i] < p[j]
        }
}

/// Whether the next step of the sweep splits the head of `b`.
pub open spec fn pending_split(a: Seq<Event>, b: Seq<Event>) -> int {
    if a.len() > 0 && b.len() > 0 && b[0].timestamp < a[0].timestamp {
        1
    } else {
        0
    }
}

/// The sweep over two series sorted by start. The heads are compared: with
/// a real gap between them the earlier one is emitted (the head of `a` on
/// equal starts). Otherwise `a` wins: when its head starts first it is
/// emitted and the head of `b` is cut to begin at its end, or dropped when
/// covered; when the head of `b` starts first, the part before the head of
/// `a` is emitted and the rest stays. When one series runs out the other
/// follows unchanged.
pub open spec fn sweep(a: Seq<Event>, b: Seq<Event>) -> Seq<Event>
    decreases 2 * (a.len() + b.len()) + pending_split(a, b),
{
    if a.len() == 0 {
        b
    } else if b.len() == 0 {
        a
    } else {
        let e1 = a[0];
        let e2 = b[0];
        if e1.spec_interval().spec_gap(e2.spec_interval()) is Some {
            if e1.timestamp <= e2.timestamp {
                seq![e1] + sweep(a.drop_first(), b)
            } else {
                seq![e2] + sweep(a, b.drop_first())
            }
        } else if e1.timestamp <= e2.timestamp {
            if e2.spec_end() > e1.spec_end() {
                seq![e1] + sweep(
                    a.drop_first(),
                    b.update(0, e2.spec_with_bounds(e1.spec_end(), e2.spec_end())),
                )
            } else {
                seq![e1] + sweep(a.drop_first(), b.drop_first())
            }
        } else if e1.timestamp >= e2.spec_end() {
            seq![e2] + sweep(a, b.drop_first())
        } else {
            seq![e2.spec_with_bounds(e2.timestamp as int, e1.timestamp as int)] + sweep(
                a,
                b.update(0, e2.spec_with_bounds(e1.timestamp as int, e2.spec_end())),
            )
        }
    }
}

/// Relies on std's `slice::sort_by_key`, keyed by each event's start: a
/// stable sort, so the result is a permutation of the input in ascending
/// order of start with equal starts in input order.
#[verifier::external_body]
fn sort_by_timestamp(events: Vec<Event>) -> (r: Vec<Event>)
    ensures
        r@.to_multiset() == events@.to_multiset(),
        is_stable_sort_of(r@, events@),
{
    let mut events = events;
    events.sort_by_key(|e| e.timestamp);
    events
}

proof fn lemma_permutation_covers(a: Seq<Event>, b: Seq<Event>)
    requires
        a.to_multiset() == b.to_multiset(),
    ensures
        forall|t: int| covered(a, t) == covered(b, t),
        all_wf(a) ==> all_wf(b),
{
    broadcast use vstd::seq_lib::group_to_multiset_ensures;

    assert forall|t: int| covered(a, t) implies covered(b, t) by {
        let k = choose|k: int| 0 <= k < a.len() && #[trigger] a[k].covers(t);
        assert(a.contains(a[k]));
        assert(a.to_multiset().count(a[k]) > 0);
        assert(b.to_multiset().count(a[k]) > 0);
        assert(b.contains(a[k]));
        let j = choose|j: int| 0 <= j < b.len() && b[j] == a[k];
        assert(b[j].covers(t));
    }
    assert forall|t: int| covered(b, t) implies covered(a, t) by {
        let k = choose|k: int| 0 <= k < b.len() && #[trigger] b[k].covers(t);
        assert(b.contains(b[k]));
        assert(b.to_multiset().count(b[k]) > 0);
        assert(a.to_multiset().count(b[k]) > 0);
        assert(a.contains(b[k]));
        let j = choose|j: int| 0 <= j < a.len() && a[j] == b[k];
        assert(a[j].covers(t));
    }
    if all_wf(a) {
        assert forall|i: int| 0 <= i < b.len() implies #[trigger] b[i].wf() by {
            assert(b.contains(b[i]));
            assert(b.to_multiset().count(b[i]) > 0);
            assert(a.to_multiset().count(b[i]) > 0);
            assert(a.contains(b[i]));
        }
    }
}

proof fn lemma_permutation_contains(a: Seq<Event>, b: Seq<Event>)
    requires
        a.to_multiset() == b.to_multiset(),
    ensures
        forall|x: Event| a.contains(x) == b.contains(x),
{
    broadcast use vstd::seq_lib::group_to_multiset_ensures;

    assert forall|x: Event| a.contains(x) == b.contains(x) by {
        assert(a.contains(x) == (a.to_multiset().count(x) > 0));
        assert(b.contains(x) == (b.to_multiset().count(x) > 0));
    }
}

proof fn lemma_push_contains(s: Seq<Event>, x: Event)
    ensures
        s.push(x).contains(x),
        forall|y: Event| s.contains(y) ==> s.push(x).contains(y),
{
    assert(s.push(x)[s.len() as int] == x);
    assert forall|y: Event| s.contains(y) implies s.push(x).contains(y) by {
        let i = choose|i: int| 0 <= i < s.len() && s[i] == y;
        assert(s.push(x)[i] == y);
    }
}

proof fn lemma_covered_step(s: Seq<Event>, i: int, t: int)
    requires
        0 <= i < s.len(),
    ensures
        covered_from(s, i, t) == (s[i].covers(t) || covered_from(s, i + 1, t)),
{
    if covered_from(s, i, t) && !s[i].covers(t) {
        let k = choose|k: int| i <= k < s.len() && #[trigger] s[k].covers(t);
        assert(i + 1 <= k);
    }
}

proof fn lemma_covered_update(s: Seq<Event>, i: int, x: Event, t: int)
    requires
        0 <= i < s.len(),
    ensures
        covered_from(s.update(i, x), i + 1, t) == covered_from(s, i + 1, t),
{
    let u = s.update(i, x);
    if covered_from(u, i + 1, t) {
        let k = choose|k: int| i + 1 <= k < u.len() && #[trigger] u[k].covers(t);
        assert(s[k].covers(t));
    }
    if covered_from(s, i + 1, t) {
        let k = choose|k: int| i + 1 <= k < s.len() && #[trigger] s[k].covers(t);
        assert(u[k].covers(t));
    }
}

proof fn lemma_covered_push(s: Seq<Event>, e: Event, t: int)
    ensures
        covered(s.push(e), t) == (covered(s, t) || e.covers(t)),
{
    let p = s.push(e);
    if covered(p, t) && !e.covers(t) {
        let k = choose|k: int| 0 <= k < p.len() && #[trigger] p[k].covers(t);
        assert(k < s.len());
        assert(s[k].covers(t));
    }
    if covered(s, t) {
        let k = choose|k: int| 0 <= k < s.len() && #[trigger] s[k].covers(t);
        assert(p[k].covers(t));
    }
    if e.covers(t) {
        assert(p[s.len() as int].covers(t));
    }
}

proof fn lemma_covered_end(s: Seq<Event>, t: int)
    ensures
        !covered_from(s, s.len() as int, t),
{
}

/// Unions two event sequences into one, sorted by start, in which the events
/// of `events1` win wherever the two overlap: an event of `events2` is cut
/// down to what no event of `events1` covers, or dropped.
///
/// The result covers exactly the time points that the inputs cover.
pub fn union_no_overlap(events1: &[Event], events2: &[Event]) -> (r: Vec<Event>)
    requires
        all_wf(events1@),
        all_wf(events2@),
    ensures
        all_wf(r@),
        forall|t: int| covered(r@, t) <==> (covered(events1@, t) || covered(events2@, t)),
        forall|i: int| 0 <= i < events1@.len() ==> r@.contains(#[trigger] events1@[i]),
        from_inputs(r@, events1@, events2@),
        exists|sorted1: Seq<Event>, sorted2: Seq<Event>|
            is_stable_sort_of(sorted1, events1@) && is_stable_sort_of(sorted2, events2@) && r@
                == sweep(sorted1, sorted2),
{
    let mut events_union: Vec<Event> = Vec::new();
    let sorted_events1 = sort_by_timestamp(copy_events(events1));
    let mut sorted_events2 = sort_by_timestamp(copy_events(events2));
    proof {
        lemma_permutation_covers(events1@, sorted_events1@);
        lemma_permutation_covers(events2@, sorted_events2@);
        lemma_permutation_contains(events1@, sorted_events1@);
        lemma_permutation_contains(events2@, sorted_events2@);
    }
    let ghost a = sorted_events1@;
    let ghost b = sorted_events2@;
    let mut idx1: usize = 0;
    let mut idx2: usize = 0;
    assert(a.skip(0) =~= a);
    assert(b.skip(0) =~= b);
    assert(events_union@ + sweep(a, b) =~= sweep(a, b));
    assert forall|t: int| #[trigger]
        sweep_covers(events_union@, a, 0, b, 0, t) == (covered(a, t) || covered(b, t)) by {}

    while idx1 < sorted_events1.len() && idx2 < sorted_events2.len()
        invariant
            sorted_events1@ == a,
            idx1 <= sorted_events1@.len(),
            idx2 <= sorted_events2@.len(),
            all_wf(events_union@),
            all_wf(a),
            all_wf(sorted_events2@),
            forall|t: int| #[trigger]
                sweep_covers(events_union@, a, idx1 as int, sorted_events2@, idx2 as int, t)
                    == (covered(a, t) || covered(b, t)),
            sorted_events2@.len() == b.len(),
            forall|j: int| 0 <= j < b.len() ==> piece_of(#[trigger] sorted_events2@[j], b[j]),
            from_inputs(events_union@, a, b),
            forall|i: int| 0 <= i < idx1 ==> events_union@.contains(#[trigger] a[i]),
            events_union@ + sweep(a.skip(idx1 as int), sorted_events2@.skip(idx2 as int)) == sweep(
                a,
                b,
            ),
        decreases
            2 * ((sorted_events1@.len() - idx1) + (sorted_events2@.len() - idx2)) + (if idx1
                < sorted_events1@.len() && idx2 < sorted_events2@.len()
                && sorted_events2@[idx2 as int].timestamp < a[idx1 as int].timestamp {
                1int
            } else {
                0int
            }),
    {
        let ghost old_out = events_union@;
        let ghost old_s2 = sorted_events2@;
        let ghost old_i1 = idx1 as int;
        let ghost old_i2 = idx2 as int;
        let e1 = sorted_events1[idx1].copied();
        let e2 = sorted_events2[idx2].copied();
        assert(e1.wf());
        assert(e2.wf());
        let i1 = e1.interval();
        let i2 = e2.interval();
        let ghost sa = a.skip(old_i1);
        let ghost sb = old_s2.skip(old_i2);
        assert(sa[0] == e1 && sb[0] == e2);
        assert(sa.drop_first() =~= a.skip(old_i1 + 1));
        assert(sb.drop_first() =~= old_s2.skip(old_i2 + 1));
        match i1.gap(&i2) {
            Some(_) => {
                if i1.start() <= i2.start() {
                    events_union.push(e1);
                    idx1 = idx1 + 1;
                    assert(sweep(sa, sb) == seq![e1] + sweep(sa.drop_first(), sb));
                } else {
                    events_union.push(e2);
                    idx2 = idx2 + 1;
                    assert(sweep(sa, sb) == seq![e2] + sweep(sa, sb.drop_first()));
                }
            },
            None => {
                if i1.start() <= i2.start() {
                    events_union.push(e1);
                    idx1 = idx1 + 1;
                    if i2.end() > i1.end() {
                        let rest = e2.with_bounds(i1.end(), i2.end());
                        sorted_events2.set(idx2, rest);
                        assert(sb.update(0, rest) =~= sorted_events2@.skip(idx2 as int));
                        assert(sweep(sa, sb) == seq![e1] + sweep(sa.drop_first(), sb.update(0, rest)));
                    } else {
                        idx2 = idx2 + 1;
                        assert(sweep(sa, sb) == seq![e1] + sweep(sa.drop_first(), sb.drop_first()));
                    }
                } else {
                    if i1.start() >= i2.end() {
                        events_union.push(e2);
                        idx2 = idx2 + 1;
                        assert(sweep(sa, sb) == seq![e2] + sweep(sa, sb.drop_first()));
                    } else {
                        let head = e2.with_bounds(i2.start(), i1.start());
                        let tail = e2.with_bounds(i1.start(), i2.end());
                        events_union.push(head);
                        sorted_events2.set(idx2, tail);
                        assert(sb.update(0, tail) =~= sorted_events2@.skip(idx2 as int));
                        assert(sweep(sa, sb) == seq![head] + sweep(sa, sb.update(0, tail)));
                    }
                }
            },
        }
        assert(events_union@ + sweep(a.skip(idx1 as int), sorted_events2@.skip(idx2 as int))
            =~= old_out + sweep(sa, sb));
        proof {
            if events_union@.len() == old_out.len() + 1 {
                let x = events_union@.last();
                assert(events_union@ == old_out.push(x));
                lemma_push_contains(old_out, x);
                assert(a.contains(x) || piece_of(x, b[old_i2])) by {
                    if x == a[old_i1] {
                        assert(a.contains(x));
                    } else {
                        assert(piece_of(old_s2[old_i2], b[old_i2]));
                    }
                }
                assert forall|k: int| 0 <= k < events_union@.len() implies a.contains(
                    #[trigger] events_union@[k],
                ) || exists|j: int| 0 <= j < b.len() && piece_of(events_union@[k], b[j]) by {
                    if k < old_out.len() {
                        assert(events_union@[k] == old_out[k]);
                    } else if !a.contains(events_union@[k]) {
                        assert(piece_of(events_union@[k], b[old_i2]));
                    }
                }
            }
            assert(piece_of(old_s2[old_i2], b[old_i2]));
        }
        assert forall|t: int| #[trigger]
            sweep_covers(events_union@, a, idx1 as int, sorted_events2@, idx2 as int, t)
                == sweep_covers(old_out, a, old_i1, old_s2, old_i2, t) by {
            lemma_covered_step(a, old_i1, t);
            lemma_covered_step(old_s2, old_i2, t);
            lemma_covered_step(sorted_events2@, old_i2, t);
            lemma_covered_update(old_s2, old_i2, sorted_events2@[old_i2], t);
            lemma_covered_push(old_out, events_union@.last(), t);
            if events_union@.len() == old_out.len() + 1 {
                assert(events_union@ == old_out.push(events_union@.last()));
            }
            if sorted_events2@ != old_s2 {
                assert(sorted_events2@ == old_s2.update(old_i2, sorted_events2@[old_i2]));
            }
        }
    }

    proof {
        let ra = a.skip(idx1 as int);
        let rb = sorted_events2@.skip(idx2 as int);
        assert(ra.len() == 0 || rb.len() == 0);
        assert(sweep(ra, rb) =~= ra + rb);
        assert(events_union@ + ra + rb =~= events_union@ + sweep(ra, rb));
    }
    while idx1 < sorted_events1.len()
        invariant
            sorted_events1@ == a,
            idx1 <= sorted_events1@.len(),
            idx2 <= sorted_events2@.len(),
            all_wf(events_union@),
            all_wf(a),
            all_wf(sorted_events2@),
            forall|t: int| #[trigger]
                sweep_covers(events_union@, a, idx1 as int, sorted_events2@, idx2 as int, t)
                    == (covered(a, t) || covered(b, t)),
            sorted_events2@.len() == b.len(),
            forall|j: int| 0 <= j < b.len() ==> piece_of(#[trigger] sorted_events2@[j], b[j]),
            from_inputs(events_union@, a, b),
            forall|i: int| 0 <= i < idx1 ==> events_union@.contains(#[trigger] a[i]),
            events_union@ + a.skip(idx1 as int) + sorted_events2@.skip(idx2 as int) == sweep(a, b),
            idx1 == sorted_events1@.len() || idx2 == sorted_events2@.len(),
        decreases sorted_events1@.len() - idx1,
    {
        let ghost old_out = events_union@;
        let ghost old_i1 = idx1 as int;
        events_union.push(sorted_events1[idx1].copied());
        proof {
            assert(a.skip(old_i1) =~= seq![a[old_i1]] + a.skip(old_i1 + 1));
            assert(events_union@ + a.skip(old_i1 + 1) + sorted_events2@.skip(idx2 as int) =~= old_out
                + a.skip(old_i1) + sorted_events2@.skip(idx2 as int));
            lemma_push_contains(old_out, a[old_i1]);
            assert forall|k: int| 0 <= k < events_union@.len() implies a.contains(
                #[trigger] events_union@[k],
            ) || exists|j: int| 0 <= j < b.len() && piece_of(events_union@[k], b[j]) by {
                if k < old_out.len() {
                    assert(events_union@[k] == old_out[k]);
                } else {
                    assert(events_union@[k] == a[old_i1]);
                }
            }
        }
        idx1 = idx1 + 1;
        assert forall|t: int| #[trigger]
            sweep_covers(events_union@, a, idx1 as int, sorted_events2@, idx2 as int, t)
                == sweep_covers(old_out, a, old_i1, sorted_events2@, idx2 as int, t) by {
            lemma_covered_step(a, old_i1, t);
            lemma_covered_push(old_out, a[old_i1], t);
        }
    }

    while idx2 < sorted_events2.len()
        invariant
            sorted_events1@ == a,
            idx1 == sorted_events1@.len(),
            idx2 <= sorted_events2@.len(),
            all_wf(events_union@),
            all_wf(sorted_events2@),
            forall|t: int| #[trigger]
                sweep_covers(events_union@, a, idx1 as int, sorted_events2@, idx2 as int, t)
                    == (covered(a, t) || covered(b, t)),
            sorted_events2@.len() == b.len(),
            forall|j: int| 0 <= j < b.len() ==> piece_of(#[trigger] sorted_events2@[j], b[j]),
            from_inputs(events_union@, a, b),
            forall|i: int| 0 <= i < idx1 ==> events_union@.contains(#[trigger] a[i]),
            events_union@ + a.skip(idx1 as int) + sorted_events2@.skip(idx2 as int) == sweep(a, b),
        decreases sorted_events2@.len() - idx2,
    {
        let ghost old_out = events_union@;
        let ghost old_i2 = idx2 as int;
        events_union.push(sorted_events2[idx2].copied());
        proof {
            assert(sorted_events2@.skip(old_i2) =~= seq![sorted_events2@[old_i2]]
                + sorted_events2@.skip(old_i2 + 1));
            assert(events_union@ + a.skip(idx1 as int) + sorted_events2@.skip(old_i2 + 1) =~= old_out
                + a.skip(idx1 as int) + sorted_events2@.skip(old_i2));
            lemma_push_contains(old_out, sorted_events2@[old_i2]);
            assert(piece_of(sorted_events2@[old_i2], b[old_i2]));
            assert forall|k: int| 0 <= k < events_union@.len() implies a.contains(
                #[trigger] events_union@[k],
            ) || exists|j: int| 0 <= j < b.len() && piece_of(events_union@[k], b[j]) by {
                if k < old_out.len() {
                    assert(events_union@[k] == old_out[k]);
                } else {
                    assert(piece_of(events_union@[k], b[old_i2]));
                }
            }
        }
        idx2 = idx2 + 1;
        assert forall|t: int| #[trigger]
            sweep_covers(events_union@, a, idx1 as int, sorted_events2@, idx2 as int, t)
                == sweep_covers(old_out, a, idx1 as int, sorted_events2@, old_i2, t) by {
            lemma_covered_step(sorted_events2@, old_i2, t);
            lemma_covered_push(old_out, sorted_events2@[old_i2], t);
        }
    }

    assert forall|t: int| covered(events_union@, t) <==> (covered(events1@, t) || covered(
        events2@,
        t,
    )) by {
        assert(sweep_covers(events_union@, a, idx1 as int, sorted_events2@, idx2 as int, t) == (
        covered(a, t) || covered(b, t)));
        lemma_covered_end(a, t);
        lemma_covered_end(sorted_events2@, t);
    }
    assert(a.skip(idx1 as int) =~= Seq::<Event>::empty());
    assert(sorted_events2@.skip(idx2 as int) =~= Seq::<Event>::empty());
    assert(events_union@ =~= sweep(a, b));
    assert forall|i: int| 0 <= i < events1@.len() implies events_union@.contains(
        #[trigger] events1@[i],
    ) by {
        assert(events1@.contains(events1@[i]));
        assert(a.contains(events1@[i]));
        let i2 = choose|i2: int| 0 <= i2 < a.len() && a[i2] == events1@[i];
        assert(events_union@.contains(a[i2]));
    }
    assert forall|k: int| 0 <= k < events_union@.len() implies events1@.contains(
        #[trigger] events_union@[k],
    ) || exists|j: int| 0 <= j < events2@.len() && piece_of(events_union@[k], events2@[j]) by {
        if !a.contains(events_union@[k]) {
            let j = choose|j: int| 0 <= j < b.len() && piece_of(events_union@[k], b[j]);
            assert(b.contains(b[j]));
            assert(events2@.contains(b[j]));
            let j2 = choose|j2: int| 0 <= j2 < events2@.len() && events2@[j2] == b[j];
            assert(piece_of(events_union@[k], events2@[j2]));
        }
    }
    events_union
}

} // verus!
