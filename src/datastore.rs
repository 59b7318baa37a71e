use vstd::prelude::*;
use crate::bucket::{Bucket, BucketMetadata, empty_metadata, fold_event, fold_events};
use crate::event::Event;
use crate::heartbeat::{merge_outcome, merged, merges};

verus! {

/// What a durable-storage operation reports when it fails.
#[derive(Clone, Debug, PartialEq, Eq)]
pub enum StoreError {
    /// A uniqueness or other constraint of the store was violated.
    ConstraintViolation(String),
    /// A statement that should return nothing returned rows.
    ExecuteReturnedResults,
    /// Any other failure.
    Failure(String),
}

/// The errors of the datastore.
#[derive(Clone, Debug, PartialEq, Eq)]
pub enum DatastoreError {
    NoSuchBucket,
    BucketAlreadyExists,
    InternalError(String),
}

/// An event row as the store holds it: times in nanoseconds, payload as text.
#[derive(Clone, Debug, PartialEq, Eq)]
pub struct EventRow {
    pub id: i64,
    pub starttime: i64,
    pub endtime: i64,
    pub data: String,
}

/// A bucket row joined with the least start and the greatest end of its
/// events.
#[derive(Clone, Debug, PartialEq, Eq)]
pub struct StoredBucketRow {
    pub bid: i64,
    pub id: String,
    pub _type: String,
    pub client: String,
    pub hostname: String,
    pub created: Option<i64>,
    pub min_start: Option<i64>,
    pub max_end: Option<i64>,
    pub data: String,
}

/// One schema statement the migrator can ask the store to run.
#[derive(Clone, Copy, Debug, PartialEq, Eq, Structural)]
pub enum SchemaStatement {
    CreateBucketsTable,
    CreateBucketsIndex,
    CreateEventsTable,
    CreateEventsBucketrowIndex,
    CreateEventsStarttimeIndex,
    CreateEventsEndtimeIndex,
    AddBucketDataColumn,
    RenameBucketDataColumn,
    AddBucketDataColumnNotNull,
}

/// The durable relational store behind a datastore.
///
/// Nothing is assumed of what an implementation returns: every operation of
/// the datastore is correct for whatever comes back.
pub trait EventStore {
    /// The stored schema version.
    fn user_version(&self) -> Result<i64, StoreError>;

    /// Sets the stored schema version.
    fn set_user_version(&mut self, version: i64) -> Result<(), StoreError>;

    /// Runs one schema statement.
    fn execute_schema(&mut self, statement: SchemaStatement) -> Result<(), StoreError>;

    /// Every bucket row with the time range of its events.
    fn stored_buckets(&self) -> Result<Vec<StoredBucketRow>, StoreError>;

    /// Inserts a bucket row and returns its row identifier.
    fn insert_bucket(&mut self, bucket: &Bucket) -> Result<i64, StoreError>;

    /// Deletes the events of the bucket with row identifier `bid`.
    fn delete_bucket_events(&mut self, bid: i64) -> Result<(), StoreError>;

    /// Deletes the bucket row `bid`.
    fn delete_bucket_row(&mut self, bid: i64) -> Result<(), StoreError>;

    /// Inserts, or replaces when `id` names a stored row, an event of bucket
    /// `bid`, and returns the event's row identifier.
    fn insert_event(
        &mut self,
        bid: i64,
        id: Option<i64>,
        starttime: i64,
        endtime: i64,
        data: &String,
    ) -> Result<i64, StoreError>;

    /// Overwrites the event of bucket `bid` with the greatest end.
    fn replace_last_event(
        &mut self,
        bid: i64,
        starttime: i64,
        endtime: i64,
        data: &String,
    ) -> Result<(), StoreError>;

    /// The events of bucket `bid` with `endtime >= starttime_filter` and
    /// `starttime <= endtime_filter`, latest start first, at most `limit`.
    fn query_events(
        &self,
        bid: i64,
        starttime_filter: i64,
        endtime_filter: i64,
        limit: Option<u64>,
    ) -> Result<Vec<EventRow>, StoreError>;

    /// The number of events of bucket `bid` with
    /// `starttime >= starttime_filter` or `endtime <= endtime_filter`.
    fn count_events(
        &self,
        bid: i64,
        starttime_filter: i64,
        endtime_filter: i64,
    ) -> Result<i64, StoreError>;

    /// Imports data of an earlier on-disk format into `datastore`.
    fn legacy_import(&mut self, datastore: &mut DatastoreInstance) -> Result<(), StoreError>;
}

/// Every cached bucket is filed under its own id, has a row identifier and
/// carries no seeding events.
pub open spec fn cache_ok(m: Map<Seq<char>, Bucket>) -> bool {
    forall|k: Seq<char>|
        #[trigger] m.contains_key(k) ==> m[k].id@ == k && m[k].bid is Some && m[k].events is None
}

pub open spec fn is_no_such_bucket<T>(r: Result<T, DatastoreError>) -> bool {
    r matches Err(DatastoreError::NoSuchBucket)
}

/// The bucket cache of a datastore, kept in step with its durable store.
pub struct DatastoreInstance {
    buckets_cache: Vec<Bucket>,
    cache_view: Ghost<Map<Seq<char>, Bucket>>,
    first_init: bool,
}

impl View for DatastoreInstance {
    type V = Map<Seq<char>, Bucket>;

    closed spec fn view(&self) -> Map<Seq<char>, Bucket> {
        self.cache_view@
    }
}

/// Relies on std's `SystemTime::now`, chrono's `From<SystemTime> for
/// DateTime<Utc>` (which also takes a clock before the epoch) and
/// `DateTime::timestamp_nanos_opt`: the current time in nanoseconds, `None`
/// where it does not fit an `i64`. Nothing is promised of the value.
#[verifier::external_body]
fn now_nanos() -> (r: Option<i64>) {
    chrono::DateTime::<chrono::Utc>::from(std::time::SystemTime::now()).timestamp_nanos_opt()
}

/// The start of a query window: `0` when unset.
pub open spec fn filter_start(o: Option<i64>) -> i64 {
    match o {
        Some(t) => t,
        None => 0,
    }
}

/// The end of a query window: the greatest instant when unset.
pub open spec fn filter_end(o: Option<i64>) -> i64 {
    match o {
        Some(t) => t,
        None => i64::MAX,
    }
}

/// Whether `s` is the text of a JSON object.
pub uninterp spec fn is_json_object_text(s: Seq<char>) -> bool;

/// Relies on serde_json's `from_str`: whether the text parses as a JSON
/// object (a map from strings to values).
#[verifier::external_body]
fn parses_as_json_object(s: &str) -> (r: bool)
    ensures
        r == is_json_object_text(s@),
{
    serde_json::from_str::<serde_json::Map<String, serde_json::Value>>(s).is_ok()
}

/// A stored row cut down to the window `[lo, hi]`, as an event; `None` for a
/// row that is out of order, misses the window, or spans more than a
/// duration can hold once clipped.
pub open spec fn row_clip(row: EventRow, lo: i64, hi: i64) -> Option<Event> {
    let start = if row.starttime < lo { lo } else { row.starttime };
    let end = if row.endtime > hi { hi } else { row.endtime };
    if row.starttime <= row.endtime && lo <= row.endtime && row.starttime <= hi && start <= end
        && end - start <= i64::MAX {
        Some(Event { id: Some(row.id), timestamp: start, duration: (end - start) as i64, data: row.data })
    } else {
        None
    }
}

/// The events a query returns for `rows`: each row with a JSON object
/// payload, clipped to the window, in row order.
pub open spec fn clipped_rows(rows: Seq<EventRow>, lo: i64, hi: i64) -> Seq<Event>
    decreases rows.len(),
{
    if rows.len() == 0 {
        Seq::empty()
    } else {
        let prev = clipped_rows(rows.drop_last(), lo, hi);
        let last = rows.last();
        if is_json_object_text(last.data@) && row_clip(last, lo, hi) is Some {
            prev.push(row_clip(last, lo, hi)->0)
        } else {
            prev
        }
    }
}

/// The first `limit` events of `s`, or all of them when unbounded.
pub open spec fn limited(s: Seq<Event>, limit: Option<u64>) -> Seq<Event> {
    match limit {
        Some(l) => if l < s.len() {
            s.take(l as int)
        } else {
            s
        },
        None => s,
    }
}

/// Every clipped event is well formed and lies inside the window.
pub proof fn lemma_clipped_rows_in_window(rows: Seq<EventRow>, lo: i64, hi: i64)
    ensures
        forall|i: int|
            0 <= i < clipped_rows(rows, lo, hi).len() ==> (#[trigger] clipped_rows(rows, lo, hi)[i]).wf()
                && lo <= clipped_rows(rows, lo, hi)[i].timestamp && clipped_rows(rows, lo, hi)[i].spec_end()
                <= hi,
    decreases rows.len(),
{
    if rows.len() > 0 {
        lemma_clipped_rows_in_window(rows.drop_last(), lo, hi);
        let prev = clipped_rows(rows.drop_last(), lo, hi);
        let c = clipped_rows(rows, lo, hi);
        assert forall|i: int| 0 <= i < c.len() implies (#[trigger] c[i]).wf() && lo <= c[i].timestamp
            && c[i].spec_end() <= hi by {
            if i < prev.len() {
                assert(c[i] == prev[i]);
            }
        }
    }
}

/// Cuts one stored row down to the window `[lo, hi]`.
pub fn clip_row(row: &EventRow, lo: i64, hi: i64) -> (r: Option<Event>)
    ensures
        r == row_clip(*row, lo, hi),
{
    let start = if row.starttime < lo { lo } else { row.starttime };
    let end = if row.endtime > hi { hi } else { row.endtime };
    if row.starttime <= row.endtime && lo <= row.endtime && row.starttime <= hi && start <= end
        && end as i128 - start as i128 <= i64::MAX as i128 {
        Some(Event { id: Some(row.id), timestamp: start, duration: end - start, data: row.data.clone() })
    } else {
        None
    }
}

/// The events for stored `rows` queried with the window `[lo, hi]`.
pub fn clip_events(rows: &Vec<EventRow>, lo: i64, hi: i64) -> (r: Vec<Event>)
    ensures
        r@ == clipped_rows(rows@, lo, hi),
{
    let mut list: Vec<Event> = Vec::new();
    let mut i: usize = 0;
    while i < rows.len()
        invariant
            i <= rows@.len(),
            list@ == clipped_rows(rows@.take(i as int), lo, hi),
        decreases rows@.len() - i,
    {
        let row = &rows[i];
        assert(rows@.take(i as int + 1).drop_last() =~= rows@.take(i as int));
        assert(rows@.take(i as int + 1).last() == rows@[i as int]);
        if parses_as_json_object(row.data.as_str()) {
            match clip_row(row, lo, hi) {
                Some(e) => list.push(e),
                None => {},
            }
        }
        i = i + 1;
    }
    assert(rows@.take(rows@.len() as int) =~= rows@);
    list
}

/// The cached form of a stored bucket row.
pub open spec fn bucket_of_row(row: StoredBucketRow) -> Bucket {
    Bucket {
        bid: Some(row.bid),
        id: row.id,
        _type: row._type,
        client: row.client,
        hostname: row.hostname,
        created: row.created,
        data: row.data,
        metadata: BucketMetadata { start: row.min_start, end: row.max_end },
        events: None,
        last_updated: None,
    }
}

/// The cache `m` after loading `rows` into it in order.
pub open spec fn loaded_buckets(m: Map<Seq<char>, Bucket>, rows: Seq<StoredBucketRow>) -> Map<
    Seq<char>,
    Bucket,
>
    decreases rows.len(),
{
    if rows.len() == 0 {
        m
    } else {
        loaded_buckets(m, rows.drop_last()).insert(rows.last().id@, bucket_of_row(rows.last()))
    }
}

/// `e` with the row identifier the store assigned it.
pub fn with_row_id(e: &Event, rowid: i64) -> (r: Event)
    ensures
        r == (Event { id: Some(rowid), ..*e }),
{
    Event { id: Some(rowid), timestamp: e.timestamp, duration: e.duration, data: e.data.clone() }
}

pub(crate) fn internal_error(msg: &str) -> (r: DatastoreError)
    ensures
        r is InternalError,
{
    DatastoreError::InternalError(msg.to_owned())
}

pub(crate) fn store_error_detail(e: StoreError) -> (r: DatastoreError)
    ensures
        r is InternalError,
{
    match e {
        StoreError::ConstraintViolation(s) => DatastoreError::InternalError(s),
        StoreError::ExecuteReturnedResults => internal_error("statement returned rows"),
        StoreError::Failure(s) => DatastoreError::InternalError(s),
    }
}

impl DatastoreInstance {
    /// The vector and the map describe the same buckets, one per id.
    pub closed spec fn wf(&self) -> bool {
        &&& cache_ok(self@)
        &&& forall|i: int|
            0 <= i < self.buckets_cache@.len() ==> self@.contains_key(
                #[trigger] self.buckets_cache@[i].id@,
            ) && self@[self.buckets_cache@[i].id@] == self.buckets_cache@[i]
        &&& forall|k: Seq<char>|
            #[trigger] self@.contains_key(k) ==> exists|i: int|
                0 <= i < self.buckets_cache@.len() && self.buckets_cache@[i].id@ == k
        &&& forall|i: int, j: int|
            0 <= i < j < self.buckets_cache@.len() ==> self.buckets_cache@[i].id@
                != self.buckets_cache@[j].id@
    }

    /// Whether the next startup step is the one-time import of legacy data.
    pub closed spec fn pending_import(&self) -> bool {
        self.first_init
    }

    pub fn empty(first_init: bool) -> (r: DatastoreInstance)
        ensures
            r.wf(),
            r@ == Map::<Seq<char>, Bucket>::empty(),
            r.pending_import() == first_init,
    {
        DatastoreInstance { buckets_cache: Vec::new(), cache_view: Ghost(Map::empty()), first_init }
    }

    fn find(&self, bucket_id: &str) -> (r: Option<usize>)
        requires
            self.wf(),
        ensures
            r is None <==> !self@.contains_key(bucket_id@),
            r is Some ==> r->0 < self.buckets_cache@.len() && self.buckets_cache@[r->0 as int].id@
                == bucket_id@,
    {
        let key = bucket_id.to_owned();
        let mut i: usize = 0;
        while i < self.buckets_cache.len()
            invariant
                self.wf(),
                key@ == bucket_id@,
                i <= self.buckets_cache@.len(),
                forall|j: int| 0 <= j < i ==> self.buckets_cache@[j].id@ != key@,
            decreases self.buckets_cache@.len() - i,
        {
            if self.buckets_cache[i].id == key {
                return Some(i);
            }
            i = i + 1;
        }
        proof {
            if self@.contains_key(key@) {
                let k = choose|k: int|
                    0 <= k < self.buckets_cache@.len() && self.buckets_cache@[k].id@ == key@;
                assert(self.buckets_cache@[k].id@ != key@);
            }
        }
        None
    }

    /// Files `bucket` under its id, in place of any bucket with that id.
    fn put(&mut self, bucket: Bucket)
        requires
            old(self).wf(),
            bucket.bid is Some,
            bucket.events is None,
        ensures
            final(self).wf(),
            final(self)@ == old(self)@.insert(bucket.id@, bucket),
            final(self).pending_import() == old(self).pending_import(),
    {
        let ghost key = bucket.id@;
        let ghost new_view = self@.insert(key, bucket);
        let ghost old_view = self@;
        let ghost old_v = self.buckets_cache@;
        match self.find(bucket.id.as_str()) {
            Some(i) => {
                self.buckets_cache.set(i, bucket);
                self.cache_view = Ghost(new_view);
                assert forall|j: int| 0 <= j < self.buckets_cache@.len() implies self@.contains_key(
                    #[trigger] self.buckets_cache@[j].id@,
                ) && self@[self.buckets_cache@[j].id@] == self.buckets_cache@[j] by {}
                assert forall|k: Seq<char>| #[trigger] self@.contains_key(k) implies exists|j: int|
                    0 <= j < self.buckets_cache@.len() && self.buckets_cache@[j].id@ == k by {
                    if k == key {
                        assert(self.buckets_cache@[i as int].id@ == k);
                    } else {
                        assert(old_view.contains_key(k));
                        let j0 = choose|j: int| 0 <= j < old_v.len() && old_v[j].id@ == k;
                        assert(self.buckets_cache@[j0].id@ == k);
                    }
                }
            },
            None => {
                self.buckets_cache.push(bucket);
                self.cache_view = Ghost(new_view);
                let ghost n = self.buckets_cache@.len() - 1;
                assert forall|k: Seq<char>| #[trigger] self@.contains_key(k) implies exists|j: int|
                    0 <= j < self.buckets_cache@.len() && self.buckets_cache@[j].id@ == k by {
                    if k == key {
                        assert(self.buckets_cache@[n].id@ == k);
                    } else {
                        assert(old_view.contains_key(k));
                        let j0 = choose|j: int| 0 <= j < old_v.len() && old_v[j].id@ == k;
                        assert(self.buckets_cache@[j0].id@ == k);
                    }
                }
                assert forall|j: int| 0 <= j < self.buckets_cache@.len() implies self@.contains_key(
                    #[trigger] self.buckets_cache@[j].id@,
                ) && self@[self.buckets_cache@[j].id@] == self.buckets_cache@[j] by {}
            },
        }
    }

    /// Drops the bucket with id `bucket_id` from the cache.
    fn remove(&mut self, bucket_id: &str)
        requires
            old(self).wf(),
        ensures
            final(self).wf(),
            final(self)@ == old(self)@.remove(bucket_id@),
            final(self).pending_import() == old(self).pending_import(),
    {
        let ghost new_view = self@.remove(bucket_id@);
        match self.find(bucket_id) {
            Some(i) => {
                let ghost old_v = self.buckets_cache@;
                self.buckets_cache.remove(i);
                self.cache_view = Ghost(new_view);
                assert forall|j: int| 0 <= j < self.buckets_cache@.len() implies self@.contains_key(
                    #[trigger] self.buckets_cache@[j].id@,
                ) && self@[self.buckets_cache@[j].id@] == self.buckets_cache@[j] by {
                    if j < i {
                        assert(self.buckets_cache@[j] == old_v[j]);
                    } else {
                        assert(self.buckets_cache@[j] == old_v[j + 1]);
                    }
                }
                assert forall|k: Seq<char>| #[trigger] self@.contains_key(k) implies exists|j: int|
                    0 <= j < self.buckets_cache@.len() && self.buckets_cache@[j].id@ == k by {
                    let j0 = choose|j: int| 0 <= j < old_v.len() && old_v[j].id@ == k;
                    if j0 < i {
                        assert(self.buckets_cache@[j0].id@ == k);
                    } else {
                        assert(self.buckets_cache@[j0 - 1].id@ == k);
                    }
                }
                assert forall|a: int, b: int|
                    0 <= a < b < self.buckets_cache@.len() implies self.buckets_cache@[a].id@
                    != self.buckets_cache@[b].id@ by {
                    let oa = if a < i { a } else { a + 1 };
                    let ob = if b < i { b } else { b + 1 };
                    assert(self.buckets_cache@[a] == old_v[oa]);
                    assert(self.buckets_cache@[b] == old_v[ob]);
                }
            },
            None => {
                assert(self@ =~= new_view);
            },
        }
    }

    /// A copy of the cached bucket with id `bucket_id`.
    pub fn get_bucket(&self, bucket_id: &str) -> (r: Result<Bucket, DatastoreError>)
        requires
            self.wf(),
        ensures
            self@.contains_key(bucket_id@) ==> r == Ok::<Bucket, DatastoreError>(
                self@[bucket_id@],
            ),
            !self@.contains_key(bucket_id@) ==> is_no_such_bucket(r),
    {
        match self.find(bucket_id) {
            Some(i) => Ok(self.buckets_cache[i].copied()),
            None => Err(DatastoreError::NoSuchBucket),
        }
    }

    /// Copies of all cached buckets, one per id.
    pub fn get_buckets(&self) -> (r: Vec<Bucket>)
        requires
            self.wf(),
        ensures
            r@.len() == self@.dom().len(),
            forall|i: int| 0 <= i < r@.len() ==> self@.contains_key(#[trigger] r@[i].id@) && self@[r@[i].id@] == r@[i],
            forall|k: Seq<char>| #[trigger] self@.contains_key(k) ==> exists|i: int| 0 <= i < r@.len() && r@[i].id@ == k,
            forall|i: int, j: int| 0 <= i < j < r@.len() ==> r@[i].id@ != r@[j].id@,
    {
        let mut out: Vec<Bucket> = Vec::new();
        let mut i: usize = 0;
        while i < self.buckets_cache.len()
            invariant
                self.wf(),
                i <= self.buckets_cache@.len(),
                out@ == self.buckets_cache@.take(i as int),
            decreases self.buckets_cache@.len() - i,
        {
            let b = self.buckets_cache[i].copied();
            assert(self@.contains_key(self.buckets_cache@[i as int].id@));
            assert(b == self.buckets_cache@[i as int]);
            out.push(b);
            i = i + 1;
            assert(out@ =~= self.buckets_cache@.take(i as int));
        }
        assert(out@ =~= self.buckets_cache@);
        proof {
            self.lemma_len();
        }
        out
    }

    proof fn lemma_len(&self)
        requires
            self.wf(),
        ensures
            self@.dom().len() == self.buckets_cache@.len(),
            self@.dom().finite(),
    {
        let ids = self.buckets_cache@.map_values(|b: Bucket| b.id@);
        assert(ids.no_duplicates());
        assert(self@.dom() =~= ids.to_set()) by {
            assert forall|k: Seq<char>| #[trigger] self@.dom().contains(k) implies ids.to_set().contains(k) by {
                let j = choose|j: int| 0 <= j < self.buckets_cache@.len() && self.buckets_cache@[j].id@ == k;
                assert(ids[j] == k);
            }
            assert forall|k: Seq<char>| ids.to_set().contains(k) implies #[trigger] self@.dom().contains(k) by {
                let j = choose|j: int| 0 <= j < ids.len() && ids[j] == k;
                assert(self@.contains_key(self.buckets_cache@[j].id@));
            }
        }
        ids.unique_seq_to_set();
    }

    /// Folds a newly written `event` into `bucket`'s metadata, and files the
    /// bucket in the cache when either bound moved.
    pub fn update_endtime(&mut self, bucket: &mut Bucket, event: &Event)
        requires
            old(self).wf(),
            event.wf(),
            old(bucket).bid is Some,
            old(bucket).events is None,
        ensures
            final(self).wf(),
            *final(bucket) == old(bucket).with_metadata(fold_event(old(bucket).metadata, *event)),
            final(bucket).metadata != old(bucket).metadata ==> final(self)@ == old(self)@.insert(
                old(bucket).id@,
                *final(bucket),
            ),
            final(bucket).metadata == old(bucket).metadata ==> final(self)@ == old(self)@,
            final(self).pending_import() == old(self).pending_import(),
    {
        let mut update = false;
        match bucket.metadata.start {
            None => {
                bucket.metadata.start = Some(event.timestamp);
                update = true;
            },
            Some(current_start) => {
                if current_start > event.timestamp {
                    bucket.metadata.start = Some(event.timestamp);
                    update = true;
                }
            },
        }
        let event_endtime = event.calculate_endtime();
        match bucket.metadata.end {
            None => {
                bucket.metadata.end = Some(event_endtime);
                update = true;
            },
            Some(current_end) => {
                if current_end < event_endtime {
                    bucket.metadata.end = Some(event_endtime);
                    update = true;
                }
            },
        }
        if update {
            self.put(bucket.copied());
        }
    }

    /// Writes `events` to bucket `bucket_id` in order, gives each the row
    /// identifier the store assigned, and folds each written event into the
    /// bucket's cached metadata. A failed write ends the call; the events
    /// written before it stay written and folded.
    pub fn insert_events<S: EventStore>(
        &mut self,
        store: &mut S,
        bucket_id: &str,
        events: Vec<Event>,
    ) -> (r: Result<Vec<Event>, DatastoreError>)
        requires
            old(self).wf(),
            forall|i: int| 0 <= i < events@.len() ==> #[trigger] events@[i].wf(),
        ensures
            final(self).wf(),
            final(self).pending_import() == old(self).pending_import(),
            !old(self)@.contains_key(bucket_id@) <==> is_no_such_bucket(r),
            !old(self)@.contains_key(bucket_id@) ==> final(self)@ == old(self)@,
            !(r matches Err(DatastoreError::BucketAlreadyExists)),
            old(self)@.contains_key(bucket_id@) && events@.len() == 0 ==> r is Ok && r->Ok_0@.len()
                == 0 && final(self)@ == old(self)@,
            r is Ok ==> final(self)@ == old(self)@.insert(
                bucket_id@,
                old(self)@[bucket_id@].with_metadata(
                    fold_events(old(self)@[bucket_id@].metadata, events@),
                ),
            ),
            r is Ok ==> r->Ok_0@.len() == events@.len(),
            r is Ok ==> forall|i: int|
                0 <= i < events@.len() ==> (#[trigger] r->Ok_0@[i]).id is Some && r->Ok_0@[i] == (Event {
                    id: r->Ok_0@[i].id,
                    ..events@[i]
                }),
            r is Err && old(self)@.contains_key(bucket_id@) ==> exists|n: int|
                0 <= n <= events@.len() && final(self)@ == old(self)@.insert(
                    bucket_id@,
                    old(self)@[bucket_id@].with_metadata(
                        fold_events(old(self)@[bucket_id@].metadata, events@.take(n)),
                    ),
                ),
    {
        let mut bucket = self.get_bucket(bucket_id)?;
        let ghost orig = bucket;
        let ghost old_view = self@;
        let bid = match bucket.bid {
            Some(b) => b,
            None => return Err(internal_error("cached bucket has no row identifier")),
        };
        assert(old_view.insert(bucket_id@, orig) =~= old_view);
        assert(events@.take(0) =~= Seq::<Event>::empty());
        let mut out: Vec<Event> = Vec::new();
        let mut i: usize = 0;
        while i < events.len()
            invariant
                self.wf(),
                self.pending_import() == old(self).pending_import(),
                old_view == old(self)@,
                old_view.contains_key(bucket_id@),
                orig == old_view[bucket_id@],
                orig.id@ == bucket_id@,
                bucket.bid == Some(bid),
                bucket.events is None,
                i <= events@.len(),
                forall|j: int| 0 <= j < events@.len() ==> #[trigger] events@[j].wf(),
                bucket == orig.with_metadata(fold_events(orig.metadata, events@.take(i as int))),
                self@ == old_view.insert(bucket_id@, bucket),
                out@.len() == i,
                forall|j: int|
                    0 <= j < i ==> (#[trigger] out@[j]).id is Some && out@[j] == (Event {
                        id: out@[j].id,
                        ..events@[j]
                    }),
            decreases events@.len() - i,
        {
            let event = &events[i];
            let endtime = event.calculate_endtime();
            let res = store.insert_event(bid, event.id, event.timestamp, endtime, &event.data);
            match res {
                Ok(rowid) => {
                    let ghost before = bucket;
                    self.update_endtime(&mut bucket, event);
                    assert(events@.take(i as int + 1).drop_last() =~= events@.take(i as int));
                    assert(events@.take(i as int + 1).last() == events@[i as int]);
                    proof {
                        if bucket.metadata == before.metadata {
                            assert(bucket == before);
                        }
                    }
                    out.push(with_row_id(event, rowid));
                },
                Err(err) => {
                    return Err(store_error_detail(err));
                },
            }
            i = i + 1;
        }
        assert(events@.take(events@.len() as int) =~= events@);
        proof {
            if events@.len() == 0 {
                assert(orig.with_metadata(orig.metadata) == orig);
                assert(old_view.insert(bucket_id@, orig) =~= old_view);
            }
        }
        Ok(out)
    }

    /// Overwrites the stored event of bucket `bucket_id` with the greatest
    /// end by `event`, and folds `event` into the bucket's cached metadata.
    pub fn replace_last_event<S: EventStore>(
        &mut self,
        store: &mut S,
        bucket_id: &str,
        event: &Event,
    ) -> (r: Result<(), DatastoreError>)
        requires
            old(self).wf(),
            event.wf(),
        ensures
            final(self).wf(),
            final(self).pending_import() == old(self).pending_import(),
            !old(self)@.contains_key(bucket_id@) <==> is_no_such_bucket(r),
            r is Err ==> final(self)@ == old(self)@,
            r is Ok ==> final(self)@ == old(self)@.insert(
                bucket_id@,
                old(self)@[bucket_id@].with_metadata(
                    fold_event(old(self)@[bucket_id@].metadata, *event),
                ),
            ),
    {
        let mut bucket = self.get_bucket(bucket_id)?;
        let ghost orig = bucket;
        let bid = match bucket.bid {
            Some(b) => b,
            None => return Err(internal_error("cached bucket has no row identifier")),
        };
        let endtime = event.calculate_endtime();
        match store.replace_last_event(bid, event.timestamp, endtime, &event.data) {
            Ok(()) => {
                self.update_endtime(&mut bucket, event);
                proof {
                    if bucket.metadata == orig.metadata {
                        assert(bucket == orig);
                        assert(self@ =~= old(self)@.insert(bucket_id@, bucket));
                    }
                }
                Ok(())
            },
            Err(err) => Err(store_error_detail(err)),
        }
    }

    /// Stores a new bucket and caches it with empty metadata, then writes its
    /// seeding events. The creation time defaults to now.
    pub fn create_bucket<S: EventStore>(&mut self, store: &mut S, bucket: Bucket) -> (r: Result<
        (),
        DatastoreError,
    >)
        requires
            old(self).wf(),
            bucket.events is Some ==> forall|i: int|
                0 <= i < bucket.events->0@.len() ==> #[trigger] bucket.events->0@[i].wf(),
        ensures
            final(self).wf(),
            final(self).pending_import() == old(self).pending_import(),
            r matches Err(DatastoreError::BucketAlreadyExists) ==> final(self)@ == old(self)@,
            !(r matches Err(DatastoreError::NoSuchBucket)),
            r is Err ==> final(self)@ == old(self)@ || (final(self)@.dom() == old(self)@.dom().insert(
                bucket.id@,
            ) && forall|k: Seq<char>|
                k != bucket.id@ && #[trigger] old(self)@.contains_key(k) ==> final(self)@[k]
                    == old(self)@[k]),
            r is Ok ==> final(self)@.dom() == old(self)@.dom().insert(bucket.id@),
            r is Ok ==> forall|k: Seq<char>|
                k != bucket.id@ && #[trigger] old(self)@.contains_key(k) ==> final(self)@[k]
                    == old(self)@[k],
            r is Ok ==> ({
                let b = final(self)@[bucket.id@];
                &&& b.bid is Some
                &&& b.id == bucket.id
                &&& b._type == bucket._type
                &&& b.client == bucket.client
                &&& b.hostname == bucket.hostname
                &&& b.data == bucket.data
                &&& bucket.created is Some ==> b.created == bucket.created
                &&& b.created is Some
                &&& b.events is None
                &&& b.metadata == fold_events(
                    empty_metadata(),
                    match bucket.events {
                        Some(v) => v@,
                        None => Seq::empty(),
                    },
                )
            }),
    {
        let mut bucket = bucket;
        if bucket.created.is_none() {
            match now_nanos() {
                Some(now) => bucket.created = Some(now),
                None => return Err(internal_error("the current time is out of range")),
            }
        }
        let events = bucket.events;
        bucket.events = None;
        bucket.metadata = BucketMetadata { start: None, end: None };
        match store.insert_bucket(&bucket) {
            Ok(rowid) => {
                bucket.bid = Some(rowid);
                self.put(bucket.copied());
                match events {
                    Some(events) => {
                        let r = self.insert_events(store, bucket.id.as_str(), events);
                        match r {
                            Ok(_) => Ok(()),
                            Err(e) => Err(e),
                        }
                    },
                    None => Ok(()),
                }
            },
            Err(StoreError::ConstraintViolation(_)) => Err(DatastoreError::BucketAlreadyExists),
            Err(err) => Err(store_error_detail(err)),
        }
    }

    /// Deletes bucket `bucket_id` with all its events from the store, then
    /// from the cache.
    pub fn delete_bucket<S: EventStore>(&mut self, store: &mut S, bucket_id: &str) -> (r: Result<
        (),
        DatastoreError,
    >)
        requires
            old(self).wf(),
        ensures
            final(self).wf(),
            final(self).pending_import() == old(self).pending_import(),
            !old(self)@.contains_key(bucket_id@) <==> is_no_such_bucket(r),
            !(r matches Err(DatastoreError::BucketAlreadyExists)),
            r is Ok ==> final(self)@ == old(self)@.remove(bucket_id@),
            r is Err ==> final(self)@ == old(self)@,
    {
        let bucket = self.get_bucket(bucket_id)?;
        let bid = match bucket.bid {
            Some(b) => b,
            None => return Err(internal_error("cached bucket has no row identifier")),
        };
        if let Err(err) = store.delete_bucket_events(bid) {
            return Err(store_error_detail(err));
        }
        match store.delete_bucket_row(bid) {
            Ok(()) => {
                self.remove(bucket_id);
                Ok(())
            },
            Err(err) => Err(store_error_detail(err)),
        }
    }

    /// The events of bucket `bucket_id` that overlap the window
    /// `[starttime, endtime]` (unset bounds: `0` and the greatest instant),
    /// clipped to the window, latest first, at most `limit` of them. Rows
    /// whose payload is not a JSON object are skipped.
    pub fn get_events<S: EventStore>(
        &self,
        store: &S,
        bucket_id: &str,
        starttime_opt: Option<i64>,
        endtime_opt: Option<i64>,
        limit_opt: Option<u64>,
    ) -> (r: Result<Vec<Event>, DatastoreError>)
        requires
            self.wf(),
        ensures
            !self@.contains_key(bucket_id@) <==> is_no_such_bucket(r),
            self@.contains_key(bucket_id@) && filter_start(starttime_opt) > filter_end(endtime_opt)
                ==> r is Ok && r->Ok_0@.len() == 0,
            r is Ok ==> forall|i: int|
                0 <= i < r->Ok_0@.len() ==> (#[trigger] r->Ok_0@[i]).wf() && filter_start(
                    starttime_opt,
                ) <= r->Ok_0@[i].timestamp && r->Ok_0@[i].spec_end() <= filter_end(endtime_opt),
            r is Ok && filter_start(starttime_opt) <= filter_end(endtime_opt) ==> exists|
                rows: Seq<EventRow>,
            |
                r->Ok_0@ == limited(
                    clipped_rows(rows, filter_start(starttime_opt), filter_end(endtime_opt)),
                    limit_opt,
                ),
            r is Ok && limit_opt is Some ==> r->Ok_0@.len() <= limit_opt->0,
    {
        let bucket = self.get_bucket(bucket_id)?;
        let starttime_filter_ns: i64 = match starttime_opt {
            Some(t) => t,
            None => 0,
        };
        let endtime_filter_ns: i64 = match endtime_opt {
            Some(t) => t,
            None => i64::MAX,
        };
        if starttime_filter_ns > endtime_filter_ns {
            return Ok(Vec::new());
        }
        let bid = match bucket.bid {
            Some(b) => b,
            None => return Err(internal_error("cached bucket has no row identifier")),
        };
        match store.query_events(bid, starttime_filter_ns, endtime_filter_ns, limit_opt) {
            Ok(rows) => {
                let mut list = clip_events(&rows, starttime_filter_ns, endtime_filter_ns);
                proof {
                    lemma_clipped_rows_in_window(rows@, starttime_filter_ns, endtime_filter_ns);
                }
                let ghost full = list@;
                if let Some(limit) = limit_opt {
                    if (limit as u128) < (list.len() as u128) {
                        list.truncate(limit as usize);
                    }
                }
                assert(list@ == limited(full, limit_opt));
                Ok(list)
            },
            Err(err) => Err(store_error_detail(err)),
        }
    }

    /// The number of events of bucket `bucket_id` that start at or after
    /// `starttime` or end at or before `endtime`; `0` when the window is
    /// empty or inverted.
    pub fn get_event_count<S: EventStore>(
        &self,
        store: &S,
        bucket_id: &str,
        starttime_opt: Option<i64>,
        endtime_opt: Option<i64>,
    ) -> (r: Result<i64, DatastoreError>)
        requires
            self.wf(),
        ensures
            !self@.contains_key(bucket_id@) <==> is_no_such_bucket(r),
            self@.contains_key(bucket_id@) && filter_start(starttime_opt) >= filter_end(endtime_opt)
                ==> r == Ok::<i64, DatastoreError>(0),
    {
        let bucket = self.get_bucket(bucket_id)?;
        let starttime_filter_ns: i64 = match starttime_opt {
            Some(t) => t,
            None => 0,
        };
        let endtime_filter_ns: i64 = match endtime_opt {
            Some(t) => t,
            None => i64::MAX,
        };
        if starttime_filter_ns >= endtime_filter_ns {
            return Ok(0);
        }
        let bid = match bucket.bid {
            Some(b) => b,
            None => return Err(internal_error("cached bucket has no row identifier")),
        };
        match store.count_events(bid, starttime_filter_ns, endtime_filter_ns) {
            Ok(count) => Ok(count),
            Err(err) => Err(store_error_detail(err)),
        }
    }

    /// Stores `heartbeat` for bucket `bucket_id`: merged into the bucket's
    /// last event when it continues it within `pulsetime` nanoseconds, as an
    /// event of its own otherwise. `last_heartbeat` caches the bucket's last
    /// event across calls; it is read first and, on success, set to the
    /// event that was stored.
    pub fn heartbeat<S: EventStore>(
        &mut self,
        store: &mut S,
        bucket_id: &str,
        heartbeat: Event,
        pulsetime: i64,
        last_heartbeat: &mut Option<Event>,
    ) -> (r: Result<Event, DatastoreError>)
        requires
            old(self).wf(),
            heartbeat.wf(),
            *old(last_heartbeat) is Some ==> (*old(last_heartbeat))->0.wf(),
        ensures
            final(self).wf(),
            final(self).pending_import() == old(self).pending_import(),
            !old(self)@.contains_key(bucket_id@) <==> is_no_such_bucket(r),
            is_no_such_bucket(r) ==> final(self)@ == old(self)@ && *final(last_heartbeat)
                == *old(last_heartbeat),
            r is Err ==> final(self)@.dom() == old(self)@.dom() && forall|k: Seq<char>|
                k != bucket_id@ && #[trigger] old(self)@.contains_key(k) ==> final(self)@[k]
                    == old(self)@[k],
            r is Ok ==> *final(last_heartbeat) == Some(r->Ok_0),
            r is Ok && *old(last_heartbeat) is Some ==> r->Ok_0 == merge_outcome(
                (*old(last_heartbeat))->0,
                heartbeat,
                pulsetime,
            ),
            r is Ok ==> r->Ok_0 == heartbeat || exists|last: Event|
                last.wf() && merges(last, heartbeat, pulsetime) && r->Ok_0 == merged(
                    last,
                    heartbeat,
                ),
            r is Ok ==> final(self)@ == old(self)@.insert(
                bucket_id@,
                old(self)@[bucket_id@].with_metadata(
                    fold_event(old(self)@[bucket_id@].metadata, r->Ok_0),
                ),
            ),
    {
        let _ = self.get_bucket(bucket_id)?;
        let cached = match last_heartbeat {
            Some(e) => Some(e.copied()),
            None => None,
        };
        *last_heartbeat = None;
        let last_event = match cached {
            Some(e) => e,
            None => {
                let mut last_event_vec = self.get_events(store, bucket_id, None, None, Some(1))?;
                match last_event_vec.pop() {
                    Some(e) => e,
                    None => {
                        let single = vec![heartbeat.copied()];
                        assert(single@ =~= seq![heartbeat]);
                        proof {
                            crate::bucket::lemma_fold_single(self@[bucket_id@].metadata, heartbeat);
                        }
                        self.insert_events(store, bucket_id, single)?;
                        *last_heartbeat = Some(heartbeat.copied());
                        return Ok(heartbeat);
                    },
                }
            },
        };
        let inserted_heartbeat = match crate::heartbeat::heartbeat(&last_event, &heartbeat, pulsetime) {
            Some(merged_heartbeat) => {
                self.replace_last_event(store, bucket_id, &merged_heartbeat)?;
                merged_heartbeat
            },
            None => {
                let single = vec![heartbeat.copied()];
                assert(single@ =~= seq![heartbeat]);
                proof {
                    crate::bucket::lemma_fold_single(self@[bucket_id@].metadata, heartbeat);
                }
                self.insert_events(store, bucket_id, single)?;
                heartbeat
            },
        };
        *last_heartbeat = Some(inserted_heartbeat.copied());
        Ok(inserted_heartbeat)
    }

    /// Loads every stored bucket into the cache through `load_rows`.
    fn get_stored_buckets<S: EventStore>(&mut self, store: &S) -> (r: Result<(), DatastoreError>)
        requires
            old(self).wf(),
        ensures
            final(self).wf(),
            final(self).pending_import() == old(self).pending_import(),
            r is Err ==> r->Err_0 is InternalError,
            r is Ok ==> exists|rows: Seq<StoredBucketRow>|
                final(self)@ == loaded_buckets(old(self)@, rows) && forall|i: int|
                    0 <= i < rows.len() ==> is_json_object_text(#[trigger] rows[i].data@),
    {
        let rows = match store.stored_buckets() {
            Ok(rows) => rows,
            Err(err) => return Err(store_error_detail(err)),
        };
        self.load_rows(&rows)
    }

    /// Files each stored bucket row in the cache, in order, with the time
    /// range of its events. A row whose payload is not a JSON object means
    /// the store cannot be trusted: the load fails.
    pub fn load_rows(&mut self, rows: &Vec<StoredBucketRow>) -> (r: Result<(), DatastoreError>)
        requires
            old(self).wf(),
        ensures
            final(self).wf(),
            final(self).pending_import() == old(self).pending_import(),
            r is Ok <==> forall|i: int|
                0 <= i < rows@.len() ==> is_json_object_text(#[trigger] rows@[i].data@),
            r is Ok ==> final(self)@ == loaded_buckets(old(self)@, rows@),
            r is Err ==> r->Err_0 is InternalError,
    {
        let ghost start = self@;
        let mut i: usize = 0;
        assert(rows@.take(0) =~= Seq::<StoredBucketRow>::empty());
        while i < rows.len()
            invariant
                self.wf(),
                self.pending_import() == old(self).pending_import(),
                i <= rows@.len(),
                self@ == loaded_buckets(start, rows@.take(i as int)),
                forall|j: int| 0 <= j < i ==> is_json_object_text(#[trigger] rows@[j].data@),
            decreases rows@.len() - i,
        {
            let row = &rows[i];
            if !parses_as_json_object(row.data.as_str()) {
                return Err(internal_error("failed to parse bucket data, the store is corrupt"));
            }
            let bucket = Bucket {
                bid: Some(row.bid),
                id: row.id.clone(),
                _type: row._type.clone(),
                client: row.client.clone(),
                hostname: row.hostname.clone(),
                created: row.created,
                data: row.data.clone(),
                metadata: BucketMetadata { start: row.min_start, end: row.max_end },
                events: None,
                last_updated: None,
            };
            assert(bucket == bucket_of_row(*row));
            self.put(bucket);
            assert(rows@.take(i as int + 1).drop_last() =~= rows@.take(i as int));
            assert(rows@.take(i as int + 1).last() == rows@[i as int]);
            i = i + 1;
        }
        assert(rows@.take(rows@.len() as int) =~= rows@);
        Ok(())
    }

    /// Opens a datastore on `store`: brings the schema to the current
    /// version, then loads the bucket cache from the store.
    pub fn new<S: EventStore>(store: &mut S) -> (r: Result<DatastoreInstance, DatastoreError>)
        ensures
            r is Ok ==> r->Ok_0.wf(),
            r is Ok ==> exists|rows: Seq<StoredBucketRow>|
                r->Ok_0@ == loaded_buckets(Map::empty(), rows),
            r is Err ==> r->Err_0 is InternalError,
    {
        let version = match store.user_version() {
            Ok(v) => v,
            Err(err) => return Err(store_error_detail(err)),
        };
        DatastoreInstance::open_at_version(store, version)
    }

    /// Opens a datastore on `store`, whose stored schema version is
    /// `version`: migrates it, then loads the cache. The legacy import is
    /// left pending exactly when the store was uninitialized.
    pub fn open_at_version<S: EventStore>(store: &mut S, version: i64) -> (r: Result<
        DatastoreInstance,
        DatastoreError,
    >)
        ensures
            r is Ok ==> r->Ok_0.wf(),
            r is Ok ==> r->Ok_0.pending_import() == (version < 1),
            r is Ok ==> exists|rows: Seq<StoredBucketRow>|
                r->Ok_0@ == loaded_buckets(Map::empty(), rows),
            r is Err ==> r->Err_0 is InternalError,
    {
        let first_init = crate::schema::migrate_and_flag(store, version)?;
        let mut ds = DatastoreInstance::empty(first_init);
        ds.get_stored_buckets(store)?;
        Ok(ds)
    }

    /// Runs the one-time import of legacy data on a store that was
    /// uninitialized when this datastore opened it, then reloads the cache.
    /// Returns whether an import ran.
    pub fn ensure_legacy_import<S: EventStore>(&mut self, store: &mut S) -> (r: Result<bool, ()>)
        requires
            old(self).wf(),
        ensures
            final(self).wf(),
            !final(self).pending_import(),
            !old(self).pending_import() ==> r == Ok::<bool, ()>(false) && final(self)@ == old(self)@,
            old(self).pending_import() && r is Ok ==> r == Ok::<bool, ()>(true),
            old(self).pending_import() && r is Ok ==> exists|rows: Seq<StoredBucketRow>|
                final(self)@ == loaded_buckets(Map::empty(), rows),
    {
        if !self.first_init {
            return Ok(false);
        }
        self.first_init = false;
        let imported = store.legacy_import(self);
        // The import writes through this datastore, so whatever it did, the
        // store holds the truth: rebuild the cache from it.
        self.buckets_cache = Vec::new();
        self.cache_view = Ghost(Map::empty());
        self.first_init = false;
        let reloaded = self.get_stored_buckets(store);
        match (imported, reloaded) {
            (Ok(()), Ok(())) => Ok(true),
            _ => Err(()),
        }
    }
}

} // verus!
