use aw_datastore::bucket::{Bucket, BucketMetadata};
use aw_datastore::datastore::{
    clip_events, clip_row, DatastoreError, DatastoreInstance, EventRow, EventStore, SchemaStatement,
    StoreError, StoredBucketRow,
};
use aw_datastore::event::Event;
use aw_datastore::schema::{
    create_tables, migrate_and_flag, migrate_from, migration_plan, migration_statements, statement_outcome,
    CURRENT_VERSION,
};

#[derive(Default)]
struct MemStore {
    version: i64,
    statements: Vec<SchemaStatement>,
    rename_returns_rows: bool,
    fail_event_writes: bool,
    buckets: Vec<StoredBucketRow>,
    events: Vec<(i64, EventRow)>,
    next_bucket: i64,
    next_event: i64,
}

impl EventStore for MemStore {
    fn user_version(&self) -> Result<i64, StoreError> {
        Ok(self.version)
    }
    fn set_user_version(&mut self, version: i64) -> Result<(), StoreError> {
        self.version = version;
        Ok(())
    }
    fn execute_schema(&mut self, statement: SchemaStatement) -> Result<(), StoreError> {
        self.statements.push(statement);
        if statement == SchemaStatement::RenameBucketDataColumn && self.rename_returns_rows {
            return Err(StoreError::ExecuteReturnedResults);
        }
        Ok(())
    }
    fn stored_buckets(&self) -> Result<Vec<StoredBucketRow>, StoreError> {
        let mut out = Vec::new();
        for b in &self.buckets {
            let mut row = b.clone();
            let evs: Vec<&EventRow> =
                self.events.iter().filter(|(bid, _)| *bid == b.bid).map(|(_, e)| e).collect();
            row.min_start = evs.iter().map(|e| e.starttime).min();
            row.max_end = evs.iter().map(|e| e.endtime).max();
            out.push(row);
        }
        Ok(out)
    }
    fn insert_bucket(&mut self, bucket: &Bucket) -> Result<i64, StoreError> {
        if self.buckets.iter().any(|b| b.id == bucket.id) {
            return Err(StoreError::ConstraintViolation("UNIQUE constraint failed".to_string()));
        }
        self.next_bucket += 1;
        self.buckets.push(StoredBucketRow {
            bid: self.next_bucket,
            id: bucket.id.clone(),
            _type: bucket._type.clone(),
            client: bucket.client.clone(),
            hostname: bucket.hostname.clone(),
            created: bucket.created,
            min_start: None,
            max_end: None,
            data: bucket.data.clone(),
        });
        Ok(self.next_bucket)
    }
    fn delete_bucket_events(&mut self, bid: i64) -> Result<(), StoreError> {
        self.events.retain(|(b, _)| *b != bid);
        Ok(())
    }
    fn delete_bucket_row(&mut self, bid: i64) -> Result<(), StoreError> {
        self.buckets.retain(|b| b.bid != bid);
        Ok(())
    }
    fn insert_event(
        &mut self,
        bid: i64,
        id: Option<i64>,
        starttime: i64,
        endtime: i64,
        data: &String,
    ) -> Result<i64, StoreError> {
        if self.fail_event_writes {
            return Err(StoreError::Failure("disk full".to_string()));
        }
        let rowid = match id {
            Some(i) => {
                self.events.retain(|(_, e)| e.id != i);
                i
            }
            None => {
                self.next_event += 1;
                self.next_event
            }
        };
        self.events.push((bid, EventRow { id: rowid, starttime, endtime, data: data.clone() }));
        Ok(rowid)
    }
    fn replace_last_event(
        &mut self,
        bid: i64,
        starttime: i64,
        endtime: i64,
        data: &String,
    ) -> Result<(), StoreError> {
        let max_end = self.events.iter().filter(|(b, _)| *b == bid).map(|(_, e)| e.endtime).max();
        if let Some(m) = max_end {
            for (b, e) in self.events.iter_mut() {
                if *b == bid && e.endtime == m {
                    e.starttime = starttime;
                    e.endtime = endtime;
                    e.data = data.clone();
                }
            }
        }
        Ok(())
    }
    fn query_events(
        &self,
        bid: i64,
        starttime_filter: i64,
        endtime_filter: i64,
        limit: Option<u64>,
    ) -> Result<Vec<EventRow>, StoreError> {
        let mut rows: Vec<EventRow> = self
            .events
            .iter()
            .filter(|(b, e)| *b == bid && e.endtime >= starttime_filter && e.starttime <= endtime_filter)
            .map(|(_, e)| e.clone())
            .collect();
        rows.sort_by(|a, b| b.starttime.cmp(&a.starttime));
        if let Some(l) = limit {
            rows.truncate(l as usize);
        }
        Ok(rows)
    }
    fn count_events(&self, bid: i64, starttime_filter: i64, endtime_filter: i64) -> Result<i64, StoreError> {
        Ok(self
            .events
            .iter()
            .filter(|(b, e)| *b == bid && (e.starttime >= starttime_filter || e.endtime <= endtime_filter))
            .count() as i64)
    }
    fn legacy_import(&mut self, _datastore: &mut DatastoreInstance) -> Result<(), StoreError> {
        Ok(())
    }
}

fn bucket(id: &str) -> Bucket {
    Bucket {
        bid: None,
        id: id.to_string(),
        _type: "afkstatus".to_string(),
        client: "test".to_string(),
        hostname: "host".to_string(),
        created: Some(1_000),
        data: "{}".to_string(),
        metadata: BucketMetadata { start: None, end: None },
        events: None,
        last_updated: None,
    }
}

fn ev(start: i64, duration: i64, data: &str) -> Event {
    Event { id: None, timestamp: start, duration, data: data.to_string() }
}

fn open() -> (MemStore, DatastoreInstance) {
    let mut store = MemStore::default();
    let ds = DatastoreInstance::new(&mut store).unwrap();
    (store, ds)
}

#[test]
fn fresh_store_is_migrated_and_flags_import() {
    let mut store = MemStore::default();
    let mut ds = DatastoreInstance::new(&mut store).unwrap();
    assert_eq!(store.version, CURRENT_VERSION);
    assert_eq!(store.statements.len(), 9);
    assert_eq!(store.statements[0], SchemaStatement::CreateBucketsTable);
    assert_eq!(store.statements[8], SchemaStatement::AddBucketDataColumnNotNull);
    assert_eq!(ds.ensure_legacy_import(&mut store), Ok(true));
    assert_eq!(ds.ensure_legacy_import(&mut store), Ok(false));
}

#[test]
fn migrating_a_current_store_changes_nothing() {
    let mut store = MemStore { version: 3, ..MemStore::default() };
    assert_eq!(migrate_from(&mut store, 3), Ok(()));
    assert!(store.statements.is_empty());
    assert_eq!(store.version, 3);
    assert_eq!(create_tables(&mut store), Ok(false));
    assert!(store.statements.is_empty());
    assert_eq!(store.version, 3);
    let mut ds = DatastoreInstance::new(&mut store).unwrap();
    assert!(store.statements.is_empty());
    assert_eq!(ds.ensure_legacy_import(&mut store), Ok(false));
}

#[test]
fn migration_plan_steps() {
    assert_eq!(migration_plan(0), vec![1, 2, 3]);
    assert_eq!(migration_plan(-4), vec![1, 2, 3]);
    assert_eq!(migration_plan(2), vec![3]);
    assert_eq!(migration_plan(3), Vec::<i64>::new());
    assert_eq!(migration_plan(7), Vec::<i64>::new());
}

#[test]
fn partial_migration_from_v2_tolerates_rename_returning_rows() {
    let mut store = MemStore { version: 2, rename_returns_rows: true, ..MemStore::default() };
    assert_eq!(create_tables(&mut store), Ok(false));
    assert_eq!(
        store.statements,
        vec![SchemaStatement::RenameBucketDataColumn, SchemaStatement::AddBucketDataColumnNotNull]
    );
    assert_eq!(store.version, 3);
}

#[test]
fn create_and_get_bucket() {
    let (mut store, mut ds) = open();
    ds.create_bucket(&mut store, bucket("b1")).unwrap();
    let b = ds.get_bucket("b1").unwrap();
    assert_eq!(b.bid, Some(1));
    assert_eq!(b.created, Some(1_000));
    assert_eq!(b.metadata, BucketMetadata { start: None, end: None });
    assert_eq!(ds.get_buckets().len(), 1);
}

#[test]
fn create_bucket_defaults_created_to_now() {
    let (mut store, mut ds) = open();
    let mut b = bucket("b1");
    b.created = None;
    ds.create_bucket(&mut store, b).unwrap();
    let created = ds.get_bucket("b1").unwrap().created.unwrap();
    assert!(created > 1_500_000_000_000_000_000);
}

#[test]
fn create_bucket_with_seed_events() {
    let (mut store, mut ds) = open();
    let mut b = bucket("b1");
    b.events = Some(vec![ev(10, 5, "{}"), ev(30, 5, "{}")]);
    ds.create_bucket(&mut store, b).unwrap();
    let got = ds.get_bucket("b1").unwrap();
    assert_eq!(got.metadata, BucketMetadata { start: Some(10), end: Some(35) });
    assert_eq!(got.events, None);
    assert_eq!(store.events.len(), 2);
}

#[test]
fn duplicate_bucket_is_rejected_and_cache_unchanged() {
    let (mut store, mut ds) = open();
    ds.create_bucket(&mut store, bucket("b1")).unwrap();
    ds.insert_events(&mut store, "b1", vec![ev(10, 5, "{}")]).unwrap();
    let before = ds.get_bucket("b1").unwrap();
    let mut dup = bucket("b1");
    dup.hostname = "other".to_string();
    assert_eq!(ds.create_bucket(&mut store, dup), Err(DatastoreError::BucketAlreadyExists));
    assert_eq!(ds.get_bucket("b1").unwrap(), before);
    assert_eq!(ds.get_buckets().len(), 1);
    assert_eq!(store.buckets.len(), 1);
    assert_eq!(store.events.len(), 1);
}

#[test]
fn missing_bucket_errors() {
    let (mut store, mut ds) = open();
    assert_eq!(ds.get_bucket("nope"), Err(DatastoreError::NoSuchBucket));
    assert_eq!(ds.delete_bucket(&mut store, "nope"), Err(DatastoreError::NoSuchBucket));
    assert_eq!(ds.insert_events(&mut store, "nope", vec![ev(0, 1, "{}")]), Err(DatastoreError::NoSuchBucket));
    assert_eq!(ds.get_events(&store, "nope", None, None, None), Err(DatastoreError::NoSuchBucket));
    assert_eq!(ds.get_event_count(&store, "nope", None, None), Err(DatastoreError::NoSuchBucket));
    let mut last = None;
    assert_eq!(
        ds.heartbeat(&mut store, "nope", ev(0, 1, "{}"), 10, &mut last),
        Err(DatastoreError::NoSuchBucket)
    );
    assert_eq!(ds.replace_last_event(&mut store, "nope", &ev(0, 1, "{}")), Err(DatastoreError::NoSuchBucket));
}

#[test]
fn delete_bucket_removes_it_and_its_events() {
    let (mut store, mut ds) = open();
    ds.create_bucket(&mut store, bucket("b1")).unwrap();
    ds.create_bucket(&mut store, bucket("b2")).unwrap();
    ds.insert_events(&mut store, "b1", vec![ev(0, 5, "{}")]).unwrap();
    ds.delete_bucket(&mut store, "b1").unwrap();
    assert_eq!(ds.get_bucket("b1"), Err(DatastoreError::NoSuchBucket));
    assert!(ds.get_bucket("b2").is_ok());
    assert!(store.events.is_empty());
    assert_eq!(store.buckets.len(), 1);
}

#[test]
fn insert_events_assigns_ids_and_updates_metadata() {
    let (mut store, mut ds) = open();
    ds.create_bucket(&mut store, bucket("b1")).unwrap();
    let out = ds.insert_events(&mut store, "b1", vec![ev(20, 5, "{}"), ev(10, 2, "{}")]).unwrap();
    assert_eq!(out.len(), 2);
    assert_eq!(out[0].id, Some(1));
    assert_eq!(out[1].id, Some(2));
    assert_eq!(out[1].timestamp, 10);
    let meta = ds.get_bucket("b1").unwrap().metadata;
    assert_eq!(meta, BucketMetadata { start: Some(10), end: Some(25) });
}

#[test]
fn insert_failure_is_internal_error() {
    let (mut store, mut ds) = open();
    ds.create_bucket(&mut store, bucket("b1")).unwrap();
    store.fail_event_writes = true;
    match ds.insert_events(&mut store, "b1", vec![ev(0, 1, "{}")]) {
        Err(DatastoreError::InternalError(msg)) => assert_eq!(msg, "disk full"),
        other => panic!("unexpected {:?}", other),
    }
    assert_eq!(ds.get_bucket("b1").unwrap().metadata, BucketMetadata { start: None, end: None });
}

#[test]
fn range_query_clips_to_window() {
    let (mut store, mut ds) = open();
    ds.create_bucket(&mut store, bucket("b1")).unwrap();
    ds.insert_events(&mut store, "b1", vec![ev(10, 20, "{}")]).unwrap();
    let r = ds.get_events(&store, "b1", Some(15), Some(25), None).unwrap();
    assert_eq!(r.len(), 1);
    assert_eq!(r[0].timestamp, 15);
    assert_eq!(r[0].duration, 10);
}

#[test]
fn range_query_with_inverted_window_is_empty() {
    let (mut store, mut ds) = open();
    ds.create_bucket(&mut store, bucket("b1")).unwrap();
    ds.insert_events(&mut store, "b1", vec![ev(10, 20, "{}")]).unwrap();
    assert_eq!(ds.get_events(&store, "b1", Some(26), Some(25), None), Ok(vec![]));
    let all = ds.get_events(&store, "b1", None, None, None).unwrap();
    assert_eq!(all.len(), 1);
    assert_eq!(all[0].id, Some(1));
}

#[test]
fn range_query_latest_first_with_limit() {
    let (mut store, mut ds) = open();
    ds.create_bucket(&mut store, bucket("b1")).unwrap();
    ds.insert_events(&mut store, "b1", vec![ev(0, 5, "{}"), ev(10, 5, "{}"), ev(20, 5, "{}")]).unwrap();
    let r = ds.get_events(&store, "b1", None, None, Some(2)).unwrap();
    assert_eq!(r.iter().map(|e| e.timestamp).collect::<Vec<_>>(), vec![20, 10]);
}

#[test]
fn corrupt_rows_are_skipped() {
    let rows = vec![
        EventRow { id: 1, starttime: 0, endtime: 10, data: "{\"a\":1}".to_string() },
        EventRow { id: 2, starttime: 0, endtime: 10, data: "not json".to_string() },
        EventRow { id: 3, starttime: 0, endtime: 10, data: "[1,2]".to_string() },
    ];
    let r = clip_events(&rows, 0, 100);
    assert_eq!(r.len(), 1);
    assert_eq!(r[0].id, Some(1));
    assert_eq!(r[0].data, "{\"a\":1}");
}

#[test]
fn clip_row_bounds() {
    let row = EventRow { id: 4, starttime: 10, endtime: 30, data: "{}".to_string() };
    let e = clip_row(&row, 15, 25).unwrap();
    assert_eq!((e.timestamp, e.duration, e.id), (15, 10, Some(4)));
    let e = clip_row(&row, 0, 100).unwrap();
    assert_eq!((e.timestamp, e.duration), (10, 20));
    assert_eq!(clip_row(&row, 31, 40), None);
}

#[test]
fn event_count_uses_either_bound() {
    let (mut store, mut ds) = open();
    ds.create_bucket(&mut store, bucket("b1")).unwrap();
    ds.insert_events(&mut store, "b1", vec![ev(0, 5, "{}"), ev(10, 5, "{}"), ev(20, 5, "{}")]).unwrap();
    assert_eq!(ds.get_event_count(&store, "b1", None, None), Ok(3));
    assert_eq!(ds.get_event_count(&store, "b1", Some(20), Some(5)), Ok(0));
    assert_eq!(ds.get_event_count(&store, "b1", Some(5), Some(5)), Ok(0));
    assert_eq!(ds.get_event_count(&store, "b1", Some(20), Some(21)), Ok(3));
    assert_eq!(ds.get_event_count(&store, "b1", Some(12), Some(13)), Ok(2));
}

#[test]
fn heartbeat_within_threshold_merges() {
    let (mut store, mut ds) = open();
    ds.create_bucket(&mut store, bucket("b1")).unwrap();
    let mut last = None;
    let first = ds.heartbeat(&mut store, "b1", ev(0, 10, "{\"app\":\"x\"}"), 5, &mut last).unwrap();
    assert_eq!((first.timestamp, first.duration), (0, 10));
    let second = ds.heartbeat(&mut store, "b1", ev(12, 3, "{\"app\":\"x\"}"), 5, &mut last).unwrap();
    assert_eq!((second.timestamp, second.duration), (0, 15));
    assert_eq!(last.as_ref().unwrap().duration, 15);
    assert_eq!(store.events.len(), 1);
    assert_eq!((store.events[0].1.starttime, store.events[0].1.endtime), (0, 15));
    assert_eq!(ds.get_bucket("b1").unwrap().metadata, BucketMetadata { start: Some(0), end: Some(15) });
}

#[test]
fn heartbeat_outside_threshold_or_other_payload_stores_new_event() {
    let (mut store, mut ds) = open();
    ds.create_bucket(&mut store, bucket("b1")).unwrap();
    let mut last = None;
    ds.heartbeat(&mut store, "b1", ev(0, 10, "{\"app\":\"x\"}"), 5, &mut last).unwrap();
    let far = ds.heartbeat(&mut store, "b1", ev(100, 1, "{\"app\":\"x\"}"), 5, &mut last).unwrap();
    assert_eq!((far.timestamp, far.duration), (100, 1));
    assert_eq!(store.events.len(), 2);
    let other = ds.heartbeat(&mut store, "b1", ev(101, 1, "{\"app\":\"y\"}"), 5, &mut last).unwrap();
    assert_eq!((other.timestamp, other.duration), (101, 1));
    assert_eq!(store.events.len(), 3);
    assert_eq!(ds.get_bucket("b1").unwrap().metadata, BucketMetadata { start: Some(0), end: Some(102) });
}

#[test]
fn heartbeat_reads_last_event_from_store_when_not_cached() {
    let (mut store, mut ds) = open();
    ds.create_bucket(&mut store, bucket("b1")).unwrap();
    ds.insert_events(&mut store, "b1", vec![ev(0, 10, "{}")]).unwrap();
    let mut last = None;
    let merged = ds.heartbeat(&mut store, "b1", ev(10, 5, "{}"), 1, &mut last).unwrap();
    assert_eq!((merged.timestamp, merged.duration), (0, 15));
    assert_eq!(store.events.len(), 1);
}

#[test]
fn reloaded_cache_matches_live_cache() {
    let (mut store, mut ds) = open();
    ds.create_bucket(&mut store, bucket("b1")).unwrap();
    ds.create_bucket(&mut store, bucket("b2")).unwrap();
    ds.create_bucket(&mut store, bucket("b3")).unwrap();
    ds.insert_events(&mut store, "b1", vec![ev(50, 10, "{}"), ev(5, 1, "{}")]).unwrap();
    ds.insert_events(&mut store, "b1", vec![ev(100, 7, "{}")]).unwrap();
    ds.insert_events(&mut store, "b2", vec![ev(3, 3, "{}")]).unwrap();
    ds.delete_bucket(&mut store, "b3").unwrap();
    let reloaded = DatastoreInstance::new(&mut store).unwrap();
    let mut live = ds.get_buckets();
    let mut fresh = reloaded.get_buckets();
    live.sort_by(|a, b| a.id.cmp(&b.id));
    fresh.sort_by(|a, b| a.id.cmp(&b.id));
    assert_eq!(live, fresh);
    assert_eq!(live[0].metadata, BucketMetadata { start: Some(5), end: Some(107) });
}

#[test]
fn insert_no_events_is_ok_and_changes_nothing() {
    let (mut store, mut ds) = open();
    ds.create_bucket(&mut store, bucket("b1")).unwrap();
    let before = ds.get_bucket("b1").unwrap();
    assert_eq!(ds.insert_events(&mut store, "b1", vec![]), Ok(vec![]));
    assert_eq!(ds.get_bucket("b1").unwrap(), before);
}

#[test]
fn corrupt_bucket_row_fails_the_load() {
    let mut ds = DatastoreInstance::empty(false);
    let good = StoredBucketRow {
        bid: 1,
        id: "b1".to_string(),
        _type: "t".to_string(),
        client: "c".to_string(),
        hostname: "h".to_string(),
        created: Some(5),
        min_start: Some(1),
        max_end: Some(9),
        data: "{}".to_string(),
    };
    let mut bad = good.clone();
    bad.id = "b2".to_string();
    bad.data = "{broken".to_string();
    assert!(matches!(ds.load_rows(&vec![good.clone(), bad]), Err(DatastoreError::InternalError(_))));
    let mut ds2 = DatastoreInstance::empty(false);
    assert_eq!(ds2.load_rows(&vec![good]), Ok(()));
    let b = ds2.get_bucket("b1").unwrap();
    assert_eq!(b.metadata, BucketMetadata { start: Some(1), end: Some(9) });
    assert_eq!(b.bid, Some(1));
}

#[test]
fn opening_flags_import_only_for_uninitialized_store() {
    let mut store = MemStore::default();
    let ds = DatastoreInstance::open_at_version(&mut store, 0).unwrap();
    let mut ds = ds;
    assert_eq!(ds.ensure_legacy_import(&mut store), Ok(true));
    let mut store2 = MemStore { version: 1, ..MemStore::default() };
    let mut ds2 = DatastoreInstance::open_at_version(&mut store2, 1).unwrap();
    assert_eq!(ds2.ensure_legacy_import(&mut store2), Ok(false));
    assert_eq!(store2.version, 3);
    let mut store3 = MemStore { version: 3, ..MemStore::default() };
    assert_eq!(migrate_and_flag(&mut store3, 3), Ok(false));
    assert!(store3.statements.is_empty());
}

#[test]
fn migration_statements_per_step() {
    assert_eq!(migration_statements(1).len(), 6);
    assert_eq!(migration_statements(2), vec![SchemaStatement::AddBucketDataColumn]);
    assert_eq!(
        migration_statements(3),
        vec![SchemaStatement::RenameBucketDataColumn, SchemaStatement::AddBucketDataColumnNotNull]
    );
    assert!(migration_statements(4).is_empty());
}

#[test]
fn rename_reporting_rows_is_tolerated_only_for_rename() {
    assert_eq!(statement_outcome(SchemaStatement::RenameBucketDataColumn, Ok(())), Ok(()));
    assert_eq!(
        statement_outcome(SchemaStatement::RenameBucketDataColumn, Err(StoreError::ExecuteReturnedResults)),
        Ok(())
    );
    assert!(matches!(
        statement_outcome(SchemaStatement::AddBucketDataColumn, Err(StoreError::ExecuteReturnedResults)),
        Err(DatastoreError::InternalError(_))
    ));
    assert!(matches!(
        statement_outcome(SchemaStatement::RenameBucketDataColumn, Err(StoreError::Failure("x".to_string()))),
        Err(DatastoreError::InternalError(_))
    ));
}

#[test]
fn range_query_limit_is_applied_to_store_answer() {
    let (mut store, mut ds) = open();
    ds.create_bucket(&mut store, bucket("b1")).unwrap();
    ds.insert_events(&mut store, "b1", vec![ev(0, 5, "{}"), ev(10, 5, "{}"), ev(20, 5, "{}")]).unwrap();
    let r = ds.get_events(&store, "b1", None, None, Some(0)).unwrap();
    assert!(r.is_empty());
    let r = ds.get_events(&store, "b1", None, None, Some(10)).unwrap();
    assert_eq!(r.len(), 3);
}
