use vstd::prelude::*;
use crate::datastore::{DatastoreError, EventStore, SchemaStatement, StoreError, store_error_detail};

verus! {

/// The schema version this library reads and writes.
pub const CURRENT_VERSION: i64 = 3;

/// The versions that migrating a store at `version` passes through, in
/// ascending order: each one is set after its step succeeds. A store that
/// was never initialized counts as version 0.
pub open spec fn migration_targets(version: int) -> Seq<int> {
    let from = if version < 0 { 0 } else { version };
    if from >= CURRENT_VERSION {
        Seq::empty()
    } else {
        Seq::new((CURRENT_VERSION - from) as nat, |i: int| from + 1 + i)
    }
}

/// The version a store at `version` has once every pending step ran.
pub open spec fn migrated_version(version: int) -> int {
    if version >= CURRENT_VERSION {
        version
    } else {
        CURRENT_VERSION as int
    }
}

/// A store at any version is brought to the current one, one version at a
/// time, and a store brought up to date has no step left: migrating it again
/// changes nothing.
pub proof fn lemma_migration_idempotent(version: int)
    ensures
        migration_targets(migrated_version(version)).len() == 0,
        version < CURRENT_VERSION ==> migration_targets(version).len() > 0
            && migration_targets(version).last() == CURRENT_VERSION,
        forall|i: int|
            0 < i < migration_targets(version).len() ==> #[trigger] migration_targets(version)[i]
                == migration_targets(version)[i - 1] + 1,
{
}

/// The versions a store at `version` is migrated through.
pub fn migration_plan(version: i64) -> (r: Vec<i64>)
    ensures
        r@.len() == migration_targets(version as int).len(),
        forall|i: int| 0 <= i < r@.len() ==> r@[i] == migration_targets(version as int)[i],
{
    let mut plan: Vec<i64> = Vec::new();
    let from: i64 = if version < 0 { 0 } else { version };
    let mut v: i64 = from;
    while v < CURRENT_VERSION
        invariant
            from <= v,
            from < CURRENT_VERSION ==> v <= CURRENT_VERSION,
            from >= CURRENT_VERSION ==> v == from,
            plan@.len() == v - from,
            forall|i: int| 0 <= i < plan@.len() ==> plan@[i] == from + 1 + i,
        decreases CURRENT_VERSION - v,
    {
        v = v + 1;
        plan.push(v);
    }
    plan
}

/// The statements of the migration step that ends at version `target`.
pub open spec fn statements_for(target: int) -> Seq<SchemaStatement> {
    if target == 1 {
        seq![
            SchemaStatement::CreateBucketsTable,
            SchemaStatement::CreateBucketsIndex,
            SchemaStatement::CreateEventsTable,
            SchemaStatement::CreateEventsBucketrowIndex,
            SchemaStatement::CreateEventsStarttimeIndex,
            SchemaStatement::CreateEventsEndtimeIndex,
        ]
    } else if target == 2 {
        seq![SchemaStatement::AddBucketDataColumn]
    } else if target == 3 {
        seq![SchemaStatement::RenameBucketDataColumn, SchemaStatement::AddBucketDataColumnNotNull]
    } else {
        Seq::empty()
    }
}

/// The statements of the migration step that ends at version `target`.
pub fn migration_statements(target: i64) -> (r: Vec<SchemaStatement>)
    ensures
        r@ == statements_for(target as int),
{
    let mut v: Vec<SchemaStatement> = Vec::new();
    if target == 1 {
        v.push(SchemaStatement::CreateBucketsTable);
        v.push(SchemaStatement::CreateBucketsIndex);
        v.push(SchemaStatement::CreateEventsTable);
        v.push(SchemaStatement::CreateEventsBucketrowIndex);
        v.push(SchemaStatement::CreateEventsStarttimeIndex);
        v.push(SchemaStatement::CreateEventsEndtimeIndex);
    } else if target == 2 {
        v.push(SchemaStatement::AddBucketDataColumn);
    } else if target == 3 {
        v.push(SchemaStatement::RenameBucketDataColumn);
        v.push(SchemaStatement::AddBucketDataColumnNotNull);
    }
    assert(v@ =~= statements_for(target as int));
    v
}

/// Whether the result of a schema statement lets the migration go on. A
/// rename of the data column that reports rows still did its work.
pub fn statement_outcome(statement: SchemaStatement, res: Result<(), StoreError>) -> (r: Result<
    (),
    DatastoreError,
>)
    ensures
        r is Ok <==> (res is Ok || (statement == SchemaStatement::RenameBucketDataColumn
            && res matches Err(StoreError::ExecuteReturnedResults))),
        r is Err ==> r->Err_0 is InternalError,
{
    match res {
        Ok(()) => Ok(()),
        Err(StoreError::ExecuteReturnedResults) => {
            if statement == SchemaStatement::RenameBucketDataColumn {
                Ok(())
            } else {
                Err(store_error_detail(StoreError::ExecuteReturnedResults))
            }
        },
        Err(err) => Err(store_error_detail(err)),
    }
}

/// Runs the migration step that ends at version `target`: its statements in
/// order, then the version update. A failure is fatal.
pub fn migrate_to<S: EventStore>(store: &mut S, target: i64) -> (r: Result<(), DatastoreError>)
    ensures
        r is Err ==> r->Err_0 is InternalError,
{
    let statements = migration_statements(target);
    let mut i: usize = 0;
    while i < statements.len()
        decreases statements@.len() - i,
    {
        let statement = statements[i];
        let res = store.execute_schema(statement);
        statement_outcome(statement, res)?;
        i = i + 1;
    }
    match store.set_user_version(target) {
        Ok(()) => Ok(()),
        Err(err) => Err(store_error_detail(err)),
    }
}

/// Creates the bucket and event tables and their indices.
pub fn migrate_v0_to_v1<S: EventStore>(store: &mut S) -> (r: Result<(), DatastoreError>)
    ensures
        r is Err ==> r->Err_0 is InternalError,
{
    migrate_to(store, 1)
}

/// Adds the data column to the bucket table.
pub fn migrate_v1_to_v2<S: EventStore>(store: &mut S) -> (r: Result<(), DatastoreError>)
    ensures
        r is Err ==> r->Err_0 is InternalError,
{
    migrate_to(store, 2)
}

/// Replaces the bucket data column by a non-null one; the old column is kept
/// under a deprecated name.
pub fn migrate_v2_to_v3<S: EventStore>(store: &mut S) -> (r: Result<(), DatastoreError>)
    ensures
        r is Err ==> r->Err_0 is InternalError,
{
    migrate_to(store, 3)
}

/// Applies, in ascending order, the migration steps a store at `version`
/// still needs. A store already at the current version is left untouched.
pub fn migrate_from<S: EventStore>(store: &mut S, version: i64) -> (r: Result<(), DatastoreError>)
    ensures
        version >= CURRENT_VERSION ==> r is Ok && *final(store) == *old(store),
        r is Err ==> r->Err_0 is InternalError,
{
    let plan = migration_plan(version);
    let mut i: usize = 0;
    while i < plan.len()
        invariant
            i <= plan@.len(),
            version >= CURRENT_VERSION ==> plan@.len() == 0 && *store == *old(store),
        decreases plan@.len() - i,
    {
        migrate_to(store, plan[i])?;
        i = i + 1;
    }
    Ok(())
}

/// Migrates a store found at `version`; the result says whether the store
/// was uninitialized, which leaves the legacy import pending.
pub fn migrate_and_flag<S: EventStore>(store: &mut S, version: i64) -> (r: Result<bool, DatastoreError>)
    ensures
        r is Ok ==> r->Ok_0 == (version < 1),
        version >= CURRENT_VERSION ==> r == Ok::<bool, DatastoreError>(false) && *final(store)
            == *old(store),
        r is Err ==> r->Err_0 is InternalError,
{
    let first_init = version < 1;
    migrate_from(store, version)?;
    Ok(first_init)
}

/// Reads the stored schema version and brings the store to the current one;
/// the result says whether the store was uninitialized.
pub fn create_tables<S: EventStore>(store: &mut S) -> (r: Result<bool, DatastoreError>)
    ensures
        r is Err ==> r->Err_0 is InternalError,
{
    let version = match store.user_version() {
        Ok(v) => v,
        Err(err) => return Err(store_error_detail(err)),
    };
    migrate_and_flag(store, version)
}

} // verus!
