//! The append-only schema log that gates access to a stored table.
use vstd::prelude::*;

verus! {

/// The schema version this library reads and writes.
pub const SCHEMA_VERSION: u32 = 1;

/// One row of the schema log.
#[derive(Clone, Copy)]
pub struct SchemaEntry {
    pub version: u32,
    pub updated_at: i64,
}

/// Entry `i` is the latest of the log: none is newer, and among the newest
/// it was appended last.
pub open spec fn is_latest(log: Seq<SchemaEntry>, i: int) -> bool {
    &&& 0 <= i < log.len()
    &&& forall|j: int| 0 <= j < log.len() ==> #[trigger] log[j].updated_at <= log[i].updated_at
    &&& forall|j: int| i < j < log.len() ==> #[trigger] log[j].updated_at < log[i].updated_at
}

/// The version of the latest entry; `None` for an empty log.
pub fn latest_version(log: &Vec<SchemaEntry>) -> (r: Option<u32>)
    ensures
        match r {
            Some(v) => exists|i: int| is_latest(log@, i) && #[trigger] log@[i].version == v,
            None => log@.len() == 0,
        },
{
    if log.len() == 0 {
        return None;
    }
    let mut best: usize = 0;
    let mut i: usize = 1;
    while i < log.len()
        invariant
            0 <= best < i <= log@.len(),
            forall|j: int| 0 <= j < i ==> #[trigger] log@[j].updated_at <= log@[best as int].updated_at,
            forall|j: int| best < j < i ==> #[trigger] log@[j].updated_at < log@[best as int].updated_at,
        decreases log@.len() - i,
    {
        if log[i].updated_at >= log[best].updated_at {
            best = i;
        }
        i = i + 1;
    }
    assert(is_latest(log@, best as int));
    Some(log[best].version)
}

/// The version that the log's latest entry records, if any.
pub open spec fn current_version(log: Seq<SchemaEntry>) -> Option<u32> {
    if log.len() == 0 {
        None
    } else {
        Some(log[choose|i: int| is_latest(log, i)].version)
    }
}

/// At most one entry can be the latest.
pub proof fn lemma_latest_unique(log: Seq<SchemaEntry>, i: int, k: int)
    requires
        is_latest(log, i),
        is_latest(log, k),
    ensures
        i == k,
{
    if i < k {
        assert(log[k].updated_at < log[i].updated_at);
        assert(log[i].updated_at <= log[k].updated_at);
    } else if k < i {
        assert(log[i].updated_at < log[k].updated_at);
        assert(log[k].updated_at <= log[i].updated_at);
    }
}

/// Succeeds exactly when the latest entry records `SCHEMA_VERSION`.
pub fn confirm_version(log: &Vec<SchemaEntry>) -> (r: Result<(), crate::store::StoreError>)
    ensures
        match r {
            Ok(()) => current_version(log@) == Some(SCHEMA_VERSION),
            Err(crate::store::StoreError::MissingSchema) => current_version(log@) is None,
            Err(crate::store::StoreError::SchemaMismatch { expected, found }) => expected == SCHEMA_VERSION
                && found != SCHEMA_VERSION && current_version(log@) == Some(found),
            Err(_) => false,
        },
{
    match latest_version(log) {
        None => Err(crate::store::StoreError::MissingSchema),
        Some(v) => {
            proof {
                let i = choose|i: int| is_latest(log@, i) && #[trigger] log@[i].version == v;
                let k = choose|k: int| is_latest(log@, k);
                lemma_latest_unique(log@, i, k);
            }
            if v == SCHEMA_VERSION {
                Ok(())
            } else {
                Err(crate::store::StoreError::SchemaMismatch { expected: SCHEMA_VERSION, found: v })
            }
        },
    }
}

/// The log that initialization writes into a new store.
pub fn initial_log(now: i64) -> (r: Vec<SchemaEntry>)
    ensures
        r@ == seq![SchemaEntry { version: SCHEMA_VERSION, updated_at: now }],
{
    let mut r: Vec<SchemaEntry> = Vec::new();
    r.push(SchemaEntry { version: SCHEMA_VERSION, updated_at: now });
    assert(r@ =~= seq![SchemaEntry { version: SCHEMA_VERSION, updated_at: now }]);
    r
}

} // verus!
