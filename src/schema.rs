use vstd::prelude::*;

verus! {

/// Connection settings applied once per open: referential integrity on,
/// write-ahead logging, normal synchronous durability.
pub const PRAGMAS: &'static str = "
    PRAGMA foreign_keys = ON;
    PRAGMA journal_mode = WAL;
    PRAGMA synchronous = NORMAL;
";

/// Creates the table that records applied migrations.
pub const MIGRATIONS_TABLE: &'static str = "CREATE TABLE IF NOT EXISTS schema_migrations (
    version INTEGER PRIMARY KEY
)";

/// Number of known migrations; ordinals run from 1 to this.
pub const MIGRATION_COUNT: u32 = 2;

/// Migration 1: the entries table keyed by version and date, indexed on date.
pub const CREATE_ENTRIES: &'static str = "CREATE TABLE IF NOT EXISTS diary_entries (
    exec_version INTEGER NOT NULL,
    date TEXT NOT NULL,
    content TEXT NOT NULL,
    created_at TEXT NOT NULL,
    updated_at TEXT,
    PRIMARY KEY (exec_version, date)
);

CREATE INDEX IF NOT EXISTS idx_diary_entries_date
ON diary_entries(date);";

/// Migration 2: the metadata table, removed with its entry.
pub const CREATE_METADATA: &'static str = "CREATE TABLE IF NOT EXISTS entry_metadata (
    entry_id INTEGER PRIMARY KEY,
    exec_version INTEGER NOT NULL,
    date TEXT NOT NULL,
    word_count INTEGER NOT NULL,
    FOREIGN KEY (exec_version, date)
    REFERENCES diary_entries(exec_version, date)
    ON DELETE CASCADE
);";

/// The statements of migration `ordinal`.
pub fn migration_sql(ordinal: u32) -> (r: &'static str)
    requires
        1 <= ordinal <= MIGRATION_COUNT,
    ensures
        ordinal == 1 ==> r@ == CREATE_ENTRIES@,
        ordinal == 2 ==> r@ == CREATE_METADATA@,
{
    if ordinal == 1 {
        CREATE_ENTRIES
    } else {
        CREATE_METADATA
    }
}

/// The first ordinal not yet applied when the store is at schema version `current`.
pub open spec fn first_pending(current: int) -> int {
    if current < 0 {
        1
    } else {
        current + 1
    }
}

/// The migrations to apply, in ascending order, to a store at schema version
/// `current`: every ordinal above `current`, up to the last known one.
pub fn pending_migrations(current: i64) -> (r: Vec<u32>)
    ensures
        r@.len() == if first_pending(current as int) > MIGRATION_COUNT {
            0
        } else {
            MIGRATION_COUNT - first_pending(current as int) + 1
        },
        forall|i: int| 0 <= i < r@.len() ==> r@[i] == first_pending(current as int) + i,
{
    let mut out: Vec<u32> = Vec::new();
    let mut ord: u32 = 1;
    while ord <= MIGRATION_COUNT
        invariant
            1 <= ord <= MIGRATION_COUNT + 1,
            out@.len() == if first_pending(current as int) >= ord {
                0
            } else {
                ord - first_pending(current as int)
            },
            forall|i: int| 0 <= i < out@.len() ==> out@[i] == first_pending(current as int) + i,
        decreases MIGRATION_COUNT + 1 - ord,
    {
        if ord as i64 > current {
            out.push(ord);
        }
        ord = ord + 1;
    }
    out
}

} // verus!
