//! The schema and its ordered migrations.
//!
//! The version lives in the database file itself (`PRAGMA user_version`). The
//! migrations are append-only: index + 1 is the version they bring.

use vstd::prelude::*;

use crate::ports::storage::StorageError;
use crate::text::{chars_of, decimal_of, decimal_text, owned};

verus! {

/// Version 1: tasks, steps, the current position (a table that can hold one
/// row only) and settings. No path deletes a task or a step.
pub const V1: &'static str = "\
CREATE TABLE task (
    id    TEXT PRIMARY KEY NOT NULL,
    title TEXT NOT NULL
) STRICT;

CREATE TABLE step (
    id                TEXT PRIMARY KEY NOT NULL,
    task_id           TEXT NOT NULL REFERENCES task(id),
    ordinal           INTEGER NOT NULL,
    content           TEXT NOT NULL,
    completed_at      TEXT,
    interruption_note TEXT
) STRICT;

CREATE INDEX step_by_task ON step(task_id, ordinal);

CREATE TABLE current_position (
    id           INTEGER PRIMARY KEY NOT NULL CHECK (id = 1),
    task_id      TEXT NOT NULL REFERENCES task(id),
    step_id      TEXT NOT NULL REFERENCES step(id),
    is_active    INTEGER NOT NULL CHECK (is_active IN (0, 1)),
    activated_at TEXT NOT NULL
) STRICT;

CREATE TABLE setting (
    key   TEXT PRIMARY KEY NOT NULL,
    value TEXT NOT NULL
) STRICT;
";

/// The migrations in order; append only.
pub const MIGRATIONS: [&'static str; 1] = [V1];

/// The version of the schema this code expects (the number of migrations).
pub const LATEST_VERSION: i64 = 1;

/// The migrations still to apply to a database at `user_version`, in order.
/// A database newer than this code (or with a negative version) gets nothing:
/// an old schema is never laid over a newer one.
pub fn pending(user_version: i64) -> (sql: Vec<&'static str>)
    ensures
        (0 <= user_version < LATEST_VERSION) ==> sql@ == MIGRATIONS@.subrange(
            user_version as int,
            MIGRATIONS@.len() as int,
        ),
        !(0 <= user_version < LATEST_VERSION) ==> sql@.len() == 0,
{
    let mut sql: Vec<&'static str> = Vec::new();
    if !(0 <= user_version && user_version < LATEST_VERSION) {
        return sql;
    }
    let migrations = MIGRATIONS;
    let mut i: usize = user_version as usize;
    while i < migrations.len()
        invariant
            migrations@ == MIGRATIONS@,
            0 <= user_version <= i <= migrations@.len(),
            sql@ == migrations@.subrange(user_version as int, i as int),
        decreases migrations.len() - i,
    {
        sql.push(migrations[i]);
        assert(sql@ =~= migrations@.subrange(user_version as int, i + 1));
        i = i + 1;
    }
    sql
}

/// Why a database at `user_version` cannot be brought up to date: a negative
/// version is no version, and one newer than this code is left alone rather
/// than overlaid with an old schema. `None` when the pending migrations apply.
pub open spec fn version_refusal(user_version: int) -> Option<Seq<char>> {
    if user_version < 0 {
        Some("保存された状態の版 "@ + decimal_of(user_version) + " は版番号として成立しない"@)
    } else if user_version > LATEST_VERSION {
        Some(
            "保存された状態の版 "@ + decimal_of(user_version) + " はこのアプリが知る版 "@ + decimal_of(
                LATEST_VERSION as int,
            ) + " より新しい"@,
        )
    } else {
        None
    }
}

/// The migrations to apply to a database at `user_version`, or the error that
/// refuses it (a refused database gets no table at all).
pub fn migration_plan(user_version: i64) -> (plan: Result<Vec<&'static str>, StorageError>)
    ensures
        match version_refusal(user_version as int) {
            Some(m) => plan matches Err(StorageError::Migration(t)) && t@ == m,
            None => plan matches Ok(sql) && sql@ == MIGRATIONS@.subrange(
                user_version as int,
                MIGRATIONS@.len() as int,
            ),
        },
{
    if user_version < 0 {
        let mut message = owned("保存された状態の版 ");
        message.append(decimal_text(user_version).as_str());
        message.append(" は版番号として成立しない");
        return Err(StorageError::Migration(message));
    }
    if user_version > LATEST_VERSION {
        let mut message = owned("保存された状態の版 ");
        message.append(decimal_text(user_version).as_str());
        message.append(" はこのアプリが知る版 ");
        message.append(decimal_text(LATEST_VERSION).as_str());
        message.append(" より新しい");
        return Err(StorageError::Migration(message));
    }
    let sql = pending(user_version);
    assert(sql@ =~= MIGRATIONS@.subrange(user_version as int, MIGRATIONS@.len() as int));
    Ok(sql)
}

/// The code of `c` with an ASCII capital letter made small (`to_ascii_lowercase`).
pub open spec fn ascii_lower(c: char) -> int {
    if 'A' <= c <= 'Z' {
        (c as int) + 32
    } else {
        c as int
    }
}

/// `a` and `b` are the same text but for the case of ASCII letters
/// (`str::eq_ignore_ascii_case`).
pub open spec fn same_ignoring_ascii_case(a: Seq<char>, b: Seq<char>) -> bool {
    a.len() == b.len() && forall|i: int| 0 <= i < a.len() ==> ascii_lower(#[trigger] a[i]) == ascii_lower(b[i])
}

/// The journal modes a configured connection may report: `wal` for a file,
/// `memory` for a database in memory (which cannot take WAL).
pub open spec fn journal_mode_ok(mode: Seq<char>) -> bool {
    same_ignoring_ascii_case(mode, "wal"@) || same_ignoring_ascii_case(mode, "memory"@)
}

fn same_ignoring_case(a: &Vec<char>, b: &str) -> (same: bool)
    ensures
        same == same_ignoring_ascii_case(a@, b@),
{
    let bc = chars_of(b);
    if a.len() != bc.len() {
        return false;
    }
    let mut i: usize = 0;
    while i < a.len()
        invariant
            a@.len() == bc@.len(),
            bc@ == b@,
            i <= a@.len(),
            forall|k: int| 0 <= k < i ==> ascii_lower(#[trigger] a@[k]) == ascii_lower(bc@[k]),
        decreases a.len() - i,
    {
        let (x, y) = (a[i], bc[i]);
        let same_letter = x == y || ('A' <= x && x <= 'Z' && 'a' <= y && y <= 'z' && (x as u32) + 32 == (
        y as u32)) || ('a' <= x && x <= 'z' && 'A' <= y && y <= 'Z' && (y as u32) + 32 == (x as u32));
        if !same_letter {
            assert(ascii_lower(a@[i as int]) != ascii_lower(bc@[i as int]));
            assert(!same_ignoring_ascii_case(a@, b@));
            return false;
        }
        i = i + 1;
    }
    true
}

/// Whether the journal mode a connection reports after asking for WAL is
/// accepted: WAL for a file, `memory` for a database in memory; any other
/// mode means the commits are not kept as they must be.
pub fn journal_mode_accepted(mode: &str) -> (accepted: bool)
    ensures
        accepted == journal_mode_ok(mode@),
{
    let chars = chars_of(mode);
    same_ignoring_case(&chars, "wal") || same_ignoring_case(&chars, "memory")
}

} // verus!
