//! The execution history table: its statements, and the statement that
//! deletes records by start time.
use vstd::prelude::*;

use crate::text::{decimal, decimal_string, join, join_strings, views};

verus! {

broadcast use vstd::string::group_string_axioms;

/// Creates the history table when it does not exist.
pub const CREATE_TABLE_SQL: &'static str = "CREATE TABLE IF NOT EXISTS execution_history (
                id INTEGER PRIMARY KEY AUTOINCREMENT,
                task_name TEXT NOT NULL,
                status TEXT NOT NULL,
                executed_at TEXT NOT NULL,
                completed_at TEXT,
                duration_ms INTEGER NOT NULL DEFAULT 0,
                articles_count INTEGER NOT NULL DEFAULT 0,
                error_message TEXT,
                digest_content TEXT
            )";

/// Probes for the `completed_at` column.
pub const PROBE_COMPLETED_AT_SQL: &'static str = "SELECT completed_at FROM execution_history LIMIT 0";

/// Adds the `completed_at` column.
pub const ADD_COMPLETED_AT_SQL: &'static str = "ALTER TABLE execution_history ADD COLUMN completed_at TEXT";

/// Fills `completed_at` of older records with their start time.
pub const BACKFILL_COMPLETED_AT_SQL: &'static str = "UPDATE execution_history SET completed_at = executed_at WHERE completed_at IS NULL";

/// Inserts a record.
pub const INSERT_SQL: &'static str = "INSERT INTO execution_history (task_name, status, executed_at, completed_at, duration_ms, articles_count, error_message, digest_content)
             VALUES (?1, ?2, ?3, ?4, ?5, ?6, ?7, ?8)";

/// Updates a record's outcome by row id.
pub const UPDATE_SQL: &'static str = "UPDATE execution_history SET status = ?1, completed_at = ?2, duration_ms = ?3, articles_count = ?4, error_message = ?5, digest_content = ?6 WHERE id = ?7";

/// Reads the newest records, newest first.
pub const SELECT_HISTORY_SQL: &'static str = "SELECT task_name, status, executed_at, duration_ms, articles_count, error_message, digest_content, completed_at
             FROM execution_history ORDER BY id DESC LIMIT ?1";

/// Reads one record's digest.
pub const SELECT_CONTENT_SQL: &'static str = "SELECT digest_content FROM execution_history WHERE id = ?1";

/// Deletes every record.
pub const CLEAR_SQL: &'static str = "DELETE FROM execution_history";

/// The numbered parameters `?1` … `?n`.
pub open spec fn placeholders(n: nat) -> Seq<Seq<char>> {
    Seq::new(n, |i: int| "?"@ + decimal((i + 1) as nat))
}

/// The statement deleting the records that started at any of `n` given
/// times.
pub open spec fn delete_by_times_sql(n: nat) -> Seq<char> {
    "DELETE FROM execution_history WHERE executed_at IN ("@ + join(placeholders(n), ", "@) + ")"@
}

/// Builds the statement deleting records by `count` start times.
pub fn delete_by_timestamps_sql(count: usize) -> (sql: String)
    ensures
        sql@ == delete_by_times_sql(count as nat),
{
    let ghost target = placeholders(count as nat);
    let mut ps: Vec<String> = Vec::new();
    let mut i: usize = 0;
    while i < count
        invariant
            i <= count,
            target == placeholders(count as nat),
            views(ps@) == target.take(i as int),
        decreases count - i,
    {
        let ghost prev = views(ps@);
        let mut p = String::from_str("?");
        let digits = decimal_string((i + 1) as u64);
        p.append(digits.as_str());
        ps.push(p);
        assert(views(ps@) == prev.push(p@));
        assert(target.take(i + 1) == target.take(i as int).push(target[i as int]));
        i += 1;
    }
    assert(target.take(count as int) == target);
    let list = join_strings(&ps, ", ");
    let mut sql = String::from_str("DELETE FROM execution_history WHERE executed_at IN (");
    sql.append(list.as_str());
    sql.append(")");
    sql
}

} // verus!
