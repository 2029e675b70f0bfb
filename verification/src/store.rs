//! The durable store behind the local scoreboard: one SQLite table, reached
//! through rusqlite. Every call into rusqlite stands behind a trusted wrapper
//! whose contract speaks of `store_rows`, the mathematical contents of the
//! `scoreboard` table.

use vstd::prelude::*;
use vstd::multiset::Multiset;

use crate::scoreboard::ScoreView;
use crate::scoreboard::ScoreboardError;
use crate::scoreboard::sorted_desc;

verus! {

#[verifier::external_type_specification]
#[verifier::external_body]
pub struct ExConnection(rusqlite::Connection);

/// The rows of the `scoreboard` table held by a store connection, each row as
/// its view (name, score, when-text); empty while the table does not exist.
/// The model assumes the columns hold values of their declared types, as every
/// row this library writes does, and that the connection is the store's only
/// writer, as the design requires.
pub uninterp spec fn store_rows(c: rusqlite::Connection) -> Multiset<ScoreView>;

/// Whether a stored row carries exactly this name, score and timestamp.
pub open spec fn row_matches(v: ScoreView, name: Seq<char>, score: int, when: Seq<char>) -> bool {
    v.name == name && v.score == score && v.when == when
}

/// Views of raw (name, score, when) rows as the store hands them out.
pub open spec fn row_views(s: Seq<(String, i64, String)>) -> Seq<ScoreView> {
    s.map_values(
        (|t: (String, i64, String)| ScoreView { name: t.0@, score: t.1 as int, when: t.2@ }),
    )
}

/// The smaller of a capacity and a row count.
pub open spec fn capped(n: usize, len: nat) -> nat {
    if len <= n { len } else { n as nat }
}

/// Relies on rusqlite's `Connection::open`: opens or creates the database file
/// at `path`. The rows found there are whatever the file already holds, so
/// nothing is promised of the new connection's contents.
#[verifier::external_body]
pub(crate) fn open_connection(path: &str) -> (r: Result<
    rusqlite::Connection,
    ScoreboardError,
>) {
    rusqlite::Connection::open(path).map_err(
        |e| ScoreboardError::Store { msg: format!("{}", e) },
    )
}

/// Relies on rusqlite's `Connection::execute` running
/// `CREATE TABLE IF NOT EXISTS`: it never adds or removes rows — a missing
/// table (no rows) becomes an empty one.
#[verifier::external_body]
pub(crate) fn ensure_table(conn: &mut rusqlite::Connection) -> (r: Result<(), ScoreboardError>)
    ensures
        r is Ok ==> store_rows(*final(conn)) == store_rows(*old(conn)),
        r matches Err(e) ==> e is Store,
{
    conn.execute(
        "CREATE TABLE IF NOT EXISTS scoreboard (id INTEGER PRIMARY KEY, name TEXT NOT NULL, score INTEGER NOT NULL, \"when\" TEXT NOT NULL)",
        (),
    ).map(|_| ()).map_err(|e| ScoreboardError::Store { msg: format!("{}", e) })
}

/// Relies on rusqlite's `Connection::execute` running a `DELETE` whose
/// subquery keeps the `n` rows with the greatest scores (ties picked
/// arbitrarily): what remains is a sub-multiset of the old rows, as many as
/// were there but at most `n`, and every kept row scores at least as much as
/// every deleted one.
#[verifier::external_body]
pub(crate) fn trim_to_top(conn: &mut rusqlite::Connection, n: usize) -> (r: Result<
    (),
    ScoreboardError,
>)
    requires
        n as nat <= i64::MAX as nat,
    ensures
        r is Ok ==> store_rows(*final(conn)).subset_of(store_rows(*old(conn))),
        r is Ok ==> store_rows(*final(conn)).len() == capped(n, store_rows(*old(conn)).len()),
        r is Ok ==> forall|a: ScoreView, b: ScoreView|
            #[trigger] store_rows(*final(conn)).contains(a) && #[trigger] store_rows(
                *old(conn),
            ).difference_with(store_rows(*final(conn))).contains(b) ==> a.score >= b.score,
        r matches Err(e) ==> e is Store,
{
    conn.execute(
        "DELETE FROM scoreboard WHERE rowid NOT IN (SELECT rowid FROM scoreboard ORDER BY score DESC LIMIT (?1))",
        [n as i64],
    ).map(|_| ()).map_err(|e| ScoreboardError::Store { msg: format!("{}", e) })
}

/// Relies on rusqlite's `Connection::prepare` and `Statement::query_map`
/// running `SELECT ... ORDER BY score DESC LIMIT n`: the returned rows are
/// among the stored ones, sorted best-to-worst, as many as stored but at most
/// `n` — in particular, all of them when at most `n` are stored.
#[verifier::external_body]
pub(crate) fn select_top(conn: &rusqlite::Connection, n: usize) -> (r: Result<
    Vec<(String, i64, String)>,
    ScoreboardError,
>)
    requires
        n as nat <= i64::MAX as nat,
    ensures
        r matches Ok(rows) ==> row_views(rows@).to_multiset().subset_of(store_rows(*conn)),
        r matches Ok(rows) ==> rows@.len() == capped(n, store_rows(*conn).len()),
        r matches Ok(rows) ==> sorted_desc(row_views(rows@)),
        r matches Ok(rows) ==> (store_rows(*conn).len() <= n as nat ==> row_views(
            rows@,
        ).to_multiset() == store_rows(*conn)),
        r matches Err(e) ==> e is Store,
{
    conn.prepare("SELECT name, score, \"when\" FROM scoreboard ORDER BY score DESC LIMIT (?1)")
        .and_then(|mut stmt| {
            stmt.query_map([n as i64], |row| Ok((row.get(0)?, row.get(1)?, row.get(2)?)))
                .and_then(|rows| rows.collect::<rusqlite::Result<Vec<(String, i64, String)>>>())
        })
        .map_err(|e| ScoreboardError::Store { msg: format!("{}", e) })
}

/// Relies on rusqlite's `Connection::execute` running a `DELETE` keyed on all
/// three value columns: every row matching the triple exactly is removed, and
/// no other.
#[verifier::external_body]
pub(crate) fn delete_matching(
    conn: &mut rusqlite::Connection,
    name: &str,
    score: i64,
    when: &str,
) -> (r: Result<(), ScoreboardError>)
    ensures
        r is Ok ==> store_rows(*final(conn)) == store_rows(*old(conn)).filter(
            (|v: ScoreView| !row_matches(v, name@, score as int, when@)),
        ),
        r matches Err(e) ==> e is Store,
{
    conn.execute(
        "DELETE FROM scoreboard WHERE name = (?1) AND score = (?2) AND \"when\" = (?3)",
        (name, score, when),
    ).map(|_| ()).map_err(|e| ScoreboardError::Store { msg: format!("{}", e) })
}

/// Relies on rusqlite's `Connection::execute` running an `INSERT`: exactly one
/// row with the given values is added.
#[verifier::external_body]
pub(crate) fn insert_row(
    conn: &mut rusqlite::Connection,
    name: &str,
    score: i64,
    when: &str,
) -> (r: Result<(), ScoreboardError>)
    ensures
        r is Ok ==> store_rows(*final(conn)) == store_rows(*old(conn)).insert(
            (ScoreView { name: name@, score: score as int, when: when@ }),
        ),
        r matches Err(e) ==> e is Store,
{
    conn.execute(
        "INSERT INTO scoreboard (name, score, \"when\") VALUES ((?1), (?2), (?3))",
        (name, score, when),
    ).map(|_| ()).map_err(|e| ScoreboardError::Store { msg: format!("{}", e) })
}

} // verus!
