use jcblocktui::scoreboard::LocalScoreBoard;
use jcblocktui::scoreboard::ScoreboardError;

// Each test keeps one guard connection open to a shared in-memory database,
// so the store outlives the scoreboards that are built over the same URI.

fn open_guard(uri: &str) -> rusqlite::Connection {
    rusqlite::Connection::open(uri).unwrap()
}

fn create_table(conn: &rusqlite::Connection) {
    conn.execute(
        "CREATE TABLE IF NOT EXISTS scoreboard (id INTEGER PRIMARY KEY, name TEXT NOT NULL, score INTEGER NOT NULL, \"when\" TEXT NOT NULL)",
        (),
    )
    .unwrap();
}

fn row_count(conn: &rusqlite::Connection) -> i64 {
    conn.query_row("SELECT COUNT(*) FROM scoreboard", (), |row| row.get(0))
        .unwrap()
}

#[test]
fn empty_store_empty_board() {
    let uri = "file:durable_empty?mode=memory&cache=shared";
    let _guard = open_guard(uri);
    let board = LocalScoreBoard::new(5, uri).unwrap();
    assert!(board.first().is_none());
    assert!(board.last().is_none());
    assert!(board.all().is_empty());
}

#[test]
fn construction_trims_store_to_top_scores() {
    let uri = "file:durable_trim?mode=memory&cache=shared";
    let guard = open_guard(uri);
    create_table(&guard);
    for (name, score) in [
        ("a", 10i64),
        ("b", 40),
        ("c", 20),
        ("d", 70),
        ("e", 30),
        ("f", 60),
        ("g", 50),
    ] {
        guard
            .execute(
                "INSERT INTO scoreboard (name, score, \"when\") VALUES ((?1), (?2), (?3))",
                (name, score, "2020-01-01T00:00:00+00:00"),
            )
            .unwrap();
    }
    let board = LocalScoreBoard::new(5, uri).unwrap();
    assert_eq!(row_count(&guard), 5);
    let scores: Vec<i64> = board.all().iter().map(|h| h.score).collect();
    assert_eq!(scores, vec![70, 60, 50, 40, 30]);
    assert_eq!(board.first().unwrap().name, "d");
    assert_eq!(board.last().unwrap().name, "e");
}

#[test]
fn round_trip_through_store() {
    let uri = "file:durable_roundtrip?mode=memory&cache=shared";
    let _guard = open_guard(uri);
    {
        let mut board = LocalScoreBoard::new(5, uri).unwrap();
        assert_eq!(board.add("A", 100).unwrap(), true);
    }
    let board = LocalScoreBoard::new(5, uri).unwrap();
    let best = board.first().unwrap();
    assert_eq!(best.name, "A");
    assert_eq!(best.score, 100);
    assert_eq!(board.all().len(), 1);
}

#[test]
fn add_mirrors_cache_mutations_into_store() {
    let uri = "file:durable_mirror?mode=memory&cache=shared";
    let guard = open_guard(uri);
    let mut board = LocalScoreBoard::new(2, uri).unwrap();
    assert_eq!(board.add("a", 1).unwrap(), true);
    assert_eq!(row_count(&guard), 1);
    assert_eq!(board.add("b", 2).unwrap(), true);
    assert_eq!(board.add("c", 3).unwrap(), true);
    let mut stored: Vec<(String, i64)> = guard
        .prepare("SELECT name, score FROM scoreboard ORDER BY score DESC")
        .unwrap()
        .query_map((), |row| Ok((row.get(0)?, row.get(1)?)))
        .unwrap()
        .collect::<rusqlite::Result<Vec<_>>>()
        .unwrap();
    stored.sort();
    assert_eq!(stored, vec![("b".to_string(), 2), ("c".to_string(), 3)]);
}

#[test]
fn full_board_rejection_leaves_store_alone() {
    let uri = "file:durable_reject?mode=memory&cache=shared";
    let guard = open_guard(uri);
    let mut board = LocalScoreBoard::new(2, uri).unwrap();
    assert_eq!(board.add("a", 5).unwrap(), true);
    assert_eq!(board.add("b", 4).unwrap(), true);
    let before = row_count(&guard);
    assert_eq!(board.add("c", 1).unwrap(), false);
    assert_eq!(row_count(&guard), before);
    assert_eq!(board.all().len(), 2);
}

#[test]
fn unparseable_timestamp_fails_load() {
    let uri = "file:durable_badwhen?mode=memory&cache=shared";
    let guard = open_guard(uri);
    create_table(&guard);
    guard
        .execute(
            "INSERT INTO scoreboard (name, score, \"when\") VALUES ((?1), (?2), (?3))",
            ("a", 10i64, "not-a-timestamp"),
        )
        .unwrap();
    let result = LocalScoreBoard::new(5, uri);
    assert!(matches!(
        result,
        Err(ScoreboardError::InvalidTimestamp { .. })
    ));
}

#[test]
fn unusable_store_path_fails_construction() {
    let result = LocalScoreBoard::new(5, "/nonexistent-dir-for-scores/scores.db");
    assert!(matches!(result, Err(ScoreboardError::Store { .. })));
}

#[test]
fn stored_rows_survive_for_reload_after_eviction() {
    let uri = "file:durable_evict_reload?mode=memory&cache=shared";
    let _guard = open_guard(uri);
    {
        let mut board = LocalScoreBoard::new(3, uri).unwrap();
        assert_eq!(board.add("low", 1).unwrap(), true);
        assert_eq!(board.add("mid", 50).unwrap(), true);
        assert_eq!(board.add("high", 99).unwrap(), true);
    }
    let board = LocalScoreBoard::new(3, uri).unwrap();
    assert_eq!(board.first().unwrap().name, "high");
    assert_eq!(board.first().unwrap().score, 99);
}
