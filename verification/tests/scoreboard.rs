use chrono::TimeZone;
use jcblocktui::scoreboard::HighScore;
use jcblocktui::scoreboard::MinimalScoreboard;

#[test]
fn score_comparison() {
    let a = HighScore::new(
        "Allison",
        100,
        &chrono::Utc
            .with_ymd_and_hms(2001, 01, 01, 0, 0, 0)
            .unwrap()
            .to_rfc3339(),
    );
    let b = HighScore::new(
        "Bob",
        90,
        &chrono::Utc
            .with_ymd_and_hms(2002, 02, 02, 0, 0, 0)
            .unwrap()
            .to_rfc3339(),
    );
    let c = HighScore::new(
        "Bob",
        90,
        &chrono::Utc
            .with_ymd_and_hms(2003, 01, 02, 0, 0, 0)
            .unwrap()
            .to_rfc3339(),
    );

    assert_ne!(a, b);
    assert_eq!(b, c);
}

#[test]
fn scoreboard_add() {
    let mut sb = MinimalScoreboard::new(3);
    sb.add("Allison", 2);
    sb.add("Bob", 1);
    sb.add("Charlie", 3);
    sb.add("David", 4);

    assert_eq!(sb.all().len(), 3);
    match sb.first() {
        Some(high_score) => {
            assert_eq!(high_score.score, 4);
            assert_eq!(high_score.name, "David");
        }
        None => {
            assert!(false);
        }
    }

    sb.add("Eddie", 10);
    assert_eq!(sb.all().len(), 3);
    match sb.first() {
        Some(high_score) => {
            assert_eq!(high_score.score, 10);
            assert_eq!(high_score.name, "Eddie");
        }
        None => {
            assert!(false);
        }
    }
}

#[test]
fn zero_capacity_retains_nothing() {
    let mut sb = MinimalScoreboard::new(0);
    assert!(!sb.add("Allison", 100));
    assert!(sb.all().is_empty());
    assert!(sb.first().is_none());
    assert!(sb.last().is_none());
}

#[test]
fn sorted_descending_and_bounded() {
    let mut sb = MinimalScoreboard::new(4);
    for (name, score) in [
        ("a", 3i64),
        ("b", 9),
        ("c", 1),
        ("d", 7),
        ("e", 5),
        ("f", 8),
    ] {
        sb.add(name, score);
        let all = sb.all();
        assert!(all.len() <= 4);
        for w in all.windows(2) {
            assert!(w[0].score >= w[1].score);
        }
    }
    let scores: Vec<i64> = sb.all().iter().map(|h| h.score).collect();
    assert_eq!(scores, vec![9, 8, 7, 5]);
}

#[test]
fn full_board_rejects_strictly_worse() {
    let mut sb = MinimalScoreboard::new(2);
    assert!(sb.add("a", 5));
    assert!(sb.add("b", 3));
    let before: Vec<(String, i64)> = sb
        .all()
        .iter()
        .map(|h| (h.name.clone(), h.score))
        .collect();
    assert!(!sb.add("c", 2));
    let after: Vec<(String, i64)> = sb
        .all()
        .iter()
        .map(|h| (h.name.clone(), h.score))
        .collect();
    assert_eq!(before, after);
}

#[test]
fn full_board_evicts_single_worst() {
    let mut sb = MinimalScoreboard::new(2);
    assert!(sb.add("a", 1));
    assert!(sb.add("b", 5));
    assert!(sb.add("c", 3));
    assert_eq!(sb.all().len(), 2);
    assert!(sb.all().iter().all(|h| h.score != 1));
    assert_eq!(sb.first().unwrap().score, 5);
    assert_eq!(sb.last().unwrap().score, 3);
}

#[test]
fn tying_score_evicts_previous_worst() {
    let mut sb = MinimalScoreboard::new(2);
    assert!(sb.add("a", 5));
    assert!(sb.add("b", 5));
    assert!(sb.add("c", 5));
    // the tying newcomer is retained; exactly one of the older records was
    // evicted (which one is unspecified for equal scores)
    assert_eq!(sb.all().len(), 2);
    assert!(sb.all().iter().any(|h| h.name == "c"));
    let older: usize = sb
        .all()
        .iter()
        .filter(|h| h.name == "a" || h.name == "b")
        .count();
    assert_eq!(older, 1);
}

#[test]
fn init_truncates_before_sorting() {
    let now = chrono::Utc::now().to_rfc3339();
    let records = vec![
        HighScore::new("a", 2, &now),
        HighScore::new("b", 9, &now),
        HighScore::new("c", 5, &now),
        HighScore::new("d", 100, &now),
    ];
    let sb = MinimalScoreboard::init(3, records);
    let scores: Vec<i64> = sb.all().iter().map(|h| h.score).collect();
    assert_eq!(scores, vec![9, 5, 2]);
}

#[test]
fn default_board_holds_five() {
    let mut sb = MinimalScoreboard::default();
    for (i, name) in ["a", "b", "c", "d", "e", "f"].iter().enumerate() {
        sb.add(name, i as i64);
    }
    assert_eq!(sb.all().len(), 5);
    assert_eq!(sb.first().unwrap().score, 5);
    assert_eq!(sb.last().unwrap().score, 1);
}
