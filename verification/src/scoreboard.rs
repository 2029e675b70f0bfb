//! The high-score records and the bounded, sorted board that keeps the best of
//! them: an in-memory board (`MinimalScoreboard`) and, below in this file, a
//! durably backed one (`LocalScoreBoard`) that mirrors the board into a store.

use vstd::prelude::*;
use vstd::multiset::Multiset;
use core::cmp::Ordering;

use crate::store::capped;
use crate::store::delete_matching;
use crate::store::ensure_table;
use crate::store::insert_row;
use crate::store::open_connection;
use crate::store::row_matches;
use crate::store::row_views;
use crate::store::select_top;
use crate::store::store_rows;
use crate::store::trim_to_top;
use crate::time::now_rfc3339;
use crate::time::rfc3339_ok;
use crate::time::rfc3339_valid;

verus! {

/// Why a durable scoreboard operation failed.
#[derive(Debug)]
pub enum ScoreboardError {
    /// The durable store could not be opened, read or written.
    Store { msg: String },
    /// A stored timestamp did not parse as RFC 3339 text.
    InvalidTimestamp { when: String },
}

/// Mathematical image of one high-score record.
pub ghost struct ScoreView {
    pub name: Seq<char>,
    pub score: int,
    pub when: Seq<char>,
}

/// One high score: who scored, how much, and when (an RFC 3339 text, UTC).
#[derive(Debug)]
pub struct HighScore {
    pub name: String,
    pub score: i64,
    pub when: String,
}

impl View for HighScore {
    type V = ScoreView;

    open spec fn view(&self) -> ScoreView {
        ScoreView { name: self.name@, score: self.score as int, when: self.when@ }
    }
}

/// The views of a sequence of records.
pub open spec fn views(s: Seq<HighScore>) -> Seq<ScoreView> {
    s.map_values(|h: HighScore| h@)
}

/// Two records count as the same entry when name and score agree;
/// the timestamp is deliberately ignored.
pub open spec fn same_record(a: ScoreView, b: ScoreView) -> bool {
    a.name == b.name && a.score == b.score
}

/// The view of a record built from the given parts.
pub open spec fn record_view(name: Seq<char>, score: int, when: Seq<char>) -> ScoreView {
    ScoreView { name, score, when }
}

/// Sorted best-to-worst: scores never increase along the sequence.
pub open spec fn sorted_desc(s: Seq<ScoreView>) -> bool {
    forall|i: int, j: int|
        0 <= i < j < s.len() ==> #[trigger] s[i].score >= #[trigger] s[j].score
}

impl HighScore {
    /// Construct a record from its parts.
    pub fn new(name: &str, score: i64, when: &str) -> (r: HighScore)
        ensures
            r@.name == name@,
            r@.score == score as int,
            r@.when == when@,
    {
        HighScore { name: name.to_owned(), score, when: when.to_owned() }
    }
}

impl Clone for HighScore {
    fn clone(&self) -> (r: Self)
        ensures
            r@ == self@,
    {
        HighScore { name: self.name.clone(), score: self.score, when: self.when.clone() }
    }
}

impl PartialEq for HighScore {
    fn eq(&self, other: &HighScore) -> (r: bool) {
        other.name == self.name && other.score == self.score
    }
}

impl vstd::std_specs::cmp::PartialEqSpecImpl for HighScore {
    open spec fn obeys_eq_spec() -> bool {
        true
    }

    open spec fn eq_spec(&self, other: &HighScore) -> bool {
        same_record(self@, other@)
    }
}

impl Eq for HighScore {}

impl PartialOrd for HighScore {
    fn partial_cmp(&self, other: &Self) -> (r: Option<Ordering>) {
        if self.score > other.score {
            Some(Ordering::Greater)
        } else if self.score < other.score {
            Some(Ordering::Less)
        } else {
            Some(Ordering::Equal)
        }
    }
}

impl vstd::std_specs::cmp::PartialOrdSpecImpl for HighScore {
    open spec fn obeys_partial_cmp_spec() -> bool {
        true
    }

    open spec fn partial_cmp_spec(&self, other: &Self) -> Option<Ordering> {
        if self@.score > other@.score {
            Some(Ordering::Greater)
        } else if self@.score < other@.score {
            Some(Ordering::Less)
        } else {
            Some(Ordering::Equal)
        }
    }
}

/// Mapping a record sequence to views commutes with inserting one record.
proof fn lemma_views_insert(s: Seq<HighScore>, i: int, h: HighScore)
    requires
        0 <= i <= s.len(),
    ensures
        views(s.insert(i, h)) == views(s).insert(i, h@),
{
    s.insert_ensures(i, h);
    views(s).insert_ensures(i, h@);
    assert(views(s.insert(i, h)) =~= views(s).insert(i, h@));
}

/// Mapping a record sequence to views commutes with dropping the last record.
proof fn lemma_views_drop_last(s: Seq<HighScore>)
    requires
        s.len() > 0,
    ensures
        views(s.drop_last()) == views(s).drop_last(),
{
    assert(views(s.drop_last()) =~= views(s).drop_last());
}

/// An in-memory scoreboard: at most `capacity` records, sorted best-to-worst.
#[derive(Debug)]
pub struct MinimalScoreboard {
    capacity: usize,
    high_scores: Vec<HighScore>,
}

impl MinimalScoreboard {
    /// The maximum number of records the board retains.
    pub closed spec fn cap(&self) -> usize {
        self.capacity
    }

    /// The retained records, best first.
    pub closed spec fn scores(&self) -> Seq<ScoreView> {
        views(self.high_scores@)
    }

    /// The board's invariant: sorted best-to-worst, never above capacity.
    pub open spec fn inv(&self) -> bool {
        sorted_desc(self.scores()) && self.scores().len() <= self.cap()
    }

    /// Whether the board holds as many records as it may.
    pub open spec fn is_full(&self) -> bool {
        self.scores().len() == self.cap()
    }

    /// Whether a new score is admitted: never on a zero-capacity board;
    /// always while there is room; at capacity only when at least as good
    /// as the current worst.
    pub open spec fn admits(&self, score: int) -> bool {
        self.cap() > 0 && (self.scores().len() < self.cap() || score
            >= self.scores().last().score)
    }

    /// Construct a new scoreboard with room for the top `n` players.
    pub fn new(n: usize) -> (r: Self)
        ensures
            r.cap() == n,
            r.scores() =~= Seq::<ScoreView>::empty(),
            r.inv(),
    {
        let r = MinimalScoreboard { capacity: n, high_scores: Vec::new() };
        proof {
            assert(r.scores() =~= Seq::<ScoreView>::empty());
        }
        r
    }

    /// Place one record at its position in the sorted sequence.
    fn insert_record(&mut self, rec: HighScore)
        requires
            sorted_desc(old(self).scores()),
        ensures
            final(self).cap() == old(self).cap(),
            sorted_desc(final(self).scores()),
            final(self).scores().len() == old(self).scores().len() + 1,
            final(self).scores().to_multiset() == old(self).scores().to_multiset().insert(rec@),
    {
        let mut i: usize = 0;
        while i < self.high_scores.len() && self.high_scores[i].score >= rec.score
            invariant
                0 <= i <= self.high_scores@.len(),
                forall|k: int| 0 <= k < i ==> views(self.high_scores@)[k].score >= rec@.score,
                *self == *old(self),
            decreases self.high_scores@.len() - i,
        {
            i += 1;
        }
        proof {
            let s = views(self.high_scores@);
            if (i as int) < s.len() {
                assert(s[i as int].score < rec@.score);
            }
            lemma_views_insert(self.high_scores@, i as int, rec);
            s.insert_ensures(i as int, rec@);
            broadcast use vstd::seq_lib::to_multiset_insert;

        }
        let ghost pre = self.high_scores@;
        self.high_scores.insert(i, rec);
        proof {
            let s = views(pre);
            let t = views(self.high_scores@);
            assert(t == s.insert(i as int, rec@));
            assert forall|a: int, b: int| 0 <= a < b < t.len() implies t[a].score >= t[b].score by {
                s.insert_ensures(i as int, rec@);
            }
        }
    }

    /// Initialize from a pre-existing set of records: at most `n` of them,
    /// taken from the front of `to_load` before any sorting, then sorted
    /// best-to-worst. Callers that want the true top `n` must hand in records
    /// already restricted or already ordered by score.
    pub fn init(n: usize, to_load: Vec<HighScore>) -> (r: Self)
        ensures
            r.cap() == n,
            r.inv(),
            r.scores().len() == if to_load@.len() <= n { to_load@.len() } else { n as nat },
            r.scores().to_multiset() == views(
                to_load@.take(if to_load@.len() <= n { to_load@.len() as int } else { n as int }),
            ).to_multiset(),
    {
        let count: usize = if to_load.len() <= n {
            to_load.len()
        } else {
            n
        };
        let mut sb = Self::new(n);
        let mut i: usize = 0;
        proof {
            broadcast use vstd::seq_lib::group_to_multiset_ensures;

            assert(views(to_load@.take(0)) =~= Seq::<ScoreView>::empty());
        }
        while i < count
            invariant
                0 <= i <= count,
                count == if to_load@.len() <= n { to_load@.len() as int } else { n as int },
                sb.cap() == n,
                sorted_desc(sb.scores()),
                sb.scores().len() == i,
                sb.scores().to_multiset() == views(to_load@.take(i as int)).to_multiset(),
            decreases count - i,
        {
            let rec = to_load[i].clone();
            proof {
                let prefix = views(to_load@.take(i as int));
                assert(views(to_load@.take(i as int + 1)) =~= prefix.push(rec@));
                broadcast use vstd::seq_lib::group_to_multiset_ensures;

            }
            sb.insert_record(rec);
            i += 1;
        }
        sb
    }

    /// Record a new score with the given timestamp. The score is admitted
    /// exactly when `admits` says so; on admission the worst record is
    /// evicted first if the board is full, and the order is restored.
    pub fn add_at(&mut self, who: &str, score: i64, when: String) -> (added: bool)
        requires
            old(self).inv(),
        ensures
            final(self).cap() == old(self).cap(),
            final(self).inv(),
            added == old(self).admits(score as int),
            !added ==> *final(self) == *old(self),
            added ==> final(self).scores().to_multiset() == (if old(self).is_full() {
                old(self).scores().drop_last()
            } else {
                old(self).scores()
            }).to_multiset().insert(
                (ScoreView { name: who@, score: score as int, when: when@ }),
            ),
            added ==> final(self).scores().len() == (if old(self).is_full() {
                old(self).scores().len()
            } else {
                old(self).scores().len() + 1
            }),
    {
        if self.capacity == 0 {
            return false;
        }
        let ghost pre = self.high_scores@;
        if self.high_scores.len() == self.capacity {
            let worst_score = self.high_scores[self.high_scores.len() - 1].score;
            if worst_score > score {
                return false;
            }
            self.high_scores.pop();
            proof {
                lemma_views_drop_last(pre);
                assert(sorted_desc(views(pre).drop_last())) by {
                    let s = views(pre);
                    assert forall|a: int, b: int|
                        0 <= a < b < s.drop_last().len() implies s.drop_last()[a].score
                        >= s.drop_last()[b].score by {
                        assert(s[a].score >= s[b].score);
                    }
                }
            }
        }
        let rec = HighScore::new(who, score, when.as_str());
        proof {
            assert(rec@ == (ScoreView { name: who@, score: score as int, when: when@ }));
        }
        self.insert_record(rec);
        true
    }

    /// Record a new score, timestamped now. Admission and eviction are as in
    /// `add_at`; the timestamp text is the clock's, and nothing is known of
    /// it.
    pub fn add(&mut self, who: &str, score: i64) -> (added: bool)
        requires
            old(self).inv(),
        ensures
            final(self).cap() == old(self).cap(),
            final(self).inv(),
            added == old(self).admits(score as int),
            !added ==> *final(self) == *old(self),
            added ==> exists|t: Seq<char>|
                final(self).scores().to_multiset() == (if old(self).is_full() {
                    old(self).scores().drop_last()
                } else {
                    old(self).scores()
                }).to_multiset().insert(#[trigger] record_view(who@, score as int, t)),
            added ==> final(self).scores().len() == (if old(self).is_full() {
                old(self).scores().len()
            } else {
                old(self).scores().len() + 1
            }),
    {
        let when = now_rfc3339();
        let ghost t0 = when@;
        let added = self.add_at(who, score, when);
        proof {
            if added {
                assert(self.scores().to_multiset() == (if old(self).is_full() {
                    old(self).scores().drop_last()
                } else {
                    old(self).scores()
                }).to_multiset().insert(record_view(who@, score as int, t0)));
            }
        }
        added
    }

    /// The best record, if any.
    pub fn first(&self) -> (r: Option<HighScore>)
        ensures
            match r {
                Option::None => self.scores().len() == 0,
                Option::Some(h) => self.scores().len() > 0 && h@ == self.scores()[0],
            },
    {
        if self.high_scores.is_empty() {
            return None;
        }
        Some(self.high_scores[0].clone())
    }

    /// The worst retained record, if any.
    pub fn last(&self) -> (r: Option<HighScore>)
        ensures
            match r {
                Option::None => self.scores().len() == 0,
                Option::Some(h) => self.scores().len() > 0 && h@ == self.scores().last(),
            },
    {
        if self.high_scores.is_empty() {
            return None;
        }
        Some(self.high_scores[self.high_scores.len() - 1].clone())
    }

    /// All retained records, best first.
    pub fn all(&self) -> (r: &[HighScore])
        ensures
            views(r@) == self.scores(),
    {
        self.high_scores.as_slice()
    }
}

/// A scoreboard backed by a durable store: an in-memory board that is the
/// source of truth for reads, plus a store connection into which every
/// successful mutation is mirrored.
#[derive(Debug)]
pub struct LocalScoreBoard {
    internal: MinimalScoreboard,
    db_conn: rusqlite::Connection,
}

impl LocalScoreBoard {
    /// The maximum number of records retained, in memory and in the store.
    pub closed spec fn cap(&self) -> usize {
        self.internal.cap()
    }

    /// The in-memory records, best first.
    pub closed spec fn scores(&self) -> Seq<ScoreView> {
        self.internal.scores()
    }

    /// The rows of the backing store.
    pub closed spec fn rows(&self) -> Multiset<ScoreView> {
        store_rows(self.db_conn)
    }

    /// The board's invariant: sorted best-to-worst, never above capacity.
    pub open spec fn inv(&self) -> bool {
        sorted_desc(self.scores()) && self.scores().len() <= self.cap()
    }

    /// Whether the board holds as many records as it may.
    pub open spec fn is_full(&self) -> bool {
        self.scores().len() == self.cap()
    }

    /// Whether a new score is admitted, exactly as on the in-memory board.
    pub open spec fn admits(&self, score: int) -> bool {
        self.cap() > 0 && (self.scores().len() < self.cap() || score
            >= self.scores().last().score)
    }

    /// Whether the store's rows are exactly the records of the board.
    pub open spec fn synced(&self) -> bool {
        self.rows() == self.scores().to_multiset()
    }

    /// Whether some row carries a timestamp that is not RFC 3339 text.
    #[verifier::opaque]
    pub open spec fn has_bad_timestamp(rows: Multiset<ScoreView>) -> bool {
        exists|v: ScoreView| #[trigger] rows.contains(v) && !rfc3339_ok(v.when)
    }

    /// Build a scoreboard over an already opened store connection: make sure
    /// the table exists, trim the store to the rows with the `n` greatest
    /// scores, load them, and keep them in memory sorted best-to-worst.
    #[verifier::loop_isolation(false)]
    pub fn from_connection(n: usize, conn: rusqlite::Connection) -> (r: Result<
        LocalScoreBoard,
        ScoreboardError,
    >)
        requires
            n as nat <= i64::MAX as nat,
        ensures
            r matches Ok(b) ==> {
                &&& b.cap() == n
                &&& b.inv()
                &&& b.synced()
                &&& b.rows().subset_of(store_rows(conn))
                &&& b.rows().len() == capped(n, store_rows(conn).len())
                &&& forall|a: ScoreView, c: ScoreView|
                    #[trigger] b.rows().contains(a) && #[trigger] store_rows(
                        conn,
                    ).difference_with(b.rows()).contains(c) ==> a.score >= c.score
                &&& forall|v: ScoreView| #[trigger] b.rows().contains(v) ==> rfc3339_ok(v.when)
            },
            r matches Err(e) && e is InvalidTimestamp ==> Self::has_bad_timestamp(
                store_rows(conn),
            ),
    {
        let ghost rows0 = store_rows(conn);
        let mut db = conn;
        match ensure_table(&mut db) {
            Err(e) => {
                return Err(e);
            },
            Ok(()) => {},
        }
        match trim_to_top(&mut db, n) {
            Err(e) => {
                return Err(e);
            },
            Ok(()) => {},
        }
        let ghost rows2 = store_rows(db);
        let found = match select_top(&db, n) {
            Err(e) => {
                return Err(e);
            },
            Ok(v) => v,
        };
        proof {
            assert(rows2.len() <= n as nat);
            assert(row_views(found@).to_multiset() == rows2);
        }
        let mut recs: Vec<HighScore> = Vec::new();
        let mut i: usize = 0;
        while i < found.len()
            invariant
                0 <= i <= found@.len(),
                recs@.len() == i,
                forall|k: int|
                    0 <= k < i ==> #[trigger] views(recs@)[k] == row_views(found@)[k],
                forall|k: int| 0 <= k < i ==> rfc3339_ok(#[trigger] row_views(found@)[k].when),
                row_views(found@).to_multiset() == rows2,
                rows2.subset_of(rows0),
                rows2 == store_rows(db),
            decreases found@.len() - i,
        {
            if !rfc3339_valid(found[i].2.as_str()) {
                proof {
                    broadcast use vstd::seq_lib::group_to_multiset_ensures;

                    let rv = row_views(found@);
                    let bad = rv[i as int];
                    assert(rv.contains(bad));
                    assert(rv.to_multiset().count(bad) > 0);
                    assert(rows0.count(bad) >= rows2.count(bad));
                    assert(store_rows(db) == rows2);
                    assert(rows0.contains(bad) && !rfc3339_ok(bad.when));
                    reveal(LocalScoreBoard::has_bad_timestamp);
                    assert(Self::has_bad_timestamp(rows0));
                }
                return Err(ScoreboardError::InvalidTimestamp { when: found[i].2.clone() });
            }
            let rec = HighScore::new(found[i].0.as_str(), found[i].1, found[i].2.as_str());
            let ghost pre_recs = recs@;
            recs.push(rec);
            proof {
                assert(views(recs@) =~= views(pre_recs).push(rec@));
                assert(rec@ == row_views(found@)[i as int]);
            }
            i += 1;
        }
        proof {
            assert(views(recs@) =~= row_views(found@));
        }
        let internal = MinimalScoreboard::init(n, recs);
        proof {
            assert(recs@.take(recs@.len() as int) =~= recs@);
            assert(internal.scores().to_multiset() == row_views(found@).to_multiset());
        }
        let b = LocalScoreBoard { internal, db_conn: db };
        proof {
            assert(b.rows() == rows2);
            assert(b.synced());
            assert forall|v: ScoreView| #[trigger] b.rows().contains(v) implies rfc3339_ok(
                v.when,
            ) by {
                broadcast use vstd::seq_lib::group_to_multiset_ensures;

                let rv = row_views(found@);
                assert(rv.to_multiset().count(v) > 0);
                assert(rv.contains(v));
                let k = choose|k: int| 0 <= k < rv.len() && rv[k] == v;
                assert(rfc3339_ok(rv[k].when));
            }
        }
        Ok(b)
    }

    /// Open or create the store at `connection_string` and build the
    /// scoreboard over it, as `from_connection` does.
    pub fn new(n: usize, connection_string: &str) -> (r: Result<
        LocalScoreBoard,
        ScoreboardError,
    >)
        requires
            n as nat <= i64::MAX as nat,
        ensures
            r matches Ok(b) ==> {
                &&& b.cap() == n
                &&& b.inv()
                &&& b.synced()
                &&& b.rows().len() <= n as nat
                &&& forall|v: ScoreView| #[trigger] b.rows().contains(v) ==> rfc3339_ok(v.when)
            },
    {
        let conn = match open_connection(connection_string) {
            Err(e) => {
                return Err(e);
            },
            Ok(c) => c,
        };
        Self::from_connection(n, conn)
    }

    /// Record a new score, timestamped now, and mirror the change into the
    /// store: when the in-memory board admits the record, every store row
    /// matching the previous worst entry by exact value (if one existed) is
    /// deleted and a row for the new record is inserted. A store failure is
    /// surfaced after the in-memory board has already changed.
    pub fn add(&mut self, who: &str, score: i64) -> (r: Result<bool, ScoreboardError>)
        requires
            old(self).inv(),
        ensures
            final(self).cap() == old(self).cap(),
            final(self).inv(),
            r matches Ok(added) ==> added == old(self).admits(score as int),
            !old(self).admits(score as int) ==> (r matches Ok(false)) && *final(self) == *old(
                self,
            ),
            r matches Err(e) ==> e is Store,
            old(self).admits(score as int) ==> final(self).scores().len() == (if old(
                self,
            ).is_full() {
                old(self).scores().len()
            } else {
                old(self).scores().len() + 1
            }),
            old(self).admits(score as int) ==> exists|t: Seq<char>|
                {
                    &&& final(self).scores().to_multiset() == (if old(self).is_full() {
                        old(self).scores().drop_last()
                    } else {
                        old(self).scores()
                    }).to_multiset().insert(#[trigger] record_view(who@, score as int, t))
                    &&& (r is Ok ==> final(self).rows() == (if old(self).scores().len() > 0 {
                        evict_row(old(self).rows(), old(self).scores().last())
                    } else {
                        old(self).rows()
                    }).insert(record_view(who@, score as int, t)))
                },
    {
        let prev = self.internal.last();
        let when = now_rfc3339();
        let ghost t0 = when@;
        let ghost rows_pre = store_rows(self.db_conn);
        let added = self.internal.add_at(who, score, when.clone());
        proof {
            if added {
                assert(self.scores().to_multiset() == (if old(self).is_full() {
                    old(self).scores().drop_last()
                } else {
                    old(self).scores()
                }).to_multiset().insert(record_view(who@, score as int, t0)));
            }
        }
        if !added {
            return Ok(false);
        }
        match prev {
            Option::Some(w) => {
                match delete_matching(
                    &mut self.db_conn,
                    w.name.as_str(),
                    w.score,
                    w.when.as_str(),
                ) {
                    Err(e) => {
                        return Err(e);
                    },
                    Ok(()) => {},
                }
                proof {
                    let worst = old(self).scores().last();
                    assert(w@ == worst);
                    assert forall|v: ScoreView|
                        store_rows(self.db_conn).count(v) == evict_row(rows_pre, worst).count(
                            v,
                        ) by {
                        broadcast use vstd::multiset::group_multiset_axioms;

                    }
                    assert(store_rows(self.db_conn) =~= evict_row(rows_pre, worst));
                }
            },
            Option::None => {},
        }
        match insert_row(&mut self.db_conn, who, score, when.as_str()) {
            Err(e) => {
                return Err(e);
            },
            Ok(()) => {},
        }
        Ok(true)
    }

    /// The best record, if any.
    pub fn first(&self) -> (r: Option<HighScore>)
        ensures
            match r {
                Option::None => self.scores().len() == 0,
                Option::Some(h) => self.scores().len() > 0 && h@ == self.scores()[0],
            },
    {
        self.internal.first()
    }

    /// The worst retained record, if any.
    pub fn last(&self) -> (r: Option<HighScore>)
        ensures
            match r {
                Option::None => self.scores().len() == 0,
                Option::Some(h) => self.scores().len() > 0 && h@ == self.scores().last(),
            },
    {
        self.internal.last()
    }

    /// All retained records, best first.
    pub fn all(&self) -> (r: &[HighScore])
        ensures
            views(r@) == self.scores(),
    {
        self.internal.all()
    }
}

/// The rows left once every row matching `w` by exact value is removed.
pub open spec fn evict_row(rows: Multiset<ScoreView>, w: ScoreView) -> Multiset<ScoreView> {
    rows.filter(|v: ScoreView| !row_matches(v, w.name, w.score, w.when))
}

/// On a full board, an accepted add evicts the single worst record: when no
/// other record on the board carried the worst record's name and score, and
/// the newly added record does not carry them either, no record with that
/// name and score remains afterwards.
pub proof fn lemma_add_evicts_worst(pre: Seq<ScoreView>, post: Seq<ScoreView>, v: ScoreView)
    requires
        pre.len() > 0,
        post.to_multiset() == pre.drop_last().to_multiset().insert(v),
        forall|i: int| 0 <= i < pre.len() - 1 ==> !same_record(#[trigger] pre[i], pre.last()),
        !same_record(v, pre.last()),
    ensures
        forall|i: int| 0 <= i < post.len() ==> !same_record(#[trigger] post[i], pre.last()),
{
    broadcast use vstd::seq_lib::group_to_multiset_ensures;
    broadcast use vstd::multiset::group_multiset_axioms;

    assert forall|i: int| 0 <= i < post.len() implies !same_record(post[i], pre.last()) by {
        let x = post[i];
        assert(post.contains(x));
        assert(post.to_multiset().count(x) > 0);
        if x != v {
            assert(pre.drop_last().to_multiset().count(x) > 0);
            assert(pre.drop_last().contains(x));
            let j = choose|j: int| 0 <= j < pre.drop_last().len() && pre.drop_last()[j] == x;
            assert(pre[j] == x);
            assert(!same_record(pre[j], pre.last()));
        }
    }
}

/// Mirroring an accepted add into the store preserves the match between the
/// store's rows and the board's records, provided the board was full and its
/// worst record occurred only once: deleting by exact value then removes
/// exactly the evicted record.
pub proof fn lemma_full_add_keeps_store_synced(
    pre: Seq<ScoreView>,
    post: Seq<ScoreView>,
    rows: Multiset<ScoreView>,
    post_rows: Multiset<ScoreView>,
    v: ScoreView,
)
    requires
        pre.len() > 0,
        rows == pre.to_multiset(),
        pre.to_multiset().count(pre.last()) == 1,
        post.to_multiset() == pre.drop_last().to_multiset().insert(v),
        post_rows == evict_row(rows, pre.last()).insert(v),
    ensures
        post_rows == post.to_multiset(),
{
    broadcast use vstd::seq_lib::group_to_multiset_ensures;
    broadcast use vstd::multiset::group_multiset_axioms;

    let w = pre.last();
    assert(pre =~= pre.drop_last().push(w));
    assert(pre.drop_last().push(w).to_multiset() == pre.drop_last().to_multiset().insert(w));
    assert forall|u: ScoreView| post_rows.count(u) == post.to_multiset().count(u) by {
        if row_matches(u, w.name, w.score, w.when) {
            assert(u == w);
            assert(evict_row(rows, w).count(u) == 0);
            assert(pre.drop_last().to_multiset().count(w) == 0);
        } else {
            assert(evict_row(rows, w).count(u) == rows.count(u));
        }
    }
    assert(post_rows =~= post.to_multiset());
}

/// A board synchronized with an empty store holds no records.
pub proof fn lemma_empty_store_empty_board(b: LocalScoreBoard)
    requires
        b.synced(),
        b.rows().len() == 0,
    ensures
        b.scores().len() == 0,
{
    broadcast use vstd::seq_lib::group_to_multiset_ensures;

}

impl Default for MinimalScoreboard {
    fn default() -> (r: Self)
        ensures
            r.cap() == 5,
            r.scores() =~= Seq::<ScoreView>::empty(),
            r.inv(),
    {
        MinimalScoreboard::new(5)
    }
}

} // verus!
