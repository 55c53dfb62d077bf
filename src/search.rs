//! Ranking of applications against a query: fuzzy relevance over name,
//! program, description and categories, blended with frecency.

use vstd::prelude::*;
use vstd::multiset::Multiset;
use fuzzy_matcher::FuzzyMatcher;
use crate::entry::{strings_view, usage_key, AppEntry, AppEntryView};
use crate::text::{
    after_last_slash, after_last_slash_chars, chars_lt, chars_of, first_word, first_word_chars,
    lemma_seq_le_order, seq_le, string_from_chars,
};
use crate::usage::{frecency_quarters, usage_in, AppUsage, Database};

verus! {

broadcast use vstd::seq_lib::group_to_multiset_ensures;

/// Most results shown for an empty query.
pub const RECENT_LIMIT: usize = 20;

/// The score that the skim fuzzy matcher gives `choice` for `pattern`,
/// none where the pattern does not match.
pub uninterp spec fn skim_score(choice: Seq<char>, pattern: Seq<char>) -> Option<i64>;

/// Relies on fuzzy_matcher's `SkimMatcherV2::default()` and
/// `FuzzyMatcher::fuzzy_match`: with the default settings the score depends on
/// the two strings alone, and it is an `i32` score widened to `i64`.
#[verifier::external_body]
fn skim_match(choice: &str, pattern: &str) -> (r: Option<i64>)
    ensures
        r == skim_score(choice@, pattern@),
        r matches Some(s) ==> i32::MIN <= s <= i32::MAX,
{
    fuzzy_matcher::skim::SkimMatcherV2::default().fuzzy_match(choice, pattern)
}

/// A match score, zero where there is no match.
pub open spec fn score_or_zero(o: Option<i64>) -> int {
    match o {
        Some(s) => s as int,
        None => 0,
    }
}

/// The best score among the categories that match, none where none does.
pub open spec fn best_category(cats: Seq<Seq<char>>, q: Seq<char>) -> Option<int>
    decreases cats.len(),
{
    if cats.len() == 0 {
        None
    } else {
        let prev = best_category(cats.drop_last(), q);
        match skim_score(cats.last(), q) {
            None => prev,
            Some(s) => match prev {
                None => Some(s as int),
                Some(p) => Some(if s >= p { s as int } else { p }),
            },
        }
    }
}

/// Integer division truncated toward zero.
pub open spec fn trunc_div(a: int, d: int) -> int {
    if a >= 0 {
        a / d
    } else {
        -((-a) / d)
    }
}

pub open spec fn max2(a: int, b: int) -> int {
    if a >= b {
        a
    } else {
        b
    }
}

/// The program name of an exec line: the last path segment of its first word.
pub open spec fn exec_base(exec_line: Seq<char>) -> Seq<char> {
    after_last_slash(first_word(exec_line))
}

pub open spec fn name_score(e: AppEntryView, q: Seq<char>) -> int {
    score_or_zero(skim_score(e.name, q))
}

pub open spec fn exec_score(e: AppEntryView, q: Seq<char>) -> int {
    score_or_zero(skim_score(exec_base(e.exec_line), q))
}

pub open spec fn comment_score(e: AppEntryView, q: Seq<char>) -> int {
    match e.comment {
        Some(c) => score_or_zero(skim_score(c, q)),
        None => 0,
    }
}

pub open spec fn category_score(e: AppEntryView, q: Seq<char>) -> int {
    match best_category(e.categories, q) {
        Some(s) => s,
        None => 0,
    }
}

/// Textual relevance: the best of the name and program scores, half the
/// description score and a third of the best category score.
pub open spec fn base_score(e: AppEntryView, q: Seq<char>) -> int {
    relevance(name_score(e, q), exec_score(e, q), comment_score(e, q), category_score(e, q))
}

/// Relevance from the four field scores.
pub open spec fn relevance(name: int, exec: int, comment: int, category: int) -> int {
    max2(max2(max2(name, exec), trunc_div(comment, 2)), trunc_div(category, 3))
}

/// The ranking score from the four field scores and the frecency in quarter
/// points: relevance, plus 10 where the name gave it, plus the frecency bonus.
pub open spec fn combined_score(name: int, exec: int, comment: int, category: int, fq: int) -> int {
    let base = relevance(name, exec, comment, category);
    base + (if name == base {
        10int
    } else {
        0int
    }) + frecency_bonus(fq)
}

/// What frecency (given in quarter points) adds to a score:
/// `floor(min(frecency, 100) / 10)`.
pub open spec fn frecency_bonus(fq: int) -> int {
    (if fq < 400 {
        fq
    } else {
        400
    }) / 40
}

/// The ranking score of a matched entry whose frecency is `fq` quarter points.
pub open spec fn final_score(e: AppEntryView, q: Seq<char>, fq: int) -> int {
    combined_score(name_score(e, q), exec_score(e, q), comment_score(e, q), category_score(e, q), fq)
}

/// Frecency of an entry in quarter points.
pub open spec fn frecency_of(e: AppEntryView, ledger: Map<Seq<char>, AppUsage>, now: int) -> int {
    frecency_quarters(usage_in(ledger, usage_key(e)), now)
}

/// A result as (entry, score, frecency in quarter points).
pub type ResultView = (AppEntryView, int, int);

/// The entries that match `q`, in their order, with score and frecency.
pub open spec fn matched(
    apps: Seq<AppEntryView>,
    q: Seq<char>,
    ledger: Map<Seq<char>, AppUsage>,
    now: int,
) -> Seq<ResultView>
    decreases apps.len(),
{
    if apps.len() == 0 {
        Seq::empty()
    } else {
        let prev = matched(apps.drop_last(), q, ledger, now);
        let e = apps.last();
        let f = frecency_of(e, ledger, now);
        if base_score(e, q) > 0 {
            prev.push((e, final_score(e, q, f), f))
        } else {
            prev
        }
    }
}

/// Every entry with its frecency, scored by whole frecency points.
pub open spec fn recent(apps: Seq<AppEntryView>, ledger: Map<Seq<char>, AppUsage>, now: int) -> Seq<
    ResultView,
>
    decreases apps.len(),
{
    if apps.len() == 0 {
        Seq::empty()
    } else {
        let e = apps.last();
        let f = frecency_of(e, ledger, now);
        recent(apps.drop_last(), ledger, now).push((e, f / 4, f))
    }
}

/// `a` may stand before `b`: higher score, then higher frecency, then the
/// name that comes first.
pub open spec fn ranks_before(a: ResultView, b: ResultView) -> bool {
    a.1 > b.1 || (a.1 == b.1 && (a.2 > b.2 || (a.2 == b.2 && seq_le(a.0.name, b.0.name))))
}

pub open spec fn is_ranked(s: Seq<ResultView>) -> bool {
    forall|i: int, j: int| 0 <= i < j < s.len() ==> ranks_before(s[i], s[j])
}

/// Sorted by descending frecency, then ascending name.
pub open spec fn is_by_frecency(s: Seq<ResultView>) -> bool {
    forall|i: int, j: int|
        0 <= i < j < s.len() ==> s[i].2 > s[j].2 || (s[i].2 == s[j].2 && seq_le(
            s[i].0.name,
            s[j].0.name,
        ))
}

pub open spec fn min_len(n: int, cap: int) -> int {
    if n < cap {
        n
    } else {
        cap
    }
}

/// What a search for `q` over `apps` returns at time `now`.
pub open spec fn is_search_result(
    r: Seq<ResultView>,
    q: Seq<char>,
    apps: Seq<AppEntryView>,
    ledger: Map<Seq<char>, AppUsage>,
    now: int,
) -> bool {
    if q.len() == 0 {
        &&& r.len() == min_len(apps.len() as int, RECENT_LIMIT as int)
        &&& is_by_frecency(r)
        &&& exists|s: Seq<ResultView>|
            s.to_multiset() == recent(apps, ledger, now).to_multiset() && is_ranked(s) && r
                == s.take(r.len() as int)
    } else {
        is_ranked(r) && r.to_multiset() == matched(apps, q, ledger, now).to_multiset()
    }
}

pub proof fn lemma_ranks_before_order(a: ResultView, b: ResultView, c: ResultView)
    ensures
        ranks_before(a, a),
        ranks_before(a, b) || ranks_before(b, a),
        ranks_before(a, b) && ranks_before(b, c) ==> ranks_before(a, c),
{
    lemma_seq_le_order(a.0.name, b.0.name, c.0.name);
    lemma_seq_le_order(a.0.name, a.0.name, a.0.name);
}

/// A scored application.
pub struct SearchResult {
    pub app: AppEntry,
    pub score: i64,
    /// Frecency in quarter points (four times the frecency score).
    pub frecency: u64,
}

impl View for SearchResult {
    type V = ResultView;

    open spec fn view(&self) -> ResultView {
        (self.app@, self.score as int, self.frecency as int)
    }
}

pub open spec fn results_view(s: Seq<SearchResult>) -> Seq<ResultView> {
    s.map_values(|r: SearchResult| r@)
}

pub open spec fn entries_view(s: Seq<AppEntry>) -> Seq<AppEntryView> {
    s.map_values(|e: AppEntry| e@)
}

fn ranks_before_exec(a: &SearchResult, b: &SearchResult) -> (r: bool)
    ensures
        r == ranks_before(a@, b@),
{
    if a.score != b.score {
        return a.score > b.score;
    }
    if a.frecency != b.frecency {
        return a.frecency > b.frecency;
    }
    let an = chars_of(a.app.name.as_str());
    let bn = chars_of(b.app.name.as_str());
    !chars_lt(&bn, &an)
}

/// The results in ranking order.
fn sort_ranked(items: Vec<SearchResult>) -> (r: Vec<SearchResult>)
    ensures
        results_view(r@).to_multiset() == results_view(items@).to_multiset(),
        is_ranked(results_view(r@)),
{
    let mut items = items;
    let ghost orig = results_view(items@);
    let mut sorted: Vec<SearchResult> = Vec::new();
    assert(results_view(sorted@) =~= Seq::<ResultView>::empty());
    while items.len() > 0
        invariant
            results_view(sorted@).to_multiset().add(results_view(items@).to_multiset())
                == orig.to_multiset(),
            is_ranked(results_view(sorted@)),
        decreases items@.len(),
    {
        let ghost before_items = items@;
        let x = items.pop().unwrap();
        assert(results_view(before_items) =~= results_view(items@).push(x@));
        let mut p: usize = 0;
        while p < sorted.len() && ranks_before_exec(&sorted[p], &x)
            invariant
                p <= sorted@.len(),
                forall|i: int| 0 <= i < p ==> ranks_before(#[trigger] sorted@[i]@, x@),
            decreases sorted@.len() - p,
        {
            p = p + 1;
        }
        let ghost s = results_view(sorted@);
        sorted.insert(p, x);
        let ghost t = results_view(sorted@);
        assert(t =~= s.insert(p as int, x@));
        assert forall|i: int, j: int| 0 <= i < j < t.len() implies ranks_before(t[i], t[j]) by {
            if j < p {
            } else if i < p && j == p {
            } else if i < p {
                assert(t[j] == s[j - 1]);
            } else if i == p {
                lemma_ranks_before_order(x@, s[p as int], s[j - 1]);
                lemma_ranks_before_order(s[p as int], x@, s[j - 1]);
                if j - 1 > p {
                    assert(ranks_before(s[p as int], s[j - 1]));
                }
            } else {
                assert(t[i] == s[i - 1] && t[j] == s[j - 1]);
            }
        }
    }
    assert(results_view(items@) =~= Seq::<ResultView>::empty());
    assert(results_view(sorted@).to_multiset().add(Multiset::empty()) =~= results_view(
        sorted@,
    ).to_multiset());
    sorted
}

fn match_or_zero(choice: &str, q: &str) -> (r: i64)
    ensures
        r == score_or_zero(skim_score(choice@, q@)),
        i32::MIN <= r <= i32::MAX,
{
    match skim_match(choice, q) {
        Some(s) => s,
        None => 0,
    }
}

fn trunc_div_exec(a: i64, d: i64) -> (r: i64)
    requires
        d > 0,
        i32::MIN <= a <= i32::MAX,
    ensures
        r == trunc_div(a as int, d as int),
        i32::MIN <= r <= i32::MAX,
{
    if a >= 0 {
        assert(a / d <= a) by (nonlinear_arith)
            requires a >= 0, d > 0;
        a / d
    } else {
        let n: i64 = -a;
        assert(n / d <= n) by (nonlinear_arith)
            requires n >= 0, d > 0;
        assert(n / d >= 0) by (nonlinear_arith)
            requires n >= 0, d > 0;
        -(n / d)
    }
}

fn max_exec(a: i64, b: i64) -> (r: i64)
    ensures
        r == max2(a as int, b as int),
{
    if a >= b {
        a
    } else {
        b
    }
}

fn category_score_exec(cats: &Vec<String>, q: &str) -> (r: i64)
    ensures
        r == (match best_category(strings_view(cats@), q@) {
            Some(s) => s,
            None => 0,
        }),
        i32::MIN <= r <= i32::MAX,
{
    let ghost cv = strings_view(cats@);
    let mut best: Option<i64> = None;
    let mut i: usize = 0;
    assert(cv.take(0) =~= Seq::<Seq<char>>::empty());
    while i < cats.len()
        invariant
            i <= cats@.len(),
            cv == strings_view(cats@),
            match best {
                Some(b) => best_category(cv.take(i as int), q@) == Some(b as int) && i32::MIN <= b
                    <= i32::MAX,
                None => best_category(cv.take(i as int), q@) is None,
            },
        decreases cats@.len() - i,
    {
        assert(cv.take(i + 1).drop_last() =~= cv.take(i as int));
        assert(cv.take(i + 1).last() == cats@[i as int]@);
        match skim_match(cats[i].as_str(), q) {
            None => {},
            Some(s) => {
                best = match best {
                    None => Some(s),
                    Some(b) => Some(if s >= b { s } else { b }),
                };
            },
        }
        i = i + 1;
    }
    assert(cv.take(cats@.len() as int) =~= cv);
    match best {
        Some(b) => b,
        None => 0,
    }
}

/// Every result of `recent` is scored by its whole frecency points.
proof fn lemma_recent_scores(apps: Seq<AppEntryView>, ledger: Map<Seq<char>, AppUsage>, now: int)
    ensures
        forall|x: ResultView| #[trigger] recent(apps, ledger, now).contains(x) ==> x.1 == x.2 / 4,
    decreases apps.len(),
{
    if apps.len() > 0 {
        lemma_recent_scores(apps.drop_last(), ledger, now);
        let prev = recent(apps.drop_last(), ledger, now);
        let e = apps.last();
        let f = frecency_of(e, ledger, now);
        assert forall|x: ResultView| #[trigger] recent(apps, ledger, now).contains(x) implies x.1
            == x.2 / 4 by {
            let full = prev.push((e, f / 4, f));
            let k = choose|k: int| 0 <= k < full.len() && #[trigger] full[k] == x;
            if k < prev.len() {
                assert(prev[k] == x);
                assert(prev.contains(prev[k]));
            }
        }
    }
}

proof fn lemma_recent_len(apps: Seq<AppEntryView>, ledger: Map<Seq<char>, AppUsage>, now: int)
    ensures
        recent(apps, ledger, now).len() == apps.len(),
    decreases apps.len(),
{
    if apps.len() > 0 {
        lemma_recent_len(apps.drop_last(), ledger, now);
    }
}

/// The ranking score from the four field scores (each an `i32` score) and
/// the frecency in quarter points; none where the relevance is not positive.
pub fn combine_scores(name: i64, exec: i64, comment: i64, category: i64, frecency: u64) -> (r:
    Option<i64>)
    requires
        i32::MIN <= name <= i32::MAX,
        i32::MIN <= exec <= i32::MAX,
        i32::MIN <= comment <= i32::MAX,
        i32::MIN <= category <= i32::MAX,
    ensures
        match r {
            Some(s) => relevance(name as int, exec as int, comment as int, category as int) > 0
                && s == combined_score(
                name as int,
                exec as int,
                comment as int,
                category as int,
                frecency as int,
            ),
            None => relevance(name as int, exec as int, comment as int, category as int) <= 0,
        },
{
    let base = max_exec(
        max_exec(max_exec(name, exec), trunc_div_exec(comment, 2)),
        trunc_div_exec(category, 3),
    );
    if base <= 0 {
        return None;
    }
    let boost: i64 = if name == base {
        10
    } else {
        0
    };
    let capped: u64 = if frecency < 400 {
        frecency
    } else {
        400
    };
    let bonus: i64 = (capped / 40) as i64;
    Some(base + boost + bonus)
}

/// Whether `r` is the first `limit` entries of `apps` by frecency.
pub open spec fn is_recent_result(
    r: Seq<ResultView>,
    apps: Seq<AppEntryView>,
    ledger: Map<Seq<char>, AppUsage>,
    now: int,
    limit: int,
) -> bool {
    &&& r.len() == min_len(apps.len() as int, limit)
    &&& is_by_frecency(r)
    &&& exists|s: Seq<ResultView>|
        s.to_multiset() == recent(apps, ledger, now).to_multiset() && is_ranked(s) && r == s.take(
            r.len() as int,
        )
}

/// Ranks applications against queries, with frecency from a usage ledger.
pub struct Searcher {
    database: Database,
}

impl Searcher {
    pub closed spec fn wf(&self) -> bool {
        self.database.wf()
    }

    /// The usage ledger read by this searcher.
    pub closed spec fn ledger(&self) -> Map<Seq<char>, AppUsage> {
        self.database@
    }

    pub fn new(database: Database) -> (r: Searcher)
        requires
            database.wf(),
        ensures
            r.wf(),
            r.ledger() == database@,
    {
        Searcher { database }
    }

    /// The ledger this searcher reads.
    pub fn database(&self) -> (r: &Database)
        requires
            self.wf(),
        ensures
            r.wf(),
            r@ == self.ledger(),
    {
        &self.database
    }

    /// Scores one entry: none where it does not match `query`.
    pub fn score_entry(&self, e: &AppEntry, query: &str, now: i64) -> (r: Option<SearchResult>)
        requires
            self.wf(),
        ensures
            match r {
                Some(x) => base_score(e@, query@) > 0 && x@ == (
                    e@,
                    final_score(e@, query@, frecency_of(e@, self.ledger(), now as int)),
                    frecency_of(e@, self.ledger(), now as int),
                ),
                None => base_score(e@, query@) <= 0,
            },
    {
        let name_s = match_or_zero(e.name.as_str(), query);
        let ec = chars_of(e.exec_line.as_str());
        let w = first_word_chars(&ec);
        let b = after_last_slash_chars(&w);
        let bs = string_from_chars(&b);
        let exec_s = match_or_zero(bs.as_str(), query);
        let comment_s = match &e.comment {
            Some(c) => match_or_zero(c.as_str(), query),
            None => 0,
        };
        let cat_s = category_score_exec(&e.categories, query);
        let base = max_exec(
            max_exec(max_exec(name_s, exec_s), trunc_div_exec(comment_s, 2)),
            trunc_div_exec(cat_s, 3),
        );
        assert(base == base_score(e@, query@));
        if base > 0 {
            let key = e.usage_key();
            let f = self.database.calculate_frecency(key.as_str(), now);
            match combine_scores(name_s, exec_s, comment_s, cat_s, f) {
                Some(score) => Some(SearchResult { app: e.duplicate(), score, frecency: f }),
                None => None,
            }
        } else {
            None
        }
    }

    /// Ranks `apps` against `query` at time `now` (seconds since the epoch):
    /// for an empty query the 20 entries of highest frecency, else the
    /// matching entries by score.
    pub fn search_at(&self, query: &str, apps: &[AppEntry], now: i64) -> (r: Vec<SearchResult>)
        requires
            self.wf(),
        ensures
            is_search_result(
                results_view(r@),
                query@,
                entries_view(apps@),
                self.ledger(),
                now as int,
            ),
    {
        if query.is_empty() {
            return self.get_recent_apps(apps, RECENT_LIMIT, now);
        }
        let ghost ev = entries_view(apps@);
        let mut items: Vec<SearchResult> = Vec::new();
        let mut i: usize = 0;
        assert(ev.take(0) =~= Seq::<AppEntryView>::empty());
        assert(results_view(items@) =~= Seq::<ResultView>::empty());
        while i < apps.len()
            invariant
                self.wf(),
                query@.len() > 0,
                ev == entries_view(apps@),
                i <= apps@.len(),
                results_view(items@) == matched(ev.take(i as int), query@, self.ledger(), now as int),
            decreases apps@.len() - i,
        {
            assert(ev.take(i + 1).drop_last() =~= ev.take(i as int));
            assert(ev.take(i + 1).last() == apps@[i as int]@);
            let ghost before = items@;
            match self.score_entry(&apps[i], query, now) {
                Some(x) => {
                    items.push(x);
                    assert(results_view(items@) =~= results_view(before).push(items@.last()@));
                },
                None => {},
            }
            i = i + 1;
        }
        assert(ev.take(apps@.len() as int) =~= ev);
        sort_ranked(items)
    }

    /// Ranks `apps` against `query` at the current time.
    pub fn search(&self, query: &str, apps: &[AppEntry]) -> (r: Vec<SearchResult>)
        requires
            self.wf(),
        ensures
            exists|now: i64|
                is_search_result(
                    results_view(r@),
                    query@,
                    entries_view(apps@),
                    self.ledger(),
                    now as int,
                ),
    {
        let now = crate::clock::now_timestamp();
        self.search_at(query, apps, now)
    }

    /// The `limit` entries of highest frecency, ties by name.
    fn get_recent_apps(&self, apps: &[AppEntry], limit: usize, now: i64) -> (r: Vec<SearchResult>)
        requires
            self.wf(),
        ensures
            is_recent_result(
                results_view(r@),
                entries_view(apps@),
                self.ledger(),
                now as int,
                limit as int,
            ),
    {
        let ghost ev = entries_view(apps@);
        let mut items: Vec<SearchResult> = Vec::new();
        let mut i: usize = 0;
        assert(ev.take(0) =~= Seq::<AppEntryView>::empty());
        assert(results_view(items@) =~= Seq::<ResultView>::empty());
        while i < apps.len()
            invariant
                self.wf(),
                ev == entries_view(apps@),
                i <= apps@.len(),
                results_view(items@) == recent(ev.take(i as int), self.ledger(), now as int),
            decreases apps@.len() - i,
        {
            assert(ev.take(i + 1).drop_last() =~= ev.take(i as int));
            assert(ev.take(i + 1).last() == apps@[i as int]@);
            let e = &apps[i];
            let key = e.usage_key();
            let f = self.database.calculate_frecency(key.as_str(), now);
            let ghost before = items@;
            items.push(SearchResult { app: e.duplicate(), score: (f / 4) as i64, frecency: f });
            assert(results_view(items@) =~= results_view(before).push(items@.last()@));
            i = i + 1;
        }
        assert(ev.take(apps@.len() as int) =~= ev);
        let mut sorted = sort_ranked(items);
        let ghost s = results_view(sorted@);
        sorted.truncate(limit);
        let ghost r = results_view(sorted@);
        assert(r =~= s.take(r.len() as int));
        proof {
            lemma_recent_len(ev, self.ledger(), now as int);
            assert(s.len() == s.to_multiset().len());
            assert(recent(ev, self.ledger(), now as int).to_multiset().len() == recent(
                ev,
                self.ledger(),
                now as int,
            ).len());
            lemma_recent_scores(ev, self.ledger(), now as int);
            assert forall|a: int, b: int| 0 <= a < b < r.len() implies #[trigger] r[a].2 > #[trigger] r[b].2 || (r[a].2
                == r[b].2 && seq_le(r[a].0.name, r[b].0.name)) by {
                assert(r[a] == s[a] && r[b] == s[b]);
                assert(s.to_multiset().count(s[a]) > 0);
                assert(s.to_multiset().count(s[b]) > 0);
                assert(recent(ev, self.ledger(), now as int).contains(s[a]));
                assert(recent(ev, self.ledger(), now as int).contains(s[b]));
                assert(ranks_before(s[a], s[b]));
                if s[a].2 <= s[b].2 {
                    vstd::arithmetic::div_mod::lemma_div_is_ordered(s[a].2, s[b].2, 4);
                }
            }
        }
        sorted
    }
}

/// Each result of `matched` has positive relevance and the score that the
/// formula gives.
proof fn lemma_matched_scores(
    apps: Seq<AppEntryView>,
    q: Seq<char>,
    ledger: Map<Seq<char>, AppUsage>,
    now: int,
)
    ensures
        forall|x: ResultView| #[trigger]
            matched(apps, q, ledger, now).contains(x) ==> base_score(x.0, q) > 0 && x.2
                == frecency_of(x.0, ledger, now) && x.1 == final_score(x.0, q, x.2),
    decreases apps.len(),
{
    if apps.len() > 0 {
        lemma_matched_scores(apps.drop_last(), q, ledger, now);
        let prev = matched(apps.drop_last(), q, ledger, now);
        let full = matched(apps, q, ledger, now);
        assert forall|x: ResultView| #[trigger] full.contains(x) implies base_score(x.0, q) > 0
            && x.2 == frecency_of(x.0, ledger, now) && x.1 == final_score(x.0, q, x.2) by {
            let k = choose|k: int| 0 <= k < full.len() && #[trigger] full[k] == x;
            if k < prev.len() {
                assert(prev[k] == x);
                assert(prev.contains(prev[k]));
            }
        }
    }
}

/// A ranking for a non-empty query holds only entries whose relevance is
/// positive, each scored by the formula: relevance, plus 10 where the name
/// gave it, plus the frecency bonus.
pub proof fn lemma_ranked_results_follow_formula(
    r: Seq<ResultView>,
    q: Seq<char>,
    apps: Seq<AppEntryView>,
    ledger: Map<Seq<char>, AppUsage>,
    now: int,
)
    requires
        q.len() > 0,
        is_search_result(r, q, apps, ledger, now),
    ensures
        forall|i: int|
            0 <= i < r.len() ==> base_score(#[trigger] r[i].0, q) > 0 && r[i].2 == frecency_of(
                r[i].0,
                ledger,
                now,
            ) && r[i].1 == final_score(r[i].0, q, r[i].2),
{
    lemma_matched_scores(apps, q, ledger, now);
    assert forall|i: int| 0 <= i < r.len() implies base_score(#[trigger] r[i].0, q) > 0 && r[i].2
        == frecency_of(r[i].0, ledger, now) && r[i].1 == final_score(r[i].0, q, r[i].2) by {
        assert(r.to_multiset().count(r[i]) > 0);
        assert(matched(apps, q, ledger, now).contains(r[i]));
    }
}

/// A ranking for the empty query holds at most 20 results, by descending
/// frecency and then ascending name.
pub proof fn lemma_empty_query_ranking(
    r: Seq<ResultView>,
    apps: Seq<AppEntryView>,
    ledger: Map<Seq<char>, AppUsage>,
    now: int,
)
    requires
        is_search_result(r, Seq::empty(), apps, ledger, now),
    ensures
        r.len() <= RECENT_LIMIT,
        is_by_frecency(r),
{
}

/// For the same field scores, more frecency never lowers the score.
pub proof fn lemma_score_non_decreasing_in_frecency(
    name: int,
    exec: int,
    comment: int,
    category: int,
    f1: int,
    f2: int,
)
    requires
        0 <= f1 <= f2,
    ensures
        combined_score(name, exec, comment, category, f1) <= combined_score(
            name,
            exec,
            comment,
            category,
            f2,
        ),
{
    let c1: int = if f1 < 400 {
        f1
    } else {
        400
    };
    let c2: int = if f2 < 400 {
        f2
    } else {
        400
    };
    vstd::arithmetic::div_mod::lemma_div_is_ordered(c1, c2, 40);
}

} // verus!
