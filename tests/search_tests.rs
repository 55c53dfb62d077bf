use exek::entry::{AppEntry, EntryKind};
use exek::search::{combine_scores, SearchResult, Searcher};
use exek::usage::Database;
use fuzzy_matcher::skim::SkimMatcherV2;
use fuzzy_matcher::FuzzyMatcher;

const NOW: i64 = 1_700_000_000;

fn app(name: &str, exec_line: &str) -> AppEntry {
    AppEntry {
        name: name.to_string(),
        exec_line: exec_line.to_string(),
        icon: None,
        comment: None,
        categories: Vec::new(),
        desktop_file: String::new(),
        terminal: false,
        kind: EntryKind::Application,
    }
}

fn names(rs: &[SearchResult]) -> Vec<String> {
    rs.iter().map(|r| r.app.name.clone()).collect()
}

fn skim(choice: &str, q: &str) -> i64 {
    SkimMatcherV2::default().fuzzy_match(choice, q).unwrap_or(0)
}

#[test]
fn record_then_rerank_scenario() {
    let apps = vec![app("Firefox", "firefox"), app("Files", "nautilus")];
    let searcher = Searcher::new(Database::new());
    let before = searcher.search_at("fire", &apps, NOW);
    assert_eq!(names(&before), vec!["Firefox".to_string()]);
    assert_eq!(before[0].frecency, 0);

    let mut db = Database::new();
    db.record_launch_at("Firefox", NOW);
    let searcher = Searcher::new(db);
    let after = searcher.search_at("fire", &apps, NOW);
    assert_eq!(names(&after), vec!["Firefox".to_string()]);
    assert!(after[0].frecency > 0);
    // one launch today: frecency 2.0, whose bonus floor(2 / 10) is 0
    assert_eq!(after[0].frecency, 8);
    assert!(after[0].score >= before[0].score);
}

#[test]
fn score_follows_the_formula() {
    let apps = vec![app("Firefox", "/usr/lib/firefox/firefox --new %u")];
    let mut db = Database::new();
    for _ in 0..30 {
        db.record_launch_at("Firefox", NOW);
    }
    let searcher = Searcher::new(db);
    let rs = searcher.search_at("fire", &apps, NOW);
    assert_eq!(rs.len(), 1);
    let name_s = skim("Firefox", "fire");
    let exec_s = skim("firefox", "fire");
    let base = name_s.max(exec_s);
    let boost = if name_s == base { 10 } else { 0 };
    // 30 launches today: frecency 60, bonus 6
    assert_eq!(rs[0].frecency, 240);
    assert_eq!(rs[0].score, base + boost + 6);
}

#[test]
fn frecency_bonus_is_capped() {
    let apps = vec![app("Firefox", "firefox")];
    let mut db = Database::new();
    for _ in 0..500 {
        db.record_launch_at("Firefox", NOW);
    }
    let searcher = Searcher::new(db);
    let rs = searcher.search_at("fire", &apps, NOW);
    let name_s = skim("Firefox", "fire");
    let base = name_s.max(skim("firefox", "fire"));
    let boost = if name_s == base { 10 } else { 0 };
    assert_eq!(rs[0].score, base + boost + 10);
}

#[test]
fn non_matching_entries_are_left_out() {
    let apps = vec![app("Terminal", "gnome-terminal"), app("Calculator", "gnome-calculator")];
    let searcher = Searcher::new(Database::new());
    let rs = searcher.search_at("zzqx", &apps, NOW);
    assert!(rs.is_empty());
    let rs = searcher.search_at("calc", &apps, NOW);
    assert_eq!(names(&rs), vec!["Calculator".to_string()]);
}

#[test]
fn description_and_categories_count_less() {
    let mut a = app("Alpha", "alpha");
    a.comment = Some("web browser".to_string());
    let mut b = app("Beta", "beta");
    b.categories = vec!["Network".to_string(), "WebBrowser".to_string()];
    let apps = vec![a, b];
    let searcher = Searcher::new(Database::new());
    let rs = searcher.search_at("browser", &apps, NOW);
    let by_comment = skim("web browser", "browser") / 2;
    let by_category = skim("WebBrowser", "browser").max(skim("Network", "browser")) / 3;
    assert_eq!(rs.len(), 2);
    for r in &rs {
        if r.app.name == "Alpha" {
            assert_eq!(r.score, by_comment);
        } else {
            assert_eq!(r.score, by_category);
        }
    }
    assert!(rs[0].score >= rs[1].score);
}

#[test]
fn ties_go_by_frecency_then_name() {
    let apps = vec![app("Zed", "code"), app("Code", "code"), app("Abc", "code")];
    let mut db = Database::new();
    db.record_launch_at("Zed", NOW);
    let searcher = Searcher::new(db);
    let rs = searcher.search_at("code", &apps, NOW);
    assert_eq!(rs.len(), 3);
    for w in rs.windows(2) {
        assert!(w[0].score > w[1].score
            || (w[0].score == w[1].score && w[0].frecency > w[1].frecency)
            || (w[0].score == w[1].score && w[0].frecency == w[1].frecency && w[0].app.name <= w[1].app.name));
    }
}

#[test]
fn empty_query_lists_top_twenty_by_frecency() {
    let mut apps = Vec::new();
    for i in 0..25 {
        apps.push(app(&format!("App{:02}", i), "run"));
    }
    let mut db = Database::new();
    for _ in 0..3 {
        db.record_launch_at("App07", NOW);
    }
    db.record_launch_at("App20", NOW - 10 * 86400);
    let searcher = Searcher::new(db);
    let rs = searcher.search_at("", &apps, NOW);
    assert_eq!(rs.len(), 20);
    assert_eq!(rs[0].app.name, "App07");
    assert_eq!(rs[0].frecency, 24);
    assert_eq!(rs[0].score, 6);
    assert_eq!(rs[1].app.name, "App20");
    assert_eq!(rs[1].frecency, 4);
    assert_eq!(rs[2].app.name, "App00");
    assert_eq!(rs[19].app.name, "App18");
    for w in rs.windows(2) {
        assert!(w[0].frecency > w[1].frecency
            || (w[0].frecency == w[1].frecency && w[0].app.name <= w[1].app.name));
    }
}

#[test]
fn empty_query_with_few_apps_lists_all() {
    let apps = vec![app("B", "b"), app("A", "a")];
    let searcher = Searcher::new(Database::new());
    let rs = searcher.search("", &apps);
    assert_eq!(names(&rs), vec!["A".to_string(), "B".to_string()]);
    assert!(searcher.search("", &[]).is_empty());
}

#[test]
fn path_entries_use_path_keys() {
    let apps = vec![AppEntry::from_path("/opt/tool/run")];
    let mut db = Database::new();
    db.record_path_launch_at("/opt/tool/run", NOW);
    let searcher = Searcher::new(db);
    let rs = searcher.search_at("", &apps, NOW);
    assert_eq!(rs[0].frecency, 8);
    let rs = searcher.search_at("run", &apps, NOW);
    assert_eq!(rs.len(), 1);
    assert_eq!(rs[0].frecency, 8);
}

#[test]
fn score_formula_on_given_scores() {
    // name gives the relevance: boost of 10
    assert_eq!(combine_scores(100, 90, 0, 0, 0), Some(110));
    // one launch today is frecency 2.0 (8 quarter points): bonus floor(2 / 10) = 0
    assert_eq!(combine_scores(100, 90, 0, 0, 8), Some(110));
    // frecency 10.0: bonus 1; frecency above 100 counts as 100
    assert_eq!(combine_scores(100, 90, 0, 0, 40), Some(111));
    assert_eq!(combine_scores(100, 90, 0, 0, 4000), Some(120));
    // the program name gives it: no boost
    assert_eq!(combine_scores(50, 90, 0, 0, 0), Some(90));
    // half the description, a third of the category, truncated
    assert_eq!(combine_scores(0, 0, 41, 0, 0), Some(20));
    assert_eq!(combine_scores(0, 0, 0, 61, 0), Some(20));
    assert_eq!(combine_scores(0, 0, 1, 2, 0), None);
    assert_eq!(combine_scores(-5, -7, -9, -3, 400), None);
}
