use exek::usage::{AppUsage, Database};

const DAY: i64 = 86400;

#[test]
fn unrecorded_key_has_zero_frecency() {
    let db = Database::new();
    assert_eq!(db.calculate_frecency("firefox", 1_000_000), 0);
    assert_eq!(db.get_usage("firefox"), AppUsage { launch_count: 0, last_launched: None });
}

#[test]
fn record_twice_adds_two_and_keeps_last_time() {
    let mut db = Database::new();
    db.record_launch_at("Firefox", 100);
    db.record_launch_at("Firefox", 250);
    assert_eq!(db.get_usage("Firefox"), AppUsage { launch_count: 2, last_launched: Some(250) });
    assert_eq!(db.get_usage("Files"), AppUsage { launch_count: 0, last_launched: None });
}

#[test]
fn frecency_multipliers_by_age() {
    let mut db = Database::new();
    let t: i64 = 10 * DAY;
    db.record_launch_at("a", t);
    db.record_launch_at("a", t);
    db.record_launch_at("a", t);
    // three launches: 3 x multiplier, in quarter points
    assert_eq!(db.calculate_frecency("a", t), 24);
    assert_eq!(db.calculate_frecency("a", t + DAY - 1), 24);
    assert_eq!(db.calculate_frecency("a", t + DAY), 18);
    assert_eq!(db.calculate_frecency("a", t + 7 * DAY - 1), 18);
    assert_eq!(db.calculate_frecency("a", t + 7 * DAY), 12);
    assert_eq!(db.calculate_frecency("a", t + 30 * DAY), 6);
    assert_eq!(db.calculate_frecency("a", t + 89 * DAY), 6);
    assert_eq!(db.calculate_frecency("a", t + 90 * DAY), 3);
    assert_eq!(db.calculate_frecency("a", t + 1000 * DAY), 3);
    // a launch time in the future counts as less than a day ago
    assert_eq!(db.calculate_frecency("a", t - 5 * DAY), 24);
}

#[test]
fn frecency_never_grows_with_time() {
    let mut db = Database::new();
    db.record_launch_at("k", 0);
    let mut prev = db.calculate_frecency("k", 0);
    let mut now: i64 = 0;
    while now < 200 * DAY {
        now += DAY / 2;
        let f = db.calculate_frecency("k", now);
        assert!(f <= prev);
        prev = f;
    }
}

#[test]
fn path_launches_use_their_own_keys() {
    let mut db = Database::new();
    db.record_path_launch_at("/usr/bin/htop", 5);
    db.record_launch_at("htop", 6);
    assert_eq!(db.get_usage("path:/usr/bin/htop").launch_count, 1);
    assert_eq!(db.get_usage("htop").launch_count, 1);
    let paths = db.get_frequent_paths();
    assert_eq!(paths.len(), 1);
    assert_eq!(paths[0].0, "/usr/bin/htop");
    assert_eq!(paths[0].1, AppUsage { launch_count: 1, last_launched: Some(5) });
}

#[test]
fn set_usage_replaces_a_record() {
    let mut db = Database::new();
    db.set_usage("x", AppUsage { launch_count: 7, last_launched: Some(3) });
    db.set_usage("x", AppUsage { launch_count: 9, last_launched: None });
    assert_eq!(db.entries().len(), 1);
    assert_eq!(db.get_usage("x"), AppUsage { launch_count: 9, last_launched: None });
    assert_eq!(db.calculate_frecency("x", 100), 0);
}

#[test]
fn record_launch_uses_the_clock() {
    let mut db = Database::new();
    let t1 = db.record_launch("app");
    assert_eq!(db.get_usage("app"), AppUsage { launch_count: 1, last_launched: Some(t1) });
    let t2 = db.record_launch("app");
    assert_eq!(db.get_usage("app"), AppUsage { launch_count: 2, last_launched: Some(t2) });
    assert!(t2 >= t1);
    db.record_path_launch("/bin/sh");
    assert_eq!(db.get_usage("path:/bin/sh").launch_count, 1);
}

#[test]
fn default_usage_is_zero() {
    assert_eq!(AppUsage::default(), AppUsage { launch_count: 0, last_launched: None });
}
