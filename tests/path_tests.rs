use exek::path_completion::{CompletionRequest, ListedEntry, PathCompleter, PathCompletion};

fn entry(name: &str, is_dir: bool, is_file: bool, mode: u32) -> ListedEntry {
    ListedEntry { name: name.to_string(), is_dir, is_file, mode }
}

fn shown(cs: &[PathCompletion]) -> Vec<(String, bool)> {
    cs.iter().map(|c| (c.display_name.clone(), c.is_dir)).collect()
}

#[test]
fn path_queries_are_recognised() {
    for q in ["/etc", "./x", "../y", "~/z", "~"] {
        assert!(PathCompleter::is_path_query(q), "{}", q);
    }
    for q in ["firefox", "", "code ", ".x", "..", "a/b"] {
        assert!(!PathCompleter::is_path_query(q), "{}", q);
    }
}

#[test]
fn request_for_a_directory_query() {
    let r = PathCompleter::completion_request("/etc/", &None, "/work").unwrap();
    assert_eq!(r.dir, "/etc/");
    assert_eq!(r.prefix, "");
    let r = PathCompleter::completion_request("/etc/pa", &None, "/work").unwrap();
    assert_eq!(r.dir, "/etc");
    assert_eq!(r.prefix, "pa");
    let r = PathCompleter::completion_request("/us", &None, "/work").unwrap();
    assert_eq!(r.dir, "/");
    assert_eq!(r.prefix, "us");
    let r = PathCompleter::completion_request("./sc", &None, "/work").unwrap();
    assert_eq!(r.dir, "/work");
    assert_eq!(r.prefix, "sc");
    assert!(PathCompleter::completion_request("firefox", &None, "/work").is_none());
}

#[test]
fn request_expands_the_home_directory() {
    let home = Some("/home/user".to_string());
    let r = PathCompleter::completion_request("~/Doc", &home, "/work").unwrap();
    assert_eq!(r.dir, "/home/user");
    assert_eq!(r.prefix, "Doc");
    let r = PathCompleter::completion_request("~", &home, "/work").unwrap();
    assert_eq!(r.dir, "/home");
    assert_eq!(r.prefix, "user");
    let r = PathCompleter::completion_request("~other/x", &home, "/work").unwrap();
    assert_eq!(r.dir, "/work/~other");
    assert_eq!(r.prefix, "x");
}

#[test]
fn home_documents_scenario() {
    let completer = PathCompleter::new();
    let home = Some("/home/user".to_string());
    let req = PathCompleter::completion_request("~/Doc", &home, "/work").unwrap();
    let listing = vec![
        entry("Downloads", true, false, 0o755),
        entry("Documents", true, false, 0o755),
        entry("Doc.txt", false, true, 0o644),
        entry("Docker", false, true, 0o700),
        entry("docs", true, false, 0o755),
    ];
    let cs = completer.complete_listing("~/Doc", &home, &req, &listing);
    assert_eq!(
        shown(&cs),
        vec![("~/Documents".to_string(), true), ("~/Docker".to_string(), false)]
    );
    assert_eq!(cs[0].path, "/home/user/Documents");
    assert_eq!(PathCompleter::apply_completion("~/Doc", &cs[0]), "~/Documents/");
    assert_eq!(PathCompleter::apply_completion("~/Doc", &cs[1]), "~/Docker");
}

#[test]
fn etc_listing_keeps_directories_and_executables() {
    let completer = PathCompleter::new();
    let req = CompletionRequest { dir: "/etc/".to_string(), prefix: String::new() };
    let listing = vec![
        entry("passwd", false, true, 0o644),
        entry("ssh", true, false, 0o755),
        entry("rc.local", false, true, 0o001),
        entry("apt", true, false, 0o755),
        entry("grp-run", false, true, 0o010),
        entry("fifo", false, false, 0o777),
    ];
    let cs = completer.complete_listing("/etc/", &None, &req, &listing);
    assert_eq!(
        shown(&cs),
        vec![
            ("/etc/apt".to_string(), true),
            ("/etc/ssh".to_string(), true),
            ("/etc/grp-run".to_string(), false),
            ("/etc/rc.local".to_string(), false),
        ]
    );
}

#[test]
fn display_is_absolute_without_tilde() {
    let completer = PathCompleter::new();
    let home = Some("/home/user".to_string());
    let req = CompletionRequest { dir: "/home/user".to_string(), prefix: "b".to_string() };
    let cs = completer.complete_listing("/home/user/b", &home, &req, &[entry("bin", true, false, 0o755)]);
    assert_eq!(shown(&cs), vec![("/home/user/bin".to_string(), true)]);
}

#[test]
fn empty_listing_gives_no_completions() {
    let completer = PathCompleter::new();
    let req = CompletionRequest { dir: "/nowhere".to_string(), prefix: String::new() };
    assert!(completer.complete_listing("/nowhere/", &None, &req, &[]).is_empty());
}

#[test]
fn applying_a_directory_adds_one_slash() {
    let dir = PathCompletion { path: "/a/b".to_string(), display_name: "/a/b".to_string(), is_dir: true };
    assert_eq!(PathCompleter::apply_completion("/a/", &dir), "/a/b/");
    let dir2 = PathCompletion { path: "/".to_string(), display_name: "/".to_string(), is_dir: true };
    assert_eq!(PathCompleter::apply_completion("/", &dir2), "/");
}

#[test]
fn relative_queries_complete_to_absolute_paths() {
    let completer = PathCompleter::new();
    let req = PathCompleter::completion_request("./", &None, "/work").unwrap();
    assert_eq!(req.dir, "/work");
    assert_eq!(req.prefix, "");
    let cs = completer.complete_listing("./", &None, &req, &[entry("bin", true, false, 0o755)]);
    assert_eq!(shown(&cs), vec![("/work/bin".to_string(), true)]);
    assert_eq!(cs[0].path, "/work/bin");
    let req = PathCompleter::completion_request("../y", &None, "/work/sub/").unwrap();
    assert_eq!(req.dir, "/work/sub/..");
    assert_eq!(req.prefix, "y");
    let req = PathCompleter::completion_request("./src/ma", &None, "/work").unwrap();
    assert_eq!(req.dir, "/work/src");
    assert_eq!(req.prefix, "ma");
}

#[test]
fn home_with_trailing_slashes_still_shows_tilde_slash() {
    let completer = PathCompleter::new();
    let home = Some("/home/u//".to_string());
    let req = PathCompleter::completion_request("~/Doc", &home, "/work").unwrap();
    let cs = completer.complete_listing("~/Doc", &home, &req, &[entry("Documents", true, false, 0o755)]);
    assert_eq!(shown(&cs), vec![("~/Documents".to_string(), true)]);
    assert_eq!(PathCompleter::apply_completion("~/Doc", &cs[0]), "~/Documents/");
    let root_home = Some("/".to_string());
    let req = PathCompleter::completion_request("~/et", &root_home, "/work").unwrap();
    assert_eq!(req.dir, "/");
    let cs = completer.complete_listing("~/et", &root_home, &req, &[entry("etc", true, false, 0o755)]);
    assert_eq!(shown(&cs), vec![("~/etc".to_string(), true)]);
}
