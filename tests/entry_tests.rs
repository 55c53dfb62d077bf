use exek::entry::{AppEntry, EntryKind};

fn app(name: &str, exec_line: &str) -> AppEntry {
    AppEntry {
        name: name.to_string(),
        exec_line: exec_line.to_string(),
        icon: None,
        comment: None,
        categories: Vec::new(),
        desktop_file: String::new(),
        terminal: false,
        kind: EntryKind::Application,
    }
}

#[test]
fn launch_command_drops_field_codes() {
    assert_eq!(app("Firefox", "firefox %u").get_launch_command(), "firefox");
    assert_eq!(app("Files", "  nautilus --new-window %U ").get_launch_command(), "nautilus --new-window");
    assert_eq!(app("Ed", "ed %F %f %i %k").get_launch_command(), "ed");
}

#[test]
fn launch_command_puts_in_the_name() {
    assert_eq!(app("My App", "run --class %c %u").get_launch_command(), "run --class My App");
}

#[test]
fn launch_command_keeps_other_percent_codes() {
    assert_eq!(app("A", "tool %x 100%").get_launch_command(), "tool %x 100%");
}

#[test]
fn path_entry_is_named_after_its_file() {
    let e = AppEntry::from_path("/usr/bin/htop");
    assert_eq!(e.name, "htop [Path]");
    assert_eq!(e.exec_line, "/usr/bin/htop");
    assert_eq!(e.comment, Some("/usr/bin/htop".to_string()));
    assert_eq!(e.categories, vec!["Path".to_string()]);
    assert_eq!(e.kind, EntryKind::Path);
    assert!(!e.terminal);
    assert_eq!(e.usage_key(), "path:/usr/bin/htop");
}

#[test]
fn path_entry_without_a_file_name() {
    assert_eq!(AppEntry::from_path("/").name, "Unknown [Path]");
    assert_eq!(AppEntry::from_path("/opt/..").name, "Unknown [Path]");
    assert_eq!(AppEntry::from_path("/opt/tools/").name, "tools [Path]");
    assert_eq!(AppEntry::from_path("x/.").name, "x [Path]");
    assert_eq!(AppEntry::from_path("x/./").name, "x [Path]");
    assert_eq!(AppEntry::from_path("foo.txt/.").name, "foo.txt [Path]");
    assert_eq!(AppEntry::from_path(".").name, "Unknown [Path]");
    assert_eq!(AppEntry::from_path("/.").name, "Unknown [Path]");
    assert_eq!(AppEntry::from_path("").name, "Unknown [Path]");
    assert_eq!(AppEntry::from_path("./run").name, "run [Path]");
}

#[test]
fn application_key_is_its_name() {
    assert_eq!(app("Firefox", "firefox").usage_key(), "Firefox");
}

#[test]
fn duplicate_keeps_every_field() {
    let mut a = app("Gimp", "gimp %U");
    a.categories = vec!["Graphics".to_string(), "Photo".to_string()];
    a.comment = Some("Edit images".to_string());
    let b = a.duplicate();
    assert_eq!(b.name, a.name);
    assert_eq!(b.categories, a.categories);
    assert_eq!(b.comment, a.comment);
}
