use exek::entry::{AppEntry, EntryKind};

#[test]
fn parses_a_desktop_entry() {
    let text = "[Desktop Entry]\nType=Application\nName = Firefox \nExec=firefox %u\r\nIcon=firefox\nComment=Browse the web\nCategories=Network;WebBrowser;;\nTerminal=False\n\n[Desktop Action new-window]\nName=New Window\nExec=firefox --new-window\n";
    let e = AppEntry::from_ini_file(text, "/usr/share/applications/firefox.desktop").unwrap();
    assert_eq!(e.name, "Firefox");
    assert_eq!(e.exec_line, "firefox %u");
    assert_eq!(e.icon, Some("firefox".to_string()));
    assert_eq!(e.comment, Some("Browse the web".to_string()));
    assert_eq!(e.categories, vec!["Network".to_string(), "WebBrowser".to_string()]);
    assert!(!e.terminal);
    assert_eq!(e.desktop_file, "/usr/share/applications/firefox.desktop");
    assert_eq!(e.kind, EntryKind::Application);
}

#[test]
fn terminal_flag_ignores_case() {
    let e = AppEntry::from_ini_file("[Desktop Entry]\nName=Top\nExec=htop\nTerminal=TRUE", "f").unwrap();
    assert!(e.terminal);
    assert!(e.icon.is_none());
    assert!(e.categories.is_empty());
}

#[test]
fn hidden_or_incomplete_entries_are_skipped() {
    assert!(AppEntry::from_ini_file("[Desktop Entry]\nName=A\nExec=a\nNoDisplay=true\n", "f").is_none());
    assert!(AppEntry::from_ini_file("[Desktop Entry]\nName=A\nExec=a\nHidden=True\n", "f").is_none());
    assert!(AppEntry::from_ini_file("[Desktop Entry]\nName=A\n", "f").is_none());
    assert!(AppEntry::from_ini_file("Name=A\nExec=a\n", "f").is_none());
    assert!(AppEntry::from_ini_file("", "f").is_none());
}

#[test]
fn value_keeps_later_equals_signs() {
    let e = AppEntry::from_ini_file("[Desktop Entry]\nName=Env\nExec=env A=1 prog\n", "f").unwrap();
    assert_eq!(e.exec_line, "env A=1 prog");
    assert_eq!(e.get_launch_command(), "env A=1 prog");
}

#[test]
fn later_keys_win() {
    let e = AppEntry::from_ini_file("[Desktop Entry]\nName=One\nName=Two\nExec=x\nNoDisplay=false\n", "f").unwrap();
    assert_eq!(e.name, "Two");
}
