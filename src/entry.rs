//! Launchable entries and their command lines.

use vstd::prelude::*;
use crate::text::{
    after_last_slash, after_last_slash_chars, chars_of, replace_chars, replaced,
    string_from_chars, trim_chars, trim_path_tail, trim_path_tail_chars, trimmed,
};
use crate::usage::{path_key, path_key_of};

verus! {

/// Where an entry came from, which also decides its key in the usage ledger.
#[derive(Clone, Copy, Debug, PartialEq, Eq, Structural)]
pub enum EntryKind {
    /// An installed application, known by its name.
    Application,
    /// A raw filesystem path, known by `path:` and the path.
    Path,
}

/// A launchable item.
pub struct AppEntry {
    pub name: String,
    pub exec_line: String,
    pub icon: Option<String>,
    pub comment: Option<String>,
    pub categories: Vec<String>,
    pub desktop_file: String,
    pub terminal: bool,
    pub kind: EntryKind,
}

/// The mathematical content of an `AppEntry`.
pub struct AppEntryView {
    pub name: Seq<char>,
    pub exec_line: Seq<char>,
    pub icon: Option<Seq<char>>,
    pub comment: Option<Seq<char>>,
    pub categories: Seq<Seq<char>>,
    pub desktop_file: Seq<char>,
    pub terminal: bool,
    pub kind: EntryKind,
}

/// The views of a sequence of strings.
pub open spec fn strings_view(v: Seq<String>) -> Seq<Seq<char>> {
    v.map_values(|c: String| c@)
}

pub open spec fn opt_view(o: Option<String>) -> Option<Seq<char>> {
    match o {
        Some(s) => Some(s@),
        None => None,
    }
}

impl View for AppEntry {
    type V = AppEntryView;

    open spec fn view(&self) -> AppEntryView {
        AppEntryView {
            name: self.name@,
            exec_line: self.exec_line@,
            icon: opt_view(self.icon),
            comment: opt_view(self.comment),
            categories: strings_view(self.categories@),
            desktop_file: self.desktop_file@,
            terminal: self.terminal,
            kind: self.kind,
        }
    }
}

/// The key of an entry in the usage ledger.
pub open spec fn usage_key(e: AppEntryView) -> Seq<char> {
    match e.kind {
        EntryKind::Application => e.name,
        EntryKind::Path => path_key(e.exec_line),
    }
}

/// The command line of an entry: its exec line with the field codes
/// `%F %U %f %u %i %k` removed, `%c` replaced by the name, and the ends trimmed.
pub open spec fn launch_command(e: AppEntryView) -> Seq<char> {
    let none = Seq::<char>::empty();
    let s1 = replaced(e.exec_line, seq!['%', 'F'], none);
    let s2 = replaced(s1, seq!['%', 'U'], none);
    let s3 = replaced(s2, seq!['%', 'f'], none);
    let s4 = replaced(s3, seq!['%', 'u'], none);
    let s5 = replaced(s4, seq!['%', 'i'], none);
    let s6 = replaced(s5, seq!['%', 'c'], e.name);
    let s7 = replaced(s6, seq!['%', 'k'], none);
    trimmed(s7)
}

/// The last component of a path, if it names something: trailing slashes
/// and `.` components are passed over, and there is none for an empty path,
/// the root, `.` or `..`.
pub open spec fn file_name_of(p: Seq<char>) -> Option<Seq<char>> {
    let last = after_last_slash(trim_path_tail(p));
    if last.len() == 0 || last == seq!['.'] || last == seq!['.', '.'] {
        None
    } else {
        Some(last)
    }
}

/// The entry that stands for the filesystem path `p`.
pub open spec fn path_entry(p: Seq<char>) -> AppEntryView {
    let base = match file_name_of(p) {
        Some(n) => n,
        None => seq!['U', 'n', 'k', 'n', 'o', 'w', 'n'],
    };
    AppEntryView {
        name: base + seq![' ', '[', 'P', 'a', 't', 'h', ']'],
        exec_line: p,
        icon: None,
        comment: Some(p),
        categories: seq![seq!['P', 'a', 't', 'h']],
        desktop_file: Seq::empty(),
        terminal: false,
        kind: EntryKind::Path,
    }
}

pub fn clone_opt(o: &Option<String>) -> (r: Option<String>)
    ensures
        opt_view(r) == opt_view(*o),
{
    match o {
        Some(s) => Some(s.clone()),
        None => None,
    }
}

fn file_name_chars(p: &[char]) -> (r: Option<Vec<char>>)
    ensures
        match r {
            Some(v) => file_name_of(p@) == Some(v@),
            None => file_name_of(p@) is None,
        },
{
    let head = trim_path_tail_chars(p);
    let last = after_last_slash_chars(&head);
    if last.len() == 0 {
        return None;
    }
    if last.len() == 1 && last[0] == '.' {
        assert(last@ =~= seq!['.']);
        return None;
    }
    if last.len() == 2 && last[0] == '.' && last[1] == '.' {
        assert(last@ =~= seq!['.', '.']);
        return None;
    }
    assert(last@ != seq!['.']);
    assert(last@ != seq!['.', '.']);
    Some(last)
}

impl AppEntry {
    /// A copy of the entry.
    pub fn duplicate(&self) -> (r: AppEntry)
        ensures
            r@ == self@,
    {
        let mut cats: Vec<String> = Vec::new();
        let mut i: usize = 0;
        while i < self.categories.len()
            invariant
                i <= self.categories@.len(),
                cats@.len() == i,
                strings_view(cats@) == strings_view(self.categories@.take(i as int)),
            decreases self.categories@.len() - i,
        {
            let c = self.categories[i].clone();
            let ghost before = cats@;
            cats.push(c);
            assert(cats@ =~= before.push(self.categories@[i as int]));
            assert(self.categories@.take(i + 1) =~= self.categories@.take(i as int).push(
                self.categories@[i as int],
            ));
            assert forall|j: int| 0 <= j < i + 1 implies strings_view(cats@)[j] == strings_view(
                self.categories@.take(i + 1),
            )[j] by {
                if j < i {
                    assert(strings_view(before)[j] == strings_view(self.categories@.take(i as int))[j]);
                }
            }
            assert(strings_view(cats@) =~= strings_view(self.categories@.take(i + 1)));
            i = i + 1;
        }
        assert(self.categories@.take(self.categories@.len() as int) =~= self.categories@);
        AppEntry {
            name: self.name.clone(),
            exec_line: self.exec_line.clone(),
            icon: clone_opt(&self.icon),
            comment: clone_opt(&self.comment),
            categories: cats,
            desktop_file: self.desktop_file.clone(),
            terminal: self.terminal,
            kind: self.kind,
        }
    }

    /// The entry for a filesystem path: named after its last component
    /// (`Unknown` where it has none) with ` [Path]` appended.
    pub fn from_path(path: &str) -> (r: AppEntry)
        ensures
            r@ == path_entry(path@),
    {
        let p = chars_of(path);
        let mut name = match file_name_chars(&p) {
            Some(n) => n,
            None => {
                let v = vec!['U', 'n', 'k', 'n', 'o', 'w', 'n'];
                v
            },
        };
        let ghost base = name@;
        let mut tag = vec![' ', '[', 'P', 'a', 't', 'h', ']'];
        name.append(&mut tag);
        let cats = vec![string_from_chars(&vec!['P', 'a', 't', 'h'])];
        let r = AppEntry {
            name: string_from_chars(&name),
            exec_line: string_from_chars(&p),
            icon: None,
            comment: Some(string_from_chars(&p)),
            categories: cats,
            desktop_file: String::new(),
            terminal: false,
            kind: EntryKind::Path,
        };
        assert(r@.name =~= path_entry(path@).name);
        assert(r@.categories =~= path_entry(path@).categories);
        assert(r@.desktop_file =~= Seq::<char>::empty());
        r
    }

    /// The command line to run: see `launch_command`.
    pub fn get_launch_command(&self) -> (r: String)
        ensures
            r@ == launch_command(self@),
    {
        let name = chars_of(self.name.as_str());
        let none: Vec<char> = Vec::new();
        let s0 = chars_of(self.exec_line.as_str());
        let s1 = replace_chars(&s0, &['%', 'F'], &none);
        let s2 = replace_chars(&s1, &['%', 'U'], &none);
        let s3 = replace_chars(&s2, &['%', 'f'], &none);
        let s4 = replace_chars(&s3, &['%', 'u'], &none);
        let s5 = replace_chars(&s4, &['%', 'i'], &none);
        let s6 = replace_chars(&s5, &['%', 'c'], &name);
        let s7 = replace_chars(&s6, &['%', 'k'], &none);
        let t = trim_chars(&s7);
        string_from_chars(&t)
    }

    /// The key of this entry in the usage ledger.
    pub fn usage_key(&self) -> (r: String)
        ensures
            r@ == usage_key(self@),
    {
        match self.kind {
            EntryKind::Application => self.name.clone(),
            EntryKind::Path => path_key_of(self.exec_line.as_str()),
        }
    }
}

} // verus!
