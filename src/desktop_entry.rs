//! Reading the `[Desktop Entry]` group of a desktop entry file.

use vstd::prelude::*;
use crate::entry::{AppEntry, AppEntryView, EntryKind};
use crate::text::{
    chars_eq, chars_of, has_prefix, has_suffix, skip_chars, string_from_chars, take_chars,
    trim_chars, trimmed,
};

verus! {

/// What a desktop entry file has said so far, as it is read line by line.
pub struct DesktopFields {
    pub name: Option<Seq<char>>,
    pub exec_line: Option<Seq<char>>,
    pub icon: Option<Seq<char>>,
    pub comment: Option<Seq<char>>,
    pub categories: Seq<Seq<char>>,
    pub terminal: bool,
    pub no_display: bool,
    pub hidden: bool,
    /// Inside the `[Desktop Entry]` group.
    pub in_entry: bool,
}

pub open spec fn initial_fields() -> DesktopFields {
    DesktopFields {
        name: None,
        exec_line: None,
        icon: None,
        comment: None,
        categories: Seq::empty(),
        terminal: false,
        no_display: false,
        hidden: false,
        in_entry: false,
    }
}

/// Position of the first `c` in `s`, -1 where there is none.
pub open spec fn index_of(s: Seq<char>, c: char) -> int
    decreases s.len(),
{
    if s.len() == 0 {
        -1
    } else if s[0] == c {
        0
    } else {
        let r = index_of(s.drop_first(), c);
        if r < 0 {
            -1
        } else {
            r + 1
        }
    }
}

/// Whether `v` says `true`, in any case.
pub open spec fn is_true_word(v: Seq<char>) -> bool {
    v.len() == 4 && (v[0] == 't' || v[0] == 'T') && (v[1] == 'r' || v[1] == 'R') && (v[2] == 'u'
        || v[2] == 'U') && (v[3] == 'e' || v[3] == 'E')
}

/// The `;`-separated parts of `v` read so far, and the part being read.
pub open spec fn split_scan(v: Seq<char>) -> (Seq<Seq<char>>, Seq<char>)
    decreases v.len(),
{
    if v.len() == 0 {
        (Seq::empty(), Seq::empty())
    } else {
        let (ps, cur) = split_scan(v.drop_last());
        if v.last() == ';' {
            (if cur.len() > 0 {
                ps.push(cur)
            } else {
                ps
            }, Seq::empty())
        } else {
            (ps, cur.push(v.last()))
        }
    }
}

/// The non-empty `;`-separated parts of `v`.
pub open spec fn category_list(v: Seq<char>) -> Seq<Seq<char>> {
    let (ps, cur) = split_scan(v);
    if cur.len() > 0 {
        ps.push(cur)
    } else {
        ps
    }
}

/// The fields after one more line.
pub open spec fn after_line(f: DesktopFields, line: Seq<char>) -> DesktopFields {
    let t = trimmed(line);
    if t == seq!['[', 'D', 'e', 's', 'k', 't', 'o', 'p', ' ', 'E', 'n', 't', 'r', 'y', ']'] {
        DesktopFields { in_entry: true, ..f }
    } else if has_prefix(t, seq!['[']) && has_suffix(t, seq![']']) {
        DesktopFields { in_entry: false, ..f }
    } else if !f.in_entry || index_of(t, '=') < 0 {
        f
    } else {
        let i = index_of(t, '=');
        let key = trimmed(t.take(i));
        let value = trimmed(t.skip(i + 1));
        if key == seq!['N', 'a', 'm', 'e'] {
            DesktopFields { name: Some(value), ..f }
        } else if key == seq!['E', 'x', 'e', 'c'] {
            DesktopFields { exec_line: Some(value), ..f }
        } else if key == seq!['I', 'c', 'o', 'n'] {
            DesktopFields { icon: Some(value), ..f }
        } else if key == seq!['C', 'o', 'm', 'm', 'e', 'n', 't'] {
            DesktopFields { comment: Some(value), ..f }
        } else if key == seq!['C', 'a', 't', 'e', 'g', 'o', 'r', 'i', 'e', 's'] {
            DesktopFields { categories: category_list(value), ..f }
        } else if key == seq!['T', 'e', 'r', 'm', 'i', 'n', 'a', 'l'] {
            DesktopFields { terminal: is_true_word(value), ..f }
        } else if key == seq!['N', 'o', 'D', 'i', 's', 'p', 'l', 'a', 'y'] {
            DesktopFields { no_display: is_true_word(value), ..f }
        } else if key == seq!['H', 'i', 'd', 'd', 'e', 'n'] {
            DesktopFields { hidden: is_true_word(value), ..f }
        } else {
            f
        }
    }
}

/// The fields after every complete line of `c`, and the line being read.
pub open spec fn scan_lines(c: Seq<char>) -> (DesktopFields, Seq<char>)
    decreases c.len(),
{
    if c.len() == 0 {
        (initial_fields(), Seq::empty())
    } else {
        let (f, cur) = scan_lines(c.drop_last());
        if c.last() == '\n' {
            (after_line(f, cur), Seq::empty())
        } else {
            (f, cur.push(c.last()))
        }
    }
}

/// The fields of a whole file.
pub open spec fn file_fields(c: Seq<char>) -> DesktopFields {
    let (f, cur) = scan_lines(c);
    after_line(f, cur)
}

/// The entry that a desktop file describes: none where it is hidden, not
/// to be shown, or lacks a name or a command.
pub open spec fn parsed_entry(content: Seq<char>, desktop_file: Seq<char>) -> Option<AppEntryView> {
    let f = file_fields(content);
    if f.no_display || f.hidden || f.name is None || f.exec_line is None {
        None
    } else {
        Some(
            AppEntryView {
                name: f.name->0,
                exec_line: f.exec_line->0,
                icon: f.icon,
                comment: f.comment,
                categories: f.categories,
                desktop_file,
                terminal: f.terminal,
                kind: EntryKind::Application,
            },
        )
    }
}

/// Executable counterpart of `DesktopFields`.
struct FieldsExec {
    name: Option<Vec<char>>,
    exec_line: Option<Vec<char>>,
    icon: Option<Vec<char>>,
    comment: Option<Vec<char>>,
    categories: Vec<Vec<char>>,
    terminal: bool,
    no_display: bool,
    hidden: bool,
    in_entry: bool,
}

spec fn opt_chars_view(o: Option<Vec<char>>) -> Option<Seq<char>> {
    match o {
        Some(v) => Some(v@),
        None => None,
    }
}

spec fn char_lists_view(s: Seq<Vec<char>>) -> Seq<Seq<char>> {
    s.map_values(|v: Vec<char>| v@)
}

impl View for FieldsExec {
    type V = DesktopFields;

    closed spec fn view(&self) -> DesktopFields {
        DesktopFields {
            name: opt_chars_view(self.name),
            exec_line: opt_chars_view(self.exec_line),
            icon: opt_chars_view(self.icon),
            comment: opt_chars_view(self.comment),
            categories: char_lists_view(self.categories@),
            terminal: self.terminal,
            no_display: self.no_display,
            hidden: self.hidden,
            in_entry: self.in_entry,
        }
    }
}

fn index_of_exec(s: &[char], c: char) -> (r: Option<usize>)
    ensures
        match r {
            Some(i) => index_of(s@, c) == i as int && i < s@.len(),
            None => index_of(s@, c) < 0,
        },
{
    let mut i: usize = 0;
    assert(s@.skip(0) =~= s@);
    while i < s.len()
        invariant
            i <= s@.len(),
            index_of(s@, c) == if index_of(s@.skip(i as int), c) < 0 {
                -1
            } else {
                i + index_of(s@.skip(i as int), c)
            },
        decreases s@.len() - i,
    {
        assert(s@.skip(i as int).drop_first() =~= s@.skip(i + 1));
        if s[i] == c {
            return Some(i);
        }
        i = i + 1;
    }
    None
}

fn is_true_word_exec(v: &[char]) -> (r: bool)
    ensures
        r == is_true_word(v@),
{
    v.len() == 4 && (v[0] == 't' || v[0] == 'T') && (v[1] == 'r' || v[1] == 'R') && (v[2] == 'u'
        || v[2] == 'U') && (v[3] == 'e' || v[3] == 'E')
}

fn category_list_exec(v: &[char]) -> (r: Vec<Vec<char>>)
    ensures
        char_lists_view(r@) == category_list(v@),
{
    let mut parts: Vec<Vec<char>> = Vec::new();
    let mut cur: Vec<char> = Vec::new();
    let mut i: usize = 0;
    assert(v@.take(0) =~= Seq::<char>::empty());
    assert(char_lists_view(parts@) =~= Seq::<Seq<char>>::empty());
    while i < v.len()
        invariant
            i <= v@.len(),
            (char_lists_view(parts@), cur@) == split_scan(v@.take(i as int)),
        decreases v@.len() - i,
    {
        assert(v@.take(i + 1).drop_last() =~= v@.take(i as int));
        if v[i] == ';' {
            if cur.len() > 0 {
                let ghost before = parts@;
                parts.push(cur);
                assert(char_lists_view(parts@) =~= char_lists_view(before).push(parts@.last()@));
            }
            cur = Vec::new();
        } else {
            cur.push(v[i]);
        }
        i = i + 1;
    }
    assert(v@.take(v@.len() as int) =~= v@);
    if cur.len() > 0 {
        let ghost before = parts@;
        parts.push(cur);
        assert(char_lists_view(parts@) =~= char_lists_view(before).push(parts@.last()@));
    }
    parts
}

fn lit_eq(a: &[char], b: Vec<char>) -> (r: bool)
    ensures
        r == (a@ == b@),
{
    chars_eq(a, &b)
}

fn after_line_exec(f: &mut FieldsExec, line: &[char])
    ensures
        final(f)@ == after_line(old(f)@, line@),
{
    let t = trim_chars(line);
    let header = vec!['[', 'D', 'e', 's', 'k', 't', 'o', 'p', ' ', 'E', 'n', 't', 'r', 'y', ']'];
    assert(header@ =~= seq!['[', 'D', 'e', 's', 'k', 't', 'o', 'p', ' ', 'E', 'n', 't', 'r', 'y', ']']);
    if chars_eq(&t, &header) {
        f.in_entry = true;
        return;
    }
    let opens = t.len() > 0 && t[0] == '[';
    let closes = t.len() > 0 && t[t.len() - 1] == ']';
    assert(opens == has_prefix(t@, seq!['['])) by {
        if t@.len() > 0 {
            assert(t@.take(1)[0] == t@[0]);
            if t@[0] == '[' {
                assert(t@.take(1) =~= seq!['[']);
            }
        }
    }
    assert(closes == has_suffix(t@, seq![']'])) by {
        if t@.len() > 0 {
            assert(t@.skip(t@.len() - 1)[0] == t@[t@.len() - 1]);
            if t@[t@.len() - 1] == ']' {
                assert(t@.skip(t@.len() - 1) =~= seq![']']);
            }
        }
    }
    if opens && closes {
        f.in_entry = false;
        return;
    }
    if !f.in_entry {
        return;
    }
    let i = match index_of_exec(&t, '=') {
        Some(i) => i,
        None => {
            return;
        },
    };
    let kt = take_chars(&t, i);
    let vt = skip_chars(&t, i + 1);
    let key = trim_chars(&kt);
    let value = trim_chars(&vt);
    if lit_eq(&key, vec!['N', 'a', 'm', 'e']) {
        assert(key@ == seq!['N', 'a', 'm', 'e']);
        f.name = Some(value);
    } else if lit_eq(&key, vec!['E', 'x', 'e', 'c']) {
        assert(key@ == seq!['E', 'x', 'e', 'c']);
        f.exec_line = Some(value);
    } else if lit_eq(&key, vec!['I', 'c', 'o', 'n']) {
        assert(key@ == seq!['I', 'c', 'o', 'n']);
        f.icon = Some(value);
    } else if lit_eq(&key, vec!['C', 'o', 'm', 'm', 'e', 'n', 't']) {
        assert(key@ == seq!['C', 'o', 'm', 'm', 'e', 'n', 't']);
        f.comment = Some(value);
    } else if lit_eq(&key, vec!['C', 'a', 't', 'e', 'g', 'o', 'r', 'i', 'e', 's']) {
        assert(key@ == seq!['C', 'a', 't', 'e', 'g', 'o', 'r', 'i', 'e', 's']);
        f.categories = category_list_exec(&value);
    } else if lit_eq(&key, vec!['T', 'e', 'r', 'm', 'i', 'n', 'a', 'l']) {
        assert(key@ == seq!['T', 'e', 'r', 'm', 'i', 'n', 'a', 'l']);
        f.terminal = is_true_word_exec(&value);
    } else if lit_eq(&key, vec!['N', 'o', 'D', 'i', 's', 'p', 'l', 'a', 'y']) {
        assert(key@ == seq!['N', 'o', 'D', 'i', 's', 'p', 'l', 'a', 'y']);
        f.no_display = is_true_word_exec(&value);
    } else if lit_eq(&key, vec!['H', 'i', 'd', 'd', 'e', 'n']) {
        assert(key@ == seq!['H', 'i', 'd', 'd', 'e', 'n']);
        f.hidden = is_true_word_exec(&value);
    } else {
        assert(key@ != seq!['N', 'a', 'm', 'e']);
        assert(key@ != seq!['E', 'x', 'e', 'c']);
        assert(key@ != seq!['I', 'c', 'o', 'n']);
        assert(key@ != seq!['C', 'o', 'm', 'm', 'e', 'n', 't']);
        assert(key@ != seq!['C', 'a', 't', 'e', 'g', 'o', 'r', 'i', 'e', 's']);
        assert(key@ != seq!['T', 'e', 'r', 'm', 'i', 'n', 'a', 'l']);
        assert(key@ != seq!['N', 'o', 'D', 'i', 's', 'p', 'l', 'a', 'y']);
        assert(key@ != seq!['H', 'i', 'd', 'd', 'e', 'n']);
    }
}

fn string_of_opt(o: Option<Vec<char>>) -> (r: Option<String>)
    ensures
        match r {
            Some(s) => opt_chars_view(o) == Some(s@),
            None => o is None,
        },
{
    match o {
        Some(v) => Some(string_from_chars(&v)),
        None => None,
    }
}

impl AppEntry {
    /// The application that the text of a desktop entry file describes.
    pub fn from_ini_file(content: &str, desktop_file: &str) -> (r: Option<AppEntry>)
        ensures
            match r {
                Some(e) => parsed_entry(content@, desktop_file@) == Some(e@),
                None => parsed_entry(content@, desktop_file@) is None,
            },
    {
        let c = chars_of(content);
        let mut f = FieldsExec {
            name: None,
            exec_line: None,
            icon: None,
            comment: None,
            categories: Vec::new(),
            terminal: false,
            no_display: false,
            hidden: false,
            in_entry: false,
        };
        let mut cur: Vec<char> = Vec::new();
        let mut i: usize = 0;
        assert(c@.take(0) =~= Seq::<char>::empty());
        assert(f@ == initial_fields()) by {
            assert(char_lists_view(f.categories@) =~= Seq::<Seq<char>>::empty());
        }
        while i < c.len()
            invariant
                i <= c@.len(),
                (f@, cur@) == scan_lines(c@.take(i as int)),
            decreases c@.len() - i,
        {
            assert(c@.take(i + 1).drop_last() =~= c@.take(i as int));
            if c[i] == '\n' {
                after_line_exec(&mut f, &cur);
                cur = Vec::new();
            } else {
                cur.push(c[i]);
            }
            i = i + 1;
        }
        assert(c@.take(c@.len() as int) =~= c@);
        after_line_exec(&mut f, &cur);
        if f.no_display || f.hidden {
            return None;
        }
        let name = match string_of_opt(f.name) {
            Some(s) => s,
            None => {
                return None;
            },
        };
        let exec_line = match string_of_opt(f.exec_line) {
            Some(s) => s,
            None => {
                return None;
            },
        };
        let mut categories: Vec<String> = Vec::new();
        let mut k: usize = 0;
        while k < f.categories.len()
            invariant
                k <= f.categories@.len(),
                categories@.len() == k,
                forall|j: int| 0 <= j < k ==> #[trigger] categories@[j]@ == f.categories@[j]@,
            decreases f.categories@.len() - k,
        {
            categories.push(string_from_chars(&f.categories[k]));
            k = k + 1;
        }
        let e = AppEntry {
            name,
            exec_line,
            icon: string_of_opt(f.icon),
            comment: string_of_opt(f.comment),
            categories,
            desktop_file: string_from_chars(&chars_of(desktop_file)),
            terminal: f.terminal,
            kind: EntryKind::Application,
        };
        assert(e@.categories =~= f@.categories);
        Some(e)
    }
}

} // verus!
