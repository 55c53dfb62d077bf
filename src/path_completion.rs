//! Completion of filesystem path queries. The directory listing itself is
//! read by the caller; this module decides what to list and what to offer.

use vstd::prelude::*;
use vstd::multiset::Multiset;
use crate::entry::opt_view;
use crate::text::{
    after_last_slash, after_last_slash_chars, chars_eq, chars_lt, chars_of, has_prefix,
    has_suffix, lemma_after_last_slash_len, lemma_seq_le_order, seq_le, skip_chars, starts_with,
    string_from_chars, strip_leading_slashes, strip_leading_slashes_chars, strip_trailing_slashes,
    strip_trailing_slashes_chars, take_chars,
};

verus! {

broadcast use vstd::seq_lib::group_to_multiset_ensures;

/// A proposed completion of a path query.
pub struct PathCompletion {
    pub path: String,
    pub display_name: String,
    pub is_dir: bool,
}

/// A completion as (path, display form, is a directory).
pub type CompletionView = (Seq<char>, Seq<char>, bool);

impl View for PathCompletion {
    type V = CompletionView;

    open spec fn view(&self) -> CompletionView {
        (self.path@, self.display_name@, self.is_dir)
    }
}

/// One entry of a directory listing, as the filesystem reports it.
pub struct ListedEntry {
    pub name: String,
    pub is_dir: bool,
    /// The entry is, or leads to, a regular file.
    pub is_file: bool,
    /// Its permission bits.
    pub mode: u32,
}

/// A listing entry as (name, is a directory, is a regular file, mode).
pub type ListedView = (Seq<char>, bool, bool, u32);

impl View for ListedEntry {
    type V = ListedView;

    open spec fn view(&self) -> ListedView {
        (self.name@, self.is_dir, self.is_file, self.mode)
    }
}

/// The directory to list for a path query, and the prefix that names
/// in it must start with.
pub struct CompletionRequest {
    pub dir: String,
    pub prefix: String,
}

/// Whether a query names a filesystem path: it starts with `/`, `./`,
/// `../` or `~`.
pub open spec fn is_path_query_spec(q: Seq<char>) -> bool {
    has_prefix(q, seq!['/']) || has_prefix(q, seq!['.', '/']) || has_prefix(q, seq!['.', '.', '/'])
        || has_prefix(q, seq!['~'])
}

/// `q` with a leading `~` (alone or before `/`) replaced by the home
/// directory, where one is known.
pub open spec fn tilde_expanded(q: Seq<char>, home: Option<Seq<char>>) -> Seq<char> {
    if q.len() > 0 && q[0] == '~' && (q.len() == 1 || q[1] == '/') && home is Some {
        home->0 + q.drop_first()
    } else {
        q
    }
}

/// Relies on shellexpand::tilde_with_context: a leading `~` that stands
/// alone or before `/` becomes the home directory that the context gives;
/// any other input comes back as it is.
#[verifier::external_body]
fn expand_tilde(input: &str, home: &Option<String>) -> (r: String)
    ensures
        r@ == tilde_expanded(input@, opt_view(*home)),
{
    shellexpand::tilde_with_context(input, || home.as_ref()).into_owned()
}

/// The directory part of an expanded query: the whole of it where it ends
/// in `/`, else what precedes its last segment (`.` where nothing does).
pub open spec fn dir_part(s: Seq<char>) -> Seq<char> {
    if s.len() > 0 && s.last() == '/' {
        s
    } else {
        let head = s.take(s.len() - after_last_slash(s).len());
        if head.len() == 0 {
            seq!['.']
        } else if head.len() == 1 {
            head
        } else {
            head.drop_last()
        }
    }
}

/// The prefix part of an expanded query: empty where it ends in `/`, else
/// its last segment.
pub open spec fn prefix_part(s: Seq<char>) -> Seq<char> {
    if s.len() > 0 && s.last() == '/' {
        Seq::empty()
    } else {
        after_last_slash(s)
    }
}

/// The path of `name` inside `dir`.
pub open spec fn joined(dir: Seq<char>, name: Seq<char>) -> Seq<char> {
    if dir.len() > 0 && dir.last() == '/' {
        dir + name
    } else {
        dir + seq!['/'] + name
    }
}

/// How a completion is shown: under the home directory and for a query
/// that began with `~`, as `~/` and the rest with its leading slashes
/// dropped; else the full path.
pub open spec fn display_form(q: Seq<char>, full: Seq<char>, home: Option<Seq<char>>) -> Seq<char> {
    if has_prefix(q, seq!['~']) && home is Some {
        let hb = strip_trailing_slashes(home->0);
        if full == hb || has_prefix(full, hb + seq!['/']) {
            seq!['~', '/'] + strip_leading_slashes(full.skip(hb.len() as int))
        } else {
            full
        }
    } else {
        full
    }
}

/// The directory to list, made absolute against the working directory
/// `cwd`: `.` and `./` are `cwd` itself, a leading `./` is dropped.
pub open spec fn absolute_dir(d: Seq<char>, cwd: Seq<char>) -> Seq<char> {
    if has_prefix(d, seq!['/']) {
        d
    } else if d == seq!['.'] || d == seq!['.', '/'] {
        cwd
    } else if has_prefix(d, seq!['.', '/']) {
        joined(cwd, d.skip(2))
    } else {
        joined(cwd, d)
    }
}

/// Some execute bit (user, group or other) is set in `mode`.
pub open spec fn has_exec_bit(mode: u32) -> bool {
    mode & 0o100 != 0 || mode & 0o010 != 0 || mode & 0o001 != 0
}

/// A listed entry is offered when its name starts with the prefix and it is
/// a directory or an executable regular file.
pub open spec fn is_offered(e: ListedView, prefix: Seq<char>) -> bool {
    has_prefix(e.0, prefix) && (e.1 || (e.2 && has_exec_bit(e.3)))
}

/// The completions offered from a listing of `dir`, in listing order.
pub open spec fn offered(
    entries: Seq<ListedView>,
    q: Seq<char>,
    dir: Seq<char>,
    prefix: Seq<char>,
    home: Option<Seq<char>>,
) -> Seq<CompletionView>
    decreases entries.len(),
{
    if entries.len() == 0 {
        Seq::empty()
    } else {
        let prev = offered(entries.drop_last(), q, dir, prefix, home);
        let e = entries.last();
        if is_offered(e, prefix) {
            let full = joined(dir, e.0);
            prev.push((full, display_form(q, full, home), e.1))
        } else {
            prev
        }
    }
}

/// `a` may stand before `b`: directories first, then by display form.
pub open spec fn completion_before(a: CompletionView, b: CompletionView) -> bool {
    (a.2 && !b.2) || (a.2 == b.2 && seq_le(a.1, b.1))
}

pub open spec fn is_completion_order(s: Seq<CompletionView>) -> bool {
    forall|i: int, j: int| 0 <= i < j < s.len() ==> completion_before(s[i], s[j])
}

pub open spec fn completions_view(s: Seq<PathCompletion>) -> Seq<CompletionView> {
    s.map_values(|c: PathCompletion| c@)
}

pub open spec fn listing_view(s: Seq<ListedEntry>) -> Seq<ListedView> {
    s.map_values(|e: ListedEntry| e@)
}

/// The query text after accepting a completion: its display form, with a
/// `/` added to a directory that does not end in one.
pub open spec fn applied(c: CompletionView) -> Seq<char> {
    if c.2 && !has_suffix(c.1, seq!['/']) {
        c.1.push('/')
    } else {
        c.1
    }
}

pub proof fn lemma_completion_before_order(a: CompletionView, b: CompletionView, c: CompletionView)
    ensures
        completion_before(a, a),
        completion_before(a, b) || completion_before(b, a),
        completion_before(a, b) && completion_before(b, c) ==> completion_before(a, c),
{
    lemma_seq_le_order(a.1, b.1, c.1);
    lemma_seq_le_order(a.1, a.1, a.1);
}

fn completion_before_exec(a: &PathCompletion, b: &PathCompletion) -> (r: bool)
    ensures
        r == completion_before(a@, b@),
{
    if a.is_dir != b.is_dir {
        return a.is_dir;
    }
    let an = chars_of(a.display_name.as_str());
    let bn = chars_of(b.display_name.as_str());
    !chars_lt(&bn, &an)
}

/// The completions in display order.
fn sort_completions(items: Vec<PathCompletion>) -> (r: Vec<PathCompletion>)
    ensures
        completions_view(r@).to_multiset() == completions_view(items@).to_multiset(),
        is_completion_order(completions_view(r@)),
{
    let mut items = items;
    let ghost orig = completions_view(items@);
    let mut sorted: Vec<PathCompletion> = Vec::new();
    assert(completions_view(sorted@) =~= Seq::<CompletionView>::empty());
    while items.len() > 0
        invariant
            completions_view(sorted@).to_multiset().add(completions_view(items@).to_multiset())
                == orig.to_multiset(),
            is_completion_order(completions_view(sorted@)),
        decreases items@.len(),
    {
        let ghost before_items = items@;
        let x = items.pop().unwrap();
        assert(completions_view(before_items) =~= completions_view(items@).push(x@));
        let mut p: usize = 0;
        while p < sorted.len() && completion_before_exec(&sorted[p], &x)
            invariant
                p <= sorted@.len(),
                forall|i: int| 0 <= i < p ==> completion_before(#[trigger] sorted@[i]@, x@),
            decreases sorted@.len() - p,
        {
            p = p + 1;
        }
        let ghost s = completions_view(sorted@);
        sorted.insert(p, x);
        let ghost t = completions_view(sorted@);
        assert(t =~= s.insert(p as int, x@));
        assert forall|i: int, j: int| 0 <= i < j < t.len() implies completion_before(t[i], t[j]) by {
            if j < p {
            } else if i < p && j == p {
            } else if i < p {
                assert(t[j] == s[j - 1]);
            } else if i == p {
                lemma_completion_before_order(x@, s[p as int], s[j - 1]);
                lemma_completion_before_order(s[p as int], x@, s[j - 1]);
                if j - 1 > p {
                    assert(completion_before(s[p as int], s[j - 1]));
                }
            } else {
                assert(t[i] == s[i - 1] && t[j] == s[j - 1]);
            }
        }
    }
    assert(completions_view(items@) =~= Seq::<CompletionView>::empty());
    assert(completions_view(sorted@).to_multiset().add(Multiset::empty()) =~= completions_view(
        sorted@,
    ).to_multiset());
    sorted
}

fn exec_bit_set(mode: u32) -> (r: bool)
    ensures
        r == has_exec_bit(mode),
{
    mode & 0o100 != 0 || mode & 0o010 != 0 || mode & 0o001 != 0
}

fn dir_part_chars(s: &[char]) -> (r: Vec<char>)
    ensures
        r@ == dir_part(s@),
{
    if s.len() > 0 && s[s.len() - 1] == '/' {
        return take_chars(s, s.len());
    }
    let name = after_last_slash_chars(s);
    proof {
        lemma_after_last_slash_len(s@);
    }
    let hl = s.len() - name.len();
    if hl == 0 {
        vec!['.']
    } else if hl == 1 {
        take_chars(s, 1)
    } else {
        let r = take_chars(s, hl - 1);
        assert(r@ =~= s@.take(hl as int).drop_last());
        r
    }
}

fn prefix_part_chars(s: &[char]) -> (r: Vec<char>)
    ensures
        r@ == prefix_part(s@),
{
    if s.len() > 0 && s[s.len() - 1] == '/' {
        Vec::new()
    } else {
        after_last_slash_chars(s)
    }
}

fn joined_chars(dir: &[char], name: &[char]) -> (r: Vec<char>)
    ensures
        r@ == joined(dir@, name@),
{
    let mut r = take_chars(dir, dir.len());
    assert(dir@.take(dir@.len() as int) =~= dir@);
    if !(dir.len() > 0 && dir[dir.len() - 1] == '/') {
        r.push('/');
    }
    let mut rest = take_chars(name, name.len());
    assert(name@.take(name@.len() as int) =~= name@);
    r.append(&mut rest);
    assert(r@ =~= joined(dir@, name@));
    r
}

fn display_form_chars(q: &[char], full: &[char], home: &Option<Vec<char>>) -> (r: Vec<char>)
    ensures
        r@ == display_form(
            q@,
            full@,
            match home {
                Some(h) => Some(h@),
                None => None,
            },
        ),
{
    let tilde = q.len() > 0 && q[0] == '~';
    assert(tilde == has_prefix(q@, seq!['~'])) by {
        if q@.len() > 0 {
            assert(q@.take(1)[0] == q@[0]);
            if q@[0] == '~' {
                assert(q@.take(1) =~= seq!['~']);
            }
        }
    }
    assert(full@.take(full@.len() as int) =~= full@);
    match home {
        Some(h) => {
            if !tilde {
                return take_chars(full, full.len());
            }
            let hb = strip_trailing_slashes_chars(h);
            let mut pre = take_chars(&hb, hb.len());
            assert(hb@.take(hb@.len() as int) =~= hb@);
            pre.push('/');
            assert(pre@ =~= hb@ + seq!['/']);
            let same = chars_eq(full, &hb);
            let under = starts_with(full, &pre);
            if same || under {
                assert(hb@.len() <= full@.len()) by {
                    if under {
                        assert(pre@.len() == hb@.len() + 1);
                    }
                }
                let rest = skip_chars(full, hb.len());
                let mut r = vec!['~', '/'];
                let mut tail = strip_leading_slashes_chars(&rest);
                r.append(&mut tail);
                assert(r@ =~= seq!['~', '/'] + strip_leading_slashes(full@.skip(hb@.len() as int)));
                r
            } else {
                take_chars(full, full.len())
            }
        },
        None => take_chars(full, full.len()),
    }
}

fn absolute_dir_chars(d: &[char], cwd: &[char]) -> (r: Vec<char>)
    ensures
        r@ == absolute_dir(d@, cwd@),
{
    let root = vec!['/'];
    let here = vec!['.', '/'];
    assert(root@ =~= seq!['/'] && here@ =~= seq!['.', '/']);
    let dot = vec!['.'];
    assert(dot@ =~= seq!['.']);
    assert(cwd@.take(cwd@.len() as int) =~= cwd@);
    assert(d@.take(d@.len() as int) =~= d@);
    if starts_with(d, &root) {
        take_chars(d, d.len())
    } else if chars_eq(d, &dot) || chars_eq(d, &here) {
        take_chars(cwd, cwd.len())
    } else if starts_with(d, &here) {
        let rest = skip_chars(d, 2);
        joined_chars(cwd, &rest)
    } else {
        joined_chars(cwd, d)
    }
}

fn opt_chars(o: &Option<String>) -> (r: Option<Vec<char>>)
    ensures
        match r {
            Some(v) => opt_view(*o) == Some(v@),
            None => opt_view(*o) is None,
        },
{
    match o {
        Some(s) => Some(chars_of(s.as_str())),
        None => None,
    }
}

/// Proposes completions of filesystem path queries.
pub struct PathCompleter;

impl PathCompleter {
    pub fn new() -> (r: PathCompleter) {
        PathCompleter
    }

    /// Whether `query` names a filesystem path.
    pub fn is_path_query(query: &str) -> (r: bool)
        ensures
            r == is_path_query_spec(query@),
    {
        let q = chars_of(query);
        let root = vec!['/'];
        let here = vec!['.', '/'];
        let up = vec!['.', '.', '/'];
        let tilde = vec!['~'];
        assert(root@ =~= seq!['/'] && here@ =~= seq!['.', '/'] && up@ =~= seq!['.', '.', '/']
            && tilde@ =~= seq!['~']);
        starts_with(&q, &root) || starts_with(&q, &here) || starts_with(&q, &up) || starts_with(
            &q,
            &tilde,
        )
    }

    /// For a path query, the directory to list and the prefix that entry
    /// names must start with: `~` is expanded to `home`, and a relative
    /// directory is taken from the working directory `cwd`. None for any
    /// other query.
    pub fn completion_request(query: &str, home: &Option<String>, cwd: &str) -> (r: Option<
        CompletionRequest,
    >)
        ensures
            match r {
                Some(req) => is_path_query_spec(query@) && req.dir@ == absolute_dir(
                    dir_part(tilde_expanded(query@, opt_view(*home))),
                    cwd@,
                ) && req.prefix@ == prefix_part(tilde_expanded(query@, opt_view(*home))),
                None => !is_path_query_spec(query@),
            },
            has_prefix(cwd@, seq!['/']) ==> (r matches Some(req) ==> has_prefix(
                req.dir@,
                seq!['/'],
            )),
    {
        if !Self::is_path_query(query) {
            return None;
        }
        let expanded = expand_tilde(query, home);
        assert(expanded@ == tilde_expanded(query@, opt_view(*home)));
        let e = chars_of(expanded.as_str());
        let dir = dir_part_chars(&e);
        let c = chars_of(cwd);
        let abs = absolute_dir_chars(&dir, &c);
        proof {
            lemma_absolute_dir_is_absolute(dir@, cwd@);
        }
        let prefix = prefix_part_chars(&e);
        Some(CompletionRequest { dir: string_from_chars(&abs), prefix: string_from_chars(&prefix) })
    }

    /// The completions offered from `entries`, the listing of `request.dir`:
    /// directories and executable files whose names start with the prefix,
    /// directories first, then by display form.
    pub fn complete_listing(
        &self,
        query: &str,
        home: &Option<String>,
        request: &CompletionRequest,
        entries: &[ListedEntry],
    ) -> (r: Vec<PathCompletion>)
        ensures
            is_completion_order(completions_view(r@)),
            completions_view(r@).to_multiset() == offered(
                listing_view(entries@),
                query@,
                request.dir@,
                request.prefix@,
                opt_view(*home),
            ).to_multiset(),
            has_prefix(request.dir@, seq!['/']) && !has_prefix(query@, seq!['~']) ==> forall|
                i: int,
            |
                0 <= i < r@.len() ==> has_prefix(#[trigger] r@[i].path@, seq!['/'])
                    && r@[i].display_name@ == r@[i].path@,
    {
        let q = chars_of(query);
        let h = opt_chars(home);
        let ghost hv = opt_view(*home);
        assert(hv == match h {
            Some(v) => Some(v@),
            None => None::<Seq<char>>,
        });
        let dir = chars_of(request.dir.as_str());
        let prefix = chars_of(request.prefix.as_str());
        let ghost lv = listing_view(entries@);
        let mut items: Vec<PathCompletion> = Vec::new();
        let mut i: usize = 0;
        assert(lv.take(0) =~= Seq::<ListedView>::empty());
        assert(completions_view(items@) =~= Seq::<CompletionView>::empty());
        while i < entries.len()
            invariant
                lv == listing_view(entries@),
                i <= entries@.len(),
                q@ == query@,
                dir@ == request.dir@,
                prefix@ == request.prefix@,
                hv == match h {
                    Some(v) => Some(v@),
                    None => None::<Seq<char>>,
                },
                completions_view(items@) == offered(
                    lv.take(i as int),
                    query@,
                    request.dir@,
                    request.prefix@,
                    hv,
                ),
            decreases entries@.len() - i,
        {
            assert(lv.take(i + 1).drop_last() =~= lv.take(i as int));
            assert(lv.take(i + 1).last() == entries@[i as int]@);
            let e = &entries[i];
            let name = chars_of(e.name.as_str());
            if starts_with(&name, &prefix) && (e.is_dir || (e.is_file && exec_bit_set(e.mode))) {
                let full = joined_chars(&dir, &name);
                let shown = display_form_chars(&q, &full, &h);
                let ghost before = items@;
                items.push(
                    PathCompletion {
                        path: string_from_chars(&full),
                        display_name: string_from_chars(&shown),
                        is_dir: e.is_dir,
                    },
                );
                assert(completions_view(items@) =~= completions_view(before).push(items@.last()@));
            }
            i = i + 1;
        }
        assert(lv.take(entries@.len() as int) =~= lv);
        let r = sort_completions(items);
        proof {
            let o = offered(lv, query@, request.dir@, request.prefix@, hv);
            if has_prefix(request.dir@, seq!['/']) && !has_prefix(query@, seq!['~']) {
                lemma_offered_absolute(lv, query@, request.dir@, request.prefix@, hv);
                assert forall|i: int| 0 <= i < r@.len() implies has_prefix(
                    #[trigger] r@[i].path@,
                    seq!['/'],
                ) && r@[i].display_name@ == r@[i].path@ by {
                    let cv = completions_view(r@);
                    assert(cv[i] == r@[i]@);
                    assert(cv.to_multiset().count(cv[i]) > 0);
                    assert(o.contains(cv[i]));
                }
            }
        }
        r
    }

    /// The query text after accepting `completion`.
    pub fn apply_completion(_query: &str, completion: &PathCompletion) -> (r: String)
        ensures
            r@ == applied(completion@),
    {
        let d = chars_of(completion.display_name.as_str());
        let ends_slash = d.len() > 0 && d[d.len() - 1] == '/';
        assert(ends_slash == has_suffix(d@, seq!['/'])) by {
            if d@.len() > 0 {
                assert(d@.skip(d@.len() - 1)[0] == d@[d@.len() - 1]);
                if d@[d@.len() - 1] == '/' {
                    assert(d@.skip(d@.len() - 1) =~= seq!['/']);
                }
            }
        }
        let mut result = completion.display_name.clone();
        if completion.is_dir && !ends_slash {
            crate::text::push_char(&mut result, '/');
        }
        result
    }
}

/// Accepting a directory completion gives a query that ends in `/`, with no
/// second `/` before it unless the display form already ended in two.
pub proof fn lemma_applied_directory_ends_in_one_slash(c: CompletionView)
    requires
        c.2,
        !has_suffix(c.1, seq!['/', '/']),
    ensures
        has_suffix(applied(c), seq!['/']),
        !has_suffix(applied(c), seq!['/', '/']),
{
    let r = applied(c);
    if has_suffix(c.1, seq!['/']) {
        assert(r == c.1);
    } else {
        assert(r =~= c.1.push('/'));
        assert(r.skip(r.len() - 1) =~= seq!['/']);
        if c.1.len() > 0 {
            assert(c.1.skip(c.1.len() - 1)[0] == c.1.last());
            if c.1.last() == '/' {
                assert(c.1.skip(c.1.len() - 1) =~= seq!['/']);
            }
            if has_suffix(r, seq!['/', '/']) {
                assert(r.skip(r.len() - 2)[0] == c.1.last());
            }
        } else {
            assert(r.len() == 1);
        }
    }
}

/// Every completion offered is a directory, or an executable regular file,
/// of the listing, whose name starts with the prefix: the `k`-th one comes
/// from the entry at `source[k]`.
pub proof fn lemma_offered_are_dirs_or_executables(
    entries: Seq<ListedView>,
    q: Seq<char>,
    dir: Seq<char>,
    prefix: Seq<char>,
    home: Option<Seq<char>>,
) -> (source: Seq<int>)
    ensures
        source.len() == offered(entries, q, dir, prefix, home).len(),
        forall|k: int|
            0 <= k < source.len() ==> 0 <= #[trigger] source[k] < entries.len() && is_offered(
                entries[source[k]],
                prefix,
            ) && offered(entries, q, dir, prefix, home)[k].0 == joined(dir, entries[source[k]].0)
                && offered(entries, q, dir, prefix, home)[k].2 == entries[source[k]].1,
    decreases entries.len(),
{
    if entries.len() == 0 {
        Seq::empty()
    } else {
        let prev_entries = entries.drop_last();
        let ps = lemma_offered_are_dirs_or_executables(prev_entries, q, dir, prefix, home);
        let po = offered(prev_entries, q, dir, prefix, home);
        let o = offered(entries, q, dir, prefix, home);
        let last = entries.len() - 1;
        let source = if is_offered(entries.last(), prefix) {
            ps.push(last)
        } else {
            ps
        };
        assert forall|k: int| 0 <= k < source.len() implies 0 <= #[trigger] source[k] < entries.len()
            && is_offered(entries[source[k]], prefix) && o[k].0 == joined(dir, entries[source[k]].0)
            && o[k].2 == entries[source[k]].1 by {
            if k < ps.len() {
                assert(source[k] == ps[k]);
                assert(o[k] == po[k]);
                assert(entries[ps[k]] == prev_entries[ps[k]]);
            } else {
                assert(source[k] == last);
                assert(entries[last] == entries.last());
            }
        }
        source
    }
}

/// A relative directory made absolute against an absolute working
/// directory is absolute.
pub proof fn lemma_absolute_dir_is_absolute(d: Seq<char>, cwd: Seq<char>)
    ensures
        has_prefix(cwd, seq!['/']) ==> has_prefix(absolute_dir(d, cwd), seq!['/']),
{
    if has_prefix(cwd, seq!['/']) && !has_prefix(d, seq!['/']) {
        let rest = if has_prefix(d, seq!['.', '/']) {
            d.skip(2)
        } else {
            d
        };
        lemma_joined_keeps_root(cwd, rest);
    }
}

proof fn lemma_joined_keeps_root(dir: Seq<char>, name: Seq<char>)
    requires
        has_prefix(dir, seq!['/']),
    ensures
        has_prefix(joined(dir, name), seq!['/']),
{
    let j = joined(dir, name);
    assert(j[0] == dir[0]);
    assert(dir.take(1)[0] == dir[0]);
    assert(j.take(1) =~= dir.take(1));
}

/// For a query without `~` and an absolute directory, every completion
/// offered has an absolute path, and shows that path.
pub proof fn lemma_offered_absolute(
    entries: Seq<ListedView>,
    q: Seq<char>,
    dir: Seq<char>,
    prefix: Seq<char>,
    home: Option<Seq<char>>,
)
    requires
        has_prefix(dir, seq!['/']),
        !has_prefix(q, seq!['~']),
    ensures
        forall|x: CompletionView| #[trigger]
            offered(entries, q, dir, prefix, home).contains(x) ==> has_prefix(x.0, seq!['/'])
                && x.1 == x.0,
    decreases entries.len(),
{
    if entries.len() > 0 {
        lemma_offered_absolute(entries.drop_last(), q, dir, prefix, home);
        let prev = offered(entries.drop_last(), q, dir, prefix, home);
        let full = offered(entries, q, dir, prefix, home);
        lemma_joined_keeps_root(dir, entries.last().0);
        assert forall|x: CompletionView| #[trigger] full.contains(x) implies has_prefix(
            x.0,
            seq!['/'],
        ) && x.1 == x.0 by {
            let k = choose|k: int| 0 <= k < full.len() && #[trigger] full[k] == x;
            if k < prev.len() {
                assert(prev[k] == x);
                assert(prev.contains(prev[k]));
            }
        }
    }
}

/// Under a `~` query, an entry of the home directory (listed after any run
/// of slashes) is shown as `~/` and its name.
pub proof fn lemma_home_entry_display(q: Seq<char>, home: Seq<char>, slashes: Seq<char>, name: Seq<char>)
    requires
        has_prefix(q, seq!['~']),
        slashes.len() >= 1,
        forall|i: int| 0 <= i < slashes.len() ==> slashes[i] == '/',
        name.len() > 0,
        name[0] != '/',
    ensures
        display_form(q, strip_trailing_slashes(home) + slashes + name, Some(home)) == seq![
            '~',
            '/',
        ] + name,
{
    let hb = strip_trailing_slashes(home);
    let full = hb + slashes + name;
    assert(full.take(hb.len() as int + 1) =~= hb + seq!['/']);
    assert(full.skip(hb.len() as int) =~= slashes + name);
    crate::text::lemma_strip_leading_slashes(slashes, name);
}

} // verus!
