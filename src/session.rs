//! The interactive session as a state machine: each event updates query,
//! cursor, selection and scroll, and says what the caller must do next.

use vstd::prelude::*;
use crate::path_completion::{applied, is_path_query_spec, PathCompleter, PathCompletion};
use crate::search::SearchResult;
use crate::text::{chars_of, string_from_chars};

verus! {

/// What the result list holds: ranked applications or path completions.
pub enum SearchMode {
    Applications(Vec<SearchResult>),
    Paths(Vec<PathCompletion>),
}

impl SearchMode {
    /// Number of results.
    pub open spec fn len_spec(&self) -> nat {
        match self {
            SearchMode::Applications(rs) => rs@.len(),
            SearchMode::Paths(cs) => cs@.len(),
        }
    }
}

/// A discrete input to a session.
#[derive(Clone, Copy, Debug, PartialEq, Eq, Structural)]
pub enum SessionEvent {
    Insert(char),
    Backspace,
    Delete,
    Left,
    Right,
    Home,
    End,
    Up,
    Down,
    PageUp,
    PageDown,
    /// Accept the selected path completion.
    Accept,
    /// Confirm the selection.
    Confirm,
    Cancel,
}

/// What the caller must do after an event.
#[derive(Clone, Copy, Debug, PartialEq, Eq, Structural)]
pub enum SessionAction {
    /// Nothing more.
    Stay,
    /// The query changed: compute the new results and hand them to
    /// `set_mode`, path completions where `path_query` holds, else a ranking.
    Refresh { path_query: bool },
    /// Launch the application at this index of the results; the session ends.
    LaunchApp(usize),
    /// Launch the path completion at this index; the session ends.
    LaunchPath(usize),
    /// The session ends without a launch.
    Quit,
}

/// The scroll offset that keeps `selected` inside a window of `height` rows
/// that started at `current`.
pub open spec fn scroll_for(selected: int, current: int, height: int) -> int {
    if selected >= current + height {
        selected - height + 1
    } else if selected < current {
        selected
    } else {
        current
    }
}

/// The selection after a navigation event, in a list of `count` results
/// with `height` rows visible.
pub open spec fn navigated(sel: int, count: int, height: int, e: SessionEvent) -> int {
    match e {
        SessionEvent::Up => if sel > 0 {
            sel - 1
        } else {
            0
        },
        SessionEvent::Down => if sel + 1 < count {
            sel + 1
        } else {
            sel
        },
        SessionEvent::PageUp => if sel > height {
            sel - height
        } else {
            0
        },
        SessionEvent::PageDown => if count == 0 {
            sel
        } else if sel + height < count - 1 {
            sel + height
        } else {
            count - 1
        },
        _ => sel,
    }
}

/// The cursor after a cursor event, in a query of `len` characters.
pub open spec fn moved_cursor(cursor: int, len: int, e: SessionEvent) -> int {
    match e {
        SessionEvent::Left => if cursor > 0 {
            cursor - 1
        } else {
            cursor
        },
        SessionEvent::Right => if cursor < len {
            cursor + 1
        } else {
            cursor
        },
        SessionEvent::Home => 0,
        SessionEvent::End => len,
        _ => cursor,
    }
}

pub open spec fn is_navigation(e: SessionEvent) -> bool {
    e is Up || e is Down || e is PageUp || e is PageDown
}

pub open spec fn is_cursor_move(e: SessionEvent) -> bool {
    e is Left || e is Right || e is Home || e is End
}

/// The query text with `c` inserted at character `i`.
fn insert_char_at(s: &String, i: usize, c: char) -> (r: String)
    requires
        i <= s@.len(),
    ensures
        r@ == s@.insert(i as int, c),
        r@.len() <= usize::MAX,
{
    let mut v = chars_of(s.as_str());
    v.insert(i, c);
    let _n = v.len();
    string_from_chars(&v)
}

/// The query text without its character at `i`.
fn remove_char_at(s: &String, i: usize) -> (r: String)
    requires
        i < s@.len(),
    ensures
        r@ == s@.remove(i as int),
{
    let mut v = chars_of(s.as_str());
    v.remove(i);
    string_from_chars(&v)
}

/// Scroll offset for drawing: see `scroll_for`.
pub fn calculate_scroll_offset(selected_index: usize, current_offset: usize, visible_height: usize) -> (r: usize)
    requires
        visible_height >= 1,
    ensures
        r == scroll_for(selected_index as int, current_offset as int, visible_height as int),
        r <= selected_index < r + visible_height,
{
    if selected_index < current_offset {
        selected_index
    } else if selected_index - current_offset >= visible_height {
        selected_index - (visible_height - 1)
    } else {
        current_offset
    }
}

/// The interactive session: query, cursor, results, selection and scroll.
pub struct AppState {
    pub query: String,
    /// Cursor position, in characters.
    pub cursor_position: usize,
    pub selected_index: usize,
    pub scroll_offset: usize,
    pub mode: SearchMode,
}

impl AppState {
    pub open spec fn count(&self) -> nat {
        self.mode.len_spec()
    }

    /// The cursor is within the query and the selection within the results
    /// (0 where there are none), at or below the scroll offset.
    pub open spec fn wf(&self) -> bool {
        &&& self.cursor_position <= self.query@.len()
        &&& (self.selected_index < self.count() || self.selected_index == 0)
        &&& self.scroll_offset <= self.selected_index
    }

    /// `wf`, and the selection is inside a window of `height` rows.
    pub open spec fn wf_in(&self, height: nat) -> bool {
        &&& self.wf()
        &&& self.selected_index < self.scroll_offset + height
    }

    /// An empty session showing an empty application list.
    pub fn new() -> (r: AppState)
        ensures
            r.wf(),
            r.query@.len() == 0,
            r.cursor_position == 0,
            r.selected_index == 0,
            r.scroll_offset == 0,
            r.mode.len_spec() == 0,
            r.mode is Applications,
    {
        AppState {
            query: String::new(),
            cursor_position: 0,
            selected_index: 0,
            scroll_offset: 0,
            mode: SearchMode::Applications(Vec::new()),
        }
    }

    /// Number of results.
    pub fn results_count(&self) -> (r: usize)
        ensures
            r == self.count(),
    {
        match &self.mode {
            SearchMode::Applications(rs) => rs.len(),
            SearchMode::Paths(cs) => cs.len(),
        }
    }

    /// Selection and scroll back to the top.
    pub fn reset_selection(&mut self)
        ensures
            final(self).selected_index == 0,
            final(self).scroll_offset == 0,
            final(self).query == old(self).query,
            final(self).cursor_position == old(self).cursor_position,
            final(self).mode == old(self).mode,
    {
        self.selected_index = 0;
        self.scroll_offset = 0;
    }

    /// Replaces the results, with selection and scroll back to the top.
    pub fn set_mode(&mut self, mode: SearchMode)
        requires
            old(self).cursor_position <= old(self).query@.len(),
        ensures
            final(self).mode == mode,
            final(self).selected_index == 0,
            final(self).scroll_offset == 0,
            final(self).query == old(self).query,
            final(self).cursor_position == old(self).cursor_position,
            forall|h: nat| h >= 1 ==> final(self).wf_in(h),
    {
        self.mode = mode;
        self.reset_selection();
    }

    /// One step up; the window follows the selection.
    pub fn move_selection_up(&mut self)
        requires
            old(self).wf(),
        ensures
            final(self).wf(),
            final(self).selected_index == if old(self).selected_index > 0 {
                old(self).selected_index - 1
            } else {
                0
            },
            final(self).scroll_offset == if final(self).selected_index < old(self).scroll_offset {
                final(self).selected_index as int
            } else {
                old(self).scroll_offset as int
            },
            final(self).query == old(self).query,
            final(self).cursor_position == old(self).cursor_position,
            final(self).mode == old(self).mode,
    {
        if self.selected_index > 0 {
            self.selected_index = self.selected_index - 1;
            if self.selected_index < self.scroll_offset {
                self.scroll_offset = self.selected_index;
            }
        }
    }

    /// One step down, stopping at the last result.
    pub fn move_selection_down(&mut self)
        requires
            old(self).wf(),
        ensures
            final(self).wf(),
            final(self).selected_index == if old(self).selected_index + 1 < old(self).count() {
                old(self).selected_index + 1
            } else {
                old(self).selected_index as int
            },
            final(self).scroll_offset == old(self).scroll_offset,
            final(self).query == old(self).query,
            final(self).cursor_position == old(self).cursor_position,
            final(self).mode == old(self).mode,
    {
        let max_index = self.results_count();
        if max_index > 0 && self.selected_index < max_index - 1 {
            self.selected_index = self.selected_index + 1;
        }
    }

    /// `page_size` steps up, stopping at the first result.
    pub fn move_selection_page_up(&mut self, page_size: usize)
        requires
            old(self).wf(),
        ensures
            final(self).wf(),
            final(self).selected_index == if old(self).selected_index > page_size {
                old(self).selected_index - page_size
            } else {
                0
            },
            final(self).scroll_offset == if final(self).selected_index < old(self).scroll_offset {
                final(self).selected_index as int
            } else {
                old(self).scroll_offset as int
            },
            final(self).query == old(self).query,
            final(self).cursor_position == old(self).cursor_position,
            final(self).mode == old(self).mode,
    {
        if self.selected_index > page_size {
            self.selected_index = self.selected_index - page_size;
        } else {
            self.selected_index = 0;
        }
        if self.selected_index < self.scroll_offset {
            self.scroll_offset = self.selected_index;
        }
    }

    /// `page_size` steps down, stopping at the last result.
    pub fn move_selection_page_down(&mut self, page_size: usize)
        requires
            old(self).wf(),
        ensures
            final(self).wf(),
            final(self).selected_index == if old(self).count() == 0 {
                old(self).selected_index as int
            } else if old(self).selected_index + page_size < old(self).count() - 1 {
                old(self).selected_index + page_size
            } else {
                old(self).count() - 1
            },
            final(self).scroll_offset == old(self).scroll_offset,
            final(self).query == old(self).query,
            final(self).cursor_position == old(self).cursor_position,
            final(self).mode == old(self).mode,
    {
        let max_index = self.results_count();
        if max_index > 0 {
            let last = max_index - 1;
            if page_size >= last || self.selected_index >= last - page_size {
                self.selected_index = last;
            } else {
                self.selected_index = self.selected_index + page_size;
            }
        }
    }

    /// Moves the window of `visible_height` rows so that it shows the selection.
    pub fn adjust_scroll(&mut self, visible_height: usize)
        requires
            old(self).wf(),
            visible_height >= 1,
        ensures
            final(self).wf_in(visible_height as nat),
            final(self).scroll_offset == scroll_for(
                old(self).selected_index as int,
                old(self).scroll_offset as int,
                visible_height as int,
            ),
            final(self).selected_index == old(self).selected_index,
            final(self).query == old(self).query,
            final(self).cursor_position == old(self).cursor_position,
            final(self).mode == old(self).mode,
    {
        self.scroll_offset = calculate_scroll_offset(
            self.selected_index,
            self.scroll_offset,
            visible_height,
        );
    }

    /// The selected application, in application mode.
    pub fn get_selected_app(&self) -> (r: Option<&SearchResult>)
        ensures
            r == match self.mode {
                SearchMode::Applications(rs) => if self.selected_index < rs@.len() {
                    Some(&rs@[self.selected_index as int])
                } else {
                    None
                },
                SearchMode::Paths(_) => None,
            },
    {
        match &self.mode {
            SearchMode::Applications(rs) => if self.selected_index < rs.len() {
                Some(&rs[self.selected_index])
            } else {
                None
            },
            SearchMode::Paths(_) => None,
        }
    }

    /// The selected path completion, in path mode.
    pub fn get_selected_path(&self) -> (r: Option<&PathCompletion>)
        ensures
            r == match self.mode {
                SearchMode::Paths(cs) => if self.selected_index < cs@.len() {
                    Some(&cs@[self.selected_index as int])
                } else {
                    None
                },
                SearchMode::Applications(_) => None,
            },
    {
        match &self.mode {
            SearchMode::Paths(cs) => if self.selected_index < cs.len() {
                Some(&cs[self.selected_index])
            } else {
                None
            },
            SearchMode::Applications(_) => None,
        }
    }

    /// The directory completion at `index` becomes the query, with the
    /// cursor at its end and the selection at the top.
    fn accept_completion_at(&mut self, index: usize) -> (r: SessionAction)
        requires
            old(self).wf(),
            old(self).mode matches SearchMode::Paths(cs) && index < cs@.len(),
        ensures
            final(self).query@ == applied(old(self).mode->Paths_0@[index as int]@),
            final(self).cursor_position == final(self).query@.len(),
            final(self).selected_index == 0,
            final(self).scroll_offset == 0,
            final(self).mode == old(self).mode,
            final(self).wf(),
            r == (SessionAction::Refresh { path_query: is_path_query_spec(final(self).query@) }),
    {
        let q = match &self.mode {
            SearchMode::Paths(cs) => PathCompleter::apply_completion(self.query.as_str(), &cs[index]),
            SearchMode::Applications(_) => String::new(),
        };
        let n = chars_of(q.as_str()).len();
        self.query = q;
        self.cursor_position = n;
        self.reset_selection();
        let p = PathCompleter::is_path_query(self.query.as_str());
        SessionAction::Refresh { path_query: p }
    }

    /// Handles one event with `visible_height` rows of results on screen.
    /// Edits and accepted completions change the query and put the selection
    /// back at the top; the caller then computes the new results as the
    /// returned action says and hands them to `set_mode`.
    pub fn handle_event(&mut self, event: SessionEvent, visible_height: usize) -> (r: SessionAction)
        requires
            old(self).wf(),
            visible_height >= 1,
        ensures
            final(self).wf_in(visible_height as nat),
            final(self).mode == old(self).mode,
            event is Insert ==> final(self).query@ == old(self).query@.insert(
                old(self).cursor_position as int,
                event->Insert_0,
            ) && final(self).cursor_position == old(self).cursor_position + 1
                && final(self).selected_index == 0 && r == (SessionAction::Refresh {
                path_query: is_path_query_spec(final(self).query@),
            }),
            event is Backspace && old(self).cursor_position > 0 ==> final(self).query@ == old(self).query@.remove(old(self).cursor_position - 1) && final(self).cursor_position == old(self).cursor_position - 1 && final(self).selected_index == 0 && r == (
            SessionAction::Refresh { path_query: is_path_query_spec(final(self).query@) }),
            event is Delete && old(self).cursor_position < old(self).query@.len() ==> final(self).query@ == old(self).query@.remove(old(self).cursor_position as int) && final(self).cursor_position == old(self).cursor_position && final(self).selected_index == 0
                && r == (SessionAction::Refresh {
                path_query: is_path_query_spec(final(self).query@),
            }),
            (event is Backspace && old(self).cursor_position == 0) || (event is Delete && old(self).cursor_position == old(self).query@.len()) || is_cursor_move(event) ==> final(self).query == old(self).query && final(self).cursor_position == moved_cursor(
                old(self).cursor_position as int,
                old(self).query@.len() as int,
                event,
            ) && final(self).selected_index == old(self).selected_index && final(self).scroll_offset == scroll_for(
                old(self).selected_index as int,
                old(self).scroll_offset as int,
                visible_height as int,
            ) && r == SessionAction::Stay,
            is_navigation(event) ==> final(self).query == old(self).query && final(self).cursor_position == old(self).cursor_position && final(self).selected_index
                == navigated(
                old(self).selected_index as int,
                old(self).count() as int,
                visible_height as int,
                event,
            ) && r == SessionAction::Stay,
            event is Accept ==> (match old(self).mode {
                SearchMode::Paths(cs) => if old(self).selected_index < cs@.len() {
                    final(self).query@ == applied(cs@[old(self).selected_index as int]@)
                        && final(self).cursor_position == final(self).query@.len()
                        && final(self).selected_index == 0 && r == (SessionAction::Refresh {
                        path_query: is_path_query_spec(final(self).query@),
                    })
                } else {
                    final(self).query == old(self).query && final(self).cursor_position == old(self).cursor_position && final(self).selected_index == old(self).selected_index
                        && r == SessionAction::Stay
                },
                SearchMode::Applications(_) => final(self).query == old(self).query
                    && final(self).cursor_position == old(self).cursor_position
                    && final(self).selected_index == old(self).selected_index && r
                    == SessionAction::Stay,
            }),
            event is Confirm ==> (match old(self).mode {
                SearchMode::Applications(rs) => final(self).query == old(self).query && final(self).selected_index == old(self).selected_index && r == if old(self).selected_index
                    < rs@.len() {
                    SessionAction::LaunchApp(old(self).selected_index)
                } else {
                    SessionAction::Stay
                },
                SearchMode::Paths(cs) => if old(self).selected_index < cs@.len() {
                    if cs@[old(self).selected_index as int].is_dir {
                        final(self).query@ == applied(cs@[old(self).selected_index as int]@)
                            && final(self).cursor_position == final(self).query@.len() && final(self).selected_index == 0 && r == (SessionAction::Refresh {
                            path_query: is_path_query_spec(final(self).query@),
                        })
                    } else {
                        final(self).query == old(self).query && r == SessionAction::LaunchPath(
                            old(self).selected_index,
                        )
                    }
                } else {
                    final(self).query == old(self).query && r == SessionAction::Stay
                },
            }),
            event is Cancel ==> final(self).query == old(self).query && r == SessionAction::Quit,
    {
        let action = match event {
            SessionEvent::Insert(c) => {
                self.query = insert_char_at(&self.query, self.cursor_position, c);
                self.cursor_position = self.cursor_position + 1;
                self.reset_selection();
                SessionAction::Refresh {
                    path_query: PathCompleter::is_path_query(self.query.as_str()),
                }
            },
            SessionEvent::Backspace => {
                if self.cursor_position > 0 {
                    self.query = remove_char_at(&self.query, self.cursor_position - 1);
                    self.cursor_position = self.cursor_position - 1;
                    self.reset_selection();
                    SessionAction::Refresh {
                        path_query: PathCompleter::is_path_query(self.query.as_str()),
                    }
                } else {
                    SessionAction::Stay
                }
            },
            SessionEvent::Delete => {
                let len = chars_of(self.query.as_str()).len();
                if self.cursor_position < len {
                    self.query = remove_char_at(&self.query, self.cursor_position);
                    self.reset_selection();
                    SessionAction::Refresh {
                        path_query: PathCompleter::is_path_query(self.query.as_str()),
                    }
                } else {
                    SessionAction::Stay
                }
            },
            SessionEvent::Left => {
                if self.cursor_position > 0 {
                    self.cursor_position = self.cursor_position - 1;
                }
                SessionAction::Stay
            },
            SessionEvent::Right => {
                let len = chars_of(self.query.as_str()).len();
                if self.cursor_position < len {
                    self.cursor_position = self.cursor_position + 1;
                }
                SessionAction::Stay
            },
            SessionEvent::Home => {
                self.cursor_position = 0;
                SessionAction::Stay
            },
            SessionEvent::End => {
                self.cursor_position = chars_of(self.query.as_str()).len();
                SessionAction::Stay
            },
            SessionEvent::Up => {
                self.move_selection_up();
                SessionAction::Stay
            },
            SessionEvent::Down => {
                self.move_selection_down();
                SessionAction::Stay
            },
            SessionEvent::PageUp => {
                self.move_selection_page_up(visible_height);
                SessionAction::Stay
            },
            SessionEvent::PageDown => {
                self.move_selection_page_down(visible_height);
                SessionAction::Stay
            },
            SessionEvent::Accept => {
                let n = self.results_count();
                let in_paths = match &self.mode {
                    SearchMode::Paths(_) => true,
                    SearchMode::Applications(_) => false,
                };
                if in_paths && self.selected_index < n {
                    self.accept_completion_at(self.selected_index)
                } else {
                    SessionAction::Stay
                }
            },
            SessionEvent::Confirm => {
                let n = self.results_count();
                if self.selected_index >= n {
                    SessionAction::Stay
                } else {
                    let is_dir = match &self.mode {
                        SearchMode::Applications(_) => None,
                        SearchMode::Paths(cs) => Some(cs[self.selected_index].is_dir),
                    };
                    match is_dir {
                        None => SessionAction::LaunchApp(self.selected_index),
                        Some(true) => self.accept_completion_at(self.selected_index),
                        Some(false) => SessionAction::LaunchPath(self.selected_index),
                    }
                }
            },
            SessionEvent::Cancel => SessionAction::Quit,
        };
        self.adjust_scroll(visible_height);
        action
    }
}

/// The invariant that every event keeps: the selection lies in
/// `[0, max(1, count))` and inside the visible window of `height` rows.
pub proof fn lemma_session_invariant(s: AppState, height: nat)
    requires
        s.wf_in(height),
    ensures
        0 <= s.selected_index < if s.count() > 1 {
            s.count()
        } else {
            1
        },
        s.scroll_offset <= s.selected_index < s.scroll_offset + height,
{
}

} // verus!
