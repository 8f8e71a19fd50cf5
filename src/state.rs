//! The navigation and selection state machine, and the dispatcher that maps
//! user intents onto its transitions and onto the effects the caller runs.

use vstd::prelude::*;
use crate::config::{
    BookmarkDir, Config, SortType, FileType, ThemeType, next_sort, prev_sort, cycle_sort,
    sort_tag, sort_of_tag, encode_sort, decode_sort, lemma_sort_tag_round_trip, CacheFile,
};
use crate::sorting::{FileEntry, sort_spec, sort_file_by_type, lemma_sort_spec_sorted};
use crate::text::{
    parent_path, last_segment, join_path, resolve_link, parent_path_exec, last_segment_exec,
    join_path_exec, resolve_link_exec, same_text,
};
use crate::view::{
    UIFile, Direction, visible_indices, cursor_target, visible_indices_exec, cursor_target_exec,
    lemma_find_pos, find_pos_exec,
};
use crate::icons::{
    IconCache, normalize_mime, normalize_mime_exec, pairs_map, get_file_icon, icon_ok, MAX_ICON_SIZE,
};

verus! {

/// The modifier keys held with a key press.
#[derive(Clone, Copy, PartialEq, Eq, Structural, Debug)]
pub struct Modifiers {
    pub shift: bool,
    pub control: bool,
    pub alt: bool,
    pub logo: bool,
}

/// The keys the dispatcher knows; `Num(n)` is the digit key `n`.
#[derive(Clone, Copy, PartialEq, Eq, Structural, Debug)]
pub enum Key {
    Left,
    Right,
    Up,
    Down,
    Enter,
    Escape,
    Backspace,
    S,
    H,
    Minus,
    B,
    Num(u8),
    M,
    C,
    N,
    R,
    Other,
}

/// A keyboard event.
#[derive(Clone, Copy, PartialEq, Eq, Structural, Debug)]
pub enum KeyEvent {
    KeyPressed { key: Key, modifiers: Modifiers },
    KeyReleased,
    CharacterReceived,
    ModifiersChanged(Modifiers),
}

/// A window event.
#[derive(Clone, Copy, PartialEq, Eq, Structural, Debug)]
pub enum WindowEvent {
    Resized { width: u32, height: u32 },
    CloseRequested,
    Other,
}

/// A user intent.
pub enum Message {
    FileClicked(usize),
    GoBack(usize),
    SortChanged,
    HiddenChanged,
    KeyboardUpdate(KeyEvent),
    WindowUpdate(WindowEvent),
    BookmarkCurrent,
    BookmarkClicked(usize),
    DeleteClicked,
    MvClicked,
    CpClicked,
    MkFile,
    MkDir,
    RenameToggle,
    RenameUpdate(String),
    Tick,
    ToggleMenu,
    NoOp,
}

/// What the caller must do after a transition. After `Remove`, `Move`,
/// `Copy`, `Touch`, `MakeDir` and `Rename` it re-reads the current directory
/// as after `Reload`; after `Open` it redraws as after `Redraw`.
pub enum Effect {
    /// Nothing.
    Nothing,
    /// Re-derive the grid and its icons.
    Redraw,
    /// Re-read the current directory, hand it to `load_files`, then redraw.
    Reload,
    /// Find the MIME type of the entry (and the target of a link) and hand
    /// them to `activate`.
    Inspect { index: usize, path: String, is_link: bool },
    /// Open the file with the default application.
    Open { path: String },
    /// Delete the file, or the directory with all it holds.
    Remove { path: String, recursive: bool },
    /// Move the file into the directory.
    Move { from: String, to: String },
    /// Copy the file into the directory.
    Copy { from: String, to: String },
    /// Create an empty file.
    Touch { path: String },
    /// Create a directory.
    MakeDir { path: String },
    /// Rename the file.
    Rename { from: String, to: String },
    /// Focus the rename input.
    FocusRename,
    /// Persist the settings and the icon cache, then close.
    Shutdown,
}

/// An effect with its strings as character sequences.
pub enum EffectView {
    Nothing,
    Redraw,
    Reload,
    Inspect { index: usize, path: Seq<char>, is_link: bool },
    Open { path: Seq<char> },
    Remove { path: Seq<char>, recursive: bool },
    Move { from: Seq<char>, to: Seq<char> },
    Copy { from: Seq<char>, to: Seq<char> },
    Touch { path: Seq<char> },
    MakeDir { path: Seq<char> },
    Rename { from: Seq<char>, to: Seq<char> },
    FocusRename,
    Shutdown,
}

impl View for Effect {
    type V = EffectView;

    open spec fn view(&self) -> EffectView {
        match self {
            Effect::Nothing => EffectView::Nothing,
            Effect::Redraw => EffectView::Redraw,
            Effect::Reload => EffectView::Reload,
            Effect::Inspect { index, path, is_link } => EffectView::Inspect {
                index: *index,
                path: path@,
                is_link: *is_link,
            },
            Effect::Open { path } => EffectView::Open { path: path@ },
            Effect::Remove { path, recursive } => EffectView::Remove { path: path@, recursive: *recursive },
            Effect::Move { from, to } => EffectView::Move { from: from@, to: to@ },
            Effect::Copy { from, to } => EffectView::Copy { from: from@, to: to@ },
            Effect::Touch { path } => EffectView::Touch { path: path@ },
            Effect::MakeDir { path } => EffectView::MakeDir { path: path@ },
            Effect::Rename { from, to } => EffectView::Rename { from: from@, to: to@ },
            Effect::FocusRename => EffectView::FocusRename,
            Effect::Shutdown => EffectView::Shutdown,
        }
    }
}

/// The navigation state as the transitions see it.
pub struct NavState {
    pub files: Seq<FileEntry>,
    pub current_path: Seq<char>,
    pub sort_type: SortType,
    pub cols: u32,
    pub rows: u32,
    pub show_hidden: bool,
    pub selected: Option<usize>,
    pub bookmarks: Seq<(Seq<char>, Seq<char>)>,
    pub armed: bool,
    pub mv_target: Option<Seq<char>>,
    pub cp_target: Option<Seq<char>>,
    pub type_mode: Option<Seq<char>>,
    pub show_keybinds: bool,
    pub show_file_options: bool,
}

/// The first bookmark whose path is `p`, or -1.
pub open spec fn bookmark_pos(bs: Seq<(Seq<char>, Seq<char>)>, p: Seq<char>) -> int
    decreases bs.len(),
{
    if bs.len() == 0 {
        -1
    } else if bs[0].1 == p {
        0
    } else {
        let r = bookmark_pos(bs.drop_first(), p);
        if r < 0 {
            -1
        } else {
            r + 1
        }
    }
}

pub open spec fn bookmarks_unique(bs: Seq<(Seq<char>, Seq<char>)>) -> bool {
    forall|i: int, j: int| 0 <= i < j < bs.len() ==> (#[trigger] bs[i]).1 != (#[trigger] bs[j]).1
}

/// The bookmark list after toggling the path `p`: its bookmark goes if it
/// has one, else one named by its last segment is added at the end.
pub open spec fn toggle_bookmark(bs: Seq<(Seq<char>, Seq<char>)>, p: Seq<char>) -> Seq<
    (Seq<char>, Seq<char>),
> {
    let i = bookmark_pos(bs, p);
    if i >= 0 {
        bs.remove(i)
    } else {
        bs.push((last_segment(p), p))
    }
}

/// `p` with `n` segments popped off.
pub open spec fn pop_segments(p: Seq<char>, n: nat) -> Seq<char>
    decreases n,
{
    if n == 0 {
        p
    } else {
        pop_segments(parent_path(p), (n - 1) as nat)
    }
}

pub open spec fn bookmark_slot(n: u8) -> int {
    if n == 0 {
        9
    } else {
        n - 1
    }
}

pub open spec fn exact_shift(m: Modifiers) -> bool {
    m.shift && !m.control && !m.alt && !m.logo
}

/// Columns of a window `width` pixels wide: the width beyond the 120-pixel
/// sidebar holds cells of 84 pixels, at least one.
pub open spec fn grid_cols(width: u32) -> u32 {
    let w: int = if width > 120 { width - 120 } else { 0 };
    if w / 84 == 0 {
        1
    } else {
        (w / 84) as u32
    }
}

/// Rows of a window `height` pixels high: cells of 104 pixels, at least one.
pub open spec fn grid_rows(height: u32) -> u32 {
    if height / 104 == 0 {
        1
    } else {
        (height / 104) as u32
    }
}

/// Intents that are commands on the listing; rename mode disables them.
pub open spec fn is_command(msg: Message) -> bool {
    match msg {
        Message::FileClicked(_) | Message::GoBack(_) | Message::SortChanged | Message::HiddenChanged
        | Message::BookmarkCurrent | Message::BookmarkClicked(_) | Message::DeleteClicked
        | Message::MvClicked | Message::CpClicked | Message::MkFile | Message::MkDir => true,
        _ => false,
    }
}

impl NavState {
    /// The indices of the entries the grid shows.
    pub open spec fn visible(self) -> Seq<usize> {
        visible_indices(self.files, self.show_hidden, self.cols * self.rows)
    }

    /// The grid has a cell, the selection is a shown entry, and each
    /// bookmarked path is bookmarked once.
    pub open spec fn wf(self) -> bool {
        &&& self.cols >= 1
        &&& self.rows >= 1
        &&& self.files.len() <= usize::MAX
        &&& (self.selected matches Some(x) ==> self.visible().contains(x))
        &&& bookmarks_unique(self.bookmarks)
    }

    /// Keeps a selection only while its entry is shown.
    pub open spec fn keep_if_visible(self, sel: Option<usize>) -> Option<usize> {
        match sel {
            Some(x) => if self.visible().contains(x) {
                Some(x)
            } else {
                None
            },
            None => None,
        }
    }

    pub open spec fn select(self, sel: Option<usize>) -> NavState {
        NavState { selected: sel, ..self }
    }

    /// First press on an entry selects it; a press on the selected entry
    /// asks for its activation. A press on an entry not shown does nothing.
    pub open spec fn interact(self, index: usize) -> (NavState, EffectView) {
        if self.selected == Some(index) && index < self.files.len() {
            (
                self,
                EffectView::Inspect {
                    index,
                    path: self.files[index as int].path@,
                    is_link: self.files[index as int].kind == FileType::Link,
                },
            )
        } else if self.visible().contains(index) {
            (self.select(Some(index)), EffectView::Redraw)
        } else {
            (self, EffectView::Nothing)
        }
    }

    pub open spec fn go_back(self, n: usize) -> (NavState, EffectView) {
        if n == 0 {
            (self, EffectView::Nothing)
        } else {
            (
                NavState {
                    current_path: pop_segments(self.current_path, n as nat),
                    selected: None,
                    ..self
                },
                EffectView::Reload,
            )
        }
    }

    pub open spec fn change_sort(self, reverse: bool) -> (NavState, EffectView) {
        let t = if reverse {
            prev_sort(self.sort_type)
        } else {
            next_sort(self.sort_type)
        };
        (
            NavState { sort_type: t, files: sort_spec(t, self.files), selected: None, ..self },
            EffectView::Redraw,
        )
    }

    pub open spec fn toggle_hidden(self) -> (NavState, EffectView) {
        let t = NavState { show_hidden: !self.show_hidden, ..self };
        (t.select(t.keep_if_visible(self.selected)), EffectView::Redraw)
    }

    pub open spec fn move_cursor(self, dir: Direction) -> (NavState, EffectView) {
        (
            self.select(cursor_target(self.visible(), self.selected, self.cols as int, dir)),
            EffectView::Redraw,
        )
    }

    pub open spec fn bookmark_current(self) -> (NavState, EffectView) {
        (
            NavState {
                bookmarks: toggle_bookmark(self.bookmarks, self.current_path),
                ..self
            },
            EffectView::Nothing,
        )
    }

    pub open spec fn open_bookmark(self, i: usize) -> (NavState, EffectView) {
        if i < self.bookmarks.len() {
            (
                NavState {
                    current_path: self.bookmarks[i as int].1,
                    selected: None,
                    ..self
                },
                EffectView::Reload,
            )
        } else {
            (self, EffectView::Nothing)
        }
    }

    /// The first press on a selected entry arms the deletion, the second
    /// deletes it; without a selection the deletion is disarmed.
    pub open spec fn delete(self) -> (NavState, EffectView) {
        match self.selected {
            Some(x) => if self.armed && x < self.files.len() {
                (
                    NavState { armed: false, selected: None, ..self },
                    EffectView::Remove {
                        path: self.files[x as int].path@,
                        recursive: self.files[x as int].kind == FileType::Folder,
                    },
                )
            } else {
                (NavState { armed: true, ..self }, EffectView::Nothing)
            },
            None => (NavState { armed: false, ..self }, EffectView::Nothing),
        }
    }

    pub open spec fn staged_path(self) -> Option<Seq<char>> {
        match self.selected {
            Some(x) => if x < self.files.len() {
                Some(self.files[x as int].path@)
            } else {
                None
            },
            None => None,
        }
    }

    /// The first press stages the selected entry; the next one moves it into
    /// the current directory.
    pub open spec fn stage_move(self) -> (NavState, EffectView) {
        match self.mv_target {
            Some(t) => (
                NavState { mv_target: None, selected: None, ..self },
                EffectView::Move { from: t, to: self.current_path },
            ),
            None => (NavState { mv_target: self.staged_path(), ..self }, EffectView::Nothing),
        }
    }

    /// The first press stages the selected entry; the next one copies it into
    /// the current directory.
    pub open spec fn stage_copy(self) -> (NavState, EffectView) {
        match self.cp_target {
            Some(t) => (
                NavState { cp_target: None, selected: None, ..self },
                EffectView::Copy { from: t, to: self.current_path },
            ),
            None => (NavState { cp_target: self.staged_path(), ..self }, EffectView::Nothing),
        }
    }

    pub open spec fn touch(self) -> (NavState, EffectView) {
        (self.select(None), EffectView::Touch { path: join_path(self.current_path, "NewFile"@) })
    }

    pub open spec fn mkdir(self) -> (NavState, EffectView) {
        (self.select(None), EffectView::MakeDir { path: join_path(self.current_path, "NewFolder"@) })
    }

    /// Leaves rename mode, renaming the selected entry to the typed name when
    /// there is both.
    pub open spec fn commit_rename(self, typed: Seq<char>) -> (NavState, EffectView) {
        match self.selected {
            Some(x) => if typed.len() >= 1 && x < self.files.len() {
                (
                    NavState { type_mode: None, selected: None, ..self },
                    EffectView::Rename {
                        from: self.files[x as int].path@,
                        to: join_path(self.current_path, typed),
                    },
                )
            } else {
                (NavState { type_mode: None, ..self }, EffectView::Nothing)
            },
            None => (NavState { type_mode: None, ..self }, EffectView::Nothing),
        }
    }

    pub open spec fn enter_rename(self) -> (NavState, EffectView) {
        (NavState { type_mode: Some(Seq::empty()), ..self }, EffectView::FocusRename)
    }

    pub open spec fn rename_toggle(self) -> (NavState, EffectView) {
        match self.type_mode {
            Some(v) => self.commit_rename(v),
            None => self.enter_rename(),
        }
    }

    pub open spec fn resize(self, width: u32, height: u32) -> (NavState, EffectView) {
        let c = grid_cols(width);
        let r = grid_rows(height);
        if c == self.cols && r == self.rows {
            (self, EffectView::Nothing)
        } else {
            let t = NavState { cols: c, rows: r, ..self };
            (t.select(t.keep_if_visible(self.selected)), EffectView::Redraw)
        }
    }

    /// A key press. In rename mode only Escape (cancel) and Enter (commit)
    /// act.
    pub open spec fn key_press(self, key: Key, m: Modifiers) -> (NavState, EffectView) {
        if self.type_mode is Some {
            match key {
                Key::Escape => (NavState { type_mode: None, ..self }, EffectView::Nothing),
                Key::Enter => self.commit_rename(self.type_mode->0),
                _ => (self, EffectView::Nothing),
            }
        } else {
            match key {
                Key::Left => self.move_cursor(Direction::Left),
                Key::Right => self.move_cursor(Direction::Right),
                Key::Up => self.move_cursor(Direction::Up),
                Key::Down => self.move_cursor(Direction::Down),
                Key::Enter => match self.selected {
                    Some(x) => self.interact(x),
                    None => (self, EffectView::Nothing),
                },
                Key::Backspace => self.go_back(1),
                Key::S => self.change_sort(exact_shift(m)),
                Key::H => self.toggle_hidden(),
                Key::Minus => if exact_shift(m) {
                    self.delete()
                } else {
                    (self, EffectView::Nothing)
                },
                Key::B => if m.shift {
                    self.bookmark_current()
                } else {
                    (self, EffectView::Nothing)
                },
                Key::Num(n) => if n <= 9 && bookmark_slot(n) < self.bookmarks.len() {
                    self.open_bookmark(bookmark_slot(n) as usize)
                } else {
                    (self, EffectView::Nothing)
                },
                Key::M => self.stage_move(),
                Key::C => self.stage_copy(),
                Key::N => if m.shift {
                    self.mkdir()
                } else {
                    self.touch()
                },
                Key::R => self.enter_rename(),
                Key::Escape | Key::Other => (self, EffectView::Nothing),
            }
        }
    }

    /// Routes an intent to its transition; in rename mode the commands on
    /// the listing do nothing.
    pub open spec fn dispatch(self, msg: Message) -> (NavState, EffectView) {
        if self.type_mode is Some && is_command(msg) {
            (self, EffectView::Nothing)
        } else {
            self.route(msg)
        }
    }

    pub open spec fn route(self, msg: Message) -> (NavState, EffectView) {
        match msg {
            Message::FileClicked(i) => self.interact(i),
            Message::GoBack(n) => self.go_back(n),
            Message::SortChanged => self.change_sort(false),
            Message::HiddenChanged => self.toggle_hidden(),
            Message::KeyboardUpdate(ev) => match ev {
                KeyEvent::KeyPressed { key, modifiers } => self.key_press(key, modifiers),
                KeyEvent::ModifiersChanged(m) => (
                    NavState { show_keybinds: m.control, ..self },
                    EffectView::Nothing,
                ),
                _ => (self, EffectView::Nothing),
            },
            Message::WindowUpdate(ev) => match ev {
                WindowEvent::Resized { width, height } => self.resize(width, height),
                WindowEvent::CloseRequested => (self, EffectView::Shutdown),
                WindowEvent::Other => (self, EffectView::Nothing),
            },
            Message::BookmarkCurrent => self.bookmark_current(),
            Message::BookmarkClicked(i) => self.open_bookmark(i),
            Message::DeleteClicked => self.delete(),
            Message::MvClicked => self.stage_move(),
            Message::CpClicked => self.stage_copy(),
            Message::MkFile => self.touch(),
            Message::MkDir => self.mkdir(),
            Message::RenameToggle => self.rename_toggle(),
            Message::RenameUpdate(v) => (
                NavState { type_mode: Some(v@), ..self },
                EffectView::Nothing,
            ),
            Message::Tick => (self, EffectView::Nothing),
            Message::ToggleMenu => (
                NavState { show_file_options: !self.show_file_options, ..self },
                EffectView::Nothing,
            ),
            Message::NoOp => (self, EffectView::Nothing),
        }
    }

    /// Whether an intent is a press of the delete command.
    pub open spec fn is_delete(self, msg: Message) -> bool {
        match msg {
            Message::DeleteClicked => true,
            Message::KeyboardUpdate(KeyEvent::KeyPressed { key, modifiers }) => key == Key::Minus
                && exact_shift(modifiers) && self.type_mode is None,
            _ => false,
        }
    }
}

impl NavState {
    /// Whether an intent disarms a pending deletion: every one that is not
    /// the delete command and that acts on the listing, that is asks for an
    /// effect other than focusing the rename input (every navigation,
    /// selection change and file operation does).
    pub open spec fn disarms(self, msg: Message) -> bool {
        let e = self.dispatch(msg).1;
        !self.is_delete(msg) && !(e is Nothing) && !(e is FocusRename)
    }

    /// One transition of the state machine: the routed transition, with a
    /// pending deletion disarmed by any intervening navigation.
    pub open spec fn step(self, msg: Message) -> (NavState, EffectView) {
        let (t, e) = self.dispatch(msg);
        if self.disarms(msg) {
            (NavState { armed: false, ..t }, e)
        } else {
            (t, e)
        }
    }
}

/// The state after a sequence of intents.
pub open spec fn run(s: NavState, msgs: Seq<Message>) -> NavState
    decreases msgs.len(),
{
    if msgs.len() == 0 {
        s
    } else {
        run(s, msgs.drop_last()).step(msgs.last()).0
    }
}

pub proof fn lemma_bookmark_pos(bs: Seq<(Seq<char>, Seq<char>)>, p: Seq<char>)
    ensures
        -1 <= bookmark_pos(bs, p) < bs.len(),
        bookmark_pos(bs, p) >= 0 ==> bs[bookmark_pos(bs, p)].1 == p,
        bookmark_pos(bs, p) < 0 ==> forall|j: int| 0 <= j < bs.len() ==> (#[trigger] bs[j]).1 != p,
    decreases bs.len(),
{
    if bs.len() > 0 && bs[0].1 != p {
        lemma_bookmark_pos(bs.drop_first(), p);
        if bookmark_pos(bs, p) < 0 {
            assert forall|j: int| 0 <= j < bs.len() implies (#[trigger] bs[j]).1 != p by {
                if j > 0 {
                    assert(bs[j] == bs.drop_first()[j - 1]);
                }
            }
        }
    }
}

/// Toggling a bookmark keeps the paths of the list unique.
pub proof fn lemma_toggle_bookmark_unique(bs: Seq<(Seq<char>, Seq<char>)>, p: Seq<char>)
    requires
        bookmarks_unique(bs),
    ensures
        bookmarks_unique(toggle_bookmark(bs, p)),
{
    lemma_bookmark_pos(bs, p);
    let i = bookmark_pos(bs, p);
    let t = toggle_bookmark(bs, p);
    if i >= 0 {
        assert forall|a: int, b: int| 0 <= a < b < t.len() implies (#[trigger] t[a]).1 != (#[trigger] t[b]).1 by {
            let a0 = if a < i { a } else { a + 1 };
            let b0 = if b < i { b } else { b + 1 };
            assert(t[a] == bs[a0]);
            assert(t[b] == bs[b0]);
        }
    } else {
        assert forall|a: int, b: int| 0 <= a < b < t.len() implies (#[trigger] t[a]).1 != (#[trigger] t[b]).1 by {
            if b == bs.len() {
                assert(t[a] == bs[a]);
            } else {
                assert(t[a] == bs[a]);
                assert(t[b] == bs[b]);
            }
        }
    }
}

/// The cursor always lands on a shown entry.
pub proof fn lemma_cursor_target_visible(v: Seq<usize>, sel: Option<usize>, cols: int, dir: Direction)
    requires
        cols >= 1,
    ensures
        cursor_target(v, sel, cols, dir) matches Some(t) ==> v.contains(t),
{
    if v.len() > 0 {
        if sel is Some {
            lemma_find_pos(v, sel->0);
        }
        let p = match sel {
            Some(x) => crate::view::find_pos(v, x),
            None => -1,
        };
        let len = v.len() as int;
        if p >= 0 {
            assert(p % cols <= p) by (nonlinear_arith)
                requires
                    p >= 0,
                    cols >= 1,
            ;
            assert(0 <= p % cols) by (nonlinear_arith)
                requires
                    cols >= 1,
            ;
            let d = len - 1 - p;
            if d >= 0 {
                assert(0 <= cols * (d / cols) <= d) by (nonlinear_arith)
                    requires
                        cols >= 1,
                        d >= 0,
                ;
            }
        }
        let t: int = match dir {
            Direction::Left => if p > 0 {
                p - 1
            } else {
                len - 1
            },
            Direction::Right => if p >= 0 && p < len - 1 {
                p + 1
            } else {
                0
            },
            Direction::Down => if p < 0 {
                0
            } else if p + cols < len {
                p + cols
            } else {
                p % cols
            },
            Direction::Up => if p < 0 {
                0
            } else if p >= cols {
                p - cols
            } else {
                p + cols * ((len - 1 - p) / cols)
            },
        };
        assert(0 <= t < len);
        assert(v[t] == cursor_target(v, sel, cols, dir)->0);
    }
}

proof fn lemma_key_press_wf(s: NavState, key: Key, m: Modifiers)
    requires
        s.wf(),
    ensures
        s.key_press(key, m).0.wf(),
{
    if s.type_mode is None {
        match key {
            Key::Left => lemma_cursor_target_visible(s.visible(), s.selected, s.cols as int, Direction::Left),
            Key::Right => lemma_cursor_target_visible(s.visible(), s.selected, s.cols as int, Direction::Right),
            Key::Up => lemma_cursor_target_visible(s.visible(), s.selected, s.cols as int, Direction::Up),
            Key::Down => lemma_cursor_target_visible(s.visible(), s.selected, s.cols as int, Direction::Down),
            Key::S => {
                lemma_sort_spec_sorted(next_sort(s.sort_type), s.files);
                lemma_sort_spec_sorted(prev_sort(s.sort_type), s.files);
            },
            Key::B => lemma_toggle_bookmark_unique(s.bookmarks, s.current_path),
            _ => {},
        }
    }
}

proof fn lemma_dispatch_wf(s: NavState, msg: Message)
    requires
        s.wf(),
    ensures
        s.dispatch(msg).0.wf(),
{
    match msg {
        Message::SortChanged => lemma_sort_spec_sorted(next_sort(s.sort_type), s.files),
        Message::BookmarkCurrent => lemma_toggle_bookmark_unique(s.bookmarks, s.current_path),
        Message::KeyboardUpdate(KeyEvent::KeyPressed { key, modifiers }) => lemma_key_press_wf(s, key, modifiers),
        _ => {},
    }
}

/// Every transition keeps the state well formed; in particular the
/// selection is always absent or a shown entry.
pub proof fn lemma_step_wf(s: NavState, msg: Message)
    requires
        s.wf(),
    ensures
        s.step(msg).0.wf(),
{
    lemma_dispatch_wf(s, msg);
}

/// Whatever intents arrive, the state stays well formed after each of them:
/// the selection is absent or indexes an entry the grid shows.
pub proof fn lemma_selection_stays_visible(s: NavState, msgs: Seq<Message>)
    requires
        s.wf(),
    ensures
        forall|k: int| 0 <= k <= msgs.len() ==> (#[trigger] run(s, msgs.take(k))).wf(),
    decreases msgs.len(),
{
    if msgs.len() > 0 {
        lemma_selection_stays_visible(s, msgs.drop_last());
        assert forall|k: int| 0 <= k <= msgs.len() implies (#[trigger] run(s, msgs.take(k))).wf() by {
            if k < msgs.len() {
                assert(msgs.take(k) =~= msgs.drop_last().take(k));
            } else {
                assert(msgs.take(k) =~= msgs);
                assert(msgs.drop_last().take(msgs.len() - 1) =~= msgs.drop_last());
                lemma_step_wf(run(s, msgs.drop_last()), msgs.last());
            }
        }
    }
}

/// The bookmarks as (name, path) pairs.
pub open spec fn bookmarks_view(v: Seq<BookmarkDir>) -> Seq<(Seq<char>, Seq<char>)> {
    v.map_values(|b: BookmarkDir| (b.name@, b.path@))
}

/// The whole session state of the file manager.
pub struct Narwhal {
    pub files: Vec<FileEntry>,
    pub current_path: String,
    pub sort_type: SortType,
    pub desired_cols: u32,
    pub desired_rows: u32,
    pub show_hidden: bool,
    pub last_clicked_file: Option<usize>,
    pub ui_files: Vec<UIFile>,
    pub icon_cache: IconCache,
    pub bookmarked_dirs: Vec<BookmarkDir>,
    pub deletion_confirmation: bool,
    pub mv_target: Option<String>,
    pub cp_target: Option<String>,
    pub theme: ThemeType,
    pub type_mode: Option<String>,
    pub show_keybinds: bool,
    pub icn_theme: String,
    pub icn_size: u16,
    pub show_file_options: bool,
    pub unknown_icon: String,
}

impl View for Narwhal {
    type V = NavState;

    open spec fn view(&self) -> NavState {
        NavState {
            files: self.files@,
            current_path: self.current_path@,
            sort_type: self.sort_type,
            cols: self.desired_cols,
            rows: self.desired_rows,
            show_hidden: self.show_hidden,
            selected: self.last_clicked_file,
            bookmarks: bookmarks_view(self.bookmarked_dirs@),
            armed: self.deletion_confirmation,
            mv_target: self.mv_target.deep_view(),
            cp_target: self.cp_target.deep_view(),
            type_mode: self.type_mode.deep_view(),
            show_keybinds: self.show_keybinds,
            show_file_options: self.show_file_options,
        }
    }
}

fn contains_index(v: &Vec<usize>, x: usize) -> (r: bool)
    ensures
        r == v@.contains(x),
{
    let found = find_pos_exec(v, x);
    proof {
        lemma_find_pos(v@, x);
    }
    found.is_some()
}

impl Narwhal {
    pub open spec fn wf(&self) -> bool {
        self@.wf() && self.icon_cache.wf() && self.icn_size <= MAX_ICON_SIZE
    }

    /// The parts outside the navigation state are as in `o`.
    pub open spec fn keeps_extras(&self, o: &Narwhal) -> bool {
        &&& self.ui_files == o.ui_files
        &&& self.icon_cache == o.icon_cache
        &&& self.theme == o.theme
        &&& self.icn_theme == o.icn_theme
        &&& self.icn_size == o.icn_size
        &&& self.unknown_icon == o.unknown_icon
    }

    /// The indices of the entries the grid shows.
    pub fn visible(&self) -> (r: Vec<usize>)
        ensures
            r@ == self@.visible(),
    {
        let c = self.desired_cols as u64;
        let r = self.desired_rows as u64;
        assert(c * r <= 0xffff_ffff_ffff_ffff) by (nonlinear_arith)
            requires
                c <= 0xffff_ffff,
                r <= 0xffff_ffff,
        ;
        visible_indices_exec(&self.files, self.show_hidden, c * r)
    }

    fn keep_if_visible(&mut self)
        ensures
            final(self)@ == old(self)@.select(old(self)@.keep_if_visible(old(self).last_clicked_file)),
            final(self).keeps_extras(old(self)),
    {
        match self.last_clicked_file {
            Some(x) => {
                let v = self.visible();
                if !contains_index(&v, x) {
                    self.last_clicked_file = None;
                }
            },
            None => {},
        }
    }

    fn interact_selected_entry(&mut self, index: usize) -> (r: Effect)
        ensures
            final(self)@ == old(self)@.interact(index).0,
            r@ == old(self)@.interact(index).1,
            final(self).keeps_extras(old(self)),
    {
        let selected_here = match self.last_clicked_file {
            Some(x) => x == index,
            None => false,
        };
        if selected_here && index < self.files.len() {
            let is_link = match self.files[index].kind {
                FileType::Link => true,
                _ => false,
            };
            Effect::Inspect { index, path: self.files[index].path.clone(), is_link }
        } else {
            let v = self.visible();
            if contains_index(&v, index) {
                self.last_clicked_file = Some(index);
                Effect::Redraw
            } else {
                Effect::Nothing
            }
        }
    }

    fn go_back_directory(&mut self, n: usize) -> (r: Effect)
        ensures
            final(self)@ == old(self)@.go_back(n).0,
            r@ == old(self)@.go_back(n).1,
            final(self).keeps_extras(old(self)),
    {
        if n == 0 {
            return Effect::Nothing;
        }
        let ghost orig = self.current_path@;
        let mut p = self.current_path.clone();
        let mut i: usize = 0;
        while i < n
            invariant
                i <= n,
                pop_segments(orig, n as nat) == pop_segments(p@, (n - i) as nat),
            decreases n - i,
        {
            let q = parent_path_exec(p.as_str());
            if same_text(q.as_str(), p.as_str()) {
                proof {
                    lemma_pop_fixed(p@, (n - i) as nat);
                }
                i = n;
            } else {
                p = q;
                i = i + 1;
            }
        }
        self.current_path = p;
        self.last_clicked_file = None;
        Effect::Reload
    }

    /// Steps the sort order forwards (or backwards when `reverse`), re-sorts
    /// the listing and clears the selection.
    pub fn change_sort(&mut self, reverse: bool) -> (r: Effect)
        ensures
            final(self)@ == old(self)@.change_sort(reverse).0,
            r@ == old(self)@.change_sort(reverse).1,
            final(self).keeps_extras(old(self)),
    {
        let t = cycle_sort(self.sort_type, reverse);
        sort_file_by_type(&mut self.files, t);
        self.sort_type = t;
        self.last_clicked_file = None;
        Effect::Redraw
    }

    fn toggle_hidden(&mut self) -> (r: Effect)
        ensures
            final(self)@ == old(self)@.toggle_hidden().0,
            r@ == old(self)@.toggle_hidden().1,
            final(self).keeps_extras(old(self)),
    {
        self.show_hidden = !self.show_hidden;
        self.keep_if_visible();
        Effect::Redraw
    }

    fn move_cursor(&mut self, dir: Direction) -> (r: Effect)
        requires
            old(self).desired_cols >= 1,
        ensures
            final(self)@ == old(self)@.move_cursor(dir).0,
            r@ == old(self)@.move_cursor(dir).1,
            final(self).keeps_extras(old(self)),
    {
        let v = self.visible();
        self.last_clicked_file = cursor_target_exec(&v, self.last_clicked_file, self.desired_cols, dir);
        Effect::Redraw
    }
}

impl Narwhal {
    fn bookmark_current(&mut self) -> (r: Effect)
        ensures
            final(self)@ == old(self)@.bookmark_current().0,
            r@ == old(self)@.bookmark_current().1,
            final(self).keeps_extras(old(self)),
    {
        let ghost bs = bookmarks_view(self.bookmarked_dirs@);
        let mut found: Option<usize> = None;
        let mut i: usize = 0;
        while i < self.bookmarked_dirs.len()
            invariant_except_break
                found is None,
            invariant
                i <= self.bookmarked_dirs@.len(),
                bs == bookmarks_view(self.bookmarked_dirs@),
                forall|j: int| 0 <= j < i ==> (#[trigger] bs[j]).1 != self.current_path@,
            ensures
                found matches Some(k) ==> k < bs.len() && bs[k as int].1 == self.current_path@ && k == i,
                found is None ==> i == bs.len(),
            decreases self.bookmarked_dirs@.len() - i,
        {
            if same_text(self.bookmarked_dirs[i].path.as_str(), self.current_path.as_str()) {
                found = Some(i);
                break;
            }
            i = i + 1;
        }
        proof {
            lemma_bookmark_pos(bs, self.current_path@);
        }
        match found {
            Some(k) => {
                proof {
                    lemma_bookmark_pos_at(bs, self.current_path@, k as int);
                }
                self.bookmarked_dirs.remove(k);
                assert(bookmarks_view(self.bookmarked_dirs@) =~= bs.remove(k as int));
            },
            None => {
                proof {
                    lemma_bookmark_pos_at(bs, self.current_path@, -1);
                }
                let name = last_segment_exec(self.current_path.as_str());
                let b = BookmarkDir { name, path: self.current_path.clone() };
                self.bookmarked_dirs.push(b);
                assert(bookmarks_view(self.bookmarked_dirs@) =~= bs.push(
                    (last_segment(self.current_path@), self.current_path@),
                ));
            },
        }
        Effect::Nothing
    }

    fn open_bookmark(&mut self, i: usize) -> (r: Effect)
        ensures
            final(self)@ == old(self)@.open_bookmark(i).0,
            r@ == old(self)@.open_bookmark(i).1,
            final(self).keeps_extras(old(self)),
    {
        if i < self.bookmarked_dirs.len() {
            self.current_path = self.bookmarked_dirs[i].path.clone();
            self.last_clicked_file = None;
            Effect::Reload
        } else {
            Effect::Nothing
        }
    }

    fn delete_clicked(&mut self) -> (r: Effect)
        ensures
            final(self)@ == old(self)@.delete().0,
            r@ == old(self)@.delete().1,
            final(self).keeps_extras(old(self)),
    {
        match self.last_clicked_file {
            Some(x) => {
                if self.deletion_confirmation && x < self.files.len() {
                    let recursive = match self.files[x].kind {
                        FileType::Folder => true,
                        _ => false,
                    };
                    let path = self.files[x].path.clone();
                    self.deletion_confirmation = false;
                    self.last_clicked_file = None;
                    Effect::Remove { path, recursive }
                } else {
                    self.deletion_confirmation = true;
                    Effect::Nothing
                }
            },
            None => {
                self.deletion_confirmation = false;
                Effect::Nothing
            },
        }
    }

    fn staged_path(&self) -> (r: Option<String>)
        ensures
            r.deep_view() == self@.staged_path(),
    {
        match self.last_clicked_file {
            Some(x) => if x < self.files.len() {
                Some(self.files[x].path.clone())
            } else {
                None
            },
            None => None,
        }
    }

    fn stage_move(&mut self) -> (r: Effect)
        ensures
            final(self)@ == old(self)@.stage_move().0,
            r@ == old(self)@.stage_move().1,
            final(self).keeps_extras(old(self)),
    {
        match self.mv_target.take() {
            Some(t) => {
                self.last_clicked_file = None;
                Effect::Move { from: t, to: self.current_path.clone() }
            },
            None => {
                self.mv_target = self.staged_path();
                Effect::Nothing
            },
        }
    }

    fn stage_copy(&mut self) -> (r: Effect)
        ensures
            final(self)@ == old(self)@.stage_copy().0,
            r@ == old(self)@.stage_copy().1,
            final(self).keeps_extras(old(self)),
    {
        match self.cp_target.take() {
            Some(t) => {
                self.last_clicked_file = None;
                Effect::Copy { from: t, to: self.current_path.clone() }
            },
            None => {
                self.cp_target = self.staged_path();
                Effect::Nothing
            },
        }
    }

    fn touch(&mut self) -> (r: Effect)
        ensures
            final(self)@ == old(self)@.touch().0,
            r@ == old(self)@.touch().1,
            final(self).keeps_extras(old(self)),
    {
        self.last_clicked_file = None;
        Effect::Touch { path: join_path_exec(self.current_path.as_str(), "NewFile") }
    }

    fn mkdir(&mut self) -> (r: Effect)
        ensures
            final(self)@ == old(self)@.mkdir().0,
            r@ == old(self)@.mkdir().1,
            final(self).keeps_extras(old(self)),
    {
        self.last_clicked_file = None;
        Effect::MakeDir { path: join_path_exec(self.current_path.as_str(), "NewFolder") }
    }

    fn commit_rename(&mut self, typed: String) -> (r: Effect)
        ensures
            final(self)@ == old(self)@.commit_rename(typed@).0,
            r@ == old(self)@.commit_rename(typed@).1,
            final(self).keeps_extras(old(self)),
    {
        self.type_mode = None;
        match self.last_clicked_file {
            Some(x) => {
                if typed.as_str().unicode_len() >= 1 && x < self.files.len() {
                    let from = self.files[x].path.clone();
                    let to = join_path_exec(self.current_path.as_str(), typed.as_str());
                    self.last_clicked_file = None;
                    Effect::Rename { from, to }
                } else {
                    Effect::Nothing
                }
            },
            None => Effect::Nothing,
        }
    }

    fn enter_rename(&mut self) -> (r: Effect)
        ensures
            final(self)@ == old(self)@.enter_rename().0,
            r@ == old(self)@.enter_rename().1,
            final(self).keeps_extras(old(self)),
    {
        self.type_mode = Some(String::new());
        assert(self.type_mode.deep_view() == Some(Seq::<char>::empty()));
        Effect::FocusRename
    }

    fn rename_toggle(&mut self) -> (r: Effect)
        ensures
            final(self)@ == old(self)@.rename_toggle().0,
            r@ == old(self)@.rename_toggle().1,
            final(self).keeps_extras(old(self)),
    {
        match self.type_mode.take() {
            Some(v) => self.commit_rename(v),
            None => self.enter_rename(),
        }
    }

    fn resize(&mut self, width: u32, height: u32) -> (r: Effect)
        ensures
            final(self)@ == old(self)@.resize(width, height).0,
            r@ == old(self)@.resize(width, height).1,
            final(self).keeps_extras(old(self)),
    {
        let mut c = width.saturating_sub(120) / 84;
        if c == 0 {
            c = 1;
        }
        let mut r = height / 104;
        if r == 0 {
            r = 1;
        }
        if c == self.desired_cols && r == self.desired_rows {
            Effect::Nothing
        } else {
            self.desired_cols = c;
            self.desired_rows = r;
            self.keep_if_visible();
            Effect::Redraw
        }
    }
}

fn exact_shift_exec(m: Modifiers) -> (r: bool)
    ensures
        r == exact_shift(m),
{
    m.shift && !m.control && !m.alt && !m.logo
}

impl Narwhal {
    fn key_press(&mut self, key: Key, m: Modifiers) -> (r: Effect)
        requires
            old(self).wf(),
        ensures
            final(self)@ == old(self)@.key_press(key, m).0,
            r@ == old(self)@.key_press(key, m).1,
            final(self).keeps_extras(old(self)),
    {
        if self.type_mode.is_some() {
            match key {
                Key::Escape => {
                    self.type_mode = None;
                    Effect::Nothing
                },
                Key::Enter => {
                    let v = self.type_mode.take().unwrap();
                    self.commit_rename(v)
                },
                _ => Effect::Nothing,
            }
        } else {
            match key {
                Key::Left => self.move_cursor(Direction::Left),
                Key::Right => self.move_cursor(Direction::Right),
                Key::Up => self.move_cursor(Direction::Up),
                Key::Down => self.move_cursor(Direction::Down),
                Key::Enter => match self.last_clicked_file {
                    Some(x) => self.interact_selected_entry(x),
                    None => Effect::Nothing,
                },
                Key::Backspace => self.go_back_directory(1),
                Key::S => self.change_sort(exact_shift_exec(m)),
                Key::H => self.toggle_hidden(),
                Key::Minus => if exact_shift_exec(m) {
                    self.delete_clicked()
                } else {
                    Effect::Nothing
                },
                Key::B => if m.shift {
                    self.bookmark_current()
                } else {
                    Effect::Nothing
                },
                Key::Num(n) => {
                    if n <= 9 {
                        let slot: usize = if n == 0 {
                            9
                        } else {
                            (n - 1) as usize
                        };
                        if slot < self.bookmarked_dirs.len() {
                            self.open_bookmark(slot)
                        } else {
                            Effect::Nothing
                        }
                    } else {
                        Effect::Nothing
                    }
                },
                Key::M => self.stage_move(),
                Key::C => self.stage_copy(),
                Key::N => if m.shift {
                    self.mkdir()
                } else {
                    self.touch()
                },
                Key::R => self.enter_rename(),
                Key::Escape | Key::Other => Effect::Nothing,
            }
        }
    }

    fn is_delete_exec(&self, message: &Message) -> (r: bool)
        ensures
            r == self@.is_delete(*message),
    {
        match message {
            Message::DeleteClicked => true,
            Message::KeyboardUpdate(KeyEvent::KeyPressed { key, modifiers }) => *key == Key::Minus
                && exact_shift_exec(*modifiers) && self.type_mode.is_none(),
            _ => false,
        }
    }

    /// Handles a keyboard event.
    pub fn kb_parse(&mut self, kb_event: KeyEvent) -> (r: Effect)
        requires
            old(self).wf(),
        ensures
            final(self).wf(),
            final(self)@ == old(self)@.step(Message::KeyboardUpdate(kb_event)).0,
            r@ == old(self)@.step(Message::KeyboardUpdate(kb_event)).1,
            final(self).keeps_extras(old(self)),
    {
        self.update(Message::KeyboardUpdate(kb_event))
    }

    /// Applies one user intent and says what the caller must do next.
    pub fn update(&mut self, message: Message) -> (r: Effect)
        requires
            old(self).wf(),
        ensures
            final(self).wf(),
            final(self)@ == old(self)@.step(message).0,
            r@ == old(self)@.step(message).1,
            final(self).keeps_extras(old(self)),
    {
        proof {
            lemma_step_wf(self@, message);
        }
        let is_command = match &message {
            Message::FileClicked(_) | Message::GoBack(_) | Message::SortChanged | Message::HiddenChanged
            | Message::BookmarkCurrent | Message::BookmarkClicked(_) | Message::DeleteClicked
            | Message::MvClicked | Message::CpClicked | Message::MkFile | Message::MkDir => true,
            _ => false,
        };
        if is_command && self.type_mode.is_some() {
            return Effect::Nothing;
        }
        let is_delete = self.is_delete_exec(&message);
        let r = match message {
            Message::FileClicked(i) => self.interact_selected_entry(i),
            Message::GoBack(n) => self.go_back_directory(n),
            Message::SortChanged => self.change_sort(false),
            Message::HiddenChanged => self.toggle_hidden(),
            Message::KeyboardUpdate(ev) => match ev {
                KeyEvent::KeyPressed { key, modifiers } => self.key_press(key, modifiers),
                KeyEvent::ModifiersChanged(m) => {
                    self.show_keybinds = m.control;
                    Effect::Nothing
                },
                _ => Effect::Nothing,
            },
            Message::WindowUpdate(ev) => match ev {
                WindowEvent::Resized { width, height } => self.resize(width, height),
                WindowEvent::CloseRequested => Effect::Shutdown,
                WindowEvent::Other => Effect::Nothing,
            },
            Message::BookmarkCurrent => self.bookmark_current(),
            Message::BookmarkClicked(i) => self.open_bookmark(i),
            Message::DeleteClicked => self.delete_clicked(),
            Message::MvClicked => self.stage_move(),
            Message::CpClicked => self.stage_copy(),
            Message::MkFile => self.touch(),
            Message::MkDir => self.mkdir(),
            Message::RenameToggle => self.rename_toggle(),
            Message::RenameUpdate(v) => {
                self.type_mode = Some(v);
                Effect::Nothing
            },
            Message::Tick => Effect::Nothing,
            Message::ToggleMenu => {
                self.show_file_options = !self.show_file_options;
                Effect::Nothing
            },
            Message::NoOp => Effect::Nothing,
        };
        let acted = match &r {
            Effect::Nothing | Effect::FocusRename => false,
            _ => true,
        };
        if !is_delete && acted {
            self.deletion_confirmation = false;
        }
        r
    }
}

proof fn lemma_bookmark_pos_at(bs: Seq<(Seq<char>, Seq<char>)>, p: Seq<char>, i: int)
    requires
        -1 <= i < bs.len(),
        i >= 0 ==> bs[i].1 == p,
        forall|j: int| 0 <= j < bs.len() && (i < 0 || j < i) ==> (#[trigger] bs[j]).1 != p,
    ensures
        bookmark_pos(bs, p) == i,
    decreases bs.len(),
{
    if bs.len() > 0 && i != 0 {
        assert(bs[0].1 != p);
        assert forall|j: int| 0 <= j < bs.drop_first().len() && (i - 1 < 0 || j < i - 1) implies (#[trigger] bs.drop_first()[j]).1 != p by {
            assert(bs.drop_first()[j] == bs[j + 1]);
        }
        lemma_bookmark_pos_at(bs.drop_first(), p, if i < 0 { -1 } else { i - 1 });
    }
}

proof fn lemma_pop_fixed(p: Seq<char>, n: nat)
    requires
        n == 0 || parent_path(p) == p,
    ensures
        pop_segments(p, n) == p,
    decreases n,
{
    if n > 0 {
        lemma_pop_fixed(p, (n - 1) as nat);
    }
}

impl NavState {
    /// The activation of entry `index` once its MIME type (and, for a link,
    /// its target, resolved against the link's directory) is known: a
    /// directory becomes the current path, anything else is opened. Either
    /// way the selection is cleared.
    pub open spec fn activate(self, index: usize, mime: Seq<char>, target: Option<Seq<char>>) -> (
        NavState,
        EffectView,
    ) {
        let own = self.files[index as int].path@;
        if normalize_mime(mime) == "inode-directory"@ {
            let p = match target {
                Some(t) => resolve_link(own, t),
                None => own,
            };
            (NavState { current_path: p, selected: None, ..self }, EffectView::Reload)
        } else {
            let p = match target {
                Some(t) => resolve_link(own, t),
                None => own,
            };
            (self.select(None), EffectView::Open { path: p })
        }
    }

    /// The paths of the entries the grid shows.
    pub open spec fn visible_paths(self) -> Seq<Seq<char>> {
        self.visible().map_values(|i: usize| self.files[i as int].path@)
    }
}

/// The paths of `paths` that the cache does not hold, in order: those whose
/// MIME type must be queried.
pub open spec fn uncached(cache: Map<Seq<char>, Seq<char>>, paths: Seq<Seq<char>>) -> Seq<Seq<char>>
    decreases paths.len(),
{
    if paths.len() == 0 {
        Seq::empty()
    } else {
        let r = uncached(cache, paths.drop_last());
        if cache.contains_key(paths.last()) {
            r
        } else {
            r.push(paths.last())
        }
    }
}

/// Cell `c` shows entry `i` of `s`, with an icon file of the theme or the
/// unknown-file icon.
pub open spec fn cell_ok(s: NavState, unknown: Seq<char>, c: UIFile, i: usize) -> bool {
    &&& c.original_index == i
    &&& c.name@ == s.files[i as int].name@
    &&& c.selected == (s.selected == Some(i))
    &&& icon_ok(c.icon@, unknown)
}

/// Whether a list of (path, MIME type) answers holds one for `p`.
pub open spec fn answered(mimes: Seq<(String, String)>, p: Seq<char>) -> bool {
    exists|j: int| 0 <= j < mimes.len() && (#[trigger] mimes[j]).0@ == p
}

/// The cache after a regeneration: every path it held keeps its key, and
/// it gains exactly the shown paths it lacked that have a MIME answer.
pub open spec fn regen_cache_post(
    before: Map<Seq<char>, Seq<char>>,
    after: Map<Seq<char>, Seq<char>>,
    paths: Seq<Seq<char>>,
    mimes: Seq<(String, String)>,
) -> bool {
    &&& forall|p: Seq<char>| #[trigger] before.contains_key(p) ==> after.contains_key(p) && after[p] == before[p]
    &&& forall|p: Seq<char>| #[trigger] after.contains_key(p) <==> before.contains_key(p) || (paths.contains(p)
        && answered(mimes, p))
}

pub proof fn lemma_uncached(cache: Map<Seq<char>, Seq<char>>, paths: Seq<Seq<char>>)
    ensures
        forall|p: Seq<char>| #[trigger] uncached(cache, paths).contains(p) <==> paths.contains(p)
            && !cache.contains_key(p),
    decreases paths.len(),
{
    if paths.len() > 0 {
        lemma_uncached(cache, paths.drop_last());
        let r = uncached(cache, paths.drop_last());
        let last = paths.last();
        let u = uncached(cache, paths);
        assert forall|p: Seq<char>| #[trigger] u.contains(p) implies paths.contains(p) && !cache.contains_key(p) by {
            let j = choose|j: int| 0 <= j < u.len() && u[j] == p;
            if j < r.len() {
                assert(r[j] == p);
                assert(r.contains(p));
                let k = choose|k: int| 0 <= k < paths.drop_last().len() && paths.drop_last()[k] == p;
                assert(paths[k] == paths.drop_last()[k]);
            } else {
                assert(!cache.contains_key(last));
                assert(u == r.push(last));
                assert(p == last);
                assert(paths[paths.len() - 1] == p);
            }
        }
        assert forall|p: Seq<char>| paths.contains(p) && !cache.contains_key(p) implies #[trigger] u.contains(p) by {
            let j = choose|j: int| 0 <= j < paths.len() && paths[j] == p;
            if j < paths.len() - 1 {
                assert(paths.drop_last()[j] == p);
                assert(paths.drop_last().contains(p));
                assert(r.contains(p));
                let i = choose|i: int| 0 <= i < r.len() && r[i] == p;
                if cache.contains_key(last) {
                    assert(u[i] == p);
                } else {
                    assert(r.push(last)[i] == p);
                }
            } else {
                assert(p == last);
                assert(u == r.push(last));
                assert(u[r.len() as int] == p);
            }
        }
    }
}

/// Once a regeneration has merged the keys it resolved, resolving the same
/// shown paths again needs no MIME query: every path that needed one, and
/// got an answer, is now cached.
pub proof fn lemma_second_resolution_needs_no_mime(
    before: Map<Seq<char>, Seq<char>>,
    after: Map<Seq<char>, Seq<char>>,
    paths: Seq<Seq<char>>,
    mimes: Seq<(String, String)>,
)
    requires
        regen_cache_post(before, after, paths, mimes),
        forall|p: Seq<char>| #[trigger] uncached(before, paths).contains(p) ==> answered(mimes, p),
    ensures
        uncached(after, paths).len() == 0,
{
    lemma_uncached(before, paths);
    lemma_uncached(after, paths);
    if uncached(after, paths).len() > 0 {
        let p = uncached(after, paths)[0];
        assert(uncached(after, paths).contains(p));
        assert(paths.contains(p) && !after.contains_key(p));
        assert(uncached(before, paths).contains(p));
    }
}

pub proof fn lemma_pairs_map_dom(s: Seq<(String, String)>)
    ensures
        forall|p: Seq<char>| #[trigger] pairs_map(s).contains_key(p) <==> exists|j: int|
            0 <= j < s.len() && (#[trigger] s[j]).0@ == p,
    decreases s.len(),
{
    if s.len() > 0 {
        lemma_pairs_map_dom(s.drop_last());
        let last = s.last();
        assert forall|p: Seq<char>| #[trigger] pairs_map(s).contains_key(p) implies exists|j: int|
            0 <= j < s.len() && (#[trigger] s[j]).0@ == p by {
            if p == last.0@ {
                assert(s[s.len() - 1].0@ == p);
            } else {
                assert(pairs_map(s.drop_last()).contains_key(p));
                let j = choose|j: int| 0 <= j < s.drop_last().len() && (#[trigger] s.drop_last()[j]).0@ == p;
                assert(s[j] == s.drop_last()[j]);
            }
        }
        assert forall|p: Seq<char>| (exists|j: int| 0 <= j < s.len() && (#[trigger] s[j]).0@ == p) implies #[trigger] pairs_map(s).contains_key(p) by {
            let j = choose|j: int| 0 <= j < s.len() && (#[trigger] s[j]).0@ == p;
            if j < s.len() - 1 {
                assert(s.drop_last()[j] == s[j]);
                assert(pairs_map(s.drop_last()).contains_key(p));
            }
        }
    }
}

/// The MIME answer for path `p`: the first pair that names it.
fn find_mime(mimes: &Vec<(String, String)>, p: &str) -> (r: Option<String>)
    ensures
        r is Some <==> answered(mimes@, p@),
        r matches Some(m) ==> exists|j: int| 0 <= j < mimes@.len() && (#[trigger] mimes@[j]).0@ == p@
            && mimes@[j].1@ == m@,
{
    let mut i: usize = 0;
    while i < mimes.len()
        invariant
            i <= mimes@.len(),
            forall|j: int| 0 <= j < i ==> (#[trigger] mimes@[j]).0@ != p@,
        decreases mimes@.len() - i,
    {
        if same_text(mimes[i].0.as_str(), p) {
            return Some(mimes[i].1.clone());
        }
        i = i + 1;
    }
    None
}

impl Narwhal {
    /// Completes the activation of entry `index`, given its MIME type and,
    /// for a link, its target.
    pub fn activate(&mut self, index: usize, mime: &str, link_target: Option<String>) -> (r: Effect)
        requires
            old(self).wf(),
            index < old(self).files@.len(),
        ensures
            final(self).wf(),
            final(self)@ == old(self)@.activate(index, mime@, link_target.deep_view()).0,
            r@ == old(self)@.activate(index, mime@, link_target.deep_view()).1,
            final(self).keeps_extras(old(self)),
    {
        let n = normalize_mime_exec(mime);
        self.last_clicked_file = None;
        if same_text(n.as_str(), "inode-directory") {
            self.current_path = match link_target {
                Some(t) => resolve_link_exec(self.files[index].path.as_str(), t),
                None => self.files[index].path.clone(),
            };
            Effect::Reload
        } else {
            let path = match link_target {
                Some(t) => resolve_link_exec(self.files[index].path.as_str(), t),
                None => self.files[index].path.clone(),
            };
            Effect::Open { path }
        }
    }

    /// The shown paths whose MIME type must be queried before the grid is
    /// regenerated: those the icon cache does not hold.
    pub fn paths_needing_mime(&self) -> (r: Vec<String>)
        requires
            self.wf(),
        ensures
            r@.map_values(|p: String| p@) == uncached(self.icon_cache@, self@.visible_paths()),
    {
        let v = self.visible();
        proof {
            crate::view::lemma_filtered(self.files@, self.show_hidden, self.files@.len() as int);
        }
        let mut r: Vec<String> = Vec::new();
        let mut k: usize = 0;
        while k < v.len()
            invariant
                v@ == self@.visible(),
                k <= v@.len(),
                forall|j: int| 0 <= j < v@.len() ==> (#[trigger] v@[j]) < self.files@.len(),
                r@.map_values(|p: String| p@) == uncached(self.icon_cache@, self@.visible_paths().take(k as int)),
            decreases v@.len() - k,
        {
            let ghost paths = self@.visible_paths();
            proof {
                assert(paths.take(k + 1).drop_last() =~= paths.take(k as int));
            }
            let p = &self.files[v[k]].path;
            if !self.icon_cache.contains(p.as_str()) {
                r.push(p.clone());
            }
            proof {
                assert(paths.take(k + 1).last() == p@);
            }
            k = k + 1;
            assert(r@.map_values(|p: String| p@) =~= uncached(self.icon_cache@, paths.take(k as int)));
        }
        assert(self@.visible_paths().take(k as int) =~= self@.visible_paths());
        r
    }

    /// Regenerates the grid: one cell per shown entry, with its icon resolved
    /// through the cache. `mimes` holds the MIME answers for the paths of
    /// `paths_needing_mime`. The keys resolved in this batch are merged into
    /// the cache at the end.
    pub fn regen_ui_files(&mut self, mimes: Vec<(String, String)>)
        requires
            old(self).wf(),
        ensures
            final(self).wf(),
            final(self)@ == old(self)@,
            final(self).ui_files@.len() == old(self)@.visible().len(),
            forall|k: int| 0 <= k < final(self).ui_files@.len() ==> cell_ok(
                old(self)@,
                old(self).unknown_icon@,
                #[trigger] final(self).ui_files@[k],
                old(self)@.visible()[k],
            ),
            regen_cache_post(old(self).icon_cache@, final(self).icon_cache@, old(self)@.visible_paths(), mimes@),
    {
        let v = self.visible();
        proof {
            crate::view::lemma_filtered(self.files@, self.show_hidden, self.files@.len() as int);
        }
        let ghost paths = self@.visible_paths();
        let mut cells: Vec<UIFile> = Vec::new();
        let mut batch: Vec<(String, String)> = Vec::new();
        let mut k: usize = 0;
        while k < v.len()
            invariant
                self.wf(),
                v@ == self@.visible(),
                paths == self@.visible_paths(),
                k <= v@.len(),
                forall|j: int| 0 <= j < v@.len() ==> (#[trigger] v@[j]) < self.files@.len(),
                cells@.len() == k,
                forall|j: int| 0 <= j < k ==> cell_ok(self@, self.unknown_icon@, #[trigger] cells@[j], v@[j]),
                forall|j: int| 0 <= j < batch@.len() ==> !self.icon_cache@.contains_key(#[trigger] batch@[j].0@)
                    && paths.contains(batch@[j].0@) && answered(mimes@, batch@[j].0@),
                forall|j: int| 0 <= j < k && !self.icon_cache@.contains_key(#[trigger] paths[j]) && answered(mimes@, paths[j])
                    ==> exists|m: int| 0 <= m < batch@.len() && batch@[m].0@ == paths[j],
            decreases v@.len() - k,
        {
            let i = v[k];
            let path = self.files[i].path.as_str();
            assert(path@ == paths[k as int]);
            let mime = if self.icon_cache.contains(path) {
                None
            } else {
                find_mime(&mimes, path)
            };
            let (delta, icon) = get_file_icon(
                &self.icon_cache,
                path,
                mime,
                self.icn_theme.as_str(),
                self.icn_size,
                self.unknown_icon.as_str(),
            );
            let ghost old_batch = batch@;
            match delta {
                Some(d) => {
                    assert(paths.contains(d.0@)) by {
                        assert(paths[k as int] == d.0@);
                    }
                    batch.push(d);
                    assert(batch@[batch@.len() - 1].0@ == paths[k as int]);
                },
                None => {},
            }
            proof {
                assert forall|j: int| 0 <= j < k + 1 && !self.icon_cache@.contains_key(#[trigger] paths[j])
                    && answered(mimes@, paths[j]) implies exists|m: int| 0 <= m < batch@.len() && batch@[m].0@
                    == paths[j] by {
                    if j < k {
                        let m = choose|m: int| 0 <= m < old_batch.len() && old_batch[m].0@ == paths[j];
                        assert(batch@[m] == old_batch[m]);
                    } else {
                        assert(batch@[batch@.len() - 1].0@ == paths[j]);
                    }
                }
            }
            let selected = match self.last_clicked_file {
                Some(x) => x == i,
                None => false,
            };
            let cell = UIFile { name: self.files[i].name.clone(), original_index: i, selected, icon };
            assert(cell_ok(self@, self.unknown_icon@, cell, i));
            let ghost old_cells = cells@;
            cells.push(cell);
            assert forall|j: int| 0 <= j < k + 1 implies cell_ok(self@, self.unknown_icon@, #[trigger] cells@[j], v@[j]) by {
                if j < k {
                    assert(cells@[j] == old_cells[j]);
                }
            }
            k = k + 1;
        }
        proof {
            lemma_pairs_map_dom(batch@);
            let before = self.icon_cache@;
            let add = pairs_map(batch@);
            assert forall|p: Seq<char>| #[trigger] add.contains_key(p) implies !before.contains_key(p) && paths.contains(p)
                && answered(mimes@, p) by {
                let j = choose|j: int| 0 <= j < batch@.len() && (#[trigger] batch@[j]).0@ == p;
            }
            assert forall|p: Seq<char>| paths.contains(p) && answered(mimes@, p) && !before.contains_key(p) implies #[trigger] add.contains_key(p) by {
                let j = choose|j: int| 0 <= j < paths.len() && paths[j] == p;
                assert(j < k);
                let m = choose|m: int| 0 <= m < batch@.len() && batch@[m].0@ == paths[j];
            }
        }
        self.icon_cache.merge(batch);
        self.ui_files = cells;
    }
}

/// Two presses of delete on a selected entry (outside rename mode, which
/// disables the command) delete it exactly once, and leave the deletion
/// disarmed; any intent between the two presses that disarms leaves the
/// second press deleting nothing.
pub proof fn lemma_delete_confirmation(s: NavState, x: Message)
    requires
        s.wf(),
        s.type_mode is None,
        s.selected is Some,
        !s.armed,
        s.step(Message::DeleteClicked).0.disarms(x),
    ensures
        s.step(Message::DeleteClicked).1 == EffectView::Nothing,
        s.step(Message::DeleteClicked).0.armed,
        s.step(Message::DeleteClicked).0.step(Message::DeleteClicked).1 == (EffectView::Remove {
            path: s.files[s.selected->0 as int].path@,
            recursive: s.files[s.selected->0 as int].kind == FileType::Folder,
        }),
        !s.step(Message::DeleteClicked).0.step(Message::DeleteClicked).0.armed,
        !(s.step(Message::DeleteClicked).0.step(x).1 is Remove),
        !(s.step(Message::DeleteClicked).0.step(x).0.step(Message::DeleteClicked).1 is Remove),
{
    crate::view::lemma_filtered(s.files, s.show_hidden, s.files.len() as int);
    let i = choose|i: int| 0 <= i < s.visible().len() && s.visible()[i] == s.selected->0;
    assert(s.selected->0 < s.files.len());
    let t = s.step(Message::DeleteClicked).0;
    match x {
        Message::KeyboardUpdate(KeyEvent::KeyPressed { key, modifiers }) => {
            if t.type_mode is None && key == Key::Minus {
                assert(!exact_shift(modifiers));
            }
        },
        _ => {},
    }
}

/// Four forward sort intents bring the sort order back to where it was,
/// and a forward step followed by a backward one (Shift+S) is the identity
/// on the order (outside rename mode, where keys other than Escape and
/// Enter do nothing).
pub proof fn lemma_sort_intents_cycle(s: NavState)
    requires
        s.type_mode is None,
    ensures
        s.step(Message::SortChanged).0.step(Message::SortChanged).0.step(Message::SortChanged).0.step(
            Message::SortChanged,
        ).0.sort_type == s.sort_type,
        s.step(Message::SortChanged).0.step(
            Message::KeyboardUpdate(
                KeyEvent::KeyPressed {
                    key: Key::S,
                    modifiers: Modifiers { shift: true, control: false, alt: false, logo: false },
                },
            ),
        ).0.sort_type == s.sort_type,
{
}

/// Four forward sort changes restore the sort order; a forward change and a
/// backward one, in either order, restore it too.
pub proof fn lemma_change_sort_cycle(s: NavState)
    ensures
        s.change_sort(false).0.change_sort(false).0.change_sort(false).0.change_sort(false).0.sort_type
            == s.sort_type,
        s.change_sort(false).0.change_sort(true).0.sort_type == s.sort_type,
        s.change_sort(true).0.change_sort(false).0.sort_type == s.sort_type,
{
}

/// Toggling a bookmark on a path not yet bookmarked adds exactly one entry,
/// named by the path's last segment; toggling again removes it; the list
/// stays unique by path.
pub proof fn lemma_bookmark_toggle(bs: Seq<(Seq<char>, Seq<char>)>, p: Seq<char>)
    requires
        bookmarks_unique(bs),
        forall|j: int| 0 <= j < bs.len() ==> (#[trigger] bs[j]).1 != p,
    ensures
        toggle_bookmark(bs, p) == bs.push((last_segment(p), p)),
        toggle_bookmark(toggle_bookmark(bs, p), p) == bs,
        bookmarks_unique(toggle_bookmark(bs, p)),
        bookmarks_unique(toggle_bookmark(toggle_bookmark(bs, p), p)),
{
    lemma_bookmark_pos_at(bs, p, -1);
    let t = bs.push((last_segment(p), p));
    assert forall|j: int| 0 <= j < t.len() && (bs.len() < 0 || j < bs.len()) implies (#[trigger] t[j]).1 != p by {
        assert(t[j] == bs[j]);
    }
    lemma_bookmark_pos_at(t, p, bs.len() as int);
    assert(t.remove(bs.len() as int) =~= bs);
    lemma_toggle_bookmark_unique(bs, p);
}

/// The bookmark list with each path kept at its first occurrence only.
pub open spec fn dedup_bookmarks(bs: Seq<(Seq<char>, Seq<char>)>) -> Seq<(Seq<char>, Seq<char>)>
    decreases bs.len(),
{
    if bs.len() == 0 {
        bs
    } else {
        let r = dedup_bookmarks(bs.drop_last());
        if bookmark_pos(r, bs.last().1) >= 0 {
            r
        } else {
            r.push(bs.last())
        }
    }
}

proof fn lemma_dedup_unique(bs: Seq<(Seq<char>, Seq<char>)>)
    ensures
        bookmarks_unique(dedup_bookmarks(bs)),
    decreases bs.len(),
{
    if bs.len() > 0 {
        lemma_dedup_unique(bs.drop_last());
        let r = dedup_bookmarks(bs.drop_last());
        lemma_bookmark_pos(r, bs.last().1);
        if bookmark_pos(r, bs.last().1) < 0 {
            let t = r.push(bs.last());
            assert forall|a: int, b: int| 0 <= a < b < t.len() implies (#[trigger] t[a]).1 != (#[trigger] t[b]).1 by {
                assert(t[a] == r[a]);
                if b < r.len() {
                    assert(t[b] == r[b]);
                }
            }
        }
    }
}

proof fn lemma_dedup_of_unique(bs: Seq<(Seq<char>, Seq<char>)>)
    requires
        bookmarks_unique(bs),
    ensures
        dedup_bookmarks(bs) == bs,
    decreases bs.len(),
{
    if bs.len() > 0 {
        let d = bs.drop_last();
        assert(bookmarks_unique(d)) by {
            assert forall|a: int, b: int| 0 <= a < b < d.len() implies (#[trigger] d[a]).1 != (#[trigger] d[b]).1 by {
                assert(d[a] == bs[a] && d[b] == bs[b]);
            }
        }
        lemma_dedup_of_unique(d);
        assert forall|j: int| 0 <= j < d.len() && (-1 < 0 || j < -1) implies (#[trigger] d[j]).1 != bs.last().1 by {
            assert(d[j] == bs[j]);
        }
        lemma_bookmark_pos_at(d, bs.last().1, -1);
        assert(d.push(bs.last()) =~= bs);
    }
}

/// Saving the persistable part of the state (sort mode, hidden-file flag,
/// bookmarks) to the config record and loading it back gives the same
/// values.
pub proof fn lemma_config_round_trip(s: NavState)
    requires
        s.wf(),
    ensures
        sort_of_tag(sort_tag(s.sort_type)) == s.sort_type,
        dedup_bookmarks(s.bookmarks) == s.bookmarks,
{
    lemma_sort_tag_round_trip(s.sort_type);
    lemma_dedup_of_unique(s.bookmarks);
}

fn copy_bookmark(b: &BookmarkDir) -> (r: BookmarkDir)
    ensures
        r.name@ == b.name@,
        r.path@ == b.path@,
{
    BookmarkDir { name: b.name.clone(), path: b.path.clone() }
}

/// Copies the bookmarks, keeping each path at its first occurrence only.
fn dedup_bookmark_list(v: &Vec<BookmarkDir>) -> (r: Vec<BookmarkDir>)
    ensures
        bookmarks_view(r@) == dedup_bookmarks(bookmarks_view(v@)),
{
    let ghost all = bookmarks_view(v@);
    let mut out: Vec<BookmarkDir> = Vec::new();
    let mut i: usize = 0;
    assert(all.take(0) =~= Seq::<(Seq<char>, Seq<char>)>::empty());
    while i < v.len()
        invariant
            i <= v@.len(),
            all == bookmarks_view(v@),
            bookmarks_view(out@) == dedup_bookmarks(all.take(i as int)),
        decreases v@.len() - i,
    {
        let ghost o = bookmarks_view(out@);
        let mut j: usize = 0;
        let mut dup = false;
        while j < out.len()
            invariant_except_break
                !dup,
            invariant
                i < v@.len(),
                j <= out@.len(),
                o == bookmarks_view(out@),
                forall|m: int| 0 <= m < j ==> (#[trigger] o[m]).1 != v@[i as int].path@,
            ensures
                dup ==> j < o.len() && o[j as int].1 == v@[i as int].path@,
                !dup ==> j == o.len(),
            decreases out@.len() - j,
        {
            if same_text(out[j].path.as_str(), v[i].path.as_str()) {
                dup = true;
                break;
            }
            j = j + 1;
        }
        proof {
            assert(all.take(i + 1).drop_last() =~= all.take(i as int));
            assert(all.take(i + 1).last() == all[i as int]);
            if dup {
                lemma_bookmark_pos(o, v@[i as int].path@);
                lemma_bookmark_pos_at(o, v@[i as int].path@, j as int);
            } else {
                lemma_bookmark_pos_at(o, v@[i as int].path@, -1);
            }
        }
        if !dup {
            out.push(copy_bookmark(&v[i]));
            assert(bookmarks_view(out@) =~= o.push(all[i as int]));
        }
        i = i + 1;
    }
    assert(all.take(i as int) =~= all);
    out
}

impl Narwhal {
    /// The session at startup: settings from the config record, the icon
    /// cache from its file, the working directory and its entries sorted in
    /// the configured order, a grid of five by five cells and no selection.
    /// Repeated bookmarks of a path are dropped.
    pub fn new(
        config: &Config,
        cache: IconCache,
        current_dir: String,
        entries: Vec<FileEntry>,
        theme: ThemeType,
        unknown_icon: String,
    ) -> (r: Narwhal)
        requires
            cache.wf(),
            config.icn_size <= MAX_ICON_SIZE,
        ensures
            r.wf(),
            r@.files == sort_spec(sort_of_tag(config.sort_mode@), entries@),
            r@.current_path == current_dir@,
            r@.sort_type == sort_of_tag(config.sort_mode@),
            r@.cols == 5 && r@.rows == 5,
            r@.show_hidden == config.show_hidden,
            r@.selected is None,
            r@.bookmarks == dedup_bookmarks(bookmarks_view(config.bookmarks@)),
            !r@.armed,
            r@.mv_target is None && r@.cp_target is None && r@.type_mode is None,
            !r@.show_keybinds && r@.show_file_options,
            r.ui_files@.len() == 0,
            r.icon_cache == cache,
            r.theme == theme,
            r.icn_theme@ == config.icn_theme@,
            r.icn_size == config.icn_size,
            r.unknown_icon == unknown_icon,
    {
        let sort_type = decode_sort(config.sort_mode.clone());
        let mut files = entries;
        sort_file_by_type(&mut files, sort_type);
        let _n = files.len();
        let bookmarked_dirs = dedup_bookmark_list(&config.bookmarks);
        proof {
            lemma_dedup_unique(bookmarks_view(config.bookmarks@));
        }
        Narwhal {
            files,
            current_path: current_dir,
            sort_type,
            desired_cols: 5,
            desired_rows: 5,
            show_hidden: config.show_hidden,
            last_clicked_file: None,
            ui_files: Vec::new(),
            icon_cache: cache,
            bookmarked_dirs,
            deletion_confirmation: false,
            mv_target: None,
            cp_target: None,
            theme,
            type_mode: None,
            show_keybinds: false,
            icn_theme: config.icn_theme.clone(),
            icn_size: config.icn_size,
            show_file_options: true,
            unknown_icon,
        }
    }

    /// Replaces the listing with a fresh read of the current directory,
    /// sorted in the current order, and clears the selection.
    pub fn load_files(&mut self, entries: Vec<FileEntry>)
        requires
            old(self).wf(),
        ensures
            final(self).wf(),
            final(self)@ == (NavState {
                files: sort_spec(old(self)@.sort_type, entries@),
                selected: None,
                ..old(self)@
            }),
            final(self).keeps_extras(old(self)),
    {
        let mut files = entries;
        sort_file_by_type(&mut files, self.sort_type);
        let _n = files.len();
        self.files = files;
        self.last_clicked_file = None;
    }

    /// The icon cache to persist, each path once.
    pub fn cache_file(&self) -> (r: CacheFile)
        requires
            self.wf(),
        ensures
            r.contents@.len() == self.icon_cache@.len(),
            forall|i: int| 0 <= i < r.contents@.len() ==> self.icon_cache@.contains_key(
                #[trigger] r.contents@[i].0@,
            ) && self.icon_cache@[r.contents@[i].0@] == r.contents@[i].1@,
            forall|p: Seq<char>| #[trigger] self.icon_cache@.contains_key(p) ==> exists|i: int|
                0 <= i < r.contents@.len() && #[trigger] r.contents@[i].0@ == p,
    {
        let contents = self.icon_cache.entries();
        let r = CacheFile { contents };
        assert forall|p: Seq<char>| #[trigger] self.icon_cache@.contains_key(p) implies exists|i: int|
            0 <= i < r.contents@.len() && #[trigger] r.contents@[i].0@ == p by {
            let i = choose|i: int| 0 <= i < r.contents@.len() && #[trigger] r.contents@[i].0@ == p;
        }
        r
    }

    /// The settings to persist.
    pub fn config(&self) -> (r: Config)
        ensures
            r.sort_mode@ == sort_tag(self.sort_type),
            r.show_hidden == self.show_hidden,
            bookmarks_view(r.bookmarks@) == self@.bookmarks,
            r.icn_theme@ == self.icn_theme@,
            r.icn_size == self.icn_size,
    {
        let mut bookmarks: Vec<BookmarkDir> = Vec::new();
        let mut i: usize = 0;
        while i < self.bookmarked_dirs.len()
            invariant
                i <= self.bookmarked_dirs@.len(),
                bookmarks_view(bookmarks@) == bookmarks_view(self.bookmarked_dirs@).take(i as int),
            decreases self.bookmarked_dirs@.len() - i,
        {
            let ghost before = bookmarks@;
            let b = copy_bookmark(&self.bookmarked_dirs[i]);
            bookmarks.push(b);
            assert(bookmarks_view(bookmarks@) =~= bookmarks_view(before).push((b.name@, b.path@)));
            assert(bookmarks_view(self.bookmarked_dirs@).take(i + 1) =~= bookmarks_view(self.bookmarked_dirs@).take(
                i as int,
            ).push((b.name@, b.path@)));
            i = i + 1;
        }
        assert(bookmarks_view(self.bookmarked_dirs@).take(i as int) =~= bookmarks_view(self.bookmarked_dirs@));
        Config {
            sort_mode: encode_sort(self.sort_type),
            show_hidden: self.show_hidden,
            bookmarks,
            icn_theme: self.icn_theme.clone(),
            icn_size: self.icn_size,
        }
    }
}

} // verus!
