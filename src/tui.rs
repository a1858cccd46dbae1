//! The state of the terminal browser and its transitions on key presses.
//! Fetching is the caller's: it performs the request that a transition asks
//! for and hands the outcome back.
use vstd::prelude::*;
use vstd::string::StringExecFns;
use crate::client::{BrowseItem, BrowseItemView, browse_views, duplicate_browse_items};
use crate::text::{
    pop_char, push_char, chars_of, insert_sorted, sorted_texts, string_views, lowercase, lower_of, text_contains,
    contains_text, text_eq,
};

verus! {

#[derive(Debug, Clone, Copy, PartialEq, Eq, Structural)]
pub enum Pane {
    Menu,
    Content,
}

#[derive(Debug, Clone, Copy, PartialEq, Eq, Structural)]
pub enum Mode {
    Normal,
    Search,
    GoTo,
}

/// A place the browser can go back to.
pub struct HistoryEntry {
    pub path: String,
    pub items: Vec<BrowseItem>,
    pub selected: usize,
}

/// A line of the go-to tree.
#[derive(Debug)]
pub struct GotoItem {
    pub path: String,
    pub display: String,
    pub depth: u16,
    pub is_dir: bool,
    pub expanded: bool,
}

/// What the caller should fetch after a key press.
#[derive(Debug)]
pub enum OpenAction {
    /// Browse this listing and hand the outcome to `apply_browse`.
    Browse(String),
    /// Fetch this document and hand the outcome to `apply_fetch`.
    Fetch(String),
    Nothing,
}

/// A key press, as the browser reads it.
#[derive(Debug, Clone, Copy, PartialEq, Eq, Structural)]
pub enum Key {
    /// A character, and whether Control was held.
    Char(char, bool),
    Up,
    Down,
    Enter,
    Esc,
    Backspace,
    Tab,
    Home,
    PageUp,
    PageDown,
    Other,
}

/// What the caller must fetch after a key press.
#[derive(Debug, PartialEq, Eq)]
pub enum Request {
    Nothing,
    /// Browse this address and hand the outcome to `apply_browse`.
    Browse(String),
    /// Fetch this document and hand the outcome to `apply_fetch`.
    Fetch(String),
    /// Search this address for the query and hand the outcome to
    /// `apply_search`.
    Search(String, String),
    /// Browse this address and hand the outcome to `apply_goto_children`
    /// for this line.
    Expand(usize, String),
}

/// How far a page moves the content view.
pub const PAGE_LINES: u16 = 20;

pub struct App {
    pub current_path: String,
    pub items: Vec<BrowseItem>,
    pub selected: usize,
    pub history: Vec<HistoryEntry>,
    pub content: String,
    pub content_scroll: u16,
    pub active_pane: Pane,
    pub mode: Mode,
    pub search_input: String,
    pub status_message: String,
    pub loading: bool,
    pub should_quit: bool,
    pub known_paths: Vec<String>,
    pub config_sources: Vec<String>,
    pub goto_items: Vec<GotoItem>,
    pub goto_filtered: Vec<usize>,
    pub goto_selected: usize,
}

pub open spec fn has_char(s: Seq<char>, c: char) -> bool {
    exists|i: int| 0 <= i < s.len() && s[i] == c
}

/// A configured source as an address: a bare name without a dot gets a
/// trailing `/`, naming its namespace root.
pub open spec fn source_address(s: Seq<char>) -> Seq<char> {
    if !has_char(s, '.') && !(s.len() > 0 && s.last() == '/') {
        s + seq!['/']
    } else {
        s
    }
}

fn normalize_source(s: &String) -> (r: String)
    ensures
        r@ == source_address(s@),
{
    let v = chars_of(s.as_str());
    let mut has_dot = false;
    let mut i: usize = 0;
    while i < v.len()
        invariant
            i <= v@.len(),
            v@ == s@,
            has_dot == (exists|k: int| 0 <= k < i && v@[k] == '.'),
        decreases v.len() - i,
    {
        if v[i] == '.' {
            has_dot = true;
        }
        i = i + 1;
    }
    let mut r = s.clone();
    if !has_dot && !(v.len() > 0 && v[v.len() - 1] == '/') {
        r.append("/");
        proof {
            reveal_strlit("/");
            assert("/"@ =~= seq!['/']);
        }
    }
    r
}

/// Whether an item of this kind code has an address worth remembering.
pub open spec fn navigable_code(t: Seq<char>) -> bool {
    t == "1"@ || t == "0"@ || t == "7"@ || t == "h"@
}

/// The address an item adds to the known paths, if any: a listing's
/// address ends with `/`.
pub open spec fn learned_path(i: BrowseItemView) -> Option<Seq<char>> {
    if !navigable_code(i.item_type) {
        None
    } else {
        let p = if i.item_type == "1"@ && !(i.path.len() > 0 && i.path.last() == '/') {
            i.path + seq!['/']
        } else {
            i.path
        };
        if p.len() == 0 {
            None
        } else {
            Some(p)
        }
    }
}

/// The addresses that a sequence of items adds to the known paths.
pub open spec fn learned_paths(items: Seq<BrowseItemView>) -> Set<Seq<char>>
    decreases items.len(),
{
    if items.len() == 0 {
        Set::empty()
    } else {
        let rest = learned_paths(items.drop_last());
        match learned_path(items.last()) {
            Some(p) => rest.insert(p),
            None => rest,
        }
    }
}

/// Whether a go-to line matches a lower-cased query.
pub open spec fn goto_matches(display: Seq<char>, path: Seq<char>, q: Seq<char>) -> bool {
    q.len() == 0 || contains_text(lower_of(display), q) || contains_text(lower_of(path), q)
}

/// The positions of the go-to lines that match a lower-cased query, in order.
pub open spec fn matching_lines(items: Seq<GotoItem>, q: Seq<char>) -> Seq<usize>
    decreases items.len(),
{
    if items.len() == 0 {
        seq![]
    } else {
        matching_lines(items.drop_last(), q) + if goto_matches(
            items.last().display@,
            items.last().path@,
            q,
        ) {
            seq![(items.len() - 1) as usize]
        } else {
            seq![]
        }
    }
}

/// The end of the run of lines below line `i` that are deeper than it.
pub open spec fn subtree_end(items: Seq<GotoItem>, i: int, j: int) -> int
    decreases items.len() - j,
{
    if j >= items.len() || items[j].depth <= items[i].depth {
        j
    } else {
        subtree_end(items, i, j + 1)
    }
}

/// A go-to line as plain values.
pub struct GotoLine {
    pub path: Seq<char>,
    pub display: Seq<char>,
    pub depth: u16,
    pub is_dir: bool,
    pub expanded: bool,
}

pub open spec fn line_of(g: GotoItem) -> GotoLine {
    GotoLine { path: g.path@, display: g.display@, depth: g.depth, is_dir: g.is_dir, expanded: g.expanded }
}

pub open spec fn lines_of(v: Seq<GotoItem>) -> Seq<GotoLine> {
    Seq::new(v.len(), |k: int| line_of(v[k]))
}

/// The lines that a directory's browsed items add below it, one level
/// deeper: one per navigable item, a listing's address ending with `/`.
pub open spec fn child_lines(items: Seq<BrowseItemView>, depth: u16) -> Seq<GotoLine>
    decreases items.len(),
{
    if items.len() == 0 {
        seq![]
    } else {
        let i = items.last();
        let prev = child_lines(items.drop_last(), depth);
        if navigable_code(i.item_type) {
            let is_dir = i.item_type == "1"@;
            prev.push(
                GotoLine {
                    display: i.display,
                    path: if is_dir && !(i.path.len() > 0 && i.path.last() == '/') {
                        i.path + seq!['/']
                    } else {
                        i.path
                    },
                    depth,
                    is_dir,
                    expanded: false,
                },
            )
        } else {
            prev
        }
    }
}

/// Every position that `matching_lines` gives is a line's position.
pub proof fn lemma_matching_lines_in_range(items: Seq<GotoItem>, q: Seq<char>)
    ensures
        forall|k: int|
            0 <= k < matching_lines(items, q).len() ==> #[trigger] matching_lines(items, q)[k]
                < items.len(),
    decreases items.len(),
{
    if items.len() > 0 {
        lemma_matching_lines_in_range(items.drop_last(), q);
        let prev = matching_lines(items.drop_last(), q);
        let all = matching_lines(items, q);
        assert forall|k: int| 0 <= k < all.len() implies #[trigger] all[k] < items.len() by {
            if k < prev.len() {
                assert(all[k] == prev[k]);
            }
        };
    }
}

/// The go-to tree's first lines: the configured sources, sorted without
/// repeats, each a collapsed top-level line that is a directory when its
/// address ends with `/`.
pub open spec fn source_line(s: Seq<char>, g: GotoItem) -> bool {
    g.path@ == s && g.display@ == s && g.depth == 0 && g.is_dir == (s.len() > 0 && s.last() == '/')
        && !g.expanded
}

impl App {
    pub open spec fn sources_view(&self) -> Seq<Seq<char>> {
        string_views(self.config_sources@)
    }

    pub open spec fn history_len(&self) -> nat {
        self.history@.len()
    }

    /// The path and selection that going back restores, if there is history.
    pub open spec fn history_top(&self) -> Option<(Seq<char>, Seq<BrowseItemView>, usize)> {
        if self.history@.len() == 0 {
            None
        } else {
            let h = self.history@.last();
            Some((h.path@, browse_views(h.items@), h.selected))
        }
    }

    /// A browser at `initial_path`, with the configured sources known.
    pub fn new(initial_path: &str, sources: Vec<String>) -> (r: App)
        ensures
            r.current_path@ == initial_path@,
            r.items@.len() == 0,
            r.selected == 0,
            r.history_len() == 0,
            r.content@.len() == 0,
            r.content_scroll == 0,
            r.active_pane == Pane::Menu,
            r.mode == Mode::Normal,
            r.search_input@.len() == 0,
            r.status_message@.len() == 0,
            !r.loading,
            !r.should_quit,
            r.sources_view() == Seq::new(sources@.len(), |k: int| source_address(sources@[k]@)),
            sorted_texts(string_views(r.known_paths@)),
            string_views(r.known_paths@).to_set() == r.sources_view().to_set(),
            r.goto_items@.len() == 0,
            r.goto_filtered@.len() == 0,
            r.goto_selected == 0,
    {
        let mut config_sources: Vec<String> = Vec::new();
        let mut known_paths: Vec<String> = Vec::new();
        let mut i: usize = 0;
        assert(string_views(known_paths@).to_set() =~= Set::empty());
        while i < sources.len()
            invariant
                i <= sources@.len(),
                string_views(config_sources@) == Seq::new(
                    i as nat,
                    |k: int| source_address(sources@[k]@),
                ),
                sorted_texts(string_views(known_paths@)),
                string_views(known_paths@).to_set() == string_views(config_sources@).to_set(),
            decreases sources.len() - i,
        {
            let s = normalize_source(&sources[i]);
            let ghost before = string_views(config_sources@);
            config_sources.push(s.clone());
            insert_sorted(&mut known_paths, s);
            proof {
                assert(string_views(config_sources@) =~= before.push(source_address(
                    sources@[i as int]@,
                )));
                before.lemma_push_to_set_commute(source_address(sources@[i as int]@));
            }
            i = i + 1;
            assert(string_views(config_sources@) =~= Seq::new(
                i as nat,
                |k: int| source_address(sources@[k]@),
            ));
        }
        App {
            current_path: String::from_str(initial_path),
            items: Vec::new(),
            selected: 0,
            history: Vec::new(),
            content: String::new(),
            content_scroll: 0,
            active_pane: Pane::Menu,
            mode: Mode::Normal,
            search_input: String::new(),
            status_message: String::new(),
            loading: false,
            should_quit: false,
            known_paths,
            config_sources,
            goto_items: Vec::new(),
            goto_filtered: Vec::new(),
            goto_selected: 0,
        }
    }

    /// Adds the addresses of navigable items to the known paths, which stay
    /// sorted and without repeats.
    pub fn learn_paths(&mut self, items: &Vec<BrowseItem>)
        requires
            sorted_texts(string_views(old(self).known_paths@)),
        ensures
            sorted_texts(string_views(final(self).known_paths@)),
            string_views(final(self).known_paths@).to_set() == string_views(
                old(self).known_paths@,
            ).to_set().union(learned_paths(browse_views(items@))),
            final(self).current_path == old(self).current_path,
            final(self).items == old(self).items,
            final(self).selected == old(self).selected,
            final(self).goto_items == old(self).goto_items,
            final(self).search_input == old(self).search_input,
            final(self).mode == old(self).mode,
    {
        let ghost base = string_views(self.known_paths@).to_set();
        let mut i: usize = 0;
        assert(base.union(learned_paths(browse_views(items@).take(0))) =~= base);
        while i < items.len()
            invariant
                i <= items@.len(),
                sorted_texts(string_views(self.known_paths@)),
                self.current_path == old(self).current_path,
                self.items == old(self).items,
                self.selected == old(self).selected,
                self.goto_items == old(self).goto_items,
                self.search_input == old(self).search_input,
                self.mode == old(self).mode,
                string_views(self.known_paths@).to_set() == base.union(
                    learned_paths(browse_views(items@).take(i as int)),
                ),
            decreases items.len() - i,
        {
            let item = &items[i];
            let t = item.item_type.as_str();
            let ghost iv = item@;
            assert(browse_views(items@).take(i as int + 1).drop_last() =~= browse_views(items@).take(
                i as int,
            ));
            assert(browse_views(items@).take(i as int + 1).last() == iv);
            let ghost prev = learned_paths(browse_views(items@).take(i as int));
            let navigable = text_eq(t, "1") || text_eq(t, "0") || text_eq(t, "7") || text_eq(t, "h");
            if navigable {
                let mut p = item.path.clone();
                let pv = chars_of(p.as_str());
                if text_eq(t, "1") && !(pv.len() > 0 && pv[pv.len() - 1] == '/') {
                    p.append("/");
                    proof {
                        reveal_strlit("/");
                        assert("/"@ =~= seq!['/']);
                    }
                }
                if chars_of(p.as_str()).len() > 0 {
                    assert(learned_path(iv) == Some(p@));
                    insert_sorted(&mut self.known_paths, p);
                    assert(base.union(prev).insert(p@) =~= base.union(prev.insert(p@)));
                } else {
                    assert(learned_path(iv) is None);
                }
            } else {
                assert(learned_path(iv) is None);
            }
            i = i + 1;
        }
        assert(browse_views(items@).take(i as int) =~= browse_views(items@));
    }

    /// Returns to the previous listing, if there is one.
    pub fn go_back(&mut self)
        ensures
            match old(self).history_top() {
                None => *final(self) == *old(self),
                Some((p, items, sel)) => final(self).current_path@ == p && browse_views(
                    final(self).items@,
                ) == items && final(self).selected == sel && final(self).status_message@.len()
                    == 0 && final(self).history_len() == old(self).history_len() - 1,
            },
    {
        if self.history.len() == 0 {
            return ;
        }
        match self.history.pop() {
            Some(entry) => {
                self.current_path = entry.path;
                self.items = entry.items;
                self.selected = entry.selected;
                self.status_message = String::new();
            },
            None => {},
        }
    }

    /// Moves the selection up in the menu, or scrolls the content up.
    pub fn move_up(&mut self)
        ensures
            old(self).active_pane == Pane::Menu ==> final(self).selected == (if old(self).selected
                > 0 {
                (old(self).selected - 1) as usize
            } else {
                0
            }) && final(self).content_scroll == old(self).content_scroll,
            old(self).active_pane == Pane::Content ==> final(self).content_scroll == (if old(
                self,
            ).content_scroll > 0 {
                (old(self).content_scroll - 1) as u16
            } else {
                0
            }) && final(self).selected == old(self).selected,
            final(self).items == old(self).items,
            final(self).active_pane == old(self).active_pane,
            final(self).current_path == old(self).current_path,
            final(self).mode == old(self).mode,
            final(self).history == old(self).history,
            final(self).content == old(self).content,
            final(self).status_message == old(self).status_message,
    {
        match self.active_pane {
            Pane::Menu => {
                if self.selected > 0 {
                    self.selected = self.selected - 1;
                }
            },
            Pane::Content => {
                self.content_scroll = self.content_scroll.saturating_sub(1);
            },
        }
    }

    /// Moves the selection down in the menu, up to the last item, or scrolls
    /// the content down.
    pub fn move_down(&mut self)
        ensures
            old(self).active_pane == Pane::Menu ==> final(self).selected == (if old(
                self,
            ).items@.len() > 0 && old(self).selected < old(self).items@.len() - 1 {
                (old(self).selected + 1) as usize
            } else {
                old(self).selected
            }) && final(self).content_scroll == old(self).content_scroll,
            old(self).active_pane == Pane::Content ==> final(self).content_scroll == (if old(
                self,
            ).content_scroll < u16::MAX {
                (old(self).content_scroll + 1) as u16
            } else {
                u16::MAX
            }) && final(self).selected == old(self).selected,
            final(self).items == old(self).items,
            final(self).active_pane == old(self).active_pane,
            final(self).current_path == old(self).current_path,
            final(self).mode == old(self).mode,
            final(self).history == old(self).history,
            final(self).content == old(self).content,
            final(self).status_message == old(self).status_message,
    {
        match self.active_pane {
            Pane::Menu => {
                if self.items.len() > 0 && self.selected < self.items.len() - 1 {
                    self.selected = self.selected + 1;
                }
            },
            Pane::Content => {
                self.content_scroll = self.content_scroll.saturating_add(1);
            },
        }
    }

    /// Scrolls the content up by a page.
    pub fn page_up(&mut self)
        ensures
            final(self).content_scroll == (if old(self).content_scroll > PAGE_LINES {
                (old(self).content_scroll - PAGE_LINES) as u16
            } else {
                0
            }),
            final(self).selected == old(self).selected,
    {
        self.content_scroll = self.content_scroll.saturating_sub(PAGE_LINES);
    }

    /// Scrolls the content down by a page.
    pub fn page_down(&mut self)
        ensures
            final(self).content_scroll == (if old(self).content_scroll + PAGE_LINES <= u16::MAX {
                (old(self).content_scroll + PAGE_LINES) as u16
            } else {
                u16::MAX
            }),
            final(self).selected == old(self).selected,
    {
        self.content_scroll = self.content_scroll.saturating_add(PAGE_LINES);
    }

    pub fn toggle_pane(&mut self)
        ensures
            final(self).active_pane == (if old(self).active_pane == Pane::Menu {
                Pane::Content
            } else {
                Pane::Menu
            }),
    {
        self.active_pane = match self.active_pane {
            Pane::Menu => Pane::Content,
            Pane::Content => Pane::Menu,
        };
    }

    /// Goes to the root view and forgets the history.
    pub fn go_home(&mut self)
        ensures
            final(self).history_len() == 0,
            final(self).current_path@.len() == 0,
            final(self).items == old(self).items,
    {
        self.history = Vec::new();
        self.current_path = String::new();
    }

    /// Opens the go-to popup on the configured sources.
    pub fn enter_goto(&mut self)
        ensures
            final(self).mode == Mode::GoTo,
            final(self).search_input@.len() == 0,
            final(self).goto_selected == 0,
            sorted_texts(Seq::new(final(self).goto_items@.len(), |k: int| final(self).goto_items@[k].path@)),
            Seq::new(final(self).goto_items@.len(), |k: int| final(self).goto_items@[k].path@).to_set()
                == old(self).sources_view().to_set(),
            forall|k: int|
                0 <= k < final(self).goto_items@.len() ==> source_line(
                    (#[trigger] final(self).goto_items@[k]).path@,
                    final(self).goto_items@[k],
                ),
            final(self).goto_filtered@ == matching_lines(
                final(self).goto_items@,
                lower_of(final(self).search_input@),
            ),
            final(self).sources_view() == old(self).sources_view(),
    {
        self.mode = Mode::GoTo;
        self.search_input = String::new();
        self.goto_selected = 0;
        let mut sorted: Vec<String> = Vec::new();
        let mut i: usize = 0;
        assert(string_views(sorted@).to_set() =~= Set::empty());
        while i < self.config_sources.len()
            invariant
                i <= self.config_sources@.len(),
                sorted_texts(string_views(sorted@)),
                string_views(sorted@).to_set() == string_views(self.config_sources@.take(i as int)).to_set(),
            decreases self.config_sources.len() - i,
        {
            insert_sorted(&mut sorted, self.config_sources[i].clone());
            proof {
                let t = string_views(self.config_sources@.take(i as int));
                assert(string_views(self.config_sources@.take(i as int + 1)) =~= t.push(
                    self.config_sources@[i as int]@,
                ));
                t.lemma_push_to_set_commute(self.config_sources@[i as int]@);
            }
            i = i + 1;
        }
        assert(self.config_sources@.take(i as int) =~= self.config_sources@);
        let mut items: Vec<GotoItem> = Vec::new();
        let mut j: usize = 0;
        while j < sorted.len()
            invariant
                j <= sorted@.len(),
                items@.len() == j,
                forall|k: int| 0 <= k < j ==> (#[trigger] items@[k]).path@ == sorted@[k]@,
                forall|k: int| 0 <= k < j ==> source_line((#[trigger] items@[k]).path@, items@[k]),
            decreases sorted.len() - j,
        {
            let s = &sorted[j];
            let v = chars_of(s.as_str());
            let is_dir = v.len() > 0 && v[v.len() - 1] == '/';
            items.push(
                GotoItem { path: s.clone(), display: s.clone(), depth: 0, is_dir, expanded: false },
            );
            j = j + 1;
        }
        assert(Seq::new(items@.len(), |k: int| items@[k].path@) =~= string_views(sorted@));
        self.goto_items = items;
        self.update_goto_filter();
    }

    /// Recomputes which go-to lines match the search input, ignoring case,
    /// and keeps the selection within them.
    pub fn update_goto_filter(&mut self)
        ensures
            final(self).goto_filtered@ == matching_lines(
                old(self).goto_items@,
                lower_of(old(self).search_input@),
            ),
            final(self).goto_selected == (if old(self).goto_selected
                >= final(self).goto_filtered@.len() {
                if final(self).goto_filtered@.len() > 0 {
                    (final(self).goto_filtered@.len() - 1) as usize
                } else {
                    0
                }
            } else {
                old(self).goto_selected
            }),
            final(self).goto_items == old(self).goto_items,
            final(self).search_input == old(self).search_input,
            final(self).mode == old(self).mode,
            final(self).config_sources == old(self).config_sources,
            final(self).known_paths == old(self).known_paths,
    {
        let q = lowercase(self.search_input.as_str());
        let qv = chars_of(q.as_str());
        let mut out: Vec<usize> = Vec::new();
        let mut i: usize = 0;
        while i < self.goto_items.len()
            invariant
                i <= self.goto_items@.len(),
                q@ == lower_of(self.search_input@),
                qv@ == q@,
                out@ == matching_lines(self.goto_items@.take(i as int), q@),
            decreases self.goto_items.len() - i,
        {
            let item = &self.goto_items[i];
            assert(self.goto_items@.take(i as int + 1).drop_last() =~= self.goto_items@.take(
                i as int,
            ));
            assert(self.goto_items@.take(i as int + 1).last() == *item);
            let keep = qv.len() == 0 || text_contains(
                lowercase(item.display.as_str()).as_str(),
                q.as_str(),
            ) || text_contains(lowercase(item.path.as_str()).as_str(), q.as_str());
            let ghost before = out@;
            if keep {
                out.push(i);
                assert(out@ =~= before + seq![i]);
            } else {
                assert(out@ =~= before + Seq::<usize>::empty());
            }
            i = i + 1;
        }
        assert(self.goto_items@.take(i as int) =~= self.goto_items@);
        self.goto_filtered = out;
        if self.goto_selected >= self.goto_filtered.len() {
            self.goto_selected = self.goto_filtered.len().saturating_sub(1);
        }
    }

    pub fn goto_up(&mut self)
        ensures
            final(self).goto_selected == (if old(self).goto_selected > 0 {
                (old(self).goto_selected - 1) as usize
            } else {
                0
            }),
    {
        if self.goto_selected > 0 {
            self.goto_selected = self.goto_selected - 1;
        }
    }

    pub fn goto_down(&mut self)
        ensures
            final(self).goto_selected == (if old(self).goto_filtered@.len() > 0 && old(
                self,
            ).goto_selected < old(self).goto_filtered@.len() - 1 {
                (old(self).goto_selected + 1) as usize
            } else {
                old(self).goto_selected
            }),
    {
        if self.goto_filtered.len() > 0 && self.goto_selected < self.goto_filtered.len() - 1 {
            self.goto_selected = self.goto_selected + 1;
        }
    }

    /// Leaves the go-to popup.
    pub fn cancel_goto(&mut self)
        ensures
            final(self).mode == Mode::Normal,
            final(self).search_input@.len() == 0,
    {
        self.mode = Mode::Normal;
        self.search_input = String::new();
    }

    /// Takes the outcome of browsing the current path: a listing replaces
    /// the items and its addresses are learned; a failure empties the items
    /// and shows the error.
    pub fn apply_browse(&mut self, outcome: Result<Vec<BrowseItem>, String>)
        requires
            sorted_texts(string_views(old(self).known_paths@)),
        ensures
            sorted_texts(string_views(final(self).known_paths@)),
            final(self).selected == 0,
            !final(self).loading,
            final(self).current_path == old(self).current_path,
            match outcome {
                Ok(items) => browse_views(final(self).items@) == browse_views(items@)
                    && final(self).status_message@.len() == 0 && string_views(
                    final(self).known_paths@,
                ).to_set() == string_views(old(self).known_paths@).to_set().union(
                    learned_paths(browse_views(items@)),
                ),
                Err(e) => final(self).items@.len() == 0 && final(self).content@ == "Error: "@ + e@
                    && final(self).status_message@ == "Error: "@ + e@,
            },
    {
        match outcome {
            Ok(items) => {
                self.learn_paths(&items);
                self.items = items;
                self.selected = 0;
                self.status_message = String::new();
            },
            Err(e) => {
                self.items = Vec::new();
                self.selected = 0;
                let mut m = String::from_str("Error: ");
                m.append(e.as_str());
                self.content = m.clone();
                self.status_message = m;
            },
        }
        self.loading = false;
    }

    /// Enters the listing at `path`, remembering where the browser was.
    pub fn enter_listing(&mut self, path: &str)
        ensures
            final(self).current_path@ == path@,
            final(self).history_len() == old(self).history_len() + 1,
            final(self).history_top() == Some(
                (old(self).current_path@, browse_views(old(self).items@), old(self).selected),
            ),
            browse_views(final(self).items@) == browse_views(old(self).items@),
            final(self).known_paths == old(self).known_paths,
            final(self).mode == old(self).mode,
    {
        let items = duplicate_browse_items(&self.items);
        self.history.push(
            HistoryEntry { path: self.current_path.clone(), items, selected: self.selected },
        );
        self.current_path = String::from_str(path);
    }

    /// Opens the selected item: a listing is entered and must be browsed, a
    /// document or page must be fetched, and a search endpoint opens the
    /// search prompt.
    pub fn open_selected(&mut self) -> (r: OpenAction)
        ensures
            old(self).selected >= old(self).items@.len() ==> r is Nothing && *final(self)
                == *old(self),
            old(self).selected < old(self).items@.len() ==> ({
                let it = old(self).items@[old(self).selected as int]@;
                if it.item_type == "1"@ {
                    r matches OpenAction::Browse(p) && p@ == it.path && final(self).current_path@
                        == it.path && final(self).history_len() == old(self).history_len() + 1
                        && final(self).history_top() == Some(
                        (old(self).current_path@, browse_views(old(self).items@), old(self).selected),
                    ) && browse_views(final(self).items@) == browse_views(old(self).items@)
                } else if it.item_type == "0"@ || it.item_type == "h"@ {
                    r matches OpenAction::Fetch(p) && p@ == it.path && final(self).loading
                } else if it.item_type == "7"@ {
                    r is Nothing && final(self).mode == Mode::Search && final(self).search_input@.len()
                        == 0 && final(self).status_message@ == "Search in: "@ + it.path
                } else {
                    r is Nothing && *final(self) == *old(self)
                }
            }),
    {
        if self.selected >= self.items.len() {
            return OpenAction::Nothing;
        }
        let t = self.items[self.selected].item_type.clone();
        let path = self.items[self.selected].path.clone();
        if text_eq(t.as_str(), "1") {
            self.enter_listing(path.as_str());
            OpenAction::Browse(path)
        } else if text_eq(t.as_str(), "0") || text_eq(t.as_str(), "h") {
            self.loading = true;
            OpenAction::Fetch(path)
        } else if text_eq(t.as_str(), "7") {
            self.mode = Mode::Search;
            self.search_input = String::new();
            let mut m = String::from_str("Search in: ");
            m.append(path.as_str());
            self.status_message = m;
            OpenAction::Nothing
        } else {
            OpenAction::Nothing
        }
    }

    /// Takes the outcome of fetching the document at `path`.
    pub fn apply_fetch(&mut self, path: &str, outcome: Result<String, String>)
        ensures
            !final(self).loading,
            match outcome {
                Ok(text) => final(self).content == text && final(self).content_scroll == 0
                    && final(self).active_pane == Pane::Content && final(self).status_message@.len()
                    == 0,
                Err(e) => final(self).content@ == "Error fetching "@ + path@ + ": "@ + e@
                    && final(self).status_message@ == "Error: "@ + e@,
            },
    {
        match outcome {
            Ok(text) => {
                self.content = text;
                self.content_scroll = 0;
                self.active_pane = Pane::Content;
                self.status_message = String::new();
            },
            Err(e) => {
                let mut c = String::from_str("Error fetching ");
                c.append(path);
                c.append(": ");
                c.append(e.as_str());
                self.content = c;
                let mut m = String::from_str("Error: ");
                m.append(e.as_str());
                self.status_message = m;
            },
        }
        self.loading = false;
    }

    /// Submits the search prompt: returns the address to search and the
    /// query, or nothing for an empty query. The selected item is searched
    /// where it is a search endpoint, else the current listing.
    pub fn begin_search(&mut self) -> (r: Option<(String, String)>)
        ensures
            final(self).mode == Mode::Normal,
            old(self).search_input@.len() == 0 ==> r is None,
            old(self).search_input@.len() > 0 ==> (r matches Some((p, q)) && q@ == old(
                self,
            ).search_input@ && p@ == (if old(self).selected < old(self).items@.len() && old(
                self,
            ).items@[old(self).selected as int]@.item_type == "7"@ {
                old(self).items@[old(self).selected as int]@.path
            } else {
                old(self).current_path@
            }) && final(self).loading),
    {
        let query = self.search_input.clone();
        self.mode = Mode::Normal;
        if chars_of(query.as_str()).len() == 0 {
            return None;
        }
        let path = if self.selected < self.items.len() && text_eq(
            self.items[self.selected].item_type.as_str(),
            "7",
        ) {
            self.items[self.selected].path.clone()
        } else {
            self.current_path.clone()
        };
        self.loading = true;
        Some((path, query))
    }

    /// Takes the outcome of a search for `query`: results replace the items,
    /// and going back returns to the listing searched from.
    pub fn apply_search(&mut self, query: &str, outcome: Result<Vec<BrowseItem>, String>)
        ensures
            !final(self).loading,
            match outcome {
                Ok(items) => browse_views(final(self).items@) == browse_views(items@)
                    && final(self).selected == 0 && final(self).history_len() == old(
                    self,
                ).history_len() + 1 && final(self).status_message@ == "Search: \""@ + query@
                    + "\""@,
                Err(e) => final(self).content@ == "Search error: "@ + e@
                    && final(self).status_message@ == "Error: "@ + e@,
            },
    {
        match outcome {
            Ok(results) => {
                let items = duplicate_browse_items(&self.items);
                self.history.push(
                    HistoryEntry { path: self.current_path.clone(), items, selected: self.selected },
                );
                self.items = results;
                self.selected = 0;
                let mut m = String::from_str("Search: \"");
                m.append(query);
                m.append("\"");
                self.status_message = m;
            },
            Err(e) => {
                let mut c = String::from_str("Search error: ");
                c.append(e.as_str());
                self.content = c;
                let mut m = String::from_str("Error: ");
                m.append(e.as_str());
                self.status_message = m;
            },
        }
        self.loading = false;
    }

    /// Submits the go-to popup: goes to the selected line's address, or to
    /// the typed text where no line matches; returns the address to browse.
    pub fn begin_goto(&mut self) -> (r: Option<String>)
        ensures
            final(self).mode == Mode::Normal,
            ({
                let target = if old(self).goto_selected < old(self).goto_filtered@.len() && old(
                    self,
                ).goto_filtered@[old(self).goto_selected as int] < old(self).goto_items@.len() {
                    old(self).goto_items@[old(self).goto_filtered@[old(self).goto_selected as int] as int].path@
                } else {
                    old(self).search_input@
                };
                if target.len() == 0 {
                    r is None
                } else {
                    r matches Some(p) && p@ == target && final(self).current_path@ == target
                        && final(self).history_len() == old(self).history_len() + 1
                }
            }),
    {
        let path = if self.goto_selected < self.goto_filtered.len()
            && self.goto_filtered[self.goto_selected] < self.goto_items.len() {
            let idx = self.goto_filtered[self.goto_selected];
            self.goto_items[idx].path.clone()
        } else {
            self.search_input.clone()
        };
        self.mode = Mode::Normal;
        if chars_of(path.as_str()).len() == 0 {
            return None;
        }
        self.enter_listing(path.as_str());
        Some(path)
    }

    /// Toggles the selected go-to line: a collapsed directory asks for its
    /// address to be browsed; an expanded one drops the run of deeper lines
    /// below it and is marked collapsed. Other lines change nothing.
    pub fn goto_toggle(&mut self) -> (r: Option<(usize, String)>)
        ensures
            ({
                let items = old(self).goto_items@;
                let sel = old(self).goto_selected;
                if sel < old(self).goto_filtered@.len() && old(self).goto_filtered@[sel as int]
                    < items.len() && items[old(
                    self,
                ).goto_filtered@[sel as int] as int].is_dir {
                    let i = old(self).goto_filtered@[sel as int] as int;
                    if !items[i].expanded {
                        r matches Some((j, p)) && j == i && p@ == items[i].path@ && *final(self)
                            == *old(self)
                    } else {
                        let e = subtree_end(items, i, i + 1);
                        let after = final(self).goto_items@;
                        &&& r is None
                        &&& after.len() == items.len() - (e - i - 1)
                        &&& forall|k: int| 0 <= k < i ==> #[trigger] after[k] == items[k]
                        &&& forall|k: int| i < k < after.len() ==> #[trigger] after[k] == items[k + (e
                            - i - 1)]
                        &&& after[i].path == items[i].path && after[i].display == items[i].display
                            && after[i].depth == items[i].depth && after[i].is_dir && !after[i].expanded
                        &&& final(self).search_input == old(self).search_input
                    }
                } else {
                    r is None && *final(self) == *old(self)
                }
            }),
    {
        if self.goto_selected >= self.goto_filtered.len() {
            return None;
        }
        let i = self.goto_filtered[self.goto_selected];
        if i >= self.goto_items.len() {
            return None;
        }
        if !self.goto_items[i].is_dir {
            return None;
        }
        if !self.goto_items[i].expanded {
            return Some((i, self.goto_items[i].path.clone()));
        }
        let ghost items = self.goto_items@;
        let depth = self.goto_items[i].depth;
        let len = self.goto_items.len();
        assert(i < len);
        let next = i + 1;
        let mut end = next;
        while end < self.goto_items.len() && self.goto_items[end].depth > depth
            invariant
                i < end <= items.len(),
                items == self.goto_items@,
                depth == items[i as int].depth,
                subtree_end(items, i as int, i + 1) == subtree_end(items, i as int, end as int),
            decreases self.goto_items.len() - end,
        {
            end = end + 1;
        }
        assert(subtree_end(items, i as int, end as int) == end);
        let mut n = end - next;
        while n > 0
            invariant
                next == i + 1,
                i < items.len(),
                next <= end <= items.len(),
                n <= end - next,
                self.search_input == old(self).search_input,
                self.goto_items@ == items.take(next as int) + items.skip(
                    (next + (end - next - n)) as int,
                ),
            decreases n,
        {
            let ghost before = self.goto_items@;
            self.goto_items.remove(next);
            n = n - 1;
            assert(self.goto_items@ =~= items.take(next as int) + items.skip(
                (next + (end - next - n)) as int,
            ));
        }
        let ghost removed = self.goto_items@;
        assert(removed =~= items.take(next as int) + items.skip(end as int));
        let old_item = &self.goto_items[i];
        let collapsed = GotoItem {
            path: old_item.path.clone(),
            display: old_item.display.clone(),
            depth: old_item.depth,
            is_dir: old_item.is_dir,
            expanded: false,
        };
        self.goto_items.set(i, collapsed);
        self.update_goto_filter();
        proof {
            let after = self.goto_items@;
            assert forall|k: int| i < k < after.len() implies #[trigger] after[k] == items[k + (end
                - i - 1)] by {
                assert(after[k] == removed[k]);
            };
        }
        None
    }

    /// Takes the outcome of browsing the directory on go-to line `i`: its
    /// navigable items are inserted below it, one level deeper, and the line
    /// is marked expanded. A failed browse changes no line.
    pub fn apply_goto_children(&mut self, i: usize, outcome: Option<Vec<BrowseItem>>)
        requires
            i < old(self).goto_items@.len(),
            sorted_texts(string_views(old(self).known_paths@)),
            outcome matches Some(v) ==> old(self).goto_items@.len() + v@.len() < usize::MAX,
        ensures
            sorted_texts(string_views(final(self).known_paths@)),
            forall|k: int|
                0 <= k < final(self).goto_filtered@.len() ==> #[trigger] final(self).goto_filtered@[k]
                    < final(self).goto_items@.len(),
            outcome is None ==> final(self).goto_items == old(self).goto_items,
            outcome matches Some(v) ==> ({
                let old_lines = lines_of(old(self).goto_items@);
                let g = old_lines[i as int];
                let depth = if g.depth < u16::MAX {
                    (g.depth + 1) as u16
                } else {
                    u16::MAX
                };
                lines_of(final(self).goto_items@) == old_lines.take(i as int) + seq![
                    GotoLine { expanded: true, ..g },
                ] + child_lines(browse_views(v@), depth) + old_lines.skip(i + 1)
            }),
    {
        match outcome {
            Some(items) => {
                self.learn_paths(&items);
                let ghost old_lines = lines_of(self.goto_items@);
                let ghost bv = browse_views(items@);
                let child_depth = if self.goto_items[i].depth < u16::MAX {
                    self.goto_items[i].depth + 1
                } else {
                    u16::MAX
                };
                let len = self.goto_items.len();
                assert(i < len);
                let mut pos = i + 1;
                let mut k: usize = 0;
                assert(old_lines.take(i + 1) + child_lines(bv.take(0), child_depth) + old_lines.skip(
                    i + 1,
                ) =~= old_lines);
                while k < items.len()
                    invariant
                        k <= items@.len(),
                        bv == browse_views(items@),
                        i < old_lines.len(),
                        old_lines.len() + items@.len() < usize::MAX,
                        sorted_texts(string_views(self.known_paths@)),
                        pos == i + 1 + child_lines(bv.take(k as int), child_depth).len(),
                        child_lines(bv.take(k as int), child_depth).len() <= k,
                        lines_of(self.goto_items@) == old_lines.take(i + 1) + child_lines(
                            bv.take(k as int),
                            child_depth,
                        ) + old_lines.skip(i + 1),
                    decreases items.len() - k,
                {
                    let it = &items[k];
                    let t = it.item_type.as_str();
                    assert(bv.take(k as int + 1).drop_last() =~= bv.take(k as int));
                    assert(bv.take(k as int + 1).last() == it@);
                    let ghost before = lines_of(self.goto_items@);
                    let ghost prev = child_lines(bv.take(k as int), child_depth);
                    if text_eq(t, "1") || text_eq(t, "0") || text_eq(t, "7") || text_eq(t, "h") {
                        let is_dir = text_eq(t, "1");
                        let mut p = it.path.clone();
                        let pv = chars_of(p.as_str());
                        if is_dir && !(pv.len() > 0 && pv[pv.len() - 1] == '/') {
                            p.append("/");
                            proof {
                                reveal_strlit("/");
                                assert("/"@ =~= seq!['/']);
                            }
                        }
                        let line = GotoItem {
                            display: it.display.clone(),
                            path: p,
                            depth: child_depth,
                            is_dir,
                            expanded: false,
                        };
                        let ghost lv = line_of(line);
                        assert(before.len() == self.goto_items@.len());
                        assert(pos <= self.goto_items@.len());
                        self.goto_items.insert(pos, line);
                        assert(lines_of(self.goto_items@) =~= before.insert(pos as int, lv));
                        assert(child_lines(bv.take(k as int + 1), child_depth) == prev.push(lv));
                        assert(lines_of(self.goto_items@) =~= old_lines.take(i + 1) + prev.push(lv)
                            + old_lines.skip(i + 1));
                        pos = pos + 1;
                    } else {
                        assert(child_lines(bv.take(k as int + 1), child_depth) == prev);
                    }
                    k = k + 1;
                }
                assert(bv.take(k as int) =~= bv);
                let old_item = &self.goto_items[i];
                let expanded = GotoItem {
                    path: old_item.path.clone(),
                    display: old_item.display.clone(),
                    depth: old_item.depth,
                    is_dir: old_item.is_dir,
                    expanded: true,
                };
                let ghost mid = lines_of(self.goto_items@);
                assert(mid[i as int] == old_lines[i as int]);
                assert(line_of(expanded) == GotoLine { expanded: true, ..old_lines[i as int] });
                self.goto_items.set(i, expanded);
                assert(lines_of(self.goto_items@) =~= mid.update(i as int, GotoLine { expanded: true, ..old_lines[i as int] }));
                assert(lines_of(self.goto_items@) =~= old_lines.take(i as int) + seq![
                    GotoLine { expanded: true, ..old_lines[i as int] },
                ] + child_lines(bv, child_depth) + old_lines.skip(i + 1));
            },
            None => {},
        }
        self.update_goto_filter();
        proof {
            lemma_matching_lines_in_range(self.goto_items@, lower_of(self.search_input@));
        }
    }

    /// Handles a key press in the current mode and says what must be
    /// fetched next, if anything.
    pub fn handle_key(&mut self, key: Key) -> (r: Request)
        ensures
            old(self).mode == Mode::Normal ==> match key {
                Key::Char('q', _) | Key::Char('c', true) => final(self).should_quit && r
                    == Request::Nothing,
                Key::Char('/', _) => final(self).mode == Mode::Search
                    && final(self).search_input@.len() == 0 && r == Request::Nothing,
                Key::Char(':', _) => final(self).mode == Mode::GoTo && r == Request::Nothing,
                Key::Home => final(self).current_path@.len() == 0 && final(self).history_len()
                    == 0 && (r matches Request::Browse(p) && p@.len() == 0),
                _ => true,
            },
            old(self).mode == Mode::Search ==> match key {
                Key::Esc => final(self).mode == Mode::Normal && final(self).search_input@.len() == 0
                    && r == Request::Nothing,
                Key::Char(c, _) => final(self).search_input@ == old(self).search_input@.push(c)
                    && final(self).mode == Mode::Search && r == Request::Nothing,
                Key::Backspace => final(self).search_input@ == (if old(self).search_input@.len()
                    > 0 {
                    old(self).search_input@.drop_last()
                } else {
                    old(self).search_input@
                }) && r == Request::Nothing,
                Key::Enter => final(self).mode == Mode::Normal && (old(self).search_input@.len()
                    == 0 <==> r == Request::Nothing),
                _ => r == Request::Nothing,
            },
            old(self).mode == Mode::GoTo ==> match key {
                Key::Esc => final(self).mode == Mode::Normal && final(self).search_input@.len() == 0
                    && r == Request::Nothing,
                Key::Char(c, _) => final(self).search_input@ == old(self).search_input@.push(c)
                    && final(self).goto_filtered@ == matching_lines(
                    old(self).goto_items@,
                    lower_of(old(self).search_input@.push(c)),
                ) && r == Request::Nothing,
                Key::Enter => final(self).mode == Mode::Normal,
                _ => true,
            },
    {
        match self.mode {
            Mode::Normal => self.normal_key(key),
            Mode::Search => self.search_key(key),
            Mode::GoTo => self.goto_key(key),
        }
    }

    fn normal_key(&mut self, key: Key) -> (r: Request)
        requires
            old(self).mode == Mode::Normal,
        ensures
            match key {
                Key::Char('q', _) | Key::Char('c', true) => final(self).should_quit && r
                    == Request::Nothing,
                Key::Char('/', _) => final(self).mode == Mode::Search
                    && final(self).search_input@.len() == 0 && r == Request::Nothing,
                Key::Char(':', _) => final(self).mode == Mode::GoTo && r == Request::Nothing,
                Key::Home => final(self).current_path@.len() == 0 && final(self).history_len()
                    == 0 && (r matches Request::Browse(p) && p@.len() == 0),
                _ => true,
            },
    {
        match key {
            Key::Char('q', _) | Key::Char('c', true) => {
                self.should_quit = true;
                Request::Nothing
            },
            Key::Up | Key::Char('k', _) => {
                self.move_up();
                Request::Nothing
            },
            Key::Down | Key::Char('j', _) => {
                self.move_down();
                Request::Nothing
            },
            Key::Enter => match self.open_selected() {
                OpenAction::Browse(p) => Request::Browse(p),
                OpenAction::Fetch(p) => Request::Fetch(p),
                OpenAction::Nothing => Request::Nothing,
            },
            Key::Backspace | Key::Char('b', _) => {
                self.go_back();
                Request::Nothing
            },
            Key::Char('/', _) => {
                self.mode = Mode::Search;
                self.search_input = String::new();
                Request::Nothing
            },
            Key::Char(':', _) => {
                self.enter_goto();
                Request::Nothing
            },
            Key::Tab => {
                self.toggle_pane();
                Request::Nothing
            },
            Key::Home => {
                self.go_home();
                Request::Browse(self.current_path.clone())
            },
            Key::Char(' ', _) => {
                if self.active_pane == Pane::Content {
                    self.page_down();
                }
                Request::Nothing
            },
            Key::PageUp => {
                self.page_up();
                Request::Nothing
            },
            Key::PageDown => {
                self.page_down();
                Request::Nothing
            },
            _ => Request::Nothing,
        }
    }

    fn search_key(&mut self, key: Key) -> (r: Request)
        requires
            old(self).mode == Mode::Search,
        ensures
            match key {
                Key::Esc => final(self).mode == Mode::Normal && final(self).search_input@.len() == 0
                    && r == Request::Nothing,
                Key::Char(c, _) => final(self).search_input@ == old(self).search_input@.push(c)
                    && final(self).mode == Mode::Search && r == Request::Nothing,
                Key::Backspace => final(self).search_input@ == (if old(self).search_input@.len()
                    > 0 {
                    old(self).search_input@.drop_last()
                } else {
                    old(self).search_input@
                }) && r == Request::Nothing,
                Key::Enter => final(self).mode == Mode::Normal && (old(self).search_input@.len()
                    == 0 <==> r == Request::Nothing),
                _ => r == Request::Nothing,
            },
    {
        match key {
            Key::Enter => match self.begin_search() {
                Some((p, q)) => Request::Search(p, q),
                None => Request::Nothing,
            },
            Key::Esc => {
                self.mode = Mode::Normal;
                self.search_input = String::new();
                Request::Nothing
            },
            Key::Backspace => {
                pop_char(&mut self.search_input);
                Request::Nothing
            },
            Key::Char(c, _) => {
                push_char(&mut self.search_input, c);
                Request::Nothing
            },
            _ => Request::Nothing,
        }
    }

    fn goto_key(&mut self, key: Key) -> (r: Request)
        requires
            old(self).mode == Mode::GoTo,
        ensures
            match key {
                Key::Esc => final(self).mode == Mode::Normal && final(self).search_input@.len() == 0
                    && r == Request::Nothing,
                Key::Char(c, _) => final(self).search_input@ == old(self).search_input@.push(c)
                    && final(self).goto_filtered@ == matching_lines(
                    old(self).goto_items@,
                    lower_of(old(self).search_input@.push(c)),
                ) && r == Request::Nothing,
                Key::Enter => final(self).mode == Mode::Normal,
                _ => true,
            },
    {
        match key {
            Key::Enter => match self.begin_goto() {
                Some(p) => Request::Browse(p),
                None => Request::Nothing,
            },
            Key::Esc => {
                self.cancel_goto();
                Request::Nothing
            },
            Key::Up => {
                self.goto_up();
                Request::Nothing
            },
            Key::Down => {
                self.goto_down();
                Request::Nothing
            },
            Key::Tab => match self.goto_toggle() {
                Some((i, p)) => Request::Expand(i, p),
                None => Request::Nothing,
            },
            Key::Backspace => {
                pop_char(&mut self.search_input);
                self.update_goto_filter();
                Request::Nothing
            },
            Key::Char(c, _) => {
                push_char(&mut self.search_input, c);
                self.update_goto_filter();
                Request::Nothing
            },
            _ => Request::Nothing,
        }
    }
}

} // verus!
