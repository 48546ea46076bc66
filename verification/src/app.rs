//! The shared application state and the rules for navigating, filtering,
//! searching, tab lifecycle and the view-mode stack. All state lives in one
//! `App` value; threads outside the library share it behind one lock and
//! call these rules while holding it.

use vstd::prelude::*;

use crate::input_element::InputTextElement;
use crate::parser::LogEntry;
use crate::sorting::all_rows_wf;
use crate::sorting::spec_sort_rows;
use crate::sorting::sort_by_timestamp;
use crate::strutil::matches_keywords;
use crate::strutil::matches_any;
use crate::strutil::split_commas;
use crate::strutil::split_commas_spec;
use crate::strutil::trim_blanks;
use crate::strutil::trim_spec;
use crate::strutil::pad_right;
use crate::strutil::pad_spec;
use crate::tab::clone_row;
use crate::tab::clone_rows;
use crate::tab::Tab;
use crate::tab::TableItems;
use crate::tab::TabType;

verus! {

/// How many records one screenful holds.
pub const DEFAULT_VIEW_BUFFER_SIZE: usize = 50;

/// How far a page-wise jump moves the selection.
pub const DEFAULT_SKIP_SIZE: usize = 5;

/// Which text box, if any, is being edited.
pub enum SelectedInput {
    Filter,
    Search,
}

/// One frame of the view-mode stack: the base table, the search overlay,
/// or the full-text view of the record at an index.
pub enum ViewMode {
    Table,
    SearchView,
    TableItem(usize),
}

/// The one shared state object.
pub struct App {
    pub running: bool,
    pub tabs: Vec<Tab>,
    pub selected_tab_index: usize,
    pub view_mode: Vec<ViewMode>,
    pub selected_input: Option<SelectedInput>,
    pub filter_input_text: InputTextElement,
    pub search_input_text: InputTextElement,
    pub view_buffer_size: usize,
    pub tail_enabled: bool,
    pub copying_to_clipboard: bool,
    pub mouse_position: (u16, u16),
    pub last_key_input: Option<char>,
}

/// The working record set of the selected tab.
pub open spec fn spec_working(app: App) -> TableItems {
    app.tabs@[app.selected_tab_index as int].filtered_view_items
}

/// The view of an optional search text.
pub open spec fn opt_view(s: Option<String>) -> Option<Seq<char>> {
    match s {
        None => None,
        Some(t) => Some(t@),
    }
}

/// First index at or after `j` whose record message matches some keyword,
/// or the number of rows when none does.
pub open spec fn search_fwd(rows: Seq<Seq<Seq<char>>>, kws: Seq<Seq<char>>, j: int) -> int
    decreases rows.len() - j,
{
    if !(0 <= j < rows.len()) {
        rows.len() as int
    } else if matches_keywords(rows[j][3], kws) {
        j
    } else {
        search_fwd(rows, kws, j + 1)
    }
}

/// Last index at or before `j` whose record message matches some keyword,
/// or `-1` when none does.
pub open spec fn search_back(rows: Seq<Seq<Seq<char>>>, kws: Seq<Seq<char>>, j: int) -> int
    decreases j + 1,
{
    if !(0 <= j < rows.len()) {
        -1
    } else if matches_keywords(rows[j][3], kws) {
        j
    } else {
        search_back(rows, kws, j - 1)
    }
}

/// Where the selection lands on a forward step: one clamped step without
/// search text, else the nearest later match — and, when nothing later
/// matches, exactly where it was (a failed search is a no-op).
pub open spec fn next_sel(rows: Seq<Seq<Seq<char>>>, search: Option<Seq<char>>, i: int) -> int {
    if search is None || search.unwrap().len() == 0 {
        if i + 1 < rows.len() {
            i + 1
        } else {
            rows.len() - 1
        }
    } else {
        let j = search_fwd(rows, split_commas_spec(search.unwrap()), i + 1);
        if j < rows.len() {
            j
        } else {
            i
        }
    }
}

/// Where the selection lands on a backward step; the mirror of `next_sel`.
pub open spec fn prev_sel(rows: Seq<Seq<Seq<char>>>, search: Option<Seq<char>>, i: int) -> int {
    if search is None || search.unwrap().len() == 0 {
        if i > 0 {
            i - 1
        } else {
            0
        }
    } else {
        let j = search_back(rows, split_commas_spec(search.unwrap()), i - 1);
        if j >= 0 {
            j
        } else {
            i
        }
    }
}

/// All fields but the tab list are unchanged.
pub open spec fn same_except_tabs(pre: App, post: App) -> bool {
    &&& post.running == pre.running
    &&& post.selected_tab_index == pre.selected_tab_index
    &&& post.view_mode == pre.view_mode
    &&& post.selected_input == pre.selected_input
    &&& post.filter_input_text == pre.filter_input_text
    &&& post.search_input_text == pre.search_input_text
    &&& post.view_buffer_size == pre.view_buffer_size
    &&& post.tail_enabled == pre.tail_enabled
    &&& post.copying_to_clipboard == pre.copying_to_clipboard
    &&& post.mouse_position == pre.mouse_position
    &&& post.last_key_input == pre.last_key_input
}

/// Only the working selection of the selected tab changed, to `ns`.
pub open spec fn sel_update(pre: App, post: App, ns: int) -> bool {
    let sel = pre.selected_tab_index as int;
    &&& same_except_tabs(pre, post)
    &&& post.tabs@.len() == pre.tabs@.len()
    &&& forall|k: int| 0 <= k < pre.tabs@.len() && k != sel ==> post.tabs@[k] == pre.tabs@[k]
    &&& post.tabs@[sel].name == pre.tabs@[sel].name
    &&& post.tabs@[sel].file_path == pre.tabs@[sel].file_path
    &&& post.tabs@[sel].items == pre.tabs@[sel].items
    &&& post.tabs@[sel].last_file_size == pre.tabs@[sel].last_file_size
    &&& post.tabs@[sel].tab_type == pre.tabs@[sel].tab_type
    &&& post.tabs@[sel].filtered_view_items.data == pre.tabs@[sel].filtered_view_items.data
    &&& post.tabs@[sel].filtered_view_items.selected_item_index == ns
}

impl App {
    /// The structural invariant of the state: the Combined tab sits alone
    /// at index 0, the selected tab exists, every record set is well
    /// formed, the view-mode stack has the table view at its base, and a
    /// screenful holds at least one record.
    pub open spec fn wf(&self) -> bool {
        &&& self.tabs@.len() >= 1
        &&& self.tabs@[0].tab_type is Combined
        &&& forall|k: int| 1 <= k < self.tabs@.len() ==> (#[trigger] self.tabs@[k].tab_type) is Normal
        &&& (self.selected_tab_index as int) < self.tabs@.len()
        &&& forall|k: int| 0 <= k < self.tabs@.len() ==> (#[trigger] self.tabs@[k]).wf()
        &&& self.view_mode@.len() >= 1
        &&& self.view_mode@[0] is Table
        &&& self.view_buffer_size >= 1
        &&& self.filter_input_text.wf()
        &&& self.search_input_text.wf()
    }

    /// A fresh state: the empty Combined tab, the base table view, tail
    /// mode off, nothing filtered, nothing searched.
    pub fn new() -> (r: App)
        ensures
            r.wf(),
            r.running,
            r.tabs@.len() == 1,
            r.tabs@[0].tab_type is Combined,
            r.tabs@[0].items.rows() == Seq::<Seq<Seq<char>>>::empty(),
            r.tabs@[0].filtered_view_items.rows() == Seq::<Seq<Seq<char>>>::empty(),
            r.selected_tab_index == 0,
            r.view_mode@ == seq![ViewMode::Table],
            r.selected_input is None,
            r.filter_input_text.text_view() == Seq::<char>::empty(),
            r.search_input_text.text_view() == Seq::<char>::empty(),
            r.view_buffer_size == DEFAULT_VIEW_BUFFER_SIZE,
            !r.tail_enabled,
            !r.copying_to_clipboard,
            r.last_key_input is None,
    {
        let combined = Tab::new(String::new(), TableItems::new_empty(), TabType::Combined, 0);
        let mut tabs: Vec<Tab> = Vec::new();
        tabs.push(combined);
        let mut view_mode: Vec<ViewMode> = Vec::new();
        view_mode.push(ViewMode::Table);
        proof {
            assert(view_mode@ =~= seq![ViewMode::Table]);
        }
        App {
            running: true,
            tabs,
            selected_tab_index: 0,
            view_mode,
            selected_input: None,
            filter_input_text: InputTextElement::new(String::new()),
            search_input_text: InputTextElement::new(String::new()),
            view_buffer_size: DEFAULT_VIEW_BUFFER_SIZE,
            tail_enabled: false,
            copying_to_clipboard: false,
            mouse_position: (0, 0),
            last_key_input: None,
        }
    }

    /// Moves the selection one record forward, or — with search text — to
    /// the nearest later record matching any comma-separated keyword. When
    /// no later record matches, the selection does not move at all; on an
    /// empty working set nothing happens.
    pub fn next(&mut self, search: Option<String>)
        requires
            old(self).wf(),
        ensures
            final(self).wf(),
            spec_working(*old(self)).rows().len() == 0 ==> *final(self) == *old(self),
            spec_working(*old(self)).rows().len() > 0 ==> sel_update(
                *old(self),
                *final(self),
                next_sel(
                    spec_working(*old(self)).rows(),
                    opt_view(search),
                    spec_working(*old(self)).selected_item_index as int,
                ),
            ),
    {
        let sel = self.selected_tab_index;
        let len = self.tabs[sel].filtered_view_items.data.len();
        if len == 0 {
            return ;
        }
        let ghost rows = spec_working(*self).rows();
        let i = self.tabs[sel].filtered_view_items.selected_item_index;
        proof {
            assert(rows.len() == len);
        }
        let plain = match &search {
            None => true,
            Some(s) => s.as_str().is_empty(),
        };
        let ni: usize;
        if plain {
            ni = if i + 1 < len {
                i + 1
            } else {
                len - 1
            };
        } else {
            let s = match &search {
                Some(s) => s,
                None => unreached(),
            };
            let kws = split_commas(s.as_str());
            let ghost kv = split_commas_spec(s@);
            let mut j = i + 1;
            loop
                invariant
                    i + 1 <= j <= len,
                    len == self.tabs@[sel as int].filtered_view_items.data@.len(),
                    sel == self.selected_tab_index,
                    (sel as int) < self.tabs@.len(),
                    rows == spec_working(*self).rows(),
                    rows.len() == len,
                    all_rows_wf(rows),
                    kws.deep_view() == kv,
                    search_fwd(rows, kv, i + 1) == search_fwd(rows, kv, j as int),
                ensures
                    i + 1 <= j <= len,
                    j < len ==> search_fwd(rows, kv, i + 1) == j as int,
                    j == len ==> search_fwd(rows, kv, i + 1) == rows.len(),
                decreases len - j,
            {
                if j >= len {
                    break ;
                }
                proof {
                    assert(rows[j as int]
                        == self.tabs@[sel as int].filtered_view_items.data@[j as int].deep_view());
                    assert(rows[j as int][3]
                        == self.tabs@[sel as int].filtered_view_items.data@[j as int]@[3]@);
                }
                let row = &self.tabs[sel].filtered_view_items.data[j];
                if matches_any(row[3].as_str(), &kws) {
                    break ;
                }
                j = j + 1;
            }
            ni = if j < len {
                j
            } else {
                i
            };
        }
        let t = &mut self.tabs[sel];
        t.filtered_view_items.selected_item_index = ni;
    }

    /// Moves the selection one record back, or — with search text — to the
    /// nearest earlier record matching any keyword; a failed search leaves
    /// the selection in place, and an empty working set means a no-op.
    pub fn previous(&mut self, search: Option<String>)
        requires
            old(self).wf(),
        ensures
            final(self).wf(),
            spec_working(*old(self)).rows().len() == 0 ==> *final(self) == *old(self),
            spec_working(*old(self)).rows().len() > 0 ==> sel_update(
                *old(self),
                *final(self),
                prev_sel(
                    spec_working(*old(self)).rows(),
                    opt_view(search),
                    spec_working(*old(self)).selected_item_index as int,
                ),
            ),
    {
        let sel = self.selected_tab_index;
        let len = self.tabs[sel].filtered_view_items.data.len();
        if len == 0 {
            return ;
        }
        let ghost rows = spec_working(*self).rows();
        let i = self.tabs[sel].filtered_view_items.selected_item_index;
        proof {
            assert(rows.len() == len);
        }
        let plain = match &search {
            None => true,
            Some(s) => s.as_str().is_empty(),
        };
        let ni: usize;
        if plain {
            ni = if i > 0 {
                i - 1
            } else {
                0
            };
        } else {
            let s = match &search {
                Some(s) => s,
                None => unreached(),
            };
            let kws = split_commas(s.as_str());
            let ghost kv = split_commas_spec(s@);
            let mut j = i;
            loop
                invariant
                    0 <= j <= i < len,
                    len == self.tabs@[sel as int].filtered_view_items.data@.len(),
                    sel == self.selected_tab_index,
                    (sel as int) < self.tabs@.len(),
                    rows == spec_working(*self).rows(),
                    rows.len() == len,
                    all_rows_wf(rows),
                    kws.deep_view() == kv,
                    search_back(rows, kv, i - 1) == search_back(rows, kv, j - 1),
                ensures
                    0 <= j <= i,
                    j > 0 ==> search_back(rows, kv, i - 1) == j - 1,
                    j == 0 ==> search_back(rows, kv, i - 1) == -1,
                decreases j,
            {
                if j == 0 {
                    break ;
                }
                proof {
                    assert(rows[j - 1]
                        == self.tabs@[sel as int].filtered_view_items.data@[j - 1].deep_view());
                    assert(rows[j - 1][3]
                        == self.tabs@[sel as int].filtered_view_items.data@[j - 1]@[3]@);
                    assert(rows[j - 1].len() == 4);
                }
                let row = &self.tabs[sel].filtered_view_items.data[j - 1];
                if matches_any(row[3].as_str(), &kws) {
                    break ;
                }
                j = j - 1;
            }
            ni = if j > 0 {
                j - 1
            } else {
                i
            };
        }
        let t = &mut self.tabs[sel];
        t.filtered_view_items.selected_item_index = ni;
    }

    /// Jumps the selection several records forward, clamped to the end.
    pub fn skipping_next(&mut self)
        requires
            old(self).wf(),
        ensures
            final(self).wf(),
            spec_working(*old(self)).rows().len() == 0 ==> *final(self) == *old(self),
            spec_working(*old(self)).rows().len() > 0 ==> sel_update(
                *old(self),
                *final(self),
                ({
                    let i = spec_working(*old(self)).selected_item_index as int;
                    let n = spec_working(*old(self)).rows().len() as int;
                    if i + DEFAULT_SKIP_SIZE < n {
                        i + DEFAULT_SKIP_SIZE
                    } else {
                        n - 1
                    }
                }),
            ),
    {
        let sel = self.selected_tab_index;
        let len = self.tabs[sel].filtered_view_items.data.len();
        if len == 0 {
            return ;
        }
        let i = self.tabs[sel].filtered_view_items.selected_item_index;
        let ni = if len - 1 - i > DEFAULT_SKIP_SIZE {
            i + DEFAULT_SKIP_SIZE
        } else {
            len - 1
        };
        let t = &mut self.tabs[sel];
        t.filtered_view_items.selected_item_index = ni;
    }

    /// Jumps the selection several records back, clamped to the start.
    pub fn skipping_prev(&mut self)
        requires
            old(self).wf(),
        ensures
            final(self).wf(),
            spec_working(*old(self)).rows().len() == 0 ==> *final(self) == *old(self),
            spec_working(*old(self)).rows().len() > 0 ==> sel_update(
                *old(self),
                *final(self),
                ({
                    let i = spec_working(*old(self)).selected_item_index as int;
                    if i - DEFAULT_SKIP_SIZE > 0 {
                        i - DEFAULT_SKIP_SIZE
                    } else {
                        0
                    }
                }),
            ),
    {
        let sel = self.selected_tab_index;
        let len = self.tabs[sel].filtered_view_items.data.len();
        if len == 0 {
            return ;
        }
        let i = self.tabs[sel].filtered_view_items.selected_item_index;
        let ni = if i > DEFAULT_SKIP_SIZE {
            i - DEFAULT_SKIP_SIZE
        } else {
            0
        };
        let t = &mut self.tabs[sel];
        t.filtered_view_items.selected_item_index = ni;
    }

    /// Puts the selection on the first record.
    pub fn start(&mut self)
        requires
            old(self).wf(),
        ensures
            final(self).wf(),
            spec_working(*old(self)).rows().len() == 0 ==> *final(self) == *old(self),
            spec_working(*old(self)).rows().len() > 0 ==> sel_update(*old(self), *final(self), 0),
    {
        let sel = self.selected_tab_index;
        let len = self.tabs[sel].filtered_view_items.data.len();
        if len == 0 {
            return ;
        }
        let t = &mut self.tabs[sel];
        t.filtered_view_items.selected_item_index = 0;
    }

    /// Puts the selection on the last record.
    pub fn end(&mut self)
        requires
            old(self).wf(),
        ensures
            final(self).wf(),
            spec_working(*old(self)).rows().len() == 0 ==> *final(self) == *old(self),
            spec_working(*old(self)).rows().len() > 0 ==> sel_update(
                *old(self),
                *final(self),
                spec_working(*old(self)).rows().len() - 1,
            ),
    {
        let sel = self.selected_tab_index;
        let len = self.tabs[sel].filtered_view_items.data.len();
        if len == 0 {
            return ;
        }
        let t = &mut self.tabs[sel];
        t.filtered_view_items.selected_item_index = len - 1;
    }

    /// Selects the next tab, clamped to the last.
    pub fn next_tab(&mut self)
        requires
            old(self).wf(),
        ensures
            final(self).wf(),
            final(self).tabs == old(self).tabs,
            same_except_tab_choice(*old(self), *final(self)),
            final(self).selected_tab_index as int == if old(self).selected_tab_index + 1
                < old(self).tabs@.len() {
                old(self).selected_tab_index + 1
            } else {
                old(self).tabs@.len() - 1
            },
    {
        let n = self.tabs.len();
        if self.selected_tab_index + 1 < n {
            self.selected_tab_index = self.selected_tab_index + 1;
        } else {
            self.selected_tab_index = n - 1;
        }
    }

    /// Selects the previous tab, clamped to the first.
    pub fn prev_tab(&mut self)
        requires
            old(self).wf(),
        ensures
            final(self).wf(),
            final(self).tabs == old(self).tabs,
            same_except_tab_choice(*old(self), *final(self)),
            final(self).selected_tab_index as int == if old(self).selected_tab_index > 0 {
                old(self).selected_tab_index - 1
            } else {
                0
            },
    {
        if self.selected_tab_index > 0 {
            self.selected_tab_index = self.selected_tab_index - 1;
        }
    }
}

/// All fields but the chosen tab index are unchanged.
pub open spec fn same_except_tab_choice(pre: App, post: App) -> bool {
    &&& post.running == pre.running
    &&& post.tabs == pre.tabs
    &&& post.view_mode == pre.view_mode
    &&& post.selected_input == pre.selected_input
    &&& post.filter_input_text == pre.filter_input_text
    &&& post.search_input_text == pre.search_input_text
    &&& post.view_buffer_size == pre.view_buffer_size
    &&& post.tail_enabled == pre.tail_enabled
    &&& post.copying_to_clipboard == pre.copying_to_clipboard
    &&& post.mouse_position == pre.mouse_position
    &&& post.last_key_input == pre.last_key_input
}


/// The UI fields: everything except the tab list and the chosen tab.
pub open spec fn same_ui_fields(pre: App, post: App) -> bool {
    &&& post.running == pre.running
    &&& post.view_mode == pre.view_mode
    &&& post.selected_input == pre.selected_input
    &&& post.filter_input_text == pre.filter_input_text
    &&& post.search_input_text == pre.search_input_text
    &&& post.view_buffer_size == pre.view_buffer_size
    &&& post.tail_enabled == pre.tail_enabled
    &&& post.copying_to_clipboard == pre.copying_to_clipboard
    &&& post.mouse_position == pre.mouse_position
    &&& post.last_key_input == pre.last_key_input
}

/// The working records of every Normal tab from index `i` on, concatenated
/// in tab order.
pub open spec fn concat_working_from(tabs: Seq<Tab>, i: int) -> Seq<Seq<Seq<char>>>
    decreases tabs.len() - i,
{
    if !(0 <= i < tabs.len()) {
        Seq::empty()
    } else if tabs[i].tab_type is Combined {
        concat_working_from(tabs, i + 1)
    } else {
        tabs[i].filtered_view_items.rows() + concat_working_from(tabs, i + 1)
    }
}

/// What the Combined tab shows: every Normal tab's working records, merged
/// and stably sorted by timestamp text.
pub open spec fn combined_rows(tabs: Seq<Tab>) -> Seq<Seq<Seq<char>>> {
    spec_sort_rows(concat_working_from(tabs, 0))
}

/// The merge reads only the Normal tabs, so two tab lists that agree on
/// them merge alike.
pub proof fn lemma_concat_same(t1: Seq<Tab>, t2: Seq<Tab>, i: int)
    requires
        t1.len() == t2.len(),
        forall|k: int| 0 <= k < t1.len() ==> ((#[trigger] t1[k].tab_type) is Combined <==> t2[k].tab_type is Combined),
        forall|k: int| 0 <= k < t1.len() && !(t1[k].tab_type is Combined) ==> (#[trigger] t1[k])
            == t2[k],
        0 <= i,
    ensures
        concat_working_from(t1, i) == concat_working_from(t2, i),
    decreases t1.len() - i,
{
    if i < t1.len() {
        lemma_concat_same(t1, t2, i + 1);
    }
}

/// Only the Combined tab changed, rebuilt from the tab list's working sets:
/// it holds the merged, sorted rows in both record sets, selected at the
/// newest record.
pub open spec fn combined_update(pre: App, post: App) -> bool {
    let rows = combined_rows(pre.tabs@);
    &&& same_ui_fields(pre, post)
    &&& post.selected_tab_index == pre.selected_tab_index
    &&& post.tabs@.len() == pre.tabs@.len()
    &&& forall|k: int| 1 <= k < pre.tabs@.len() ==> #[trigger] post.tabs@[k] == pre.tabs@[k]
    &&& post.tabs@[0].name == pre.tabs@[0].name
    &&& post.tabs@[0].file_path == pre.tabs@[0].file_path
    &&& post.tabs@[0].last_file_size == pre.tabs@[0].last_file_size
    &&& post.tabs@[0].tab_type == pre.tabs@[0].tab_type
    &&& post.tabs@[0].filtered_view_items.rows() == rows
    &&& post.tabs@[0].items.rows() == rows
    &&& post.tabs@[0].filtered_view_items.selected_item_index as int == (if rows.len() > 0 {
        rows.len() - 1
    } else {
        0int
    })
    &&& post.tabs@[0].items.selected_item_index
        == post.tabs@[0].filtered_view_items.selected_item_index
}

impl App {
    /// Rebuilds the Combined tab: concatenates every Normal tab's working
    /// records, sorts them stably by timestamp, and selects the newest.
    pub fn reload_combined_tab(&mut self)
        requires
            old(self).wf(),
        ensures
            final(self).wf(),
            combined_update(*old(self), *final(self)),
    {
        let n = self.tabs.len();
        let mut all: Vec<LogEntry> = Vec::new();
        let mut i: usize = 0;
        proof {
            assert(all.deep_view() =~= Seq::<Seq<Seq<char>>>::empty());
            assert(all.deep_view() + concat_working_from(self.tabs@, 0) =~= concat_working_from(
                self.tabs@,
                0,
            ));
        }
        while i < n
            invariant
                0 <= i <= n,
                n == self.tabs@.len(),
                *self == *old(self),
                old(self).wf(),
                all_rows_wf(all.deep_view()),
                all.deep_view() + concat_working_from(self.tabs@, i as int) == concat_working_from(
                    self.tabs@,
                    0,
                ),
            decreases n - i,
        {
            let is_combined = match &self.tabs[i].tab_type {
                TabType::Combined => true,
                TabType::Normal => false,
            };
            if !is_combined {
                proof {
                    assert(old(self).tabs@[i as int].wf());
                    assert(self.tabs@[i as int].wf());
                }
                let mut copy = clone_rows(&self.tabs[i].filtered_view_items.data);
                let ghost before = all.deep_view();
                let ghost tabrows = self.tabs@[i as int].filtered_view_items.rows();
                all.append(&mut copy);
                proof {
                    assert(all.deep_view() =~= before + tabrows);
                    assert((before + tabrows) + concat_working_from(self.tabs@, i + 1)
                        =~= before + (tabrows + concat_working_from(self.tabs@, i + 1)));
                    assert forall|k: int| 0 <= k < all.deep_view().len() implies (
                    #[trigger] all.deep_view()[k]).len() == 4 by {
                        if k < before.len() {
                            assert(all.deep_view()[k] == before[k]);
                        } else {
                            assert(all.deep_view()[k] == tabrows[k - before.len()]);
                        }
                    }
                }
            }
            i = i + 1;
        }
        proof {
            assert(concat_working_from(self.tabs@, n as int) =~= Seq::<Seq<Seq<char>>>::empty());
            assert(all.deep_view() + Seq::<Seq<Seq<char>>>::empty() =~= all.deep_view());
        }
        let sorted = sort_by_timestamp(all);
        let m = sorted.len();
        let nsel = if m > 0 {
            m - 1
        } else {
            0
        };
        let copy2 = clone_rows(&sorted);
        let t = &mut self.tabs[0];
        t.filtered_view_items = TableItems { data: sorted, selected_item_index: nsel };
        t.items = TableItems { data: copy2, selected_item_index: nsel };
    }
}

/// The comma-separated filter keywords, each trimmed of blanks.
pub open spec fn filter_keywords(filter: Seq<char>) -> Seq<Seq<char>> {
    split_commas_spec(filter).map_values(|k: Seq<char>| trim_spec(k))
}

/// Whether the filter keeps a record: a blank filter keeps everything, and
/// otherwise the record's message must contain some keyword,
/// case-insensitively.
pub open spec fn filter_keeps(filter: Seq<char>, row: Seq<Seq<char>>) -> bool {
    trim_spec(filter).len() == 0 || matches_keywords(row[3], filter_keywords(filter))
}

/// Exactly the records the filter keeps, in their original order.
pub open spec fn filtered_of(filter: Seq<char>, rows: Seq<Seq<Seq<char>>>) -> Seq<Seq<Seq<char>>> {
    rows.filter(|r: Seq<Seq<char>>| filter_keeps(filter, r))
}

/// Where the selection rests after a refilter: pinned to the newest record
/// while tailing, else back at the top.
pub open spec fn tail_sel(tail: bool, n: int) -> int {
    if tail && n > 0 {
        n - 1
    } else {
        0int
    }
}

/// One Normal tab after a refilter: the working set holds exactly the kept
/// records of the full set, the full set itself untouched.
pub open spec fn tab_filtered(pre: Tab, post: Tab, filter: Seq<char>, tail: bool) -> bool {
    &&& post.name == pre.name
    &&& post.file_path == pre.file_path
    &&& post.items == pre.items
    &&& post.last_file_size == pre.last_file_size
    &&& post.tab_type == pre.tab_type
    &&& post.filtered_view_items.rows() == filtered_of(filter, pre.items.rows())
    &&& post.filtered_view_items.selected_item_index as int == tail_sel(
        tail,
        filtered_of(filter, pre.items.rows()).len() as int,
    )
}

/// The tab list after a refilter: every Normal tab refiltered from its
/// full records, and the Combined tab rebuilt from the new working sets.
pub open spec fn filter_tabs_updated(pre: App, post: App, filter: Seq<char>) -> bool {
    &&& post.tabs@.len() == pre.tabs@.len()
    &&& forall|k: int|
        1 <= k < pre.tabs@.len() ==> tab_filtered(
            pre.tabs@[k],
            #[trigger] post.tabs@[k],
            filter,
            pre.tail_enabled,
        )
    &&& post.tabs@[0].name == pre.tabs@[0].name
    &&& post.tabs@[0].file_path == pre.tabs@[0].file_path
    &&& post.tabs@[0].last_file_size == pre.tabs@[0].last_file_size
    &&& post.tabs@[0].tab_type == pre.tabs@[0].tab_type
    &&& post.tabs@[0].filtered_view_items.rows() == combined_rows(post.tabs@)
    &&& post.tabs@[0].items.rows() == combined_rows(post.tabs@)
    &&& post.tabs@[0].filtered_view_items.selected_item_index as int == (if combined_rows(
        post.tabs@,
    ).len() > 0 {
        combined_rows(post.tabs@).len() - 1
    } else {
        0int
    })
    &&& post.tabs@[0].items.selected_item_index
        == post.tabs@[0].filtered_view_items.selected_item_index
}

/// The whole state after a refilter.
pub open spec fn filter_applied(pre: App, post: App, filter: Seq<char>) -> bool {
    &&& same_ui_fields(pre, post)
    &&& post.selected_tab_index == pre.selected_tab_index
    &&& filter_tabs_updated(pre, post, filter)
}

/// Keeps exactly the records whose message contains some trimmed,
/// case-folded keyword of `filter`; a blank filter keeps everything.
fn filter_rows(data: &Vec<LogEntry>, blank: bool, kws: &Vec<String>, Ghost(filter): Ghost<
    Seq<char>,
>) -> (r: Vec<LogEntry>)
    requires
        all_rows_wf(data.deep_view()),
        blank == (trim_spec(filter).len() == 0),
        kws.deep_view() == filter_keywords(filter),
    ensures
        r.deep_view() == filtered_of(filter, data.deep_view()),
        all_rows_wf(r.deep_view()),
{
    let ghost pred = |row: Seq<Seq<char>>| filter_keeps(filter, row);
    let ghost rows = data.deep_view();
    let m = data.len();
    let mut r: Vec<LogEntry> = Vec::new();
    let mut j: usize = 0;
    proof {
        assert(rows.take(0) =~= Seq::<Seq<Seq<char>>>::empty());
        crate::seq_util::lemma_filter_empty(pred);
        assert(r.deep_view() =~= Seq::<Seq<Seq<char>>>::empty());
    }
    while j < m
        invariant
            0 <= j <= m,
            m == data@.len(),
            rows == data.deep_view(),
            all_rows_wf(rows),
            blank == (trim_spec(filter).len() == 0),
            kws.deep_view() == filter_keywords(filter),
            pred == (|row: Seq<Seq<char>>| filter_keeps(filter, row)),
            r.deep_view() == rows.take(j as int).filter(pred),
            all_rows_wf(r.deep_view()),
        decreases m - j,
    {
        proof {
            assert(rows[j as int] == data@[j as int].deep_view());
            assert(rows[j as int][3] == data@[j as int]@[3]@);
            assert(rows[j as int].len() == 4);
        }
        let row = &data[j];
        let keep = if blank {
            true
        } else {
            matches_any(row[3].as_str(), kws)
        };
        let ghost before = r.deep_view();
        if keep {
            let copy = clone_row(row);
            r.push(copy);
            proof {
                assert(r.deep_view() =~= before.push(rows[j as int]));
            }
        }
        proof {
            assert(keep == pred(rows[j as int]));
            assert(rows.take(j + 1) =~= rows.take(j as int).push(rows[j as int]));
            crate::seq_util::lemma_filter_push(rows.take(j as int), pred, rows[j as int]);
            assert forall|k: int| 0 <= k < r.deep_view().len() implies (
            #[trigger] r.deep_view()[k]).len() == 4 by {
                if k < before.len() {
                    assert(r.deep_view()[k] == before[k]);
                } else {
                    assert(r.deep_view()[k] == rows[j as int]);
                }
            }
        }
        j = j + 1;
    }
    proof {
        assert(rows.take(m as int) =~= rows);
    }
    r
}

impl App {
    /// Refilters every Normal tab from its full records — a record stays
    /// exactly when its message contains one of the comma-separated,
    /// trimmed keywords as a case-insensitive substring, and a blank filter
    /// keeps every record in original order — then rebuilds the Combined
    /// tab. While tailing, each selection is pinned to the newest record.
    pub fn filter_by_current_input(&mut self, filter: String)
        requires
            old(self).wf(),
        ensures
            final(self).wf(),
            filter_applied(*old(self), *final(self), filter@),
    {
        let trimmed = trim_blanks(filter.as_str());
        let blank = trimmed.as_str().is_empty();
        let raw = split_commas(filter.as_str());
        let mut kws: Vec<String> = Vec::new();
        let rn = raw.len();
        let mut k: usize = 0;
        proof {
            assert(kws.deep_view() =~= raw.deep_view().take(0).map_values(
                |t: Seq<char>| trim_spec(t),
            ));
        }
        while k < rn
            invariant
                0 <= k <= rn,
                rn == raw@.len(),
                raw.deep_view() == split_commas_spec(filter@),
                kws.deep_view() == raw.deep_view().take(k as int).map_values(
                    |t: Seq<char>| trim_spec(t),
                ),
            decreases rn - k,
        {
            let t = trim_blanks(raw[k].as_str());
            let ghost before = kws.deep_view();
            kws.push(t);
            proof {
                assert(raw.deep_view()[k as int] == raw@[k as int]@);
                assert(raw.deep_view().take(k + 1) =~= raw.deep_view().take(k as int).push(
                    raw.deep_view()[k as int],
                ));
                assert(kws.deep_view() =~= before.push(t@));
                assert(raw.deep_view().take(k + 1).map_values(|t2: Seq<char>| trim_spec(t2))
                    =~= before.push(t@));
            }
            k = k + 1;
        }
        proof {
            assert(raw.deep_view().take(rn as int) =~= raw.deep_view());
        }
        let tail = self.tail_enabled;
        let n = self.tabs.len();
        let mut i: usize = 1;
        while i < n
            invariant
                1 <= i <= n,
                n == self.tabs@.len(),
                old(self).wf(),
                n == old(self).tabs@.len(),
                same_ui_fields(*old(self), *self),
                self.selected_tab_index == old(self).selected_tab_index,
                self.tabs@[0] == old(self).tabs@[0],
                tail == old(self).tail_enabled,
                blank == (trim_spec(filter@).len() == 0),
                kws.deep_view() == filter_keywords(filter@),
                forall|k2: int| i <= k2 < n ==> #[trigger] self.tabs@[k2] == old(self).tabs@[k2],
                forall|k2: int|
                    1 <= k2 < i ==> tab_filtered(
                        old(self).tabs@[k2],
                        #[trigger] self.tabs@[k2],
                        filter@,
                        tail,
                    ),
                forall|k2: int| 0 <= k2 < n ==> (#[trigger] self.tabs@[k2]).wf(),
            decreases n - i,
        {
            proof {
                assert(old(self).tabs@[i as int].wf());
            }
            let newdata = filter_rows(&self.tabs[i].items.data, blank, &kws, Ghost(filter@));
            let nd_len = newdata.len();
            let nsel = if tail && nd_len > 0 {
                nd_len - 1
            } else {
                0
            };
            let t = &mut self.tabs[i];
            t.filtered_view_items = TableItems { data: newdata, selected_item_index: nsel };
            i = i + 1;
        }
        proof {
            assert(self.tabs@[0].tab_type is Combined);
            assert forall|k2: int| 1 <= k2 < n implies (#[trigger] self.tabs@[k2].tab_type)
                is Normal by {
                assert(tab_filtered(old(self).tabs@[k2], self.tabs@[k2], filter@, tail));
            }
        }
        let ghost mid = *self;
        self.reload_combined_tab();
        proof {
            lemma_concat_same(mid.tabs@, self.tabs@, 0);
        }
    }
}

/// What the record-detail switch does: on a non-empty working set it pushes
/// a detail frame when a filter is active or the table view is on top, and
/// otherwise changes nothing.
pub open spec fn item_view_switched(pre: App, post: App) -> bool {
    let t = spec_working(pre);
    let pushed = pre.view_mode@.push(ViewMode::TableItem(t.selected_item_index));
    if t.rows().len() == 0 {
        post == pre
    } else if pre.filter_input_text.text_view().len() > 0 {
        post.view_mode@ == pushed && same_except_view_mode(pre, post)
    } else if pre.view_mode@.last() is Table {
        post.view_mode@ == pushed && same_except_view_mode(pre, post)
    } else {
        post == pre
    }
}

/// All fields but the view-mode stack are unchanged.
pub open spec fn same_except_view_mode(pre: App, post: App) -> bool {
    &&& post.running == pre.running
    &&& post.tabs == pre.tabs
    &&& post.selected_tab_index == pre.selected_tab_index
    &&& post.selected_input == pre.selected_input
    &&& post.filter_input_text == pre.filter_input_text
    &&& post.search_input_text == pre.search_input_text
    &&& post.view_buffer_size == pre.view_buffer_size
    &&& post.tail_enabled == pre.tail_enabled
    &&& post.copying_to_clipboard == pre.copying_to_clipboard
    &&& post.mouse_position == pre.mouse_position
    &&& post.last_key_input == pre.last_key_input
}

/// The padded one-line rendering of a record: timestamp left-aligned to 25
/// characters, level to 8, then the message.
pub open spec fn log_entry_text(row: Seq<Seq<char>>) -> Seq<char> {
    pad_spec(row[1], 25) + pad_spec(row[2], 8) + row[3]
}

/// The first record index of the screenful the selection sits in.
pub open spec fn view_start(app: App) -> int {
    (spec_working(app).selected_item_index as int / app.view_buffer_size as int)
        * app.view_buffer_size as int
}

/// One past the last record index of that screenful, clamped to the end.
pub open spec fn view_end(app: App) -> int {
    let n = spec_working(app).rows().len() as int;
    if view_start(app) + app.view_buffer_size <= n {
        view_start(app) + app.view_buffer_size
    } else {
        n
    }
}

/// The first Normal tab at or after `i` whose path is `path`, or the
/// number of tabs when none matches.
pub open spec fn first_tab_with_path(tabs: Seq<Tab>, path: Seq<char>, i: int) -> int
    decreases tabs.len() - i,
{
    if !(0 <= i < tabs.len()) {
        tabs.len() as int
    } else if tabs[i].tab_type is Normal && tabs[i].file_path@ == path {
        i
    } else {
        first_tab_with_path(tabs, path, i + 1)
    }
}

impl App {
    /// Closes the selected tab. The Combined tab cannot be closed; closing
    /// a Normal tab removes it, pulls the tab choice back when the last tab
    /// was selected, and rebuilds the Combined tab at once.
    pub fn close_current_tab(&mut self) -> (closed: bool)
        requires
            old(self).wf(),
        ensures
            final(self).wf(),
            !(old(self).tabs@[old(self).selected_tab_index as int].tab_type is Normal) ==> (!closed
                && *final(self) == *old(self)),
            old(self).tabs@[old(self).selected_tab_index as int].tab_type is Normal ==> (closed && ({
                let sel = old(self).selected_tab_index as int;
                let removed = old(self).tabs@.remove(sel);
                &&& final(self).selected_tab_index as int == (if sel == old(self).tabs@.len() - 1 {
                    sel - 1
                } else {
                    sel
                })
                &&& final(self).tabs@.len() == removed.len()
                &&& forall|k: int| 1 <= k < removed.len() ==> #[trigger] final(self).tabs@[k]
                    == removed[k]
                &&& final(self).tabs@[0].filtered_view_items.rows() == combined_rows(
                    final(self).tabs@,
                )
                &&& final(self).tabs@[0].items.rows() == combined_rows(final(self).tabs@)
                &&& final(self).tabs@[0].filtered_view_items.selected_item_index as int == (
                if combined_rows(final(self).tabs@).len() > 0 {
                    combined_rows(final(self).tabs@).len() - 1
                } else {
                    0int
                })
                &&& final(self).tabs@[0].name == old(self).tabs@[0].name
                &&& final(self).tabs@[0].tab_type == old(self).tabs@[0].tab_type
                &&& same_ui_fields(*old(self), *final(self))
            })),
    {
        let sel = self.selected_tab_index;
        let is_normal = match &self.tabs[sel].tab_type {
            TabType::Normal => true,
            TabType::Combined => false,
        };
        if !is_normal {
            return false;
        }
        proof {
            assert(self.tabs@[0].tab_type is Combined);
            assert(sel >= 1);
        }
        let n = self.tabs.len();
        if sel == n - 1 {
            self.selected_tab_index = sel - 1;
        }
        self.tabs.remove(sel);
        proof {
            let removed = old(self).tabs@.remove(sel as int);
            assert(self.tabs@ =~= removed);
            assert forall|k: int| 0 <= k < self.tabs@.len() implies (
            #[trigger] self.tabs@[k]).wf() by {
                if k < sel {
                    assert(self.tabs@[k] == old(self).tabs@[k]);
                } else {
                    assert(self.tabs@[k] == old(self).tabs@[k + 1]);
                }
            }
            assert forall|k: int| 1 <= k < self.tabs@.len() implies (
            #[trigger] self.tabs@[k].tab_type) is Normal by {
                if k < sel {
                    assert(self.tabs@[k] == old(self).tabs@[k]);
                } else {
                    assert(self.tabs@[k] == old(self).tabs@[k + 1]);
                }
            }
            assert(self.tabs@[0] == old(self).tabs@[0]);
        }
        let ghost mid = *self;
        self.reload_combined_tab();
        proof {
            lemma_concat_same(mid.tabs@, self.tabs@, 0);
        }
        true
    }

    /// Opens a new Normal tab, selects it, and rebuilds the Combined tab.
    pub fn add_tab(&mut self, tab: Tab)
        requires
            old(self).wf(),
            tab.wf(),
            tab.tab_type is Normal,
        ensures
            final(self).wf(),
            ({
                let grown = old(self).tabs@.push(tab);
                &&& final(self).tabs@.len() == grown.len()
                &&& forall|k: int| 1 <= k < grown.len() ==> #[trigger] final(self).tabs@[k]
                    == grown[k]
                &&& final(self).selected_tab_index as int == grown.len() - 1
                &&& final(self).tabs@[0].filtered_view_items.rows() == combined_rows(
                    final(self).tabs@,
                )
                &&& final(self).tabs@[0].items.rows() == combined_rows(final(self).tabs@)
                &&& final(self).tabs@[0].filtered_view_items.selected_item_index as int == (
                if combined_rows(final(self).tabs@).len() > 0 {
                    combined_rows(final(self).tabs@).len() - 1
                } else {
                    0int
                })
                &&& final(self).tabs@[0].name == old(self).tabs@[0].name
                &&& final(self).tabs@[0].tab_type == old(self).tabs@[0].tab_type
                &&& same_ui_fields(*old(self), *final(self))
            }),
    {
        self.tabs.push(tab);
        self.selected_tab_index = self.tabs.len() - 1;
        proof {
            assert(self.tabs@ =~= old(self).tabs@.push(tab));
            assert forall|k: int| 0 <= k < self.tabs@.len() implies (
            #[trigger] self.tabs@[k]).wf() by {
                if k < old(self).tabs@.len() {
                    assert(self.tabs@[k] == old(self).tabs@[k]);
                }
            }
            assert forall|k: int| 1 <= k < self.tabs@.len() implies (
            #[trigger] self.tabs@[k].tab_type) is Normal by {
                if k < old(self).tabs@.len() {
                    assert(self.tabs@[k] == old(self).tabs@[k]);
                }
            }
        }
        let ghost mid = *self;
        self.reload_combined_tab();
        proof {
            lemma_concat_same(mid.tabs@, self.tabs@, 0);
        }
    }

    /// Opens the full-text view of the selected record: always while a
    /// filter is being edited, otherwise only from the base table view.
    pub fn switch_to_item_view(&mut self)
        requires
            old(self).wf(),
        ensures
            final(self).wf(),
            item_view_switched(*old(self), *final(self)),
    {
        let sel = self.selected_tab_index;
        let len = self.tabs[sel].filtered_view_items.data.len();
        if len == 0 {
            return ;
        }
        let idx = self.tabs[sel].filtered_view_items.selected_item_index;
        let ft = self.filter_input_text.text();
        if !ft.as_str().is_empty() {
            self.view_mode.push(ViewMode::TableItem(idx));
            return ;
        }
        let vm_len = self.view_mode.len();
        let top_is_table = match &self.view_mode[vm_len - 1] {
            ViewMode::Table => true,
            ViewMode::SearchView => false,
            ViewMode::TableItem(_) => false,
        };
        proof {
            assert(old(self).view_mode@.last() == old(self).view_mode@[vm_len - 1]);
        }
        if top_is_table {
            self.view_mode.push(ViewMode::TableItem(idx));
        }
    }

    /// Pops one view-mode frame, never the base table view.
    pub fn back(&mut self)
        requires
            old(self).wf(),
        ensures
            final(self).wf(),
            old(self).view_mode@.len() > 1 ==> final(self).view_mode@ == old(
                self,
            ).view_mode@.drop_last() && same_except_view_mode(*old(self), *final(self)),
            old(self).view_mode@.len() <= 1 ==> *final(self) == *old(self),
    {
        if self.view_mode.len() > 1 {
            self.view_mode.pop();
        }
    }

    /// Acts on a click landing on the record at `item`: a click on the
    /// selection opens the record's full text; one on another visible
    /// record moves the selection there; one past the end does nothing.
    pub fn select_clicked_item(&mut self, item: usize)
        requires
            old(self).wf(),
        ensures
            final(self).wf(),
            item == spec_working(*old(self)).selected_item_index ==> item_view_switched(
                *old(self),
                *final(self),
            ),
            item != spec_working(*old(self)).selected_item_index && (item as int) < spec_working(
                *old(self),
            ).rows().len() ==> sel_update(*old(self), *final(self), item as int),
            item != spec_working(*old(self)).selected_item_index && (item as int) >= spec_working(
                *old(self),
            ).rows().len() ==> *final(self) == *old(self),
    {
        let sel = self.selected_tab_index;
        if item == self.tabs[sel].filtered_view_items.selected_item_index {
            self.switch_to_item_view();
        } else if item < self.tabs[sel].filtered_view_items.data.len() {
            let t = &mut self.tabs[sel];
            t.filtered_view_items.selected_item_index = item;
        }
    }

    /// The one-line text of the selected record: timestamp, level, message,
    /// the first two padded into fixed-width columns.
    pub fn selected_log_entry_in_text(&self) -> (r: String)
        requires
            self.wf(),
            spec_working(*self).rows().len() > 0,
        ensures
            r@ == log_entry_text(
                spec_working(*self).rows()[spec_working(*self).selected_item_index as int],
            ),
    {
        let sel = self.selected_tab_index;
        let idx = self.tabs[sel].filtered_view_items.selected_item_index;
        proof {
            assert(self.tabs@[sel as int].wf());
            assert(spec_working(*self).rows()[idx as int]
                == self.tabs@[sel as int].filtered_view_items.data@[idx as int].deep_view());
            assert(spec_working(*self).rows()[idx as int].len() == 4);
            assert(spec_working(*self).rows()[idx as int][1]
                == self.tabs@[sel as int].filtered_view_items.data@[idx as int]@[1]@);
            assert(spec_working(*self).rows()[idx as int][2]
                == self.tabs@[sel as int].filtered_view_items.data@[idx as int]@[2]@);
            assert(spec_working(*self).rows()[idx as int][3]
                == self.tabs@[sel as int].filtered_view_items.data@[idx as int]@[3]@);
        }
        let row = &self.tabs[sel].filtered_view_items.data[idx];
        let mut r = pad_right(row[1].as_str(), 25);
        let level = pad_right(row[2].as_str(), 8);
        r.append(level.as_str());
        r.append(row[3].as_str());
        r
    }

    /// The window of records the table should draw: the screenful the
    /// selection sits in, empty when the working set is empty.
    pub fn get_view_buffer_range(&self) -> (r: (usize, usize))
        requires
            self.wf(),
        ensures
            spec_working(*self).rows().len() == 0 ==> r.0 == 0 && r.1 == 0,
            spec_working(*self).rows().len() > 0 ==> r.0 as int == view_start(*self) && r.1 as int
                == view_end(*self) && r.0 <= spec_working(*self).selected_item_index < r.1,
    {
        let sel = self.selected_tab_index;
        let num = self.tabs[sel].filtered_view_items.data.len();
        if num == 0 {
            return (0, 0);
        }
        let i = self.tabs[sel].filtered_view_items.selected_item_index;
        let vbs = self.view_buffer_size;
        let chunk = i / vbs;
        proof {
            vstd::arithmetic::div_mod::lemma_fundamental_div_mod(i as int, vbs as int);
            vstd::arithmetic::div_mod::lemma_mod_bound(i as int, vbs as int);
            assert(chunk as int == i as int / vbs as int);
            assert((vbs as int) * (chunk as int) == i as int - (i as int) % (vbs as int));
            assert((chunk as int) * (vbs as int) == (vbs as int) * (chunk as int));
            assert((chunk as int) * (vbs as int) <= i as int);
            assert((i as int) < (chunk as int) * (vbs as int) + (vbs as int));
        }
        let start = chunk * vbs;
        let remaining = num - start;
        let end = if remaining > vbs {
            start + vbs
        } else {
            num
        };
        (start, end)
    }

    /// The selection's row position inside the drawn window.
    pub fn calculate_position_in_view_buffer(&self) -> (r: usize)
        requires
            self.wf(),
        ensures
            spec_working(*self).rows().len() == 0 ==> r == 0,
            spec_working(*self).rows().len() > 0 ==> r as int == spec_working(
                *self,
            ).selected_item_index - view_start(*self),
    {
        let sel = self.selected_tab_index;
        let num = self.tabs[sel].filtered_view_items.data.len();
        if num == 0 {
            return 0;
        }
        let (start, _end) = self.get_view_buffer_range();
        let i = self.tabs[sel].filtered_view_items.selected_item_index;
        i - start
    }

    /// What the tail monitor should watch this cycle: every Normal tab's
    /// path and the file size it was last read at.
    pub fn tail_snapshot(&self) -> (r: Vec<(String, usize)>)
        requires
            self.wf(),
        ensures
            r@.len() == self.tabs@.len() - 1,
            forall|k: int|
                0 <= k < r@.len() ==> (#[trigger] r@[k]).0@ == self.tabs@[k + 1].file_path@
                    && r@[k].1 == self.tabs@[k + 1].last_file_size,
    {
        let n = self.tabs.len();
        let mut r: Vec<(String, usize)> = Vec::new();
        let mut k: usize = 1;
        while k < n
            invariant
                1 <= k <= n,
                n == self.tabs@.len(),
                r@.len() == k - 1,
                forall|k2: int|
                    0 <= k2 < r@.len() ==> (#[trigger] r@[k2]).0@ == self.tabs@[k2 + 1].file_path@
                        && r@[k2].1 == self.tabs@[k2 + 1].last_file_size,
            decreases n - k,
        {
            r.push((self.tabs[k].file_path.clone(), self.tabs[k].last_file_size));
            k = k + 1;
        }
        r
    }

    /// Whether a watched file warrants a reload: any size change does.
    pub fn tail_should_reload(last_known: usize, current: usize) -> (r: bool)
        ensures
            r == (current != last_known),
    {
        current != last_known
    }

    /// Commits one tail re-parse: the first Normal tab with this path takes
    /// the fresh full records, its selection on the newest record, and
    /// remembers the new file size. Callers re-apply the filter afterwards,
    /// as the monitor does.
    pub fn commit_tail_data(&mut self, file_path: &str, data: Vec<LogEntry>, file_size: usize)
        requires
            old(self).wf(),
            all_rows_wf(data.deep_view()),
        ensures
            final(self).wf(),
            ({
                let idx = first_tab_with_path(old(self).tabs@, file_path@, 0);
                &&& same_ui_fields(*old(self), *final(self))
                &&& final(self).selected_tab_index == old(self).selected_tab_index
                &&& final(self).tabs@.len() == old(self).tabs@.len()
                &&& forall|k: int|
                    0 <= k < old(self).tabs@.len() && k != idx ==> #[trigger] final(self).tabs@[k]
                        == old(self).tabs@[k]
                &&& idx < old(self).tabs@.len() ==> ({
                    let pre = old(self).tabs@[idx];
                    let post = final(self).tabs@[idx];
                    &&& post.items.rows() == data.deep_view()
                    &&& post.items.selected_item_index as int == (if data.deep_view().len() > 0 {
                        data.deep_view().len() - 1
                    } else {
                        0int
                    })
                    &&& post.last_file_size == file_size
                    &&& post.filtered_view_items == pre.filtered_view_items
                    &&& post.name == pre.name
                    &&& post.file_path == pre.file_path
                    &&& post.tab_type == pre.tab_type
                })
            }),
    {
        let n = self.tabs.len();
        let mut k: usize = 0;
        while k < n
            invariant
                0 <= k <= n,
                n == self.tabs@.len(),
                *self == *old(self),
                old(self).wf(),
                all_rows_wf(data.deep_view()),
                first_tab_with_path(old(self).tabs@, file_path@, 0) == first_tab_with_path(
                    old(self).tabs@,
                    file_path@,
                    k as int,
                ),
            ensures
                0 <= k <= n,
                *self == *old(self),
                first_tab_with_path(old(self).tabs@, file_path@, 0) == (if k < n {
                    k as int
                } else {
                    old(self).tabs@.len() as int
                }),
            decreases n - k,
        {
            if k >= n {
                break ;
            }
            let is_normal = match &self.tabs[k].tab_type {
                TabType::Normal => true,
                TabType::Combined => false,
            };
            if is_normal && crate::strutil::str_eq(self.tabs[k].file_path.as_str(), file_path) {
                break ;
            }
            k = k + 1;
        }
        if k >= n {
            return ;
        }
        let len = data.len();
        let nsel = if len > 0 {
            len - 1
        } else {
            0
        };
        let t = &mut self.tabs[k];
        t.items = TableItems { data, selected_item_index: nsel };
        t.last_file_size = file_size;
        proof {
            assert forall|k2: int| 0 <= k2 < self.tabs@.len() implies (
            #[trigger] self.tabs@[k2]).wf() by {
                if k2 != k {
                    assert(self.tabs@[k2] == old(self).tabs@[k2]);
                    assert(old(self).tabs@[k2].wf());
                } else {
                    assert(old(self).tabs@[k2].wf());
                }
            }
            assert forall|k2: int| 1 <= k2 < self.tabs@.len() implies (
            #[trigger] self.tabs@[k2].tab_type) is Normal by {
                assert(old(self).tabs@[k2].tab_type is Normal);
            }
        }
    }
}

/// The rows carrying timestamp `t`, in order.
pub open spec fn rows_with_ts(rows: Seq<Seq<Seq<char>>>, t: Seq<char>) -> Seq<Seq<Seq<char>>> {
    rows.filter(|r: Seq<Seq<char>>| crate::sorting::ts_of(r) == t)
}

proof fn lemma_search_fwd_none(rows: Seq<Seq<Seq<char>>>, kws: Seq<Seq<char>>, j: int)
    requires
        forall|k: int|
            0 <= k < rows.len() ==> !matches_keywords((#[trigger] rows[k])[3], kws),
    ensures
        search_fwd(rows, kws, j) == rows.len(),
    decreases rows.len() - j,
{
    if 0 <= j < rows.len() {
        lemma_search_fwd_none(rows, kws, j + 1);
    }
}

proof fn lemma_search_back_none(rows: Seq<Seq<Seq<char>>>, kws: Seq<Seq<char>>, j: int)
    requires
        forall|k: int|
            0 <= k < rows.len() ==> !matches_keywords((#[trigger] rows[k])[3], kws),
    ensures
        search_back(rows, kws, j) == -1,
    decreases j + 1,
{
    if 0 <= j < rows.len() {
        lemma_search_back_none(rows, kws, j - 1);
    }
}

/// A failed search is a no-op: when no record's message matches any
/// keyword of a non-empty search text, stepping forward or backward with
/// that search leaves the selection exactly where it was.
pub proof fn lemma_search_no_match_no_op(
    rows: Seq<Seq<Seq<char>>>,
    search: Seq<char>,
    i: int,
)
    requires
        search.len() > 0,
        0 <= i < rows.len(),
        forall|k: int|
            0 <= k < rows.len() ==> !matches_keywords(
                (#[trigger] rows[k])[3],
                split_commas_spec(search),
            ),
    ensures
        next_sel(rows, Some(search), i) == i,
        prev_sel(rows, Some(search), i) == i,
{
    lemma_search_fwd_none(rows, split_commas_spec(search), i + 1);
    lemma_search_back_none(rows, split_commas_spec(search), i - 1);
}

/// Combined ordering: what the Combined tab shows is every Normal tab's
/// working rows in ascending lexicographic timestamp order — the very same
/// rows, none lost, none added — and rows with equal timestamps keep the
/// order the concatenation gave them.
pub proof fn lemma_combined_rows_ordered(tabs: Seq<Tab>)
    ensures
        crate::sorting::sorted_by_ts(combined_rows(tabs)),
        combined_rows(tabs).to_multiset() == concat_working_from(tabs, 0).to_multiset(),
        combined_rows(tabs).len() == concat_working_from(tabs, 0).len(),
        forall|t: Seq<char>|
            #[trigger] rows_with_ts(combined_rows(tabs), t) == rows_with_ts(
                concat_working_from(tabs, 0),
                t,
            ),
{
    let rows = concat_working_from(tabs, 0);
    crate::sorting::lemma_sort_sorted(rows);
    crate::sorting::lemma_sort_permutes(rows);
    assert forall|t: Seq<char>|
        #[trigger] rows_with_ts(combined_rows(tabs), t) == rows_with_ts(
            concat_working_from(tabs, 0),
            t,
        ) by {
        crate::sorting::lemma_sort_stable(rows, t);
    }
}

impl App {
    /// Whether the application should keep running.
    pub fn running(&self) -> (r: &bool)
        ensures
            r == &self.running,
    {
        &self.running
    }

    /// The open tabs, the Combined tab first.
    pub fn tabs(&self) -> (r: &Vec<Tab>)
        ensures
            r == &self.tabs,
    {
        &self.tabs
    }

    /// Which tab is shown.
    pub fn selected_tab_index(&self) -> (r: usize)
        ensures
            r == self.selected_tab_index,
    {
        self.selected_tab_index
    }

    /// Whether tail mode is on.
    pub fn tail_enabled(&self) -> (r: bool)
        ensures
            r == self.tail_enabled,
    {
        self.tail_enabled
    }

    /// Turns tail mode on or off.
    pub fn set_tail_enabled(&mut self, tail_enabled: bool)
        ensures
            *final(self) == (App { tail_enabled, ..*old(self) }),
    {
        self.tail_enabled = tail_enabled;
    }

    /// How many records one screenful holds.
    pub fn view_buffer_size(&self) -> (r: usize)
        ensures
            r == self.view_buffer_size,
    {
        self.view_buffer_size
    }

    /// The filter text box.
    pub fn filter_input_text(&self) -> (r: &InputTextElement)
        ensures
            r == &self.filter_input_text,
    {
        &self.filter_input_text
    }

    /// The search text box.
    pub fn search_input_text(&self) -> (r: &InputTextElement)
        ensures
            r == &self.search_input_text,
    {
        &self.search_input_text
    }

    /// The view-mode stack, base first.
    pub fn view_mode(&self) -> (r: &Vec<ViewMode>)
        ensures
            r == &self.view_mode,
    {
        &self.view_mode
    }

    /// Which text box owns the keyboard.
    pub fn selected_input(&self) -> (r: &Option<SelectedInput>)
        ensures
            r == &self.selected_input,
    {
        &self.selected_input
    }
}

impl App {
    /// Which record a click on table row `mouse_row` lands on: rows start two
    /// screen lines under the table's top edge, and the table shows the window
    /// from `view_start` scrolled by `offset`. Clicks above the first row land
    /// nowhere; the index saturates rather than wraps.
    pub fn clicked_item_index(view_start: usize, offset: usize, mouse_row: u16, table_top: u16) -> (r:
    Option<usize>)
    ensures
        (mouse_row as int) < table_top + 2 ==> r is None,
        (mouse_row as int) >= table_top + 2 ==> (r matches Some(i) && i as int == (
        if view_start + offset + (mouse_row - table_top - 2) <= usize::MAX {
            view_start + offset + (mouse_row - table_top - 2)
        } else {
            usize::MAX as int
        })),
{
    if (mouse_row as usize) < (table_top as usize) + 2 {
        return None;
    }
    let d = (mouse_row as usize) - (table_top as usize) - 2;
    let a = if view_start <= usize::MAX - offset {
        view_start + offset
    } else {
        usize::MAX
    };
    let b = if a <= usize::MAX - d {
        a + d
    } else {
        usize::MAX
    };
    Some(b)
    }
}

} // verus!
