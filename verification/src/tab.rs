//! One open log source: its full record set, the working (possibly
//! filtered) subset the view shows, and the bookkeeping the tail monitor
//! needs. Index 0 of the application's tab list is always the synthetic
//! Combined tab.

use vstd::prelude::*;

use crate::parser::LogEntry;
use crate::strutil::file_name_of;
use crate::strutil::file_name_spec;

verus! {

/// A record set plus a selection cursor into it.
#[derive(Clone)]
pub struct TableItems {
    pub data: Vec<LogEntry>,
    pub selected_item_index: usize,
}

impl TableItems {
    /// The records as plain character sequences.
    pub open spec fn rows(&self) -> Seq<Seq<Seq<char>>> {
        self.data.deep_view()
    }

    /// The selection stays inside the records when there are any and rests
    /// at 0 when there are none; every record has its four columns.
    pub open spec fn wf(&self) -> bool {
        &&& self.rows().len() == 0 ==> self.selected_item_index == 0
        &&& self.rows().len() > 0 ==> (self.selected_item_index as int) < self.rows().len()
        &&& crate::sorting::all_rows_wf(self.rows())
    }

    /// An empty record set.
    pub fn new_empty() -> (r: TableItems)
        ensures
            r.wf(),
            r.rows() == Seq::<Seq<Seq<char>>>::empty(),
            r.selected_item_index == 0,
    {
        let r = TableItems { data: Vec::new(), selected_item_index: 0 };
        proof {
            assert(r.rows() =~= Seq::<Seq<Seq<char>>>::empty());
        }
        r
    }

    /// A record set over `data` with the selection at 0.
    pub fn new(data: Vec<LogEntry>) -> (r: TableItems)
        requires
            crate::sorting::all_rows_wf(data.deep_view()),
            data.deep_view().len() > 0,
        ensures
            r.wf(),
            r.rows() == data.deep_view(),
            r.selected_item_index == 0,
    {
        TableItems { data, selected_item_index: 0 }
    }
}

/// Copies one record.
pub fn clone_row(row: &LogEntry) -> (r: LogEntry)
    ensures
        r@ == row@,
        r.deep_view() == row.deep_view(),
{
    let mut r: Vec<String> = Vec::new();
    let n = row.len();
    let mut i: usize = 0;
    while i < n
        invariant
            0 <= i <= n,
            n == row@.len(),
            r@ == row@.take(i as int),
        decreases n - i,
    {
        proof {
            assert(row@.take(i + 1) =~= row@.take(i as int).push(row@[i as int]));
        }
        r.push(row[i].clone());
        i = i + 1;
    }
    proof {
        assert(row@.take(n as int) =~= row@);
        assert(r.deep_view() =~= row.deep_view());
    }
    r
}

/// Copies a record list.
pub fn clone_rows(rows: &Vec<LogEntry>) -> (r: Vec<LogEntry>)
    ensures
        r.deep_view() == rows.deep_view(),
{
    let mut r: Vec<LogEntry> = Vec::new();
    let n = rows.len();
    let mut i: usize = 0;
    proof {
        assert(r.deep_view() =~= rows.deep_view().take(0));
    }
    while i < n
        invariant
            0 <= i <= n,
            n == rows@.len(),
            r.deep_view() == rows.deep_view().take(i as int),
        decreases n - i,
    {
        let ghost before = r.deep_view();
        let row = clone_row(&rows[i]);
        proof {
            assert(rows.deep_view()[i as int] == rows@[i as int].deep_view());
        }
        r.push(row);
        proof {
            assert(r.deep_view() =~= before.push(row.deep_view()));
            assert(rows.deep_view().take(i + 1) =~= rows.deep_view().take(i as int).push(
                rows.deep_view()[i as int],
            ));
        }
        i = i + 1;
    }
    proof {
        assert(rows.deep_view().take(n as int) =~= rows.deep_view());
    }
    r
}

/// Whether a tab is a real file or the synthetic merged view.
pub enum TabType {
    Normal,
    Combined,
}

/// One open log source.
pub struct Tab {
    pub name: String,
    pub file_path: String,
    pub items: TableItems,
    pub filtered_view_items: TableItems,
    pub last_file_size: usize,
    pub tab_type: TabType,
}

impl Tab {
    /// Both record sets are well formed.
    pub open spec fn wf(&self) -> bool {
        &&& self.items.wf()
        &&& self.filtered_view_items.wf()
    }

    /// Builds a tab over one parsed record set; the working set starts as a
    /// copy of the full set. A Combined tab carries no path and no size;
    /// a Normal tab shows the file-name part of its path and remembers
    /// `last_file_size`, the byte size its file had when it was read.
    pub fn new(file_path: String, table_items: TableItems, tab_type: TabType, last_file_size: usize) -> (r: Tab)
        requires
            table_items.wf(),
        ensures
            r.wf(),
            r.items.rows() == table_items.rows(),
            r.items.selected_item_index == table_items.selected_item_index,
            r.filtered_view_items.rows() == table_items.rows(),
            r.filtered_view_items.selected_item_index == table_items.selected_item_index,
            r.tab_type == tab_type,
            tab_type is Combined ==> r.name@ == " [Combined] "@ && r.file_path@.len() == 0
                && r.last_file_size == 0,
            tab_type is Normal ==> r.name@ == " ["@ + file_name_spec(file_path@) + "] "@
                && r.file_path@ == file_path@ && r.last_file_size == last_file_size,
    {
        let filtered = TableItems {
            data: clone_rows(&table_items.data),
            selected_item_index: table_items.selected_item_index,
        };
        match tab_type {
            TabType::Combined => Tab {
                name: String::from_str(" [Combined] "),
                file_path: String::new(),
                items: table_items,
                filtered_view_items: filtered,
                last_file_size: 0,
                tab_type,
            },
            TabType::Normal => {
                let base = file_name_of(file_path.as_str());
                let mut name = String::from_str(" [");
                name.append(base.as_str());
                name.append("] ");
                Tab {
                    name,
                    file_path,
                    items: table_items,
                    filtered_view_items: filtered,
                    last_file_size,
                    tab_type,
                }
            },
        }
    }

    /// The full record set.
    pub fn items(&self) -> (r: &TableItems)
        ensures
            r == &self.items,
    {
        &self.items
    }

    /// The full record set, for writing.
    pub fn items_mut(&mut self) -> (r: &mut TableItems)
        ensures
            *r == old(self).items,
            *final(self) == (Tab { items: *final(r), ..*old(self) }),
    {
        &mut self.items
    }
}

} // verus!
