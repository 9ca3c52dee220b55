//! The decisions behind the controls: which buttons are enabled, what a row
//! offers, how a click on a column header changes the order, and what a
//! confirmed deletion starts.

use crate::cache::{CacheModel, StalenessCache};
use crate::models::{codes_model, EntryModel, VacEntry};
use crate::table::EntryTable;
use crate::text::{decimal, decimal_text};
use crate::view::SortColumn;
use vstd::prelude::*;
use vstd::string::*;

verus! {

/// The column and direction the list is ordered by.
#[derive(Clone, Copy, Debug, PartialEq, Eq, Structural)]
pub struct SortState {
    pub column: SortColumn,
    pub ascending: bool,
}

impl SortState {
    /// By code, ascending.
    pub fn new() -> (out: Self)
        ensures
            out == (SortState { column: SortColumn::Oaci, ascending: true }),
    {
        SortState { column: SortColumn::Oaci, ascending: true }
    }

    /// The order after a click on the header of `column`: a click on the
    /// active column turns the direction round, a click on the other column
    /// makes it the active one, ascending.
    pub open spec fn clicked(self, column: SortColumn) -> SortState {
        if self.column == column {
            SortState { column, ascending: !self.ascending }
        } else {
            SortState { column, ascending: true }
        }
    }

    /// A click on the header of `column`.
    pub fn click(&mut self, column: SortColumn)
        ensures
            *final(self) == old(self).clicked(column),
    {
        if self.column == column {
            self.ascending = !self.ascending;
        } else {
            self.column = column;
            self.ascending = true;
        }
    }

    /// The caption of the header of `column`: its name, and on the active
    /// column an arrow for the direction.
    pub open spec fn caption(self, column: SortColumn) -> Seq<char> {
        let name = match column {
            SortColumn::Oaci => "OACI Code"@,
            SortColumn::City => "City"@,
        };
        if self.column != column {
            name
        } else if self.ascending {
            name + " ^"@
        } else {
            name + " v"@
        }
    }

    /// The caption of the header of `column`.
    pub fn header(&self, column: SortColumn) -> (out: String)
        ensures
            out@ == self.caption(column),
    {
        let mut out = match column {
            SortColumn::Oaci => String::from_str("OACI Code"),
            SortColumn::City => String::from_str("City"),
        };
        if self.column == column {
            if self.ascending {
                out.append(" ^");
            } else {
                out.append(" v");
            }
        }
        out
    }
}

/// Which buttons of the toolbar can be pressed.
#[derive(Clone, Copy, Debug, PartialEq, Eq, Structural)]
pub struct Toolbar {
    pub refresh: bool,
    pub download_all: bool,
    pub download_selected: bool,
    pub delete_selected: bool,
    pub save: bool,
}

/// The toolbar for a table, given whether an operation is under way:
/// nothing starts while one is, and the buttons for the selection need a
/// selection.
pub fn toolbar(busy: bool, table: &EntryTable) -> (out: Toolbar)
    ensures
        out.refresh == !busy,
        out.download_all == !busy,
        out.save == !busy,
        out.download_selected == (!busy && exists|i: int|
            0 <= i < table@.len() && (#[trigger] table@[i]).selected),
        out.delete_selected == (!busy && exists|i: int|
            0 <= i < table@.len() && (#[trigger] table@[i]).selected
                && table@[i].entry.available_locally),
{
    let free = !busy;
    Toolbar {
        refresh: free,
        download_all: free,
        download_selected: free && table.has_selection(),
        delete_selected: free && table.has_local_selection(),
        save: free,
    }
}

/// What the list shows of a row's local copy.
#[derive(Clone, Copy, Debug, PartialEq, Eq, Structural)]
pub enum LocalBadge {
    /// There is no local copy.
    Missing,
    /// There is a local copy, and nothing says it is stale.
    Current,
    /// The local copy is known to be stale.
    Outdated,
}

/// What a row offers.
#[derive(Clone, Copy, Debug, PartialEq, Eq, Structural)]
pub struct RowControls {
    pub badge: LocalBadge,
    /// The chart can be opened.
    pub can_open: bool,
    /// The row shows the buttons to update and to delete.
    pub has_actions: bool,
    /// The button to update can be pressed.
    pub can_update: bool,
    /// The button to delete can be pressed.
    pub can_delete: bool,
    /// A probe of the staleness of the local copy is to be started.
    pub start_probe: bool,
}

/// What the row of `entry` offers, given the cache and whether an operation
/// is under way. Only a row with a local copy offers anything; its verdict
/// is looked up, and where nothing is known and no probe is under way, one
/// is to be started. While an operation is under way neither button of the
/// row can be pressed.
pub open spec fn row_controls_of(entry: EntryModel, cache: CacheModel, busy: bool) -> RowControls {
    if !entry.available_locally {
        RowControls {
            badge: LocalBadge::Missing,
            can_open: false,
            has_actions: false,
            can_update: false,
            can_delete: false,
            start_probe: false,
        }
    } else {
        let stale = cache.lookup(entry.oaci) == Some(true);
        RowControls {
            badge: if stale {
                LocalBadge::Outdated
            } else {
                LocalBadge::Current
            },
            can_open: true,
            has_actions: true,
            can_update: !busy && stale,
            can_delete: !busy,
            start_probe: cache.wants_probe(entry.oaci),
        }
    }
}

/// What the row of `entry` offers. Where a probe is to be started the cache
/// notes it as under way, so that the next pass starts none.
pub fn row_controls(entry: &VacEntry, cache: &mut StalenessCache, busy: bool) -> (out: RowControls)
    ensures
        out == row_controls_of(entry@, old(cache)@, busy),
        final(cache)@ == (if out.start_probe {
            old(cache)@.probing(entry@.oaci)
        } else {
            old(cache)@
        }),
{
    if !entry.available_locally {
        return RowControls {
            badge: LocalBadge::Missing,
            can_open: false,
            has_actions: false,
            can_update: false,
            can_delete: false,
            start_probe: false,
        };
    }
    let stale = match cache.lookup(entry.oaci.as_str()) {
        Some(verdict) => verdict,
        None => false,
    };
    let start_probe = cache.request_probe(entry.oaci.as_str());
    RowControls {
        badge: if stale {
            LocalBadge::Outdated
        } else {
            LocalBadge::Current
        },
        can_open: true,
        has_actions: true,
        can_update: !busy && stale,
        can_delete: !busy,
        start_probe,
    }
}

/// What a confirmed deletion starts.
#[derive(Debug, PartialEq, Eq)]
pub enum DeleteIntent {
    /// The deletion of this one code.
    One(String),
    /// The deletion of the selected rows that have a local copy.
    Selected,
}

/// Model of a [`DeleteIntent`].
pub enum DeleteIntentModel {
    One(Seq<char>),
    Selected,
}

impl View for DeleteIntent {
    type V = DeleteIntentModel;

    open spec fn view(&self) -> DeleteIntentModel {
        match self {
            DeleteIntent::One(code) => DeleteIntentModel::One(code@),
            DeleteIntent::Selected => DeleteIntentModel::Selected,
        }
    }
}

/// What the confirmation of a deletion of `codes` starts: nothing while an
/// operation is under way; else for a single code the deletion of that one,
/// and for any other number the deletion of the selection.
pub fn confirmed_delete(codes: &Vec<String>, busy: bool) -> (out: Option<DeleteIntent>)
    ensures
        match out {
            Some(intent) => !busy && intent@ == (if codes@.len() == 1 {
                DeleteIntentModel::One(codes@[0]@)
            } else {
                DeleteIntentModel::Selected
            }),
            None => busy,
        },
{
    if busy {
        None
    } else if codes.len() == 1 {
        Some(DeleteIntent::One(codes[0].clone()))
    } else {
        Some(DeleteIntent::Selected)
    }
}

/// `parts`, with `", "` between one and the next.
pub open spec fn listed(parts: Seq<Seq<char>>) -> Seq<char>
    decreases parts.len(),
{
    if parts.len() == 0 {
        Seq::empty()
    } else if parts.len() == 1 {
        parts[0]
    } else {
        listed(parts.drop_last()) + ", "@ + parts.last()
    }
}

/// The question and, for more than one code, the list that the confirmation
/// of a deletion of `codes` shows.
pub open spec fn confirmation_lines(codes: Seq<Seq<char>>) -> Seq<Seq<char>> {
    if codes.len() == 1 {
        seq!["Are you sure you want to delete "@ + codes[0] + "?"@]
    } else {
        seq![
            "Are you sure you want to delete "@ + decimal(codes.len()) + " VAC entries?"@,
            "Entries: "@ + listed(codes),
        ]
    }
}

/// Writes `parts` with `", "` between one and the next.
pub fn join_codes(parts: &Vec<String>) -> (out: String)
    ensures
        out@ == listed(codes_model(parts@)),
{
    let ghost texts = codes_model(parts@);
    let mut out = String::new();
    let n = parts.len();
    let mut i: usize = 0;
    assert(texts.take(0) =~= Seq::<Seq<char>>::empty());
    while i < n
        invariant
            i <= n,
            n == parts@.len(),
            texts == codes_model(parts@),
            out@ == listed(texts.take(i as int)),
        decreases n - i,
    {
        proof {
            assert(texts.take(i + 1).drop_last() =~= texts.take(i as int));
            assert(texts.take(i + 1).last() == parts@[i as int]@);
            if i == 0 {
                assert(texts.take(1)[0] == parts@[0]@);
                assert(Seq::<char>::empty() + parts@[0]@ =~= parts@[0]@);
            }
        }
        if i > 0 {
            out.append(", ");
        }
        out.append(parts[i].as_str());
        i += 1;
    }
    assert(texts.take(n as int) =~= texts);
    out
}

/// The lines that the confirmation of a deletion of `codes` shows.
pub fn confirmation(codes: &Vec<String>) -> (out: Vec<String>)
    ensures
        codes_model(out@) == confirmation_lines(codes_model(codes@)),
{
    let mut out: Vec<String> = Vec::new();
    if codes.len() == 1 {
        let mut question = String::from_str("Are you sure you want to delete ");
        question.append(codes[0].as_str());
        question.append("?");
        out.push(question);
        assert(codes_model(codes@)[0] == codes@[0]@);
        assert(codes_model(out@) =~= confirmation_lines(codes_model(codes@)));
    } else {
        let mut question = String::from_str("Are you sure you want to delete ");
        question.append(decimal_text(codes.len()).as_str());
        question.append(" VAC entries?");
        let mut entries = String::from_str("Entries: ");
        entries.append(join_codes(codes).as_str());
        out.push(question);
        out.push(entries);
        assert(codes_model(out@) =~= confirmation_lines(codes_model(codes@)));
    }
    out
}

/// What the list says above itself while a search is on: how many rows are
/// shown, of how many.
pub open spec fn summary(shown: nat, total: nat) -> Seq<char> {
    "Showing "@ + decimal(shown) + " of "@ + decimal(total) + " entries"@
}

/// Writes how many rows are shown, of how many.
pub fn shown_summary(shown: usize, total: usize) -> (out: String)
    ensures
        out@ == summary(shown as nat, total as nat),
{
    let mut out = String::from_str("Showing ");
    out.append(decimal_text(shown).as_str());
    out.append(" of ");
    out.append(decimal_text(total).as_str());
    out.append(" entries");
    out
}

} // verus!
