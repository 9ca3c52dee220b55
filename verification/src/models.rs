//! The data the coordination layer works on: catalog entries, table rows and
//! the status of the current operation, each with its mathematical model.

use crate::text::{decimal, decimal_text};
use vstd::prelude::*;
use vstd::string::*;

verus! {

/// A catalog entry as the backend lists it: an ICAO code that identifies it,
/// the city it is shown under, and whether a local copy exists.
#[derive(Debug, PartialEq, Eq)]
pub struct VacEntry {
    pub oaci: String,
    pub city: String,
    pub available_locally: bool,
}

/// Model of a [`VacEntry`].
pub struct EntryModel {
    pub oaci: Seq<char>,
    pub city: Seq<char>,
    pub available_locally: bool,
}

impl View for VacEntry {
    type V = EntryModel;

    open spec fn view(&self) -> EntryModel {
        EntryModel {
            oaci: self.oaci@,
            city: self.city@,
            available_locally: self.available_locally,
        }
    }
}

impl Clone for VacEntry {
    fn clone(&self) -> (out: Self)
        ensures
            out@ == self@,
    {
        VacEntry {
            oaci: self.oaci.clone(),
            city: self.city.clone(),
            available_locally: self.available_locally,
        }
    }
}

/// A catalog entry together with its selection flag.
#[derive(Debug, PartialEq, Eq)]
pub struct VacEntryWithSelection {
    /// The entry as last listed.
    pub entry: VacEntry,
    /// Whether the user has ticked this row.
    pub selected: bool,
}

/// Model of a [`VacEntryWithSelection`].
pub struct RowModel {
    pub entry: EntryModel,
    pub selected: bool,
}

impl View for VacEntryWithSelection {
    type V = RowModel;

    open spec fn view(&self) -> RowModel {
        RowModel { entry: self.entry@, selected: self.selected }
    }
}

impl Clone for VacEntryWithSelection {
    fn clone(&self) -> (out: Self)
        ensures
            out@ == self@,
    {
        VacEntryWithSelection { entry: self.entry.clone(), selected: self.selected }
    }
}

impl VacEntryWithSelection {
    /// A row for `entry`, not selected.
    pub fn new(entry: VacEntry) -> (out: Self)
        ensures
            out@ == (RowModel { entry: entry@, selected: false }),
    {
        VacEntryWithSelection { entry, selected: false }
    }
}

/// The models of a sequence of entries.
pub open spec fn entries_model(entries: Seq<VacEntry>) -> Seq<EntryModel> {
    entries.map_values(|e: VacEntry| e@)
}

/// The models of a sequence of rows.
pub open spec fn rows_model(rows: Seq<VacEntryWithSelection>) -> Seq<RowModel> {
    rows.map_values(|r: VacEntryWithSelection| r@)
}

/// The texts of a sequence of strings.
pub open spec fn codes_model(codes: Seq<String>) -> Seq<Seq<char>> {
    codes.map_values(|c: String| c@)
}

/// Appending a row appends its model.
pub proof fn lemma_rows_model_push(rows: Seq<VacEntryWithSelection>, row: VacEntryWithSelection)
    ensures
        rows_model(rows.push(row)) == rows_model(rows).push(row@),
{
    assert(rows_model(rows.push(row)) =~= rows_model(rows).push(row@));
}

/// Appending a string appends its text.
pub proof fn lemma_codes_model_push(codes: Seq<String>, code: String)
    ensures
        codes_model(codes.push(code)) == codes_model(codes).push(code@),
{
    assert(codes_model(codes.push(code)) =~= codes_model(codes).push(code@));
}

/// What the application is doing at the moment.
#[derive(Debug, PartialEq, Eq)]
pub enum OperationStatus {
    Idle,
    FetchingList,
    Downloading { current: usize, total: usize },
    Deleting(String),
    Error(String),
}

/// Model of an [`OperationStatus`].
pub enum StatusModel {
    Idle,
    FetchingList,
    Downloading { current: nat, total: nat },
    Deleting(Seq<char>),
    Error(Seq<char>),
}

impl StatusModel {
    /// Busy is every status but `Idle` and `Error`.
    pub open spec fn is_busy(self) -> bool {
        !(self is Idle || self is Error)
    }

    /// The short phrase shown for the status.
    pub open spec fn text(self) -> Seq<char> {
        match self {
            StatusModel::Idle => "Ready"@,
            StatusModel::FetchingList => "Fetching VAC list..."@,
            StatusModel::Downloading { current, total } => "Downloading "@ + decimal(current)
                + " of "@ + decimal(total) + "..."@,
            StatusModel::Deleting(what) => "Deleting "@ + what + "..."@,
            StatusModel::Error(message) => "Error: "@ + message,
        }
    }
}

impl View for OperationStatus {
    type V = StatusModel;

    open spec fn view(&self) -> StatusModel {
        match self {
            OperationStatus::Idle => StatusModel::Idle,
            OperationStatus::FetchingList => StatusModel::FetchingList,
            OperationStatus::Downloading { current, total } => StatusModel::Downloading {
                current: *current as nat,
                total: *total as nat,
            },
            OperationStatus::Deleting(what) => StatusModel::Deleting(what@),
            OperationStatus::Error(message) => StatusModel::Error(message@),
        }
    }
}

impl Clone for OperationStatus {
    fn clone(&self) -> (out: Self)
        ensures
            out@ == self@,
    {
        match self {
            OperationStatus::Idle => OperationStatus::Idle,
            OperationStatus::FetchingList => OperationStatus::FetchingList,
            OperationStatus::Downloading { current, total } => OperationStatus::Downloading {
                current: *current,
                total: *total,
            },
            OperationStatus::Deleting(what) => OperationStatus::Deleting(what.clone()),
            OperationStatus::Error(message) => OperationStatus::Error(message.clone()),
        }
    }
}

impl OperationStatus {
    /// Whether an operation is under way. `Error` is not busy: it stays until
    /// the next operation overwrites it.
    pub fn is_busy(&self) -> (busy: bool)
        ensures
            busy == self@.is_busy(),
    {
        match self {
            OperationStatus::Idle => false,
            OperationStatus::Error(_) => false,
            _ => true,
        }
    }

    /// The short phrase shown for the status.
    pub fn to_text(&self) -> (out: String)
        ensures
            out@ == self@.text(),
    {
        match self {
            OperationStatus::Idle => String::from_str("Ready"),
            OperationStatus::FetchingList => String::from_str("Fetching VAC list..."),
            OperationStatus::Downloading { current, total } => {
                let mut out = String::from_str("Downloading ");
                out.append(decimal_text(*current).as_str());
                out.append(" of ");
                out.append(decimal_text(*total).as_str());
                out.append("...");
                out
            },
            OperationStatus::Deleting(what) => {
                let mut out = String::from_str("Deleting ");
                out.append(what.as_str());
                out.append("...");
                out
            },
            OperationStatus::Error(message) => {
                let mut out = String::from_str("Error: ");
                out.append(message.as_str());
                out
            },
        }
    }
}

} // verus!
