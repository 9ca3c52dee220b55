//! The worker protocol: what each background operation writes to the shared
//! structures before its backend call and once the call has answered.
//!
//! A worker announces itself in the status register, makes its backend call
//! while it alone holds the backend, and hands the answer to the step that
//! takes it. Every step works on one shared structure only, so that no lock
//! is ever taken inside another: what a step leaves for the cache and the
//! status register it hands back as a [`Settlement`]. The backend reports a
//! failure as a text.

use crate::cache::StalenessCache;
use crate::models::{
    codes_model, entries_model, lemma_codes_model_push, rows_model, OperationStatus, RowModel,
    StatusModel, VacEntry,
};
use crate::status::StatusRegister;
use crate::table::{
    distinct_codes, has_code, refreshed, selected_codes, selected_local_codes, with_selection,
    with_unavailable, EntryTable,
};
use crate::text::{decimal, decimal_text};
use vstd::prelude::*;
use vstd::string::*;

verus! {

/// The kinds of failure that end up in the status register.
#[derive(Clone, Copy, Debug, PartialEq, Eq, Structural)]
pub enum Failure {
    Listing,
    Download,
    Update,
    Delete,
    Reinitialize,
    SaveConfig,
}

impl Failure {
    /// What the message of such a failure starts with.
    pub open spec fn prefix(self) -> Seq<char> {
        match self {
            Failure::Listing => "Failed to fetch list: "@,
            Failure::Download => "Download failed: "@,
            Failure::Update => "Update failed: "@,
            Failure::Delete => "Delete failed: "@,
            Failure::Reinitialize => "Failed to reinitialize: "@,
            Failure::SaveConfig => "Failed to save config: "@,
        }
    }

    /// The status that reports such a failure with the text `detail`.
    pub open spec fn status(self, detail: Seq<char>) -> StatusModel {
        StatusModel::Error(self.prefix() + detail)
    }

    /// The message of such a failure with the text `detail`.
    pub fn message(self, detail: &str) -> (out: String)
        ensures
            out@ == self.prefix() + detail@,
    {
        let mut out = match self {
            Failure::Listing => String::from_str("Failed to fetch list: "),
            Failure::Download => String::from_str("Download failed: "),
            Failure::Update => String::from_str("Update failed: "),
            Failure::Delete => String::from_str("Delete failed: "),
            Failure::Reinitialize => String::from_str("Failed to reinitialize: "),
            Failure::SaveConfig => String::from_str("Failed to save config: "),
        };
        out.append(detail);
        out
    }
}

fn report(status: &mut StatusRegister, failure: Failure, detail: &str)
    ensures
        final(status)@ == failure.status(detail@),
{
    status.set(OperationStatus::Error(failure.message(detail)));
}

/// The codes of the rows of `before` whose code `after` does not hold, in the
/// order of `before`.
pub open spec fn vanished(before: Seq<RowModel>, after: Seq<RowModel>) -> Seq<Seq<char>> {
    before.filter(|r: RowModel| !has_code(after, r.entry.oaci)).map_values(
        |r: RowModel| r.entry.oaci,
    )
}

/// Model of a [`Settlement`].
pub struct SettlementModel {
    /// The codes whose verdict the cache is to forget.
    pub forget: Seq<Seq<char>>,
    /// The status to write, if any.
    pub status: Option<StatusModel>,
}

/// What a worker has still to write to the cache and to the status register
/// once a step has taken the backend's answer. A step works on one shared
/// structure; the settlement carries the rest to the others, one at a time.
pub struct Settlement {
    forget: Vec<String>,
    status: Option<OperationStatus>,
}

impl View for Settlement {
    type V = SettlementModel;

    closed spec fn view(&self) -> SettlementModel {
        SettlementModel {
            forget: codes_model(self.forget@),
            status: match self.status {
                Some(status) => Some(status@),
                None => None,
            },
        }
    }
}

impl Settlement {
    /// Forgets in the cache the verdicts that the settlement names.
    pub fn forget_in(&self, cache: &mut StalenessCache)
        ensures
            final(cache)@ == old(cache)@.without(self@.forget.to_set()),
            forall|code: Seq<char>|
                self@.forget.contains(code) ==> (#[trigger] final(cache)@.lookup(code)) is None,
    {
        let ghost codes = codes_model(self.forget@);
        let n = self.forget.len();
        let mut i: usize = 0;
        assert(cache@.verdicts =~= old(cache)@.verdicts.remove_keys(codes.take(0).to_set()));
        while i < n
            invariant
                i <= n,
                n == self.forget@.len(),
                codes == codes_model(self.forget@),
                cache@ == old(cache)@.without(codes.take(i as int).to_set()),
            decreases n - i,
        {
            let code = self.forget[i].as_str();
            proof {
                let so_far = codes.take(i as int).to_set();
                let next = codes.take(i + 1).to_set();
                assert forall|c: Seq<char>| next.contains(c) <==> so_far.insert(code@).contains(
                    c,
                ) by {
                    if codes.take(i + 1).contains(c) {
                        let k = choose|k: int|
                            0 <= k < i + 1 && #[trigger] codes.take(i + 1)[k] == c;
                        if k < i {
                            assert(codes.take(i as int)[k] == c);
                        }
                    }
                    if codes.take(i as int).contains(c) {
                        let k = choose|k: int|
                            0 <= k < i && #[trigger] codes.take(i as int)[k] == c;
                        assert(codes.take(i + 1)[k] == c);
                    }
                    if c == code@ {
                        assert(codes.take(i + 1)[i as int] == c);
                    }
                }
                assert(next =~= so_far.insert(code@));
                assert(old(cache)@.verdicts.remove_keys(so_far).remove(code@)
                    =~= old(cache)@.verdicts.remove_keys(next));
            }
            cache.evict(code);
            i += 1;
        }
        assert(codes.take(n as int) =~= codes);
    }

    /// Writes the status that the settlement names; where it names none the
    /// status stays.
    pub fn settle(&self, status: &mut StatusRegister)
        ensures
            final(status)@ == (match self@.status {
                Some(named) => named,
                None => old(status)@,
            }),
    {
        match &self.status {
            Some(named) => status.set(named.clone()),
            None => {},
        }
    }
}

fn settlement(forget: Vec<String>, status: Option<OperationStatus>) -> (out: Settlement)
    ensures
        out@.forget == codes_model(forget@),
        out@.status == (match status {
            Some(named) => Some(named@),
            None => None,
        }),
{
    Settlement { forget, status }
}

fn failure(kind: Failure, detail: &str) -> (out: Settlement)
    ensures
        out@ == (SettlementModel {
            forget: Seq::<Seq<char>>::empty(),
            status: Some(kind.status(detail@)),
        }),
{
    let out = settlement(Vec::new(), Some(OperationStatus::Error(kind.message(detail))));
    assert(out@.forget =~= Seq::<Seq<char>>::empty());
    out
}

fn success() -> (out: Settlement)
    ensures
        out@ == (SettlementModel {
            forget: Seq::<Seq<char>>::empty(),
            status: Some(StatusModel::Idle),
        }),
{
    let out = settlement(Vec::new(), Some(OperationStatus::Idle));
    assert(out@.forget =~= Seq::<Seq<char>>::empty());
    out
}

/// Takes a fresh listing into the table, selection carried over by code, and
/// names the codes that are no longer listed.
pub fn take_listing(table: &mut EntryTable, listing: Vec<VacEntry>) -> (gone: Vec<String>)
    ensures
        final(table)@ == refreshed(old(table)@, entries_model(listing@)),
        distinct_codes(final(table)@),
        codes_model(gone@) == vanished(old(table)@, final(table)@),
{
    let previous = table.read_snapshot();
    table.refresh(listing);
    let ghost before = old(table)@;
    let ghost after = table@;
    let ghost left = |r: RowModel| !has_code(after, r.entry.oaci);
    let ghost code_of = |r: RowModel| r.entry.oaci;
    let mut gone: Vec<String> = Vec::new();
    let n = previous.len();
    let mut i: usize = 0;
    assert(before.take(0) =~= Seq::<RowModel>::empty());
    assert(Seq::<RowModel>::empty().filter(left) =~= Seq::<RowModel>::empty()) by {
        reveal(Seq::filter);
    }
    while i < n
        invariant
            i <= n,
            n == previous@.len(),
            before == rows_model(previous@),
            after == table@,
            left == |r: RowModel| !has_code(after, r.entry.oaci),
            code_of == |r: RowModel| r.entry.oaci,
            codes_model(gone@) == before.take(i as int).filter(left).map_values(code_of),
        decreases n - i,
    {
        proof {
            assert(before.take(i + 1) =~= before.take(i as int).push(before[i as int]));
            Seq::lemma_filter_push(before.take(i as int), before[i as int], left);
        }
        if !table.contains_code(previous[i].entry.oaci.as_str()) {
            let code = previous[i].entry.oaci.clone();
            proof {
                lemma_codes_model_push(gone@, code);
                let shorter = before.take(i as int).filter(left);
                assert(shorter.push(before[i as int]).map_values(code_of) =~= shorter.map_values(
                    code_of,
                ).push(code@));
            }
            gone.push(code);
        }
        i += 1;
    }
    assert(before.take(n as int) =~= before);
    gone
}

/// Refresh, before the backend lists the catalog.
pub fn fetch_vac_list_begin(status: &mut StatusRegister)
    ensures
        final(status)@ == StatusModel::FetchingList,
{
    status.set(OperationStatus::FetchingList);
}

/// Refresh, once the backend has answered. A listing replaces the table; what
/// is left is to forget the verdicts of the codes that are gone and to write
/// `Idle`. A failure leaves the table as it was; what is left is to report
/// it.
pub fn fetch_vac_list_finish(table: &mut EntryTable, listing: Result<Vec<VacEntry>, String>) -> (out:
    Settlement)
    ensures
        match listing {
            Ok(entries) => {
                &&& final(table)@ == refreshed(old(table)@, entries_model(entries@))
                &&& out@ == (SettlementModel {
                    forget: vanished(old(table)@, final(table)@),
                    status: Some(StatusModel::Idle),
                })
            },
            Err(detail) => {
                &&& final(table)@ == old(table)@
                &&& out@ == (SettlementModel {
                    forget: Seq::<Seq<char>>::empty(),
                    status: Some(Failure::Listing.status(detail@)),
                })
            },
        },
{
    match listing {
        Ok(entries) => {
            let gone = take_listing(table, entries);
            settlement(gone, Some(OperationStatus::Idle))
        },
        Err(detail) => failure(Failure::Listing, detail.as_str()),
    }
}

/// Download all, before the backend synchronises: the status to write, with
/// the progress at none of as many as the table has rows.
pub fn download_all_begin(table: &EntryTable) -> (out: OperationStatus)
    ensures
        out@ == (StatusModel::Downloading { current: 0, total: table@.len() }),
{
    OperationStatus::Downloading { current: 0, total: table.len() }
}

/// Download selected, before the backend synchronises: the codes to hand to
/// it and the status to write. With no row selected there is nothing to do.
pub fn download_selected_begin(table: &EntryTable) -> (out: Option<(Vec<String>, OperationStatus)>)
    ensures
        match out {
            Some((codes, status)) => {
                &&& codes_model(codes@) == selected_codes(table@)
                &&& codes@.len() > 0
                &&& status@ == (StatusModel::Downloading { current: 0, total: codes@.len() })
            },
            None => selected_codes(table@).len() == 0,
        },
{
    let codes = table.selected_codes();
    if codes.len() == 0 {
        return None;
    }
    let status = OperationStatus::Downloading { current: 0, total: codes.len() };
    Some((codes, status))
}

/// Download, once the backend has synchronised. After a success the worker
/// goes on to list the catalog; a failure is reported and ends it.
pub fn download_synced(status: &mut StatusRegister, outcome: Result<(), String>) -> (relist: bool)
    ensures
        relist == outcome is Ok,
        match outcome {
            Ok(_) => final(status)@ == old(status)@,
            Err(detail) => final(status)@ == Failure::Download.status(detail@),
        },
{
    match outcome {
        Ok(_) => true,
        Err(detail) => {
            report(status, Failure::Download, detail.as_str());
            false
        },
    }
}

/// Download or update, once the backend has listed the catalog after a
/// synchronisation: the listing is taken, and a failure to list reported, as
/// a refresh does.
pub fn relisted(table: &mut EntryTable, listing: Result<Vec<VacEntry>, String>) -> (out: Settlement)
    ensures
        match listing {
            Ok(entries) => {
                &&& final(table)@ == refreshed(old(table)@, entries_model(entries@))
                &&& out@ == (SettlementModel {
                    forget: vanished(old(table)@, final(table)@),
                    status: Some(StatusModel::Idle),
                })
            },
            Err(detail) => {
                &&& final(table)@ == old(table)@
                &&& out@ == (SettlementModel {
                    forget: Seq::<Seq<char>>::empty(),
                    status: Some(Failure::Listing.status(detail@)),
                })
            },
        },
{
    fetch_vac_list_finish(table, listing)
}

/// Update one, before the backend synchronises that one code.
pub fn update_vac_begin(status: &mut StatusRegister)
    ensures
        final(status)@ == (StatusModel::Downloading { current: 1, total: 1 }),
{
    status.set(OperationStatus::Downloading { current: 1, total: 1 });
}

/// Update one, once the backend has synchronised `code`. After a success the
/// verdict on `code` is to be forgotten, so that it is probed again, the
/// status stays, and the worker goes on to list the catalog; a failure is to
/// be reported and ends it.
pub fn update_vac_synced(code: &str, outcome: Result<(), String>) -> (out: (bool, Settlement))
    ensures
        out.0 == outcome is Ok,
        match outcome {
            Ok(_) => {
                &&& out.1@ == (SettlementModel { forget: seq![code@], status: None })
                &&& out.1@.forget.contains(code@)
            },
            Err(detail) => out.1@ == (SettlementModel {
                forget: Seq::<Seq<char>>::empty(),
                status: Some(Failure::Update.status(detail@)),
            }),
        },
{
    match outcome {
        Ok(_) => {
            let mut forget: Vec<String> = Vec::new();
            forget.push(code.to_owned());
            let left = settlement(forget, None);
            assert(left@.forget =~= seq![code@]);
            assert(left@.forget[0] == code@);
            (true, left)
        },
        Err(detail) => (false, failure(Failure::Update, detail.as_str())),
    }
}

/// Delete one, before the backend deletes the local copy of `code`.
pub fn delete_vac_begin(status: &mut StatusRegister, code: &str)
    ensures
        final(status)@ == StatusModel::Deleting(code@),
{
    status.set(OperationStatus::Deleting(code.to_owned()));
}

/// Delete one, once the backend has answered. After a success the row of
/// `code` has no local copy and `Idle` is left to write; a failure leaves
/// the table as it was and is left to report.
pub fn delete_vac_finish(table: &mut EntryTable, code: &str, outcome: Result<(), String>) -> (out:
    Settlement)
    ensures
        match outcome {
            Ok(_) => {
                &&& final(table)@ == with_unavailable(old(table)@, code@)
                &&& out@ == (SettlementModel {
                    forget: Seq::<Seq<char>>::empty(),
                    status: Some(StatusModel::Idle),
                })
            },
            Err(detail) => {
                &&& final(table)@ == old(table)@
                &&& out@ == (SettlementModel {
                    forget: Seq::<Seq<char>>::empty(),
                    status: Some(Failure::Delete.status(detail@)),
                })
            },
        },
{
    match outcome {
        Ok(_) => {
            table.mark_unavailable(code);
            success()
        },
        Err(detail) => failure(Failure::Delete, detail.as_str()),
    }
}

/// What the status shows while item `position` of `total` is deleted.
pub open spec fn progress_label(code: Seq<char>, position: nat, total: nat) -> Seq<char> {
    code + " ("@ + decimal(position) + "/"@ + decimal(total) + ")"@
}

/// Model of a [`DeleteBatch`].
pub struct BatchModel {
    /// The codes to delete, in order.
    pub codes: Seq<Seq<char>>,
    /// How many of them have been announced.
    pub announced: nat,
}

/// The progress of a "delete selected" worker through its codes.
pub struct DeleteBatch {
    codes: Vec<String>,
    announced: usize,
}

impl View for DeleteBatch {
    type V = BatchModel;

    closed spec fn view(&self) -> BatchModel {
        BatchModel { codes: codes_model(self.codes@), announced: self.announced as nat }
    }
}

/// Delete selected, before the first backend call: the batch of the codes
/// that are selected and have a local copy. With none there is nothing to do.
pub fn delete_selected_begin(table: &EntryTable) -> (batch: Option<DeleteBatch>)
    ensures
        match batch {
            Some(batch) => {
                &&& batch@.codes == selected_local_codes(table@)
                &&& batch@.codes.len() > 0
                &&& batch@.announced == 0
            },
            None => selected_local_codes(table@).len() == 0,
        },
{
    let codes = table.selected_local_codes();
    if codes.len() == 0 {
        return None;
    }
    Some(DeleteBatch { codes, announced: 0 })
}

impl DeleteBatch {
    #[verifier::type_invariant]
    spec fn within(self) -> bool {
        self.announced <= self.codes@.len()
    }

    /// The number of codes in the batch.
    pub fn total(&self) -> (n: usize)
        ensures
            n == self@.codes.len(),
    {
        self.codes.len()
    }

    /// The next code to delete, announced in the status as item so many of
    /// the total. Once every code has been announced the status becomes
    /// `Idle` and there is no next code, whatever became of the items.
    pub fn next(&mut self, status: &mut StatusRegister) -> (code: Option<String>)
        ensures
            final(self)@.codes == old(self)@.codes,
            match code {
                Some(code) => {
                    &&& old(self)@.announced < old(self)@.codes.len()
                    &&& code@ == old(self)@.codes[old(self)@.announced as int]
                    &&& final(self)@.announced == old(self)@.announced + 1
                    &&& final(status)@ == StatusModel::Deleting(
                        progress_label(
                            code@,
                            old(self)@.announced + 1,
                            old(self)@.codes.len(),
                        ),
                    )
                },
                None => {
                    &&& old(self)@.announced >= old(self)@.codes.len()
                    &&& final(self)@.announced == old(self)@.announced
                    &&& final(status)@ == StatusModel::Idle
                },
            },
    {
        proof {
            use_type_invariant(&*self);
        }
        let total = self.codes.len();
        if self.announced >= total {
            status.set(OperationStatus::Idle);
            return None;
        }
        let code = self.codes[self.announced].clone();
        let mut label = code.clone();
        label.append(" (");
        label.append(decimal_text(self.announced + 1).as_str());
        label.append("/");
        label.append(decimal_text(total).as_str());
        label.append(")");
        status.set(OperationStatus::Deleting(label));
        self.announced = self.announced + 1;
        Some(code)
    }
}

/// Delete selected, once the backend has answered for one code. After a
/// success the row of `code` has no local copy and is no longer selected; a
/// failure leaves the table as it was, and the batch goes on.
pub fn delete_selected_item(table: &mut EntryTable, code: &str, outcome: Result<(), String>)
    ensures
        final(table)@ == after_item(old(table)@, code@, outcome is Ok),
{
    match outcome {
        Ok(_) => {
            table.mark_unavailable(code);
            table.mark_deselected(code);
        },
        Err(_) => {},
    }
}

/// The table after one item of a batch: where it was deleted, its row has no
/// local copy and is not selected.
pub open spec fn after_item(rows: Seq<RowModel>, code: Seq<char>, deleted: bool) -> Seq<RowModel> {
    if deleted {
        with_selection(with_unavailable(rows, code), code, false)
    } else {
        rows
    }
}

/// Probe, once the backend has answered for `code`: its verdict is recorded,
/// and a failed probe counts as fresh.
pub fn check_needs_update_finish(
    cache: &mut StalenessCache,
    code: &str,
    outcome: Result<bool, String>,
)
    ensures
        final(cache)@ == old(cache)@.recorded(
            code@,
            match outcome {
                Ok(stale) => stale,
                Err(_) => false,
            },
        ),
{
    match outcome {
        Ok(stale) => cache.record(code, stale),
        Err(_) => cache.record(code, false),
    }
}

/// Reinitialise, once the configuration has been written. After a success
/// the backend is to be set up anew; a failure is reported and ends it.
pub fn save_config_saved(status: &mut StatusRegister, outcome: Result<(), String>) -> (proceed:
    bool)
    ensures
        proceed == outcome is Ok,
        match outcome {
            Ok(_) => final(status)@ == old(status)@,
            Err(detail) => final(status)@ == Failure::SaveConfig.status(detail@),
        },
{
    match outcome {
        Ok(_) => true,
        Err(detail) => {
            report(status, Failure::SaveConfig, detail.as_str());
            false
        },
    }
}

/// Reinitialise, once the backend has been set up for the new paths. After a
/// success the refresh is begun: the status says that the list is being
/// fetched, and the worker goes on to list the catalog. A failure is
/// reported.
pub fn save_config_reinitialized(status: &mut StatusRegister, outcome: Result<(), String>) -> (refresh:
    bool)
    ensures
        refresh == outcome is Ok,
        match outcome {
            Ok(_) => final(status)@ == StatusModel::FetchingList,
            Err(detail) => final(status)@ == Failure::Reinitialize.status(detail@),
        },
{
    match outcome {
        Ok(_) => {
            fetch_vac_list_begin(status);
            true
        },
        Err(detail) => {
            report(status, Failure::Reinitialize, detail.as_str());
            false
        },
    }
}

} // verus!
