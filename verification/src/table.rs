//! The entry table: the ordered rows of the catalog, at most one per code.

use crate::models::{
    codes_model, entries_model, lemma_codes_model_push, lemma_rows_model_push, rows_model,
    EntryModel, RowModel, VacEntry, VacEntryWithSelection,
};
use crate::view::{
    all_shown_selected, lemma_toggle_select_all, matches_search, matching_positions, toggled,
    with_shown_selection,
};
use vstd::prelude::*;
use vstd::string::*;

verus! {

/// No two rows carry the same code.
pub open spec fn distinct_codes(rows: Seq<RowModel>) -> bool {
    forall|i: int, j: int|
        0 <= i < j < rows.len() ==> (#[trigger] rows[i]).entry.oaci != (#[trigger] rows[j]).entry.oaci
}

/// Some row carries `code`.
pub open spec fn has_code(rows: Seq<RowModel>, code: Seq<char>) -> bool {
    exists|i: int| 0 <= i < rows.len() && (#[trigger] rows[i]).entry.oaci == code
}

/// Some row carries `code` and is selected.
pub open spec fn was_selected(rows: Seq<RowModel>, code: Seq<char>) -> bool {
    exists|i: int| 0 <= i < rows.len() && (#[trigger] rows[i]).entry.oaci == code && rows[i].selected
}

/// The rows whose code no earlier row carries, in their order.
pub open spec fn first_of_each_code(rows: Seq<RowModel>) -> Seq<RowModel>
    decreases rows.len(),
{
    if rows.len() == 0 {
        Seq::empty()
    } else {
        let earlier = rows.drop_last();
        if has_code(earlier, rows.last().entry.oaci) {
            first_of_each_code(earlier)
        } else {
            first_of_each_code(earlier).push(rows.last())
        }
    }
}

/// One row per listed entry, selected where `previous` had that code
/// selected.
pub open spec fn carried_over(previous: Seq<RowModel>, listing: Seq<EntryModel>) -> Seq<RowModel> {
    listing.map_values(
        |e: EntryModel| RowModel { entry: e, selected: was_selected(previous, e.oaci) },
    )
}

/// The table after a refresh with `listing`: the listed entries, the first
/// of each code, with the selection of `previous` carried over by code.
pub open spec fn refreshed(previous: Seq<RowModel>, listing: Seq<EntryModel>) -> Seq<RowModel> {
    first_of_each_code(carried_over(previous, listing))
}

/// `rows` with the local copy of `code` marked as gone.
pub open spec fn with_unavailable(rows: Seq<RowModel>, code: Seq<char>) -> Seq<RowModel> {
    rows.map_values(
        |r: RowModel|
            if r.entry.oaci == code {
                RowModel { entry: EntryModel { available_locally: false, ..r.entry }, ..r }
            } else {
                r
            },
    )
}

/// `rows` with the selection flag of `code` set to `selected`.
pub open spec fn with_selection(rows: Seq<RowModel>, code: Seq<char>, selected: bool) -> Seq<
    RowModel,
> {
    rows.map_values(
        |r: RowModel|
            if r.entry.oaci == code {
                RowModel { selected, ..r }
            } else {
                r
            },
    )
}

/// The codes of the selected rows, in table order.
pub open spec fn selected_codes(rows: Seq<RowModel>) -> Seq<Seq<char>> {
    rows.filter(|r: RowModel| r.selected).map_values(|r: RowModel| r.entry.oaci)
}

/// The codes of the rows that are selected and have a local copy, in table
/// order.
pub open spec fn selected_local_codes(rows: Seq<RowModel>) -> Seq<Seq<char>> {
    rows.filter(|r: RowModel| r.selected && r.entry.available_locally).map_values(
        |r: RowModel| r.entry.oaci,
    )
}

/// How many rows are selected.
pub open spec fn selected_count(rows: Seq<RowModel>) -> nat {
    rows.filter(|r: RowModel| r.selected).len()
}

/// What `first_of_each_code` keeps: rows of the input with pairwise different
/// codes, and every code of the input.
pub proof fn lemma_first_of_each_code(rows: Seq<RowModel>)
    ensures
        distinct_codes(first_of_each_code(rows)),
        forall|code: Seq<char>|
            has_code(first_of_each_code(rows), code) <==> has_code(rows, code),
        forall|k: int|
            0 <= k < first_of_each_code(rows).len() ==> rows.contains(
                #[trigger] first_of_each_code(rows)[k],
            ),
        first_of_each_code(rows).len() <= rows.len(),
    decreases rows.len(),
{
    if rows.len() > 0 {
        let earlier = rows.drop_last();
        let last = rows.last();
        let kept = first_of_each_code(earlier);
        let out = first_of_each_code(rows);
        lemma_first_of_each_code(earlier);
        assert forall|code: Seq<char>| has_code(out, code) <==> has_code(rows, code) by {
            if has_code(out, code) {
                let i = choose|i: int| 0 <= i < out.len() && (#[trigger] out[i]).entry.oaci == code;
                if i < kept.len() {
                    assert(kept[i].entry.oaci == code);
                    assert(has_code(kept, code));
                    let j = choose|j: int|
                        0 <= j < earlier.len() && (#[trigger] earlier[j]).entry.oaci == code;
                    assert(rows[j].entry.oaci == code);
                } else {
                    assert(rows[rows.len() - 1].entry.oaci == code);
                }
            }
            if has_code(rows, code) {
                let j = choose|j: int| 0 <= j < rows.len() && (#[trigger] rows[j]).entry.oaci == code;
                if j < earlier.len() {
                    assert(earlier[j].entry.oaci == code);
                    assert(has_code(earlier, code));
                    let i = choose|i: int|
                        0 <= i < kept.len() && (#[trigger] kept[i]).entry.oaci == code;
                    assert(out[i].entry.oaci == code);
                } else if has_code(earlier, last.entry.oaci) {
                    assert(has_code(kept, code));
                    let i = choose|i: int|
                        0 <= i < kept.len() && (#[trigger] kept[i]).entry.oaci == code;
                    assert(out[i].entry.oaci == code);
                } else {
                    assert(out[out.len() - 1].entry.oaci == code);
                }
            }
        }
        assert forall|k: int| 0 <= k < out.len() implies rows.contains(#[trigger] out[k]) by {
            if k < kept.len() {
                assert(earlier.contains(kept[k]));
                let j = choose|j: int| 0 <= j < earlier.len() && earlier[j] == kept[k];
                assert(rows[j] == out[k]);
            } else {
                assert(rows[rows.len() - 1] == out[k]);
            }
        }
        assert forall|i: int, j: int| 0 <= i < j < out.len() implies (#[trigger] out[i]).entry.oaci
            != (#[trigger] out[j]).entry.oaci by {
            if j == kept.len() {
                assert(kept[i].entry.oaci == out[i].entry.oaci);
                if out[i].entry.oaci == last.entry.oaci {
                    assert(has_code(kept, last.entry.oaci));
                }
            } else {
                assert(kept[i] == out[i] && kept[j] == out[j]);
            }
        }
    }
}

/// Rows with pairwise different codes are kept as they are.
pub proof fn lemma_distinct_codes_kept(rows: Seq<RowModel>)
    requires
        distinct_codes(rows),
    ensures
        first_of_each_code(rows) == rows,
    decreases rows.len(),
{
    if rows.len() > 0 {
        let earlier = rows.drop_last();
        assert forall|i: int, j: int| 0 <= i < j < earlier.len() implies (#[trigger] earlier[i]).entry.oaci
            != (#[trigger] earlier[j]).entry.oaci by {
            assert(rows[i] == earlier[i] && rows[j] == earlier[j]);
        }
        lemma_distinct_codes_kept(earlier);
        if has_code(earlier, rows.last().entry.oaci) {
            let i = choose|i: int|
                0 <= i < earlier.len() && (#[trigger] earlier[i]).entry.oaci == rows.last().entry.oaci;
            assert(rows[i] == earlier[i]);
            assert(rows[rows.len() - 1] == rows.last());
            assert(false);
        }
        assert(first_of_each_code(rows) =~= rows);
    } else {
        assert(first_of_each_code(rows) =~= rows);
    }
}

/// The shared table of catalog rows. It never holds two rows with the same
/// code.
pub struct EntryTable {
    rows: Vec<VacEntryWithSelection>,
}

impl View for EntryTable {
    type V = Seq<RowModel>;

    closed spec fn view(&self) -> Seq<RowModel> {
        rows_model(self.rows@)
    }
}

fn holds_code(rows: &Vec<VacEntryWithSelection>, code: &String) -> (found: bool)
    ensures
        found == has_code(rows_model(rows@), code@),
{
    let n = rows.len();
    let mut i: usize = 0;
    while i < n
        invariant
            i <= n,
            n == rows@.len(),
            forall|k: int| 0 <= k < i ==> (#[trigger] rows_model(rows@)[k]).entry.oaci != code@,
        decreases n - i,
    {
        if rows[i].entry.oaci == *code {
            assert(rows_model(rows@)[i as int].entry.oaci == code@);
            return true;
        }
        i += 1;
    }
    false
}

fn holds_selected(rows: &Vec<VacEntryWithSelection>, code: &String) -> (found: bool)
    ensures
        found == was_selected(rows_model(rows@), code@),
{
    let n = rows.len();
    let mut i: usize = 0;
    while i < n
        invariant
            i <= n,
            n == rows@.len(),
            forall|k: int|
                0 <= k < i ==> !((#[trigger] rows_model(rows@)[k]).entry.oaci == code@
                    && rows_model(rows@)[k].selected),
        decreases n - i,
    {
        if rows[i].selected && rows[i].entry.oaci == *code {
            assert(rows_model(rows@)[i as int].entry.oaci == code@);
            return true;
        }
        i += 1;
    }
    false
}

/// Whether the rows at the positions `found`, which are those that pass the
/// search, are all selected.
fn all_selected_at(
    rows: &Vec<VacEntryWithSelection>,
    found: &Vec<usize>,
    Ghost(search): Ghost<Seq<char>>,
) -> (all: bool)
    requires
        forall|k: int|
            0 <= k < found@.len() ==> (#[trigger] found@[k]) < rows@.len() && matches_search(
                rows@[found@[k] as int]@.entry,
                search,
            ),
        forall|i: int|
            0 <= i < rows@.len() && matches_search((#[trigger] rows@[i])@.entry, search)
                ==> found@.contains(i as usize),
    ensures
        all == all_shown_selected(rows_model(rows@), search),
{
    let n = rows.len();
    let total = found.len();
    let mut all = true;
    let mut k: usize = 0;
    while k < total
        invariant
            k <= total,
            total == found@.len(),
            forall|q: int| 0 <= q < found@.len() ==> (#[trigger] found@[q]) < rows@.len(),
            all == (forall|q: int| 0 <= q < k ==> rows@[(#[trigger] found@[q]) as int].selected),
        decreases total - k,
    {
        if !rows[found[k]].selected {
            all = false;
        }
        k += 1;
    }
    proof {
        let model = rows_model(rows@);
        if all {
            assert forall|i: int|
                0 <= i < model.len() && matches_search(
                    (#[trigger] model[i]).entry,
                    search,
                ) implies model[i].selected by {
                assert(rows@[i]@ == model[i]);
                assert(found@.contains(i as usize));
                let q = choose|q: int| 0 <= q < found@.len() && found@[q] == i as usize;
                assert(rows@[found@[q] as int].selected);
            }
        } else {
            let q = choose|q: int| 0 <= q < total && !rows@[(#[trigger] found@[q]) as int].selected;
            assert(model[found@[q] as int] == rows@[found@[q] as int]@);
        }
    }
    all
}

impl EntryTable {
    #[verifier::type_invariant]
    spec fn distinct(self) -> bool {
        distinct_codes(rows_model(self.rows@))
    }

    /// An empty table.
    pub fn new() -> (out: Self)
        ensures
            out@ == Seq::<RowModel>::empty(),
    {
        let out = EntryTable { rows: Vec::new() };
        assert(out@ =~= Seq::<RowModel>::empty());
        out
    }

    /// The number of rows.
    pub fn len(&self) -> (n: usize)
        ensures
            n == self@.len(),
    {
        self.rows.len()
    }

    /// Whether the table holds no row.
    pub fn is_empty(&self) -> (empty: bool)
        ensures
            empty == (self@.len() == 0),
    {
        self.rows.len() == 0
    }

    /// Whether some row carries `code`.
    pub fn contains_code(&self, code: &str) -> (found: bool)
        ensures
            found == has_code(self@, code@),
    {
        let wanted = code.to_owned();
        holds_code(&self.rows, &wanted)
    }

    /// Swaps the whole collection for `rows`, flags included. Of rows that
    /// share a code only the first is taken, so rows with pairwise different
    /// codes are taken as they are.
    pub fn replace_all(&mut self, rows: Vec<VacEntryWithSelection>)
        ensures
            final(self)@ == first_of_each_code(rows_model(rows@)),
            distinct_codes(rows_model(rows@)) ==> final(self)@ == rows_model(rows@),
            distinct_codes(final(self)@),
    {
        let ghost given = rows_model(rows@);
        let mut kept: Vec<VacEntryWithSelection> = Vec::new();
        let n = rows.len();
        let mut i: usize = 0;
        assert(given.take(0) =~= Seq::<RowModel>::empty());
        while i < n
            invariant
                i <= n,
                n == rows@.len(),
                given == rows_model(rows@),
                rows_model(kept@) == first_of_each_code(given.take(i as int)),
            decreases n - i,
        {
            proof {
                lemma_first_of_each_code(given.take(i as int));
                assert(given.take(i + 1).drop_last() =~= given.take(i as int));
                assert(given.take(i + 1).last() == rows[i as int]@);
            }
            if !holds_code(&kept, &rows[i].entry.oaci) {
                let row = rows[i].clone();
                kept.push(row);
                assert(rows_model(kept@) =~= first_of_each_code(given.take(i + 1)));
            }
            i += 1;
        }
        proof {
            assert(given.take(n as int) =~= given);
            lemma_first_of_each_code(given);
            if distinct_codes(given) {
                lemma_distinct_codes_kept(given);
            }
        }
        self.rows = kept;
    }

    /// Takes a fresh listing: one row per listed entry, the first of each
    /// code, selected exactly where the table had that code selected before.
    pub fn refresh(&mut self, listing: Vec<VacEntry>)
        ensures
            final(self)@ == refreshed(old(self)@, entries_model(listing@)),
            distinct_codes(final(self)@),
    {
        let ghost listed = entries_model(listing@);
        let ghost carried = carried_over(self@, listed);
        let mut fresh: Vec<VacEntryWithSelection> = Vec::new();
        let n = listing.len();
        let mut i: usize = 0;
        while i < n
            invariant
                i <= n,
                n == listing@.len(),
                listed == entries_model(listing@),
                carried == carried_over(self@, listed),
                rows_model(fresh@) == carried.take(i as int),
            decreases n - i,
        {
            let selected = holds_selected(&self.rows, &listing[i].oaci);
            let entry = listing[i].clone();
            let row = VacEntryWithSelection { entry, selected };
            proof {
                lemma_rows_model_push(fresh@, row);
                assert(row@ == carried[i as int]);
                assert(carried.take(i + 1) =~= carried.take(i as int).push(carried[i as int]));
            }
            fresh.push(row);
            i += 1;
        }
        assert(carried.take(n as int) =~= carried);
        self.replace_all(fresh);
    }

    /// Marks the local copy of `code` as gone. Nothing changes if no row
    /// carries `code`.
    pub fn mark_unavailable(&mut self, code: &str)
        ensures
            final(self)@ == with_unavailable(old(self)@, code@),
            distinct_codes(final(self)@),
    {
        proof {
            use_type_invariant(&*self);
        }
        let wanted = code.to_owned();
        let mut rows: Vec<VacEntryWithSelection> = Vec::new();
        core::mem::swap(&mut self.rows, &mut rows);
        let ghost before = rows_model(rows@);
        let n = rows.len();
        let mut i: usize = 0;
        while i < n
            invariant
                i <= n,
                n == rows@.len(),
                n == before.len(),
                wanted@ == code@,
                forall|k: int|
                    0 <= k < i ==> (#[trigger] rows@[k])@ == with_unavailable(before, code@)[k],
                forall|k: int| i <= k < n ==> (#[trigger] rows@[k])@ == before[k],
            decreases n - i,
        {
            if rows[i].entry.oaci == wanted {
                rows[i].entry.available_locally = false;
            }
            i += 1;
        }
        assert(rows_model(rows@) =~= with_unavailable(before, code@));
        self.rows = rows;
    }

    /// Sets the selection flag of `code`. Nothing changes if no row carries
    /// `code`.
    pub fn set_selected(&mut self, code: &str, selected: bool)
        ensures
            final(self)@ == with_selection(old(self)@, code@, selected),
            distinct_codes(final(self)@),
    {
        proof {
            use_type_invariant(&*self);
        }
        let wanted = code.to_owned();
        let mut rows: Vec<VacEntryWithSelection> = Vec::new();
        core::mem::swap(&mut self.rows, &mut rows);
        let ghost before = rows_model(rows@);
        let n = rows.len();
        let mut i: usize = 0;
        while i < n
            invariant
                i <= n,
                n == rows@.len(),
                n == before.len(),
                wanted@ == code@,
                forall|k: int|
                    0 <= k < i ==> (#[trigger] rows@[k])@ == with_selection(
                        before,
                        code@,
                        selected,
                    )[k],
                forall|k: int| i <= k < n ==> (#[trigger] rows@[k])@ == before[k],
            decreases n - i,
        {
            if rows[i].entry.oaci == wanted {
                rows[i].selected = selected;
            }
            i += 1;
        }
        assert(rows_model(rows@) =~= with_selection(before, code@, selected));
        self.rows = rows;
    }

    /// Clears the selection flag of `code`.
    pub fn mark_deselected(&mut self, code: &str)
        ensures
            final(self)@ == with_selection(old(self)@, code@, false),
            distinct_codes(final(self)@),
    {
        self.set_selected(code, false)
    }

    /// A copy of the rows, in table order.
    pub fn read_snapshot(&self) -> (out: Vec<VacEntryWithSelection>)
        ensures
            rows_model(out@) == self@,
            distinct_codes(self@),
    {
        proof {
            use_type_invariant(self);
        }
        let mut out: Vec<VacEntryWithSelection> = Vec::new();
        let n = self.rows.len();
        let mut i: usize = 0;
        while i < n
            invariant
                i <= n,
                n == self.rows@.len(),
                rows_model(out@) == self@.take(i as int),
            decreases n - i,
        {
            let row = self.rows[i].clone();
            proof {
                lemma_rows_model_push(out@, row);
                assert(self@.take(i + 1) =~= self@.take(i as int).push(self@[i as int]));
            }
            out.push(row);
            i += 1;
        }
        assert(self@.take(n as int) =~= self@);
        out
    }

    /// The codes of the selected rows, in table order.
    pub fn selected_codes(&self) -> (out: Vec<String>)
        ensures
            codes_model(out@) == selected_codes(self@),
    {
        let ghost chosen = |r: RowModel| r.selected;
        let ghost code = |r: RowModel| r.entry.oaci;
        let mut out: Vec<String> = Vec::new();
        let n = self.rows.len();
        let mut i: usize = 0;
        assert(self@.take(0) =~= Seq::<RowModel>::empty());
        assert(Seq::<RowModel>::empty().filter(chosen) =~= Seq::<RowModel>::empty()) by {
            reveal(Seq::filter);
        }
        while i < n
            invariant
                i <= n,
                n == self.rows@.len(),
                chosen == |r: RowModel| r.selected,
                code == |r: RowModel| r.entry.oaci,
                codes_model(out@) == self@.take(i as int).filter(chosen).map_values(code),
            decreases n - i,
        {
            proof {
                assert(self@.take(i + 1) =~= self@.take(i as int).push(self@[i as int]));
                Seq::lemma_filter_push(self@.take(i as int), self@[i as int], chosen);
            }
            if self.rows[i].selected {
                let picked = self.rows[i].entry.oaci.clone();
                proof {
                    lemma_codes_model_push(out@, picked);
                    let shorter = self@.take(i as int).filter(chosen);
                    assert(shorter.push(self@[i as int]).map_values(code) =~= shorter.map_values(
                        code,
                    ).push(picked@));
                }
                out.push(picked);
            }
            i += 1;
        }
        assert(self@.take(n as int) =~= self@);
        out
    }

    /// The codes of the rows that are selected and have a local copy, in
    /// table order.
    pub fn selected_local_codes(&self) -> (out: Vec<String>)
        ensures
            codes_model(out@) == selected_local_codes(self@),
    {
        let ghost chosen = |r: RowModel| r.selected && r.entry.available_locally;
        let ghost code = |r: RowModel| r.entry.oaci;
        let mut out: Vec<String> = Vec::new();
        let n = self.rows.len();
        let mut i: usize = 0;
        assert(self@.take(0) =~= Seq::<RowModel>::empty());
        assert(Seq::<RowModel>::empty().filter(chosen) =~= Seq::<RowModel>::empty()) by {
            reveal(Seq::filter);
        }
        while i < n
            invariant
                i <= n,
                n == self.rows@.len(),
                chosen == |r: RowModel| r.selected && r.entry.available_locally,
                code == |r: RowModel| r.entry.oaci,
                codes_model(out@) == self@.take(i as int).filter(chosen).map_values(code),
            decreases n - i,
        {
            proof {
                assert(self@.take(i + 1) =~= self@.take(i as int).push(self@[i as int]));
                Seq::lemma_filter_push(self@.take(i as int), self@[i as int], chosen);
            }
            if self.rows[i].selected && self.rows[i].entry.available_locally {
                let picked = self.rows[i].entry.oaci.clone();
                proof {
                    lemma_codes_model_push(out@, picked);
                    let shorter = self@.take(i as int).filter(chosen);
                    assert(shorter.push(self@[i as int]).map_values(code) =~= shorter.map_values(
                        code,
                    ).push(picked@));
                }
                out.push(picked);
            }
            i += 1;
        }
        assert(self@.take(n as int) =~= self@);
        out
    }

    /// Whether every row that passes `search` is selected: the state of the
    /// "select all" box.
    pub fn all_shown_selected(&self, search: &str) -> (all: bool)
        ensures
            all == all_shown_selected(self@, search@),
    {
        let found = matching_positions(&self.rows, search);
        all_selected_at(&self.rows, &found, Ghost(search@))
    }

    /// A click on "select all" for the rows that pass `search`: if all of
    /// them are selected they are all deselected, otherwise all selected.
    /// Rows that do not pass keep their flag.
    pub fn toggle_select_all(&mut self, search: &str)
        ensures
            final(self)@ == toggled(old(self)@, search@),
            distinct_codes(final(self)@),
    {
        proof {
            use_type_invariant(&*self);
        }
        let mut rows: Vec<VacEntryWithSelection> = Vec::new();
        core::mem::swap(&mut self.rows, &mut rows);
        let ghost before = rows_model(rows@);
        let n = rows.len();
        let found = matching_positions(&rows, search);
        let total = found.len();
        let all = all_selected_at(&rows, &found, Ghost(search@));
        let target = !all;
        let ghost goal = with_shown_selection(before, search@, target);
        let mut k: usize = 0;
        while k < total
            invariant
                k <= total,
                total == found@.len(),
                n == rows@.len(),
                n == before.len(),
                goal == with_shown_selection(before, search@, target),
                forall|q: int| 0 <= q < found@.len() ==> (#[trigger] found@[q]) < rows@.len(),
                forall|a: int, b: int| 0 <= a < b < found@.len() ==> found@[a] < found@[b],
                forall|q: int|
                    0 <= q < found@.len() ==> matches_search(
                        before[(#[trigger] found@[q]) as int].entry,
                        search@,
                    ),
                forall|q: int| 0 <= q < k ==> rows@[(#[trigger] found@[q]) as int]@ == goal[found@[q] as int],
                forall|i: int|
                    0 <= i < rows@.len() && !found@.contains(i as usize) ==> (#[trigger] rows@[i])@
                        == before[i],
                forall|q: int| k <= q < total ==> rows@[(#[trigger] found@[q]) as int]@ == before[found@[q] as int],
            decreases total - k,
        {
            let at = found[k];
            let ghost prior = rows@;
            rows[at].selected = target;
            proof {
                assert forall|q: int| 0 <= q < k + 1 implies rows@[(#[trigger] found@[q]) as int]@
                    == goal[found@[q] as int] by {
                    if q < k {
                        assert(found@[q] < found@[k as int]);
                        assert(rows@[found@[q] as int] == prior[found@[q] as int]);
                    }
                }
                assert forall|q: int| k + 1 <= q < total implies rows@[(#[trigger] found@[q]) as int]@
                    == before[found@[q] as int] by {
                    assert(found@[k as int] < found@[q]);
                    assert(rows@[found@[q] as int] == prior[found@[q] as int]);
                }
                assert forall|i: int|
                    0 <= i < rows@.len() && !found@.contains(i as usize) implies (#[trigger] rows@[i])@
                    == before[i] by {
                    assert(found@[k as int] == at);
                    assert(rows@[i] == prior[i]);
                }
            }
            k += 1;
        }
        proof {
            assert forall|i: int| 0 <= i < rows@.len() implies rows_model(rows@)[i] == goal[i] by {
                if found@.contains(i as usize) {
                    let q = choose|q: int| 0 <= q < found@.len() && found@[q] == i as usize;
                    assert(rows@[found@[q] as int]@ == goal[found@[q] as int]);
                } else {
                    assert(rows@[i]@ == before[i]);
                    if matches_search(before[i].entry, search@) {
                        assert(false);
                    }
                }
            }
            assert(rows_model(rows@) =~= goal);
            lemma_toggle_select_all(before, search@);
            assert forall|i: int, j: int| 0 <= i < j < goal.len() implies (#[trigger] goal[i]).entry.oaci
                != (#[trigger] goal[j]).entry.oaci by {
                assert(goal[i].entry == before[i].entry);
                assert(goal[j].entry == before[j].entry);
            }
        }
        self.rows = rows;
    }

    /// Whether any row is selected.
    pub fn has_selection(&self) -> (any: bool)
        ensures
            any == (exists|i: int| 0 <= i < self@.len() && (#[trigger] self@[i]).selected),
    {
        let n = self.rows.len();
        let mut i: usize = 0;
        while i < n
            invariant
                i <= n,
                n == self.rows@.len(),
                forall|k: int| 0 <= k < i ==> !(#[trigger] self@[k]).selected,
            decreases n - i,
        {
            if self.rows[i].selected {
                assert(self@[i as int].selected);
                return true;
            }
            i += 1;
        }
        false
    }

    /// Whether any row is selected and has a local copy.
    pub fn has_local_selection(&self) -> (any: bool)
        ensures
            any == (exists|i: int|
                0 <= i < self@.len() && (#[trigger] self@[i]).selected
                    && self@[i].entry.available_locally),
    {
        let n = self.rows.len();
        let mut i: usize = 0;
        while i < n
            invariant
                i <= n,
                n == self.rows@.len(),
                forall|k: int|
                    0 <= k < i ==> !((#[trigger] self@[k]).selected
                        && self@[k].entry.available_locally),
            decreases n - i,
        {
            if self.rows[i].selected && self.rows[i].entry.available_locally {
                assert(self@[i as int].selected && self@[i as int].entry.available_locally);
                return true;
            }
            i += 1;
        }
        false
    }
}

} // verus!
