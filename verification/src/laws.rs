//! Laws of the coordination layer, stated over the models that the
//! contracts of the operations use.

use crate::cache::CacheModel;
use crate::models::{EntryModel, RowModel};
use crate::table::{
    carried_over, distinct_codes, first_of_each_code, has_code, lemma_first_of_each_code, refreshed,
    selected_count, was_selected, with_unavailable,
};
use crate::workers::{after_item, vanished};
use vstd::prelude::*;

verus! {

/// The table after a run of `replace_all` calls, one for each of `batches`.
/// Each call swaps the whole collection, so only the last one counts.
pub open spec fn after_replacements(start: Seq<RowModel>, batches: Seq<Seq<RowModel>>) -> Seq<
    RowModel,
> {
    if batches.len() == 0 {
        start
    } else {
        first_of_each_code(batches.last())
    }
}

/// Whatever rows a run of `replace_all` calls is given, the table holds no
/// two rows with the same code after any of them.
pub proof fn lemma_replacements_keep_codes_distinct(
    start: Seq<RowModel>,
    batches: Seq<Seq<RowModel>>,
)
    requires
        distinct_codes(start),
    ensures
        forall|k: int|
            0 <= k <= batches.len() ==> distinct_codes(
                #[trigger] after_replacements(start, batches.take(k)),
            ),
{
    assert forall|k: int| 0 <= k <= batches.len() implies distinct_codes(
        #[trigger] after_replacements(start, batches.take(k)),
    ) by {
        if k > 0 {
            lemma_first_of_each_code(batches.take(k).last());
        }
    }
}

/// Marking a code unavailable a second time changes nothing.
pub proof fn lemma_mark_unavailable_idempotent(rows: Seq<RowModel>, code: Seq<char>)
    ensures
        with_unavailable(with_unavailable(rows, code), code) == with_unavailable(rows, code),
{
    assert(with_unavailable(with_unavailable(rows, code), code) =~= with_unavailable(rows, code));
}

/// Marking a code unavailable touches no other row, and of its own row only
/// the local copy.
pub proof fn lemma_mark_unavailable_local(rows: Seq<RowModel>, code: Seq<char>)
    ensures
        with_unavailable(rows, code).len() == rows.len(),
        forall|i: int|
            0 <= i < rows.len() && (#[trigger] rows[i]).entry.oaci != code ==> with_unavailable(
                rows,
                code,
            )[i] == rows[i],
        forall|i: int|
            0 <= i < rows.len() && (#[trigger] rows[i]).entry.oaci == code ==> {
                let row = with_unavailable(rows, code)[i];
                &&& !row.entry.available_locally
                &&& row.entry.oaci == code
                &&& row.entry.city == rows[i].entry.city
                &&& row.selected == rows[i].selected
            },
        !has_code(rows, code) ==> with_unavailable(rows, code) == rows,
{
    if !has_code(rows, code) {
        assert(with_unavailable(rows, code) =~= rows);
    }
}

/// Once an update of `code` has succeeded and its settlement has reached the
/// cache, the verdict on `code` is gone, and the listing that follows does
/// not bring it back: a lookup finds nothing.
pub proof fn lemma_update_forgets_verdict(
    cache: CacheModel,
    code: Seq<char>,
    gone: Seq<Seq<char>>,
)
    ensures
        cache.without(seq![code].to_set()).lookup(code) is None,
        cache.without(seq![code].to_set()).without(gone.to_set()).lookup(code) is None,
        cache.evicted(code).lookup(code) is None,
{
    assert(seq![code][0] == code);
    assert(seq![code].to_set().contains(code));
}

/// What a listing makes the cache forget are exactly the codes that the
/// table held before and holds no longer.
pub proof fn lemma_vanished_codes(before: Seq<RowModel>, after: Seq<RowModel>, code: Seq<char>)
    ensures
        vanished(before, after).to_set().contains(code) <==> (has_code(before, code) && !has_code(
            after,
            code,
        )),
{
    let left = |r: RowModel| !has_code(after, r.entry.oaci);
    let kept = before.filter(left);
    let codes = vanished(before, after);
    if codes.contains(code) {
        let k = choose|k: int| 0 <= k < codes.len() && codes[k] == code;
        assert(kept[k].entry.oaci == code);
        assert(kept.contains(kept[k]));
        Seq::lemma_filter_contains_rev(before, left, kept[k]);
        Seq::lemma_filter_pred(before, left, k);
        let i = choose|i: int| 0 <= i < before.len() && before[i] == kept[k];
        assert(before[i].entry.oaci == code);
    }
    if has_code(before, code) && !has_code(after, code) {
        let i = choose|i: int| 0 <= i < before.len() && (#[trigger] before[i]).entry.oaci == code;
        assert(left(before[i]));
        Seq::lemma_filter_contains(before, left, i);
        let k = choose|k: int| 0 <= k < kept.len() && kept[k] == before[i];
        assert(codes[k] == code);
    }
}

/// The codes that `rows` holds selected.
pub open spec fn selected_code_set(rows: Seq<RowModel>) -> Set<Seq<char>> {
    Set::new(|code: Seq<char>| was_selected(rows, code))
}

/// The codes that `listing` holds.
pub open spec fn listed_code_set(listing: Seq<EntryModel>) -> Set<Seq<char>> {
    Set::new(|code: Seq<char>| exists|j: int| 0 <= j < listing.len() && (#[trigger] listing[j]).oaci == code)
}

/// In rows with pairwise different codes there are as many selected rows as
/// selected codes.
pub proof fn lemma_selected_count(rows: Seq<RowModel>)
    requires
        distinct_codes(rows),
    ensures
        selected_code_set(rows).finite(),
        selected_code_set(rows).len() == selected_count(rows),
    decreases rows.len(),
{
    let chosen = |r: RowModel| r.selected;
    if rows.len() == 0 {
        assert(selected_code_set(rows) =~= Set::<Seq<char>>::empty());
        assert(rows.filter(chosen) =~= Seq::<RowModel>::empty()) by {
            reveal(Seq::filter);
        }
    } else {
        let earlier = rows.drop_last();
        let last = rows.last();
        assert forall|i: int, j: int| 0 <= i < j < earlier.len() implies (#[trigger] earlier[i]).entry.oaci
            != (#[trigger] earlier[j]).entry.oaci by {
            assert(rows[i] == earlier[i] && rows[j] == earlier[j]);
        }
        lemma_selected_count(earlier);
        assert(rows =~= earlier.push(last));
        Seq::lemma_filter_push(earlier, last, chosen);
        assert forall|c: Seq<char>| was_selected(rows, c) <==> (was_selected(earlier, c) || (
        last.selected && c == last.entry.oaci)) by {
            if was_selected(rows, c) {
                let i = choose|i: int|
                    0 <= i < rows.len() && (#[trigger] rows[i]).entry.oaci == c && rows[i].selected;
                if i < earlier.len() {
                    assert(earlier[i].entry.oaci == c && earlier[i].selected);
                }
            }
            if was_selected(earlier, c) {
                let i = choose|i: int|
                    0 <= i < earlier.len() && (#[trigger] earlier[i]).entry.oaci == c
                        && earlier[i].selected;
                assert(rows[i].entry.oaci == c && rows[i].selected);
            }
            if last.selected && c == last.entry.oaci {
                assert(rows[rows.len() - 1].entry.oaci == c && rows[rows.len() - 1].selected);
            }
        }
        if last.selected {
            if was_selected(earlier, last.entry.oaci) {
                let i = choose|i: int|
                    0 <= i < earlier.len() && (#[trigger] earlier[i]).entry.oaci == last.entry.oaci
                        && earlier[i].selected;
                assert(rows[i] == earlier[i]);
                assert(rows[rows.len() - 1] == last);
                assert(false);
            }
            assert(selected_code_set(rows) =~= selected_code_set(earlier).insert(last.entry.oaci));
        } else {
            assert(selected_code_set(rows) =~= selected_code_set(earlier));
        }
    }
}

/// A refresh keeps the selection by code: a row is selected afterwards
/// exactly if its code was selected before, so there are as many selected
/// rows as there were selected codes that the listing still holds, and no
/// more than were selected before.
pub proof fn lemma_refresh_keeps_selection(previous: Seq<RowModel>, listing: Seq<EntryModel>)
    requires
        distinct_codes(previous),
    ensures
        forall|i: int|
            0 <= i < refreshed(previous, listing).len() ==> ((#[trigger] refreshed(
                previous,
                listing,
            )[i]).selected <==> was_selected(previous, refreshed(previous, listing)[i].entry.oaci)),
        selected_count(refreshed(previous, listing)) == selected_code_set(previous).intersect(
            listed_code_set(listing),
        ).len(),
        selected_count(refreshed(previous, listing)) <= selected_count(previous),
{
    let carried = carried_over(previous, listing);
    let after = refreshed(previous, listing);
    let surviving = selected_code_set(previous).intersect(listed_code_set(listing));
    lemma_first_of_each_code(carried);
    assert forall|i: int| 0 <= i < after.len() implies ((#[trigger] after[i]).selected
        <==> was_selected(previous, after[i].entry.oaci)) by {
        assert(carried.contains(after[i]));
        let j = choose|j: int| 0 <= j < carried.len() && carried[j] == after[i];
        assert(carried[j].selected == was_selected(previous, listing[j].oaci));
    }
    assert forall|c: Seq<char>| selected_code_set(after).contains(c) <==> surviving.contains(
        c,
    ) by {
        if was_selected(after, c) {
            let i = choose|i: int|
                0 <= i < after.len() && (#[trigger] after[i]).entry.oaci == c && after[i].selected;
            assert(carried.contains(after[i]));
            let j = choose|j: int| 0 <= j < carried.len() && carried[j] == after[i];
            assert(listing[j].oaci == c);
        }
        if surviving.contains(c) {
            let j = choose|j: int| 0 <= j < listing.len() && (#[trigger] listing[j]).oaci == c;
            assert(carried[j].entry.oaci == c);
            assert(has_code(carried, c));
            assert(has_code(after, c));
            let i = choose|i: int| 0 <= i < after.len() && (#[trigger] after[i]).entry.oaci == c;
            assert(after[i].selected);
        }
    }
    assert(selected_code_set(after) =~= surviving);
    lemma_selected_count(after);
    lemma_selected_count(previous);
    vstd::set_lib::lemma_len_subset(surviving, selected_code_set(previous));
}

/// The table after a batch of deletions of `codes`, of which `deleted` says
/// item by item whether the backend carried it out.
pub open spec fn after_batch(rows: Seq<RowModel>, codes: Seq<Seq<char>>, deleted: Seq<bool>) -> Seq<
    RowModel,
>
    decreases codes.len(),
{
    if codes.len() == 0 {
        rows
    } else {
        after_item(
            after_batch(rows, codes.drop_last(), deleted.drop_last()),
            codes.last(),
            deleted.last(),
        )
    }
}

/// Some item of the batch named `code` and was carried out.
pub open spec fn deleted_in_batch(codes: Seq<Seq<char>>, deleted: Seq<bool>, code: Seq<char>) -> bool {
    exists|k: int| 0 <= k < codes.len() && #[trigger] codes[k] == code && deleted[k]
}

/// A batch of deletions goes through every item: a row whose deletion was
/// carried out ends without local copy and deselected, whatever became of
/// the other items, and every other row is as it was.
pub proof fn lemma_batch_is_item_by_item(
    rows: Seq<RowModel>,
    codes: Seq<Seq<char>>,
    deleted: Seq<bool>,
)
    requires
        codes.len() == deleted.len(),
    ensures
        after_batch(rows, codes, deleted).len() == rows.len(),
        forall|i: int|
            0 <= i < rows.len() && deleted_in_batch(codes, deleted, (#[trigger] rows[i]).entry.oaci)
                ==> {
                let row = after_batch(rows, codes, deleted)[i];
                &&& !row.entry.available_locally
                &&& !row.selected
                &&& row.entry.oaci == rows[i].entry.oaci
                &&& row.entry.city == rows[i].entry.city
            },
        forall|i: int|
            0 <= i < rows.len() && !deleted_in_batch(
                codes,
                deleted,
                (#[trigger] rows[i]).entry.oaci,
            ) ==> after_batch(rows, codes, deleted)[i] == rows[i],
    decreases codes.len(),
{
    if codes.len() > 0 {
        let first_codes = codes.drop_last();
        let first_deleted = deleted.drop_last();
        let before = after_batch(rows, first_codes, first_deleted);
        let after = after_batch(rows, codes, deleted);
        lemma_batch_is_item_by_item(rows, first_codes, first_deleted);
        assert forall|c: Seq<char>| deleted_in_batch(codes, deleted, c) <==> (deleted_in_batch(
            first_codes,
            first_deleted,
            c,
        ) || (codes.last() == c && deleted.last())) by {
            if deleted_in_batch(codes, deleted, c) {
                let k = choose|k: int| 0 <= k < codes.len() && #[trigger] codes[k] == c && deleted[k];
                if k < first_codes.len() {
                    assert(first_codes[k] == c && first_deleted[k]);
                }
            }
            if deleted_in_batch(first_codes, first_deleted, c) {
                let k = choose|k: int|
                    0 <= k < first_codes.len() && #[trigger] first_codes[k] == c && first_deleted[k];
                assert(codes[k] == c && deleted[k]);
            }
            if codes.last() == c && deleted.last() {
                assert(codes[codes.len() - 1] == c && deleted[codes.len() - 1]);
            }
        }
        assert forall|i: int| 0 <= i < rows.len() implies (#[trigger] before[i]).entry.oaci
            == rows[i].entry.oaci by {
            if !deleted_in_batch(first_codes, first_deleted, rows[i].entry.oaci) {
                assert(before[i] == rows[i]);
            }
        }
    }
}

} // verus!
