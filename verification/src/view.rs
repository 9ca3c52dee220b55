//! The view projection: which rows of a snapshot are shown, and in what order.
//!
//! A row is shown when its code or its city contains the search text, case
//! set aside. The shown rows are ordered by the chosen column in
//! lexicographic, case-sensitive order, reversed for the descending
//! direction; rows with equal keys keep their snapshot order.

use crate::models::{rows_model, EntryModel, RowModel, VacEntry, VacEntryWithSelection};
use crate::text::{
    chars_of, collate, contains, lemma_precedes_asymmetric, lemma_precedes_total,
    lemma_precedes_transitive, lowercase_chars, lowercase_of, occurs_in, precedes, Collation,
};
use vstd::prelude::*;
use vstd::string::*;

verus! {

/// The column a view is ordered by.
#[derive(Clone, Copy, Debug, PartialEq, Eq, Structural)]
pub enum SortColumn {
    Oaci,
    City,
}

/// Whether `entry` passes the search: the search text is empty, or its
/// lowercase form occurs in the lowercase form of the code or of the city.
pub open spec fn matches_search(entry: EntryModel, search: Seq<char>) -> bool {
    ||| search.len() == 0
    ||| occurs_in(lowercase_of(entry.oaci), lowercase_of(search))
    ||| occurs_in(lowercase_of(entry.city), lowercase_of(search))
}

/// Whether a lowercase search text occurs in either of two lowercase fields.
pub fn matches_lowered(oaci: &Vec<char>, city: &Vec<char>, needle: &Vec<char>) -> (found: bool)
    ensures
        found == (occurs_in(oaci@, needle@) || occurs_in(city@, needle@)),
{
    contains(oaci, needle) || contains(city, needle)
}

/// Whether `entry` passes the search for `search`.
pub fn entry_matches(entry: &VacEntry, search: &str) -> (shown: bool)
    ensures
        shown == matches_search(entry@, search@),
{
    if search.unicode_len() == 0 {
        return true;
    }
    let needle = lowercase_chars(search);
    entry_matches_needle(entry, &needle)
}

fn entry_matches_needle(entry: &VacEntry, needle: &Vec<char>) -> (found: bool)
    ensures
        found == (occurs_in(lowercase_of(entry@.oaci), needle@) || occurs_in(
            lowercase_of(entry@.city),
            needle@,
        )),
{
    let oaci = lowercase_chars(entry.oaci.as_str());
    let city = lowercase_chars(entry.city.as_str());
    matches_lowered(&oaci, &city, needle)
}

/// Whether every row that passes the search is selected.
pub open spec fn all_shown_selected(rows: Seq<RowModel>, search: Seq<char>) -> bool {
    forall|i: int|
        0 <= i < rows.len() && matches_search((#[trigger] rows[i]).entry, search) ==> rows[i].selected
}

/// `rows` with the flag of every row that passes the search set to
/// `selected`.
pub open spec fn with_shown_selection(rows: Seq<RowModel>, search: Seq<char>, selected: bool) -> Seq<
    RowModel,
> {
    rows.map_values(
        |r: RowModel|
            if matches_search(r.entry, search) {
                RowModel { selected, ..r }
            } else {
                r
            },
    )
}

/// `rows` after a click on "select all": every row that passes the search
/// gets the negation of "all of them are selected".
pub open spec fn toggled(rows: Seq<RowModel>, search: Seq<char>) -> Seq<RowModel> {
    with_shown_selection(rows, search, !all_shown_selected(rows, search))
}

/// A click on "select all" while some shown row is not selected selects all
/// shown rows, and the next click deselects them all. Rows that are not
/// shown keep their flag through both.
pub proof fn lemma_toggle_select_all(rows: Seq<RowModel>, search: Seq<char>)
    ensures
        toggled(rows, search).len() == rows.len(),
        !all_shown_selected(rows, search) ==> all_shown_selected(toggled(rows, search), search),
        !all_shown_selected(rows, search) ==> forall|i: int|
            0 <= i < rows.len() && matches_search((#[trigger] rows[i]).entry, search) ==> !toggled(
                toggled(rows, search),
                search,
            )[i].selected,
        all_shown_selected(rows, search) ==> forall|i: int|
            0 <= i < rows.len() && matches_search((#[trigger] rows[i]).entry, search) ==> !toggled(
                rows,
                search,
            )[i].selected,
        forall|i: int|
            0 <= i < rows.len() && !matches_search((#[trigger] rows[i]).entry, search) ==> toggled(
                rows,
                search,
            )[i] == rows[i] && toggled(toggled(rows, search), search)[i] == rows[i],
        forall|i: int|
            0 <= i < rows.len() ==> (#[trigger] toggled(rows, search)[i]).entry == rows[i].entry,
{
    let once = toggled(rows, search);
    if !all_shown_selected(rows, search) {
        assert forall|i: int|
            0 <= i < once.len() && matches_search((#[trigger] once[i]).entry, search) implies once[i].selected by {
            assert(once[i].entry == rows[i].entry);
        }
        assert(all_shown_selected(once, search));
    }
}

/// The text a row is ordered by under `column`.
pub open spec fn sort_key(row: RowModel, column: SortColumn) -> Seq<char> {
    match column {
        SortColumn::Oaci => row.entry.oaci,
        SortColumn::City => row.entry.city,
    }
}

/// Whether the item with key `a` at position `i` is shown before the item
/// with key `b` at position `j`: by key in the given direction, and by
/// position where the keys are equal.
pub open spec fn ordered_before(a: Seq<char>, i: int, b: Seq<char>, j: int, ascending: bool) -> bool {
    if a == b {
        i < j
    } else if ascending {
        precedes(a, b)
    } else {
        precedes(b, a)
    }
}

/// Whether row `i` of `rows` is shown before row `j`.
pub open spec fn shown_before(
    rows: Seq<RowModel>,
    column: SortColumn,
    ascending: bool,
    i: int,
    j: int,
) -> bool {
    ordered_before(sort_key(rows[i], column), i, sort_key(rows[j], column), j, ascending)
}

/// `shown` is the projection of `rows`: it lists the positions of exactly the
/// rows that pass the search, in display order.
pub open spec fn is_projection(
    shown: Seq<usize>,
    rows: Seq<RowModel>,
    search: Seq<char>,
    column: SortColumn,
    ascending: bool,
) -> bool {
    &&& forall|k: int|
        0 <= k < shown.len() ==> (#[trigger] shown[k]) < rows.len() && matches_search(
            rows[shown[k] as int].entry,
            search,
        )
    &&& forall|i: int|
        0 <= i < rows.len() && matches_search((#[trigger] rows[i]).entry, search)
            ==> shown.contains(i as usize)
    &&& in_display_order(shown, rows, column, ascending)
}

/// Of two different positions one is ordered before the other.
pub proof fn lemma_ordered_before_total(a: Seq<char>, i: int, b: Seq<char>, j: int, ascending: bool)
    requires
        i != j,
    ensures
        ordered_before(a, i, b, j, ascending) || ordered_before(b, j, a, i, ascending),
{
    lemma_precedes_total(a, b);
}

/// The order of display is transitive.
pub proof fn lemma_ordered_before_transitive(
    a: Seq<char>,
    i: int,
    b: Seq<char>,
    j: int,
    c: Seq<char>,
    k: int,
    ascending: bool,
)
    requires
        ordered_before(a, i, b, j, ascending),
        ordered_before(b, j, c, k, ascending),
    ensures
        ordered_before(a, i, c, k, ascending),
{
    if a != b && b != c {
        if ascending {
            lemma_precedes_transitive(a, b, c);
            lemma_precedes_asymmetric(a, c);
        } else {
            lemma_precedes_transitive(c, b, a);
            lemma_precedes_asymmetric(c, a);
        }
    } else if a != b {
        if ascending {
            lemma_precedes_asymmetric(a, b);
        } else {
            lemma_precedes_asymmetric(b, a);
        }
    } else if b != c {
        if ascending {
            lemma_precedes_asymmetric(b, c);
        } else {
            lemma_precedes_asymmetric(c, b);
        }
    }
}

/// Nothing is ordered before itself, and no two items before each other.
pub proof fn lemma_ordered_before_asymmetric(
    a: Seq<char>,
    i: int,
    b: Seq<char>,
    j: int,
    ascending: bool,
)
    requires
        ordered_before(a, i, b, j, ascending),
    ensures
        !ordered_before(b, j, a, i, ascending),
{
    if a != b {
        if ascending {
            lemma_precedes_asymmetric(a, b);
        } else {
            lemma_precedes_asymmetric(b, a);
        }
    }
}

/// Each item of `shown` is shown before every later one.
pub open spec fn in_display_order(
    shown: Seq<usize>,
    rows: Seq<RowModel>,
    column: SortColumn,
    ascending: bool,
) -> bool {
    forall|a: int, b: int|
        0 <= a < b < shown.len() ==> shown_before(
            rows,
            column,
            ascending,
            (#[trigger] shown[a]) as int,
            (#[trigger] shown[b]) as int,
        )
}

/// Two lists in display order that hold the same positions are the same
/// list.
pub proof fn lemma_display_order_unique(
    first: Seq<usize>,
    second: Seq<usize>,
    rows: Seq<RowModel>,
    column: SortColumn,
    ascending: bool,
)
    requires
        in_display_order(first, rows, column, ascending),
        in_display_order(second, rows, column, ascending),
        forall|x: usize| first.contains(x) <==> second.contains(x),
    ensures
        first == second,
    decreases first.len(),
{
    if first.len() == 0 {
        if second.len() > 0 {
            assert(second.contains(second[0]));
        }
        assert(first =~= second);
    } else if second.len() == 0 {
        assert(first.contains(first[0]));
    } else {
        let x = first[0];
        let y = second[0];
        assert(first.contains(x));
        assert(second.contains(y));
        if x != y {
            let k = choose|k: int| 0 <= k < second.len() && second[k] == x;
            let m = choose|m: int| 0 <= m < first.len() && first[m] == y;
            assert(shown_before(rows, column, ascending, second[0] as int, second[k] as int));
            assert(shown_before(rows, column, ascending, first[0] as int, first[m] as int));
            lemma_ordered_before_asymmetric(
                sort_key(rows[x as int], column),
                x as int,
                sort_key(rows[y as int], column),
                y as int,
                ascending,
            );
        }
        let first_rest = first.drop_first();
        let second_rest = second.drop_first();
        assert forall|a: int, b: int| 0 <= a < b < first_rest.len() implies shown_before(
            rows,
            column,
            ascending,
            (#[trigger] first_rest[a]) as int,
            (#[trigger] first_rest[b]) as int,
        ) by {
            assert(first_rest[a] == first[a + 1] && first_rest[b] == first[b + 1]);
        }
        assert forall|a: int, b: int| 0 <= a < b < second_rest.len() implies shown_before(
            rows,
            column,
            ascending,
            (#[trigger] second_rest[a]) as int,
            (#[trigger] second_rest[b]) as int,
        ) by {
            assert(second_rest[a] == second[a + 1] && second_rest[b] == second[b + 1]);
        }
        assert forall|z: usize| first_rest.contains(z) <==> second_rest.contains(z) by {
            if first_rest.contains(z) {
                let k = choose|k: int| 0 <= k < first_rest.len() && first_rest[k] == z;
                assert(first[k + 1] == z);
                assert(first.contains(z));
                assert(shown_before(rows, column, ascending, first[0] as int, first[k + 1] as int));
                let m = choose|m: int| 0 <= m < second.len() && second[m] == z;
                if m == 0 {
                    lemma_ordered_before_asymmetric(
                        sort_key(rows[x as int], column),
                        x as int,
                        sort_key(rows[z as int], column),
                        z as int,
                        ascending,
                    );
                }
                assert(second_rest[m - 1] == z);
            }
            if second_rest.contains(z) {
                let k = choose|k: int| 0 <= k < second_rest.len() && second_rest[k] == z;
                assert(second[k + 1] == z);
                assert(second.contains(z));
                assert(shown_before(rows, column, ascending, second[0] as int, second[k + 1] as int));
                let m = choose|m: int| 0 <= m < first.len() && first[m] == z;
                if m == 0 {
                    lemma_ordered_before_asymmetric(
                        sort_key(rows[y as int], column),
                        y as int,
                        sort_key(rows[z as int], column),
                        z as int,
                        ascending,
                    );
                }
                assert(first_rest[m - 1] == z);
            }
        }
        lemma_display_order_unique(first_rest, second_rest, rows, column, ascending);
        assert(first =~= seq![x] + first_rest);
        assert(second =~= seq![y] + second_rest);
    }
}

/// A snapshot has one projection only: the contract of `project` leaves no
/// choice.
pub proof fn lemma_projection_unique(
    first: Seq<usize>,
    second: Seq<usize>,
    rows: Seq<RowModel>,
    search: Seq<char>,
    column: SortColumn,
    ascending: bool,
)
    requires
        is_projection(first, rows, search, column, ascending),
        is_projection(second, rows, search, column, ascending),
    ensures
        first == second,
{
    assert forall|x: usize| first.contains(x) <==> second.contains(x) by {
        if first.contains(x) {
            let k = choose|k: int| 0 <= k < first.len() && first[k] == x;
            assert(first[k] < rows.len());
            assert(matches_search(rows[x as int].entry, search));
            assert(second.contains((x as int) as usize));
        }
        if second.contains(x) {
            let k = choose|k: int| 0 <= k < second.len() && second[k] == x;
            assert(second[k] < rows.len());
            assert(matches_search(rows[x as int].entry, search));
            assert(first.contains((x as int) as usize));
        }
    }
    lemma_display_order_unique(first, second, rows, column, ascending);
}

/// With an empty search text every row is shown.
pub proof fn lemma_empty_search_shows_all(
    shown: Seq<usize>,
    rows: Seq<RowModel>,
    column: SortColumn,
    ascending: bool,
)
    requires
        is_projection(shown, rows, Seq::<char>::empty(), column, ascending),
    ensures
        forall|x: usize| x < rows.len() ==> #[trigger] shown.contains(x),
{
    assert forall|x: usize| x < rows.len() implies #[trigger] shown.contains(x) by {
        assert(matches_search(rows[x as int].entry, Seq::<char>::empty()));
        assert(shown.contains((x as int) as usize));
    }
}

/// Whether the item with key `a` at position `i` is shown before the item
/// with key `b` at position `j`.
pub fn comes_before(a: &Vec<char>, i: usize, b: &Vec<char>, j: usize, ascending: bool) -> (before:
    bool)
    ensures
        before == ordered_before(a@, i as int, b@, j as int, ascending),
{
    match collate(a, b) {
        Collation::Same => i < j,
        Collation::Before => {
            proof {
                lemma_precedes_asymmetric(a@, b@);
            }
            ascending
        },
        Collation::After => {
            proof {
                lemma_precedes_total(a@, b@);
                lemma_precedes_asymmetric(b@, a@);
            }
            !ascending
        },
    }
}

/// The positions of the rows that pass the search, in increasing order.
pub fn matching_positions(rows: &Vec<VacEntryWithSelection>, search: &str) -> (found: Vec<usize>)
    ensures
        forall|k: int|
            0 <= k < found@.len() ==> (#[trigger] found@[k]) < rows@.len() && matches_search(
                rows@[found@[k] as int]@.entry,
                search@,
            ),
        forall|i: int|
            0 <= i < rows@.len() && matches_search((#[trigger] rows@[i])@.entry, search@)
                ==> found@.contains(i as usize),
        forall|a: int, b: int| 0 <= a < b < found@.len() ==> found@[a] < found@[b],
{
    let mut found: Vec<usize> = Vec::new();
    let n = rows.len();
    let all = search.unicode_len() == 0;
    let needle = lowercase_chars(search);
    let mut i: usize = 0;
    while i < n
        invariant
            i <= n,
            n == rows@.len(),
            all == (search@.len() == 0),
            needle@ == lowercase_of(search@),
            forall|k: int|
                0 <= k < found@.len() ==> (#[trigger] found@[k]) < i && matches_search(
                    rows@[found@[k] as int]@.entry,
                    search@,
                ),
            forall|j: int|
                0 <= j < i && matches_search((#[trigger] rows@[j])@.entry, search@)
                    ==> found@.contains(j as usize),
            forall|a: int, b: int| 0 <= a < b < found@.len() ==> found@[a] < found@[b],
        decreases n - i,
    {
        if all || entry_matches_needle(&rows[i].entry, &needle) {
            let ghost earlier = found@;
            found.push(i);
            assert(found@[earlier.len() as int] == i);
            assert forall|j: int|
                0 <= j < i + 1 && matches_search(
                    (#[trigger] rows@[j])@.entry,
                    search@,
                ) implies found@.contains(j as usize) by {
                if j < i {
                    assert(earlier.contains(j as usize));
                    let k = choose|k: int| 0 <= k < earlier.len() && earlier[k] == j as usize;
                    assert(found@[k] == j as usize);
                }
            }
        }
        i += 1;
    }
    found
}

/// `x` is one of the first `t` items of `found`.
spec fn among_first(found: Seq<usize>, t: int, x: usize) -> bool {
    exists|q: int| 0 <= q < t && found[q] == x
}

/// The sort keys of all rows under `column`, row by row.
fn sort_keys(rows: &Vec<VacEntryWithSelection>, column: SortColumn) -> (keys: Vec<Vec<char>>)
    ensures
        keys@.len() == rows@.len(),
        forall|i: int| 0 <= i < rows@.len() ==> (#[trigger] keys@[i])@ == sort_key(rows@[i]@, column),
{
    let mut keys: Vec<Vec<char>> = Vec::new();
    let n = rows.len();
    let mut i: usize = 0;
    while i < n
        invariant
            i <= n,
            n == rows@.len(),
            keys@.len() == i,
            forall|k: int| 0 <= k < i ==> (#[trigger] keys@[k])@ == sort_key(rows@[k]@, column),
        decreases n - i,
    {
        let key = match column {
            SortColumn::Oaci => chars_of(rows[i].entry.oaci.as_str()),
            SortColumn::City => chars_of(rows[i].entry.city.as_str()),
        };
        keys.push(key);
        i += 1;
    }
    keys
}

/// The positions of the rows of `rows` to show for `search`, in the order of
/// display under `column` and the direction.
pub fn project(
    rows: &Vec<VacEntryWithSelection>,
    search: &str,
    column: SortColumn,
    ascending: bool,
) -> (shown: Vec<usize>)
    ensures
        is_projection(shown@, rows_model(rows@), search@, column, ascending),
{
    let found = matching_positions(rows, search);
    let keys = sort_keys(rows, column);
    let ghost model = rows_model(rows@);
    let mut shown: Vec<usize> = Vec::new();
    let total = found.len();
    let mut t: usize = 0;
    while t < total
        invariant
            t <= total,
            total == found@.len(),
            model == rows_model(rows@),
            keys@.len() == rows@.len(),
            forall|i: int| 0 <= i < rows@.len() ==> (#[trigger] keys@[i])@ == sort_key(model[i], column),
            forall|k: int| 0 <= k < found@.len() ==> (#[trigger] found@[k]) < rows@.len(),
            forall|a: int, b: int| 0 <= a < b < found@.len() ==> found@[a] < found@[b],
            forall|k: int| 0 <= k < shown@.len() ==> among_first(found@, t as int, #[trigger] shown@[k]),
            forall|q: int| 0 <= q < t ==> shown@.contains(#[trigger] found@[q]),
            forall|a: int, b: int|
                0 <= a < b < shown@.len() ==> shown_before(
                    model,
                    column,
                    ascending,
                    (#[trigger] shown@[a]) as int,
                    (#[trigger] shown@[b]) as int,
                ),
        decreases total - t,
    {
        let x = found[t];
        let mut p: usize = shown.len();
        while p > 0 && comes_before(&keys[x], x, &keys[shown[p - 1]], shown[p - 1], ascending)
            invariant
                p <= shown@.len(),
                x == found@[t as int],
                x < rows@.len(),
                t < total,
                total == found@.len(),
                model == rows_model(rows@),
                keys@.len() == rows@.len(),
                forall|i: int|
                    0 <= i < rows@.len() ==> (#[trigger] keys@[i])@ == sort_key(model[i], column),
                forall|k: int| 0 <= k < found@.len() ==> (#[trigger] found@[k]) < rows@.len(),
                forall|k: int|
                    0 <= k < shown@.len() ==> among_first(found@, t as int, #[trigger] shown@[k]),
                forall|q: int|
                    p <= q < shown@.len() ==> shown_before(
                        model,
                        column,
                        ascending,
                        x as int,
                        (#[trigger] shown@[q]) as int,
                    ),
            decreases p,
        {
            p -= 1;
        }
        let ghost earlier = shown@;
        proof {
            assert forall|q: int| 0 <= q < p implies shown_before(
                model,
                column,
                ascending,
                (#[trigger] earlier[q]) as int,
                x as int,
            ) by {
                let last = earlier[p - 1];
                assert(among_first(found@, t as int, last));
                let w = choose|w: int| 0 <= w < t && found@[w] == last;
                assert(found@[w] < found@[t as int]);
                lemma_ordered_before_total(
                    sort_key(model[x as int], column),
                    x as int,
                    sort_key(model[last as int], column),
                    last as int,
                    ascending,
                );
                if q < p - 1 {
                    lemma_ordered_before_transitive(
                        sort_key(model[earlier[q] as int], column),
                        earlier[q] as int,
                        sort_key(model[last as int], column),
                        last as int,
                        sort_key(model[x as int], column),
                        x as int,
                        ascending,
                    );
                }
            }
        }
        shown.insert(p, x);
        proof {
            assert forall|k: int| 0 <= k < shown@.len() implies among_first(
                found@,
                t + 1,
                #[trigger] shown@[k],
            ) by {
                if k < p {
                    assert(among_first(found@, t as int, earlier[k]));
                    let q = choose|q: int| 0 <= q < t && found@[q] == earlier[k];
                    assert(found@[q] == shown@[k]);
                } else if k == p {
                    assert(found@[t as int] == shown@[k]);
                } else {
                    assert(among_first(found@, t as int, earlier[k - 1]));
                    let q = choose|q: int| 0 <= q < t && found@[q] == earlier[k - 1];
                    assert(found@[q] == shown@[k]);
                }
            }
            assert forall|q: int| 0 <= q < t + 1 implies shown@.contains(#[trigger] found@[q]) by {
                if q < t {
                    assert(earlier.contains(found@[q]));
                    let k = choose|k: int| 0 <= k < earlier.len() && earlier[k] == found@[q];
                    if k < p {
                        assert(shown@[k] == found@[q]);
                    } else {
                        assert(shown@[k + 1] == found@[q]);
                    }
                } else {
                    assert(shown@[p as int] == found@[q]);
                }
            }
            assert forall|a: int, b: int| 0 <= a < b < shown@.len() implies shown_before(
                model,
                column,
                ascending,
                (#[trigger] shown@[a]) as int,
                (#[trigger] shown@[b]) as int,
            ) by {
                let ea = if a < p { a } else { a - 1 };
                let eb = if b < p { b } else { b - 1 };
                if a != p {
                    assert(shown@[a] == earlier[ea]);
                }
                if b != p {
                    assert(shown@[b] == earlier[eb]);
                }
            }
        }
        t += 1;
    }
    proof {
        assert forall|k: int| 0 <= k < shown@.len() implies (#[trigger] shown@[k]) < model.len()
            && matches_search(model[shown@[k] as int].entry, search@) by {
            assert(among_first(found@, total as int, shown@[k]));
            let q = choose|q: int| 0 <= q < total && found@[q] == shown@[k];
            assert(found@[q] < rows@.len());
            assert(rows@[shown@[k] as int]@ == model[shown@[k] as int]);
        }
        assert forall|i: int|
            0 <= i < model.len() && matches_search(
                (#[trigger] model[i]).entry,
                search@,
            ) implies shown@.contains(i as usize) by {
            assert(rows@[i]@ == model[i]);
            assert(found@.contains(i as usize));
            let q = choose|q: int| 0 <= q < found@.len() && found@[q] == i as usize;
            assert(shown@.contains(found@[q]));
        }
    }
    shown
}

} // verus!
