//! The order of delete rows, by data file and then by position, and sorting by it.
use crate::position_delete_writer::{row_view, row_views};
use crate::text::{
    compare_text, lemma_text_before_irreflexive, lemma_text_before_total,
    lemma_text_before_transitive, text_before, TextOrder,
};
use vstd::prelude::*;
use vstd::seq_lib::*;

verus! {

/// `a` comes strictly before `b`: by the data file, and for the same data file by the position.
pub open spec fn row_before(a: (Seq<char>, i64), b: (Seq<char>, i64)) -> bool {
    text_before(a.0, b.0) || (a.0 == b.0 && a.1 < b.1)
}

/// The rows stand in order; equal rows may follow each other.
pub open spec fn sorted_rows(rows: Seq<(Seq<char>, i64)>) -> bool {
    forall|i: int, j: int| 0 <= i < j < rows.len() ==> !row_before(#[trigger] rows[j], #[trigger] rows[i])
}

/// The rows stand in order, and none occurs twice.
pub open spec fn strictly_sorted_rows(rows: Seq<(Seq<char>, i64)>) -> bool {
    forall|i: int, j: int| 0 <= i < j < rows.len() ==> row_before(#[trigger] rows[i], #[trigger] rows[j])
}

/// The row order is a strict order.
pub proof fn lemma_row_before_strict(a: (Seq<char>, i64), b: (Seq<char>, i64), c: (Seq<char>, i64))
    ensures
        !row_before(a, a),
        row_before(a, b) && row_before(b, c) ==> row_before(a, c),
{
    lemma_text_before_irreflexive(a.0);
    if text_before(a.0, b.0) && text_before(b.0, c.0) {
        lemma_text_before_transitive(a.0, b.0, c.0);
    }
}

/// The row order is total.
pub proof fn lemma_row_before_total(a: (Seq<char>, i64), b: (Seq<char>, i64))
    ensures
        row_before(a, b) || a == b || row_before(b, a),
{
    lemma_text_before_total(a.0, b.0);
}

/// Rows that stand strictly in order stand in order.
pub proof fn lemma_strictly_sorted(rows: Seq<(Seq<char>, i64)>)
    requires
        strictly_sorted_rows(rows),
    ensures
        sorted_rows(rows),
{
    assert forall|i: int, j: int| 0 <= i < j < rows.len() implies !row_before(
        #[trigger] rows[j],
        #[trigger] rows[i],
    ) by {
        lemma_row_before_strict(rows[i], rows[j], rows[i]);
    }
}

/// `a` comes strictly before `b`, in ascending or in descending order.
spec fn directed_before(a: (Seq<char>, i64), b: (Seq<char>, i64), ascending: bool) -> bool {
    if ascending {
        row_before(a, b)
    } else {
        row_before(b, a)
    }
}

/// The rows stand in ascending or in descending order.
spec fn directed_rows(rows: Seq<(Seq<char>, i64)>, ascending: bool) -> bool {
    forall|i: int, j: int|
        0 <= i < j < rows.len() ==> !directed_before(#[trigger] rows[j], #[trigger] rows[i], ascending)
}

/// Not coming before is transitive.
proof fn lemma_directed_chain(
    a: (Seq<char>, i64),
    b: (Seq<char>, i64),
    c: (Seq<char>, i64),
    ascending: bool,
)
    requires
        !directed_before(a, b, ascending),
        !directed_before(b, c, ascending),
    ensures
        !directed_before(a, c, ascending),
{
    lemma_row_before_total(a, b);
    lemma_row_before_total(b, c);
    lemma_row_before_strict(a, c, b);
    lemma_row_before_strict(c, a, b);
    lemma_row_before_strict(b, a, c);
    lemma_row_before_strict(b, c, a);
    lemma_row_before_strict(a, b, c);
    lemma_row_before_strict(c, b, a);
}

/// Tells whether a row comes strictly before another.
pub fn is_row_before(a: &(String, i64), b: &(String, i64)) -> (before: bool)
    ensures
        before == row_before(row_view(*a), row_view(*b)),
{
    match compare_text(a.0.as_str(), b.0.as_str()) {
        TextOrder::Before => true,
        TextOrder::Same => {
            proof {
                lemma_text_before_irreflexive(a.0@);
            }
            a.1 < b.1
        },
        TextOrder::After => {
            proof {
                lemma_text_before_irreflexive(a.0@);
                if text_before(a.0@, b.0@) {
                    lemma_text_before_transitive(a.0@, b.0@, a.0@);
                }
            }
            false
        },
    }
}

/// Moving the last row of one sequence to the end of another.
proof fn lemma_move_last(from: Seq<(String, i64)>, to: Seq<(String, i64)>)
    requires
        from.len() > 0,
    ensures
        row_views(from.drop_last()) == row_views(from).drop_last(),
        row_views(to.push(from.last())) == row_views(to).push(row_views(from).last()),
        row_views(from.drop_last()).to_multiset().insert(row_views(from).last()) == row_views(
            from,
        ).to_multiset(),
        row_views(to.push(from.last())).to_multiset() == row_views(to).to_multiset().insert(
            row_views(from).last(),
        ),
{
    broadcast use group_to_multiset_ensures;

    assert(row_views(from.drop_last()) == row_views(from).drop_last());
    assert(row_views(to.push(from.last())) == row_views(to).push(row_views(from).last()));
    assert(row_views(from) == row_views(from).drop_last().push(row_views(from).last()));
}

/// Merges two runs that stand in the opposite order.
fn merge_rows(left: Vec<(String, i64)>, right: Vec<(String, i64)>, ascending: bool) -> (merged: Vec<
    (String, i64),
>)
    requires
        directed_rows(row_views(left@), !ascending),
        directed_rows(row_views(right@), !ascending),
    ensures
        directed_rows(row_views(merged@), ascending),
        row_views(merged@).to_multiset() == row_views(left@).to_multiset().add(
            row_views(right@).to_multiset(),
        ),
{
    let ghost total = row_views(left@).to_multiset().add(row_views(right@).to_multiset());
    let mut left = left;
    let mut right = right;
    let mut merged: Vec<(String, i64)> = Vec::new();
    proof {
        broadcast use group_to_multiset_ensures;

        assert(row_views(merged@) == Seq::<(Seq<char>, i64)>::empty());
        assert(row_views(merged@).to_multiset().add(total) == total);
    }
    while left.len() > 0 || right.len() > 0
        invariant
            directed_rows(row_views(left@), !ascending),
            directed_rows(row_views(right@), !ascending),
            directed_rows(row_views(merged@), ascending),
            forall|i: int, j: int|
                0 <= i < merged.len() && 0 <= j < left.len() ==> !directed_before(
                    #[trigger] row_views(left@)[j],
                    #[trigger] row_views(merged@)[i],
                    ascending,
                ),
            forall|i: int, j: int|
                0 <= i < merged.len() && 0 <= j < right.len() ==> !directed_before(
                    #[trigger] row_views(right@)[j],
                    #[trigger] row_views(merged@)[i],
                    ascending,
                ),
            row_views(merged@).to_multiset().add(
                row_views(left@).to_multiset().add(row_views(right@).to_multiset()),
            ) == total,
        decreases left.len() + right.len(),
    {
        let from_left = if left.len() == 0 {
            false
        } else if right.len() == 0 {
            true
        } else {
            let a = &left[left.len() - 1];
            let b = &right[right.len() - 1];
            if ascending {
                !is_row_before(b, a)
            } else {
                !is_row_before(a, b)
            }
        };
        let ghost l = row_views(left@);
        let ghost r = row_views(right@);
        let ghost m = row_views(merged@);
        if from_left {
            proof {
                lemma_move_last(left@, merged@);
                assert forall|j: int| 0 <= j < r.len() implies !directed_before(
                    #[trigger] r[j],
                    l.last(),
                    ascending,
                ) by {
                    if j < r.len() - 1 {
                        assert(!directed_before(r.last(), r[j], !ascending));
                        lemma_directed_chain(r[j], r.last(), l.last(), ascending);
                    }
                }
                assert forall|j: int| 0 <= j < l.len() - 1 implies !directed_before(
                    #[trigger] l[j],
                    l.last(),
                    ascending,
                ) by {
                    assert(!directed_before(l.last(), l[j], !ascending));
                }
            }
            if let Some(row) = left.pop() {
                merged.push(row);
            }
            assert(row_views(left@) == l.drop_last());
            assert(row_views(merged@) == m.push(l.last()));
        } else {
            proof {
                lemma_move_last(right@, merged@);
                assert forall|j: int| 0 <= j < l.len() implies !directed_before(
                    #[trigger] l[j],
                    r.last(),
                    ascending,
                ) by {
                    if j < l.len() - 1 {
                        assert(!directed_before(l.last(), l[j], !ascending));
                    }
                    lemma_row_before_strict(l.last(), r.last(), l.last());
                    if j < l.len() - 1 {
                        lemma_directed_chain(l[j], l.last(), r.last(), ascending);
                    }
                }
                assert forall|j: int| 0 <= j < r.len() - 1 implies !directed_before(
                    #[trigger] r[j],
                    r.last(),
                    ascending,
                ) by {
                    assert(!directed_before(r.last(), r[j], !ascending));
                }
            }
            if let Some(row) = right.pop() {
                merged.push(row);
            }
            assert(row_views(right@) == r.drop_last());
            assert(row_views(merged@) == m.push(r.last()));
        }
        assert(row_views(merged@).to_multiset().add(
            row_views(left@).to_multiset().add(row_views(right@).to_multiset()),
        ) == total);
    }
    proof {
        broadcast use group_to_multiset_ensures;

        assert(row_views(left@) == Seq::<(Seq<char>, i64)>::empty());
        assert(row_views(right@) == Seq::<(Seq<char>, i64)>::empty());
        assert(row_views(merged@).to_multiset() == total);
    }
    merged
}

/// Sorts rows in ascending or in descending order.
fn sort_directed(rows: Vec<(String, i64)>, ascending: bool) -> (sorted: Vec<(String, i64)>)
    ensures
        directed_rows(row_views(sorted@), ascending),
        row_views(sorted@).to_multiset() == row_views(rows@).to_multiset(),
    decreases rows.len(),
{
    if rows.len() <= 1 {
        return rows;
    }
    let ghost all = rows@;
    let mut left = rows;
    let half = left.len() / 2;
    let right = left.split_off(half);
    proof {
        assert(row_views(all) == row_views(left@) + row_views(right@));
        lemma_multiset_commutative(row_views(left@), row_views(right@));
    }
    let left = sort_directed(left, !ascending);
    let right = sort_directed(right, !ascending);
    merge_rows(left, right, ascending)
}

/// Sorts rows by data file and position.
pub fn sort_rows(rows: Vec<(String, i64)>) -> (sorted: Vec<(String, i64)>)
    ensures
        sorted_rows(row_views(sorted@)),
        row_views(sorted@).to_multiset() == row_views(rows@).to_multiset(),
{
    let sorted = sort_directed(rows, true);
    proof {
        let s = row_views(sorted@);
        assert forall|i: int, j: int| 0 <= i < j < s.len() implies !row_before(
            #[trigger] s[j],
            #[trigger] s[i],
        ) by {
            assert(!directed_before(s[j], s[i], true));
        }
    }
    sorted
}

/// The same rows have only one sorted form: in which order they came does not matter.
pub proof fn lemma_sorted_form_is_unique(a: Seq<(Seq<char>, i64)>, b: Seq<(Seq<char>, i64)>)
    requires
        sorted_rows(a),
        sorted_rows(b),
        a.to_multiset() == b.to_multiset(),
    ensures
        a == b,
    decreases a.len(),
{
    broadcast use group_to_multiset_ensures;

    assert(a.len() == a.to_multiset().len() && b.len() == b.to_multiset().len());
    if a.len() > 0 {
        let x = a.last();
        let y = b.last();
        assert(a.to_multiset().count(x) > 0) by {
            assert(a.contains(x));
        }
        assert(b.to_multiset().count(y) > 0) by {
            assert(b.contains(y));
        }
        assert(b.contains(x));
        assert(a.contains(y));
        let i = choose|i: int| 0 <= i < b.len() && b[i] == x;
        let j = choose|j: int| 0 <= j < a.len() && a[j] == y;
        lemma_row_before_strict(x, y, x);
        lemma_row_before_total(x, y);
        if i < b.len() - 1 {
            assert(!row_before(b[b.len() - 1], b[i]));
        }
        if j < a.len() - 1 {
            assert(!row_before(a[a.len() - 1], a[j]));
        }
        assert(x == y);
        assert(a.drop_last() == a.remove(a.len() - 1));
        assert(b.drop_last() == b.remove(b.len() - 1));
        lemma_sorted_form_is_unique(a.drop_last(), b.drop_last());
        assert(a == a.drop_last().push(x));
        assert(b == b.drop_last().push(y));
    } else {
        assert(a == b);
    }
}

/// Rows that stand strictly in order are determined by their set: neither the order in which they
/// came nor how often each of them came matters.
pub proof fn lemma_strictly_sorted_form_is_unique(a: Seq<(Seq<char>, i64)>, b: Seq<(Seq<char>, i64)>)
    requires
        strictly_sorted_rows(a),
        strictly_sorted_rows(b),
        a.to_set() == b.to_set(),
    ensures
        a == b,
{
    broadcast use group_to_multiset_ensures;

    lemma_strictly_sorted(a);
    lemma_strictly_sorted(b);
    lemma_no_row_twice(a);
    lemma_no_row_twice(b);
    a.lemma_multiset_has_no_duplicates();
    b.lemma_multiset_has_no_duplicates();
    let (x, y) = (a.to_multiset(), b.to_multiset());
    assert forall|row: (Seq<char>, i64)| x.count(row) == y.count(row) by {
        assert(a.to_set().contains(row) == b.to_set().contains(row));
        assert(a.contains(row) <==> x.count(row) > 0);
        assert(b.contains(row) <==> y.count(row) > 0);
        assert(a.contains(row) == b.contains(row)) by {
            assert(a.to_set().contains(row) <==> a.contains(row));
            assert(b.to_set().contains(row) <==> b.contains(row));
        }
        if x.count(row) > 0 {
            assert(x.contains(row));
            assert(y.contains(row));
        } else {
            assert(y.count(row) == 0);
        }
    }
    assert(x == y);
    lemma_sorted_form_is_unique(a, b);
}

/// Rows that stand strictly in order hold none twice.
pub proof fn lemma_no_row_twice(rows: Seq<(Seq<char>, i64)>)
    requires
        strictly_sorted_rows(rows),
    ensures
        rows.no_duplicates(),
{
    assert forall|i: int, j: int| 0 <= i < rows.len() && 0 <= j < rows.len() && i != j implies rows[i]
        != rows[j] by {
        lemma_row_before_strict(rows[i], rows[j], rows[i]);
        if i < j {
            assert(row_before(rows[i], rows[j]));
        } else {
            assert(row_before(rows[j], rows[i]));
        }
    }
}

} // verus!
