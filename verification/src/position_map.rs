//! Deleted positions by data file, and handing them out in order.
use crate::bitmap::{ascending, bitmap_positions, lemma_sorted_members, members, sorted_members};
use crate::delete_file_loader::row_positions;
use crate::position_delete_writer::row_views;
use crate::row_order::{row_before, strictly_sorted_rows};
use crate::text::{compare_text, lemma_text_before_transitive, text_before, TextOrder};
use roaring::RoaringTreemap;
use vstd::prelude::*;
use vstd::string::*;

verus! {

/// The paths stand in strictly ascending order.
spec fn ascending_paths(paths: Seq<String>) -> bool {
    forall|i: int, j: int|
        0 <= i < j < paths.len() ==> text_before((#[trigger] paths[i])@, (#[trigger] paths[j])@)
}

/// Every bitmap holds row positions.
spec fn bounded_bitmaps(bitmaps: Seq<RoaringTreemap>) -> bool {
    forall|i: int| 0 <= i < bitmaps.len() ==> row_positions(members(#[trigger] bitmaps[i]))
}

/// The path at `i` and the position in its bitmap make up `row`.
spec fn entry_holds(
    paths: Seq<String>,
    bitmaps: Seq<RoaringTreemap>,
    i: int,
    row: (Seq<char>, i64),
) -> bool {
    paths[i]@ == row.0 && row.1 >= 0 && members(bitmaps[i]).contains(row.1 as u64)
}

/// The rows that paths with their bitmaps hold.
spec fn entry_rows(paths: Seq<String>, bitmaps: Seq<RoaringTreemap>) -> Set<(Seq<char>, i64)> {
    Set::new(
        |row: (Seq<char>, i64)|
            exists|i: int| 0 <= i < paths.len() && #[trigger] entry_holds(paths, bitmaps, i, row),
    )
}

/// A set of delete rows, held as one bitmap of positions per data file.
#[derive(Debug)]
pub struct PositionMap {
    paths: Vec<String>,
    bitmaps: Vec<RoaringTreemap>,
}

impl View for PositionMap {
    type V = Set<(Seq<char>, i64)>;

    closed spec fn view(&self) -> Set<(Seq<char>, i64)> {
        entry_rows(self.paths@, self.bitmaps@)
    }
}

impl PositionMap {
    #[verifier::type_invariant]
    spec fn in_order(self) -> bool {
        &&& self.paths.len() == self.bitmaps.len()
        &&& ascending_paths(self.paths@)
        &&& bounded_bitmaps(self.bitmaps@)
    }

    /// Makes an empty set.
    pub fn new() -> (map: PositionMap)
        ensures
            map@ == Set::<(Seq<char>, i64)>::empty(),
    {
        let map = PositionMap { paths: Vec::new(), bitmaps: Vec::new() };
        assert(map@ == Set::<(Seq<char>, i64)>::empty());
        map
    }

    /// Finds where `path` stands, or where it would have to stand.
    fn find(paths: &Vec<String>, path: &str) -> (place: (usize, bool))
        requires
            ascending_paths(paths@),
        ensures
            place.0 <= paths.len(),
            place.1 ==> place.0 < paths.len() && paths[place.0 as int]@ == path@,
            forall|i: int| 0 <= i < place.0 ==> text_before((#[trigger] paths@[i])@, path@),
            !place.1 ==> forall|i: int|
                place.0 <= i < paths.len() ==> text_before(path@, (#[trigger] paths@[i])@),
    {
        let mut low: usize = 0;
        let mut high: usize = paths.len();
        while low < high
            invariant
                low <= high <= paths.len(),
                ascending_paths(paths@),
                forall|i: int| 0 <= i < low ==> text_before((#[trigger] paths@[i])@, path@),
                forall|i: int| high <= i < paths.len() ==> text_before(path@, (#[trigger] paths@[i])@),
            decreases high - low,
        {
            let middle = low + (high - low) / 2;
            match compare_text(paths[middle].as_str(), path) {
                TextOrder::Same => {
                    return (middle, true);
                },
                TextOrder::Before => {
                    assert forall|i: int| 0 <= i < middle + 1 implies text_before(
                        (#[trigger] paths@[i])@,
                        path@,
                    ) by {
                        if i < middle {
                            lemma_text_before_transitive(paths@[i]@, paths@[middle as int]@, path@);
                        }
                    }
                    low = middle + 1;
                },
                TextOrder::After => {
                    assert forall|i: int| middle <= i < paths.len() implies text_before(
                        path@,
                        (#[trigger] paths@[i])@,
                    ) by {
                        if i > middle {
                            lemma_text_before_transitive(path@, paths@[middle as int]@, paths@[i]@);
                        }
                    }
                    high = middle;
                },
            }
        }
        (low, false)
    }

    /// Adds one delete row.
    pub fn insert(&mut self, path: &str, position: i64)
        requires
            position >= 0,
        ensures
            final(self)@ == old(self)@.insert((path@, position)),
    {
        proof {
            use_type_invariant(&*self);
        }
        let ghost row = (path@, position);
        let mut paths: Vec<String> = Vec::new();
        let mut bitmaps: Vec<RoaringTreemap> = Vec::new();
        let mut taken = PositionMap { paths, bitmaps };
        std::mem::swap(&mut taken, self);
        paths = taken.paths;
        bitmaps = taken.bitmaps;
        let ghost old_paths = paths@;
        let ghost old_bitmaps = bitmaps@;
        assert(old(self)@ == entry_rows(old_paths, old_bitmaps));
        let (place, found) = Self::find(&paths, path);
        if found {
            bitmaps[place].insert(position as u64);
            proof {
                let k = place as int;
                assert(bitmaps@ == old_bitmaps.update(k, bitmaps@[k]));
                assert(members(bitmaps@[k]) == members(old_bitmaps[k]).insert(position as u64));
                assert forall|r: (Seq<char>, i64)|
                    entry_rows(paths@, bitmaps@).contains(r) == entry_rows(
                        old_paths,
                        old_bitmaps,
                    ).insert(row).contains(r) by {
                    if entry_rows(paths@, bitmaps@).contains(r) {
                        let i = choose|i: int|
                            0 <= i < paths.len() && #[trigger] entry_holds(paths@, bitmaps@, i, r);
                        if r != row {
                            assert(entry_holds(old_paths, old_bitmaps, i, r));
                        }
                    }
                    if r == row {
                        assert(entry_holds(paths@, bitmaps@, k, r));
                    } else if entry_rows(old_paths, old_bitmaps).contains(r) {
                        let i = choose|i: int|
                            0 <= i < old_paths.len() && #[trigger] entry_holds(
                                old_paths,
                                old_bitmaps,
                                i,
                                r,
                            );
                        assert(entry_holds(paths@, bitmaps@, i, r));
                    }
                }
            }
        } else {
            let mut bitmap = RoaringTreemap::new();
            bitmap.insert(position as u64);
            paths.insert(place, path.to_owned());
            bitmaps.insert(place, bitmap);
            proof {
                let k = place as int;
                assert(paths@ == old_paths.insert(k, paths@[k]));
                assert(bitmaps@ == old_bitmaps.insert(k, bitmaps@[k]));
                assert(paths@[k]@ == path@);
                assert(members(bitmaps@[k]) == Set::<u64>::empty().insert(position as u64));
                assert forall|i: int, j: int| 0 <= i < j < paths.len() implies text_before(
                    (#[trigger] paths@[i])@,
                    (#[trigger] paths@[j])@,
                ) by {
                    if i < k {
                        assert(paths@[i] == old_paths[i]);
                    } else if i > k {
                        assert(paths@[i] == old_paths[i - 1]);
                    }
                    if j < k {
                        assert(paths@[j] == old_paths[j]);
                    } else if j > k {
                        assert(paths@[j] == old_paths[j - 1]);
                    }
                }
                assert forall|i: int| 0 <= i < bitmaps.len() implies row_positions(
                    members(#[trigger] bitmaps@[i]),
                ) by {
                    if i < k {
                        assert(bitmaps@[i] == old_bitmaps[i]);
                    } else if i > k {
                        assert(bitmaps@[i] == old_bitmaps[i - 1]);
                    }
                }
                assert forall|r: (Seq<char>, i64)|
                    entry_rows(paths@, bitmaps@).contains(r) == entry_rows(
                        old_paths,
                        old_bitmaps,
                    ).insert(row).contains(r) by {
                    if entry_rows(paths@, bitmaps@).contains(r) {
                        let i = choose|i: int|
                            0 <= i < paths.len() && #[trigger] entry_holds(paths@, bitmaps@, i, r);
                        if i < k {
                            assert(entry_holds(old_paths, old_bitmaps, i, r));
                        } else if i > k {
                            assert(entry_holds(old_paths, old_bitmaps, i - 1, r));
                        } else {
                            assert(r == row);
                        }
                    }
                    if r == row {
                        assert(entry_holds(paths@, bitmaps@, k, r));
                    } else if entry_rows(old_paths, old_bitmaps).contains(r) {
                        let i = choose|i: int|
                            0 <= i < old_paths.len() && #[trigger] entry_holds(
                                old_paths,
                                old_bitmaps,
                                i,
                                r,
                            );
                        if i < k {
                            assert(entry_holds(paths@, bitmaps@, i, r));
                        } else {
                            assert(entry_holds(paths@, bitmaps@, i + 1, r));
                        }
                    }
                }
            }
        }
        assert(entry_rows(paths@, bitmaps@) == entry_rows(old_paths, old_bitmaps).insert(row));
        *self = PositionMap { paths, bitmaps };
    }
}

/// The rows of one data file.
spec fn path_rows(path: Seq<char>, positions: Seq<u64>) -> Seq<(Seq<char>, i64)> {
    positions.map_values(|position: u64| (path, position as i64))
}

/// The rows of the data files from `k` on, by data file and then by position.
spec fn rows_from(paths: Seq<String>, bitmaps: Seq<RoaringTreemap>, k: int) -> Seq<(Seq<char>, i64)>
    decreases paths.len() - k,
{
    if k >= paths.len() {
        Seq::empty()
    } else {
        path_rows(paths[k]@, sorted_members(members(bitmaps[k]))) + rows_from(paths, bitmaps, k + 1)
    }
}

/// A bitmap of row positions lists just its members, in order.
proof fn lemma_path_rows(path: Seq<char>, bitmap: RoaringTreemap, positions: Seq<u64>)
    requires
        row_positions(members(bitmap)),
        ascending(positions),
        positions.to_set() == members(bitmap),
    ensures
        sorted_members(members(bitmap)) == positions,
        strictly_sorted_rows(path_rows(path, positions)),
        forall|row: (Seq<char>, i64)| #[trigger]
            path_rows(path, positions).contains(row) <==> row.0 == path && row.1 >= 0 && members(
                bitmap,
            ).contains(row.1 as u64),
{
    lemma_sorted_members(positions);
    let rows = path_rows(path, positions);
    assert forall|i: int| 0 <= i < positions.len() implies #[trigger] positions[i] <= i64::MAX by {
        assert(positions.to_set().contains(positions[i]));
    }
    assert forall|row: (Seq<char>, i64)| #[trigger]
        rows.contains(row) <==> row.0 == path && row.1 >= 0 && members(bitmap).contains(
            row.1 as u64,
        ) by {
        if rows.contains(row) {
            let i = choose|i: int| 0 <= i < rows.len() && rows[i] == row;
            assert(positions[i] <= i64::MAX);
            assert(positions.to_set().contains(positions[i]));
        }
        if row.0 == path && row.1 >= 0 && members(bitmap).contains(row.1 as u64) {
            assert(positions.to_set().contains(row.1 as u64));
            let i = choose|i: int| 0 <= i < positions.len() && positions[i] == row.1 as u64;
            assert(rows[i] == row);
        }
    }
    assert forall|i: int, j: int| 0 <= i < j < rows.len() implies row_before(
        #[trigger] rows[i],
        #[trigger] rows[j],
    ) by {
        assert(positions[i] <= i64::MAX && positions[j] <= i64::MAX);
        assert(positions[i] < positions[j]);
    }
}

/// Each bitmap has a sorted form.
proof fn lemma_sorted_form_exists(s: Set<u64>)
    requires
        s.finite(),
    ensures
        exists|q: Seq<u64>| #[trigger] ascending(q) && q.to_set() == s,
    decreases s.len(),
{
    if s.len() == 0 {
        assert(s == Set::<u64>::empty());
        let q = Seq::<u64>::empty();
        assert(q.to_set() == s);
        assert(ascending(q));
    } else {
        let top = lemma_largest(s);
        let rest = s.remove(top);
        lemma_sorted_form_exists(rest);
        let q = choose|q: Seq<u64>| #[trigger] ascending(q) && q.to_set() == rest;
        let all = q.push(top);
        assert forall|i: int, j: int| 0 <= i < j < all.len() implies all[i] < all[j] by {
            assert(q.to_set().contains(q[i]));
        }
        assert forall|v: u64| all.to_set().contains(v) == s.contains(v) by {
            if all.contains(v) {
                let i = choose|i: int| 0 <= i < all.len() && all[i] == v;
                if i < q.len() {
                    assert(q.to_set().contains(q[i]));
                }
            }
            if s.contains(v) && v != top {
                assert(q.to_set().contains(v));
                let i = choose|i: int| 0 <= i < q.len() && q[i] == v;
                assert(all[i] == v);
            }
            assert(all[q.len() as int] == top);
        }
        assert(all.to_set() == s);
        assert(ascending(all));
    }
}

/// A finite set that is not empty has a largest number.
proof fn lemma_largest(s: Set<u64>) -> (top: u64)
    requires
        s.finite(),
        s.len() > 0,
    ensures
        s.contains(top),
        forall|v: u64| #[trigger] s.contains(v) ==> v <= top,
    decreases s.len(),
{
    let any = s.choose();
    let rest = s.remove(any);
    if rest.len() == 0 {
        assert(rest == Set::<u64>::empty());
        assert forall|v: u64| #[trigger] s.contains(v) implies v <= any by {
            assert(v == any || rest.contains(v));
        }
        any
    } else {
        let other = lemma_largest(rest);
        let top = if any < other {
            other
        } else {
            any
        };
        assert forall|v: u64| #[trigger] s.contains(v) implies v <= top by {
            assert(v == any || rest.contains(v));
        }
        top
    }
}

/// The rows of the data files from `k` on stand strictly in order, and are just what the bitmaps
/// hold.
proof fn lemma_rows_from(paths: Seq<String>, bitmaps: Seq<RoaringTreemap>, k: int)
    requires
        0 <= k <= paths.len(),
        paths.len() == bitmaps.len(),
        ascending_paths(paths),
        bounded_bitmaps(bitmaps),
    ensures
        strictly_sorted_rows(rows_from(paths, bitmaps, k)),
        forall|row: (Seq<char>, i64)| #[trigger]
            rows_from(paths, bitmaps, k).contains(row) <==> exists|i: int|
                k <= i < paths.len() && #[trigger] entry_holds(paths, bitmaps, i, row),
    decreases paths.len() - k,
{
    let all = rows_from(paths, bitmaps, k);
    if k < paths.len() {
        let positions = sorted_members(members(bitmaps[k]));
        lemma_sorted_form_exists(members(bitmaps[k]));
        lemma_path_rows(paths[k]@, bitmaps[k], positions);
        let first = path_rows(paths[k]@, positions);
        let rest = rows_from(paths, bitmaps, k + 1);
        lemma_rows_from(paths, bitmaps, k + 1);
        assert forall|row: (Seq<char>, i64)| #[trigger]
            all.contains(row) <==> exists|i: int|
                k <= i < paths.len() && #[trigger] entry_holds(paths, bitmaps, i, row) by {
            if all.contains(row) {
                let n = choose|n: int| 0 <= n < all.len() && all[n] == row;
                if n < first.len() {
                    assert(first[n] == row);
                    assert(first.contains(row));
                    assert(entry_holds(paths, bitmaps, k, row));
                } else {
                    assert(rest[n - first.len()] == row);
                    assert(rest.contains(row));
                }
            }
            if exists|i: int| k <= i < paths.len() && #[trigger] entry_holds(paths, bitmaps, i, row) {
                let i = choose|i: int|
                    k <= i < paths.len() && #[trigger] entry_holds(paths, bitmaps, i, row);
                if i == k {
                    assert(first.contains(row));
                    let n = choose|n: int| 0 <= n < first.len() && first[n] == row;
                    assert(all[n] == row);
                } else {
                    assert(rest.contains(row));
                    let n = choose|n: int| 0 <= n < rest.len() && rest[n] == row;
                    assert(all[first.len() + n] == row);
                }
            }
        }
        assert forall|i: int, j: int| 0 <= i < j < all.len() implies row_before(
            #[trigger] all[i],
            #[trigger] all[j],
        ) by {
            if j < first.len() {
                assert(all[i] == first[i] && all[j] == first[j]);
            } else if i >= first.len() {
                assert(all[i] == rest[i - first.len()] && all[j] == rest[j - first.len()]);
            } else {
                assert(all[i] == first[i] && all[j] == rest[j - first.len()]);
                assert(first.contains(first[i]));
                assert(rest.contains(rest[j - first.len()]));
                let n = choose|n: int|
                    k + 1 <= n < paths.len() && #[trigger] entry_holds(paths, bitmaps, n, all[j]);
                assert(text_before(paths[k]@, paths[n]@));
            }
        }
    }
}

/// The number of rows in the next batch of a sorted run.
pub open spec fn next_batch_len(rows: nat, flush_rows: nat) -> nat {
    if rows < flush_rows {
        rows
    } else {
        flush_rows
    }
}

/// The batches in which rows are handed out.
pub open spec fn row_batches(rows: Seq<(Seq<char>, i64)>, flush_rows: nat) -> Seq<
    Seq<(Seq<char>, i64)>,
>
    decreases rows.len(),
{
    if rows.len() == 0 || flush_rows == 0 {
        Seq::empty()
    } else {
        let n = next_batch_len(rows.len(), flush_rows) as int;
        seq![rows.take(n)] + row_batches(rows.skip(n), flush_rows)
    }
}

/// The batches hold every row once and in order. None of them is empty, none holds more than
/// `flush_rows` rows, and only the last one may hold less.
pub proof fn lemma_batches_join(rows: Seq<(Seq<char>, i64)>, flush_rows: nat)
    requires
        flush_rows > 0,
    ensures
        row_batches(rows, flush_rows).flatten() == rows,
        forall|i: int|
            0 <= i < row_batches(rows, flush_rows).len() ==> 0 < (#[trigger] row_batches(
                rows,
                flush_rows,
            )[i]).len() <= flush_rows,
        forall|i: int|
            0 <= i < row_batches(rows, flush_rows).len() - 1 ==> (#[trigger] row_batches(
                rows,
                flush_rows,
            )[i]).len() == flush_rows,
    decreases rows.len(),
{
    let batches = row_batches(rows, flush_rows);
    if rows.len() == 0 {
        assert(batches.flatten() == rows);
    } else {
        let n = next_batch_len(rows.len(), flush_rows) as int;
        let rest = row_batches(rows.skip(n), flush_rows);
        lemma_batches_join(rows.skip(n), flush_rows);
        assert(batches.first() == rows.take(n));
        assert(batches.drop_first() == rest);
        assert(batches.flatten() == rows.take(n) + rest.flatten());
        assert(rows.take(n) + rows.skip(n) == rows);
        assert forall|i: int| 0 <= i < batches.len() implies 0 < (#[trigger] batches[i]).len()
            <= flush_rows by {
            if i > 0 {
                assert(batches[i] == rest[i - 1]);
            }
        }
        assert forall|i: int| 0 <= i < batches.len() - 1 implies (#[trigger] batches[i]).len()
            == flush_rows by {
            if i > 0 {
                assert(batches[i] == rest[i - 1]);
            } else if rows.len() < flush_rows {
                assert(rows.skip(n).len() == 0);
                assert(rest.len() == 0);
            }
        }
    }
}

/// A sorted run of delete rows, handed out in batches of bounded size.
#[derive(Debug)]
pub struct SortedDeletes {
    paths: Vec<String>,
    bitmaps: Vec<RoaringTreemap>,
    next_path: usize,
    path: String,
    positions: Vec<u64>,
    next_position: usize,
    flush_rows: usize,
}

impl SortedDeletes {
    #[verifier::type_invariant]
    spec fn in_range(self) -> bool {
        &&& self.paths.len() == self.bitmaps.len()
        &&& bounded_bitmaps(self.bitmaps@)
        &&& self.next_path <= self.paths.len()
        &&& self.next_position <= self.positions.len()
        &&& forall|i: int| 0 <= i < self.positions.len() ==> #[trigger] self.positions@[i] <= i64::MAX
        &&& self.flush_rows > 0
    }

    /// The rows that are still to be handed out.
    pub closed spec fn remaining(&self) -> Seq<(Seq<char>, i64)> {
        path_rows(self.path@, self.positions@.skip(self.next_position as int)) + rows_from(
            self.paths@,
            self.bitmaps@,
            self.next_path as int,
        )
    }

    /// The largest number of rows in a batch.
    pub closed spec fn flush_rows(&self) -> usize {
        self.flush_rows
    }

    /// Hands out the next rows: as many as a batch may hold, or all that are left. There are none
    /// where everything was handed out.
    pub fn next_rows(&mut self) -> (rows: Option<Vec<(String, i64)>>)
        ensures
            ({
                let n = next_batch_len(old(self).remaining().len(), old(self).flush_rows() as nat) as int;
                &&& match rows {
                    Some(rows) => n > 0 && row_views(rows@) == old(self).remaining().take(n),
                    None => n == 0,
                }
                &&& final(self).remaining() == old(self).remaining().skip(n)
            }),
            final(self).flush_rows() == old(self).flush_rows(),
    {
        proof {
            use_type_invariant(&*self);
        }
        let flush_rows = self.flush_rows;
        let ghost all = self.remaining();
        let mut rows: Vec<(String, i64)> = Vec::new();
        assert(row_views(rows@) + all == all);
        while rows.len() < flush_rows && (self.next_position < self.positions.len() || self.next_path
            < self.paths.len())
            invariant
                rows.len() <= flush_rows,
                row_views(rows@) + self.remaining() == all,
                self.flush_rows() == old(self).flush_rows(),
                flush_rows == old(self).flush_rows(),
                all == old(self).remaining(),
                flush_rows > 0,
            decreases
                    self.paths.len() - self.next_path,
                    self.positions.len() - self.next_position,
        {
            proof {
                use_type_invariant(&*self);
            }
            let ghost here = self.remaining();
            if self.next_position < self.positions.len() {
                let position = self.positions[self.next_position];
                let row = (self.path.clone(), position as i64);
                let ghost before = row_views(rows@);
                rows.push(row);
                proof {
                    let skipped = self.positions@.skip(self.next_position as int);
                    assert(skipped[0] == position);
                    assert(skipped.drop_first() == self.positions@.skip(self.next_position + 1));
                    assert(path_rows(self.path@, skipped) == seq![(self.path@, position as i64)]
                        + path_rows(self.path@, skipped.drop_first()));
                    assert(row_views(rows@) == before.push((self.path@, position as i64)));
                }
                self.next_position = self.next_position + 1;
                assert(here == seq![(self.path@, position as i64)] + self.remaining());
                assert(row_views(rows@) + self.remaining() == before + here);
            } else {
                let k = self.next_path;
                let positions = bitmap_positions(&self.bitmaps[k]);
                proof {
                    lemma_path_rows(self.paths@[k as int]@, self.bitmaps@[k as int], positions@);
                    assert forall|i: int| 0 <= i < positions.len() implies #[trigger] positions@[i]
                        <= i64::MAX by {
                        assert(positions@.to_set().contains(positions@[i]));
                    }
                    assert(self.positions@.skip(self.next_position as int) == Seq::<u64>::empty());
                    assert(here == rows_from(self.paths@, self.bitmaps@, k as int));
                    assert(positions@.skip(0) == positions@);
                }
                let path = self.paths[k].clone();
                self.next_position = 0;
                self.positions = positions;
                self.path = path;
                self.next_path = k + 1;
                assert(self.remaining() == here);
            }
        }
        proof {
            use_type_invariant(&*self);
            let n = next_batch_len(all.len(), flush_rows as nat) as int;
            if rows.len() < flush_rows {
                assert(self.remaining() == Seq::<(Seq<char>, i64)>::empty());
            }
            assert(row_views(rows@).len() == rows.len());
            assert(all.len() == rows.len() + self.remaining().len());
            assert(n == rows.len());
            assert(row_views(rows@) == all.take(n));
            assert(self.remaining() == all.skip(n));
        }
        if rows.len() == 0 {
            None
        } else {
            Some(rows)
        }
    }
}

impl PositionMap {
    /// Turns the set into a sorted run, which hands out at most `flush_rows` rows at a time.
    pub fn into_sorted(self, flush_rows: usize) -> (run: SortedDeletes)
        requires
            flush_rows > 0,
        ensures
            strictly_sorted_rows(run.remaining()),
            run.remaining().to_set() == self@,
            run.flush_rows() == flush_rows,
    {
        proof {
            use_type_invariant(&self);
        }
        let ghost paths = self.paths@;
        let ghost bitmaps = self.bitmaps@;
        let run = SortedDeletes {
            paths: self.paths,
            bitmaps: self.bitmaps,
            next_path: 0,
            path: "".to_owned(),
            positions: Vec::new(),
            next_position: 0,
            flush_rows,
        };
        proof {
            lemma_rows_from(paths, bitmaps, 0);
            assert(run.positions@.skip(0) == Seq::<u64>::empty());
            assert(run.remaining() == rows_from(paths, bitmaps, 0));
            assert forall|row: (Seq<char>, i64)|
                run.remaining().to_set().contains(row) == self@.contains(row) by {}
            assert(run.remaining().to_set() == self@);
        }
        run
    }
}

} // verus!
