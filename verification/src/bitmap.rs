//! Sets of row positions, held in roaring bitmaps.
use roaring::RoaringTreemap;
use vstd::prelude::*;

verus! {

/// The bitmap of the `roaring` crate.
#[verifier::external_type_specification]
#[verifier::external_body]
pub struct ExRoaringTreemap(RoaringTreemap);

/// The numbers that a bitmap holds.
pub uninterp spec fn members(bitmap: RoaringTreemap) -> Set<u64>;

/// `RoaringTreemap::new`: the new bitmap holds nothing.
pub assume_specification[ RoaringTreemap::new ]() -> (bitmap: RoaringTreemap)
    ensures
        members(bitmap) == Set::<u64>::empty(),
;

/// `RoaringTreemap::insert`: adds the number to the set and tells whether it is new there.
pub assume_specification[ RoaringTreemap::insert ](bitmap: &mut RoaringTreemap, value: u64) -> (fresh: bool)
    ensures
        members(*final(bitmap)) == members(*old(bitmap)).insert(value),
        fresh == !members(*old(bitmap)).contains(value),
;

/// `RoaringTreemap::contains`: tells whether the number is in the set.
pub assume_specification[ RoaringTreemap::contains ](bitmap: &RoaringTreemap, value: u64) -> (found: bool)
    ensures
        found == members(*bitmap).contains(value),
;

/// `RoaringTreemap::is_empty`: tells whether the set holds nothing.
pub assume_specification[ RoaringTreemap::is_empty ](bitmap: &RoaringTreemap) -> (empty: bool)
    ensures
        empty == (members(*bitmap) == Set::<u64>::empty()),
;

/// `RoaringTreemap::len`: counts the numbers in the set. The count is summed up in 64 bits, so a
/// set that holds every 64-bit number is left out.
pub assume_specification[ RoaringTreemap::len ](bitmap: &RoaringTreemap) -> (count: u64)
    requires
        members(*bitmap).len() <= u64::MAX,
    ensures
        count == members(*bitmap).len(),
;

/// The numbers stand in strictly ascending order.
pub open spec fn ascending(s: Seq<u64>) -> bool {
    forall|i: int, j: int| 0 <= i < j < s.len() ==> s[i] < s[j]
}

/// `RoaringTreemap::iter`, collected: yields each number of the set once, in ascending order.
#[verifier::external_body]
pub(crate) fn bitmap_positions(bitmap: &RoaringTreemap) -> (positions: Vec<u64>)
    ensures
        ascending(positions@),
        positions@.to_set() == members(*bitmap),
{
    bitmap.iter().collect()
}

/// The numbers of a set in ascending order.
pub open spec fn sorted_members(s: Set<u64>) -> Seq<u64> {
    choose|q: Seq<u64>| #[trigger] ascending(q) && q.to_set() == s
}

/// Two ascending sequences of the same numbers are the same sequence.
pub proof fn lemma_ascending_unique(a: Seq<u64>, b: Seq<u64>)
    requires
        ascending(a),
        ascending(b),
        a.to_set() == b.to_set(),
    ensures
        a == b,
    decreases a.len(),
{
    if a.len() == 0 {
        if b.len() > 0 {
            assert(b.to_set().contains(b[0]));
            assert(a.to_set().contains(b[0]));
        }
        assert(a == b);
    } else {
        assert(a.to_set().contains(a.last()));
        assert(b.to_set().contains(a.last()));
        assert(b.to_set().contains(b.last()));
        assert(a.to_set().contains(b.last()));
        let i = choose|i: int| 0 <= i < b.len() && b[i] == a.last();
        let j = choose|j: int| 0 <= j < a.len() && a[j] == b.last();
        assert(a.last() == b.last());
        let x = a.drop_last();
        let y = b.drop_last();
        assert forall|v: u64| x.to_set().contains(v) == y.to_set().contains(v) by {
            if x.contains(v) {
                let k = choose|k: int| 0 <= k < x.len() && x[k] == v;
                assert(a[k] == v && v < a.last());
                assert(a.to_set().contains(v));
                assert(b.to_set().contains(v));
                let m = choose|m: int| 0 <= m < b.len() && b[m] == v;
                assert(y[m] == v);
            }
            if y.contains(v) {
                let k = choose|k: int| 0 <= k < y.len() && y[k] == v;
                assert(b[k] == v && v < b.last());
                assert(b.to_set().contains(v));
                assert(a.to_set().contains(v));
                let m = choose|m: int| 0 <= m < a.len() && a[m] == v;
                assert(x[m] == v);
            }
        }
        assert(x.to_set() == y.to_set());
        lemma_ascending_unique(x, y);
        assert(a == x.push(a.last()));
        assert(b == y.push(b.last()));
    }
}

/// An ascending sequence is the sorted form of its set.
pub proof fn lemma_sorted_members(q: Seq<u64>)
    requires
        ascending(q),
    ensures
        sorted_members(q.to_set()) == q,
{
    let c = sorted_members(q.to_set());
    assert(ascending(c) && c.to_set() == q.to_set());
    lemma_ascending_unique(c, q);
}

} // verus!
