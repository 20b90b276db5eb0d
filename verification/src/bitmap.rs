use vstd::prelude::*;

use vstd::set_lib::{lemma_len_subset, lemma_int_range, set_int_range};
use roaring::RoaringBitmap;

verus! {

/// A possibility set is held in a compressed bitmap of the `roaring` crate.
/// Verus sees the bitmap through this declaration and the wrappers below.
#[verifier::external_type_specification]
#[verifier::external_body]
pub struct ExRoaringBitmap(RoaringBitmap);

/// The mathematical contents of a roaring bitmap: the set of stored `u32`
/// values, as integers.
pub uninterp spec fn bitmap_set(b: RoaringBitmap) -> Set<int>;

/// Relies on `RoaringBitmap::new`: the fresh bitmap holds no value.
#[verifier::external_body]
pub fn bm_new() -> (r: RoaringBitmap)
    ensures
        bitmap_set(r) == Set::<int>::empty(),
{
    RoaringBitmap::new()
}

/// Relies on `RoaringBitmap::insert`: adds one value, and reports whether
/// it was absent before.
#[verifier::external_body]
pub fn bm_insert(b: &mut RoaringBitmap, x: u32) -> (r: bool)
    ensures
        bitmap_set(*final(b)) == bitmap_set(*old(b)).insert(x as int),
        r == !bitmap_set(*old(b)).contains(x as int),
{
    b.insert(x)
}

/// Relies on `RoaringBitmap::insert_range`: adds every value below `n`.
#[verifier::external_body]
pub fn bm_insert_range_below(b: &mut RoaringBitmap, n: u32)
    ensures
        bitmap_set(*final(b)) == bitmap_set(*old(b)).union(set_int_range(0, n as int)),
{
    b.insert_range(0..n);
}

/// Relies on `RoaringBitmap::clone`: the copy holds the same values.
#[verifier::external_body]
pub fn bm_clone(b: &RoaringBitmap) -> (r: RoaringBitmap)
    ensures
        bitmap_set(r) == bitmap_set(*b),
{
    b.clone()
}

/// Relies on `RoaringBitmap::bitand_assign`: keeps exactly the values that
/// both bitmaps hold.
#[verifier::external_body]
pub fn bm_and_assign(a: &mut RoaringBitmap, b: &RoaringBitmap)
    ensures
        bitmap_set(*final(a)) == bitmap_set(*old(a)).intersect(bitmap_set(*b)),
{
    *a &= b;
}

/// Relies on `RoaringBitmap::len`: the number of stored values, which is
/// finite since a bitmap holds `u32` values.
#[verifier::external_body]
pub fn bm_len(b: &RoaringBitmap) -> (n: u64)
    ensures
        n == bitmap_set(*b).len(),
{
    b.len()
}

/// Relies on `RoaringBitmap::intersection_len`: the size of the
/// intersection, without materialising it.
#[verifier::external_body]
pub fn bm_intersection_len(a: &RoaringBitmap, b: &RoaringBitmap) -> (n: u64)
    ensures
        n == bitmap_set(*a).intersect(bitmap_set(*b)).len(),
{
    a.intersection_len(b)
}

/// Relies on `RoaringBitmap::max`: the greatest stored value, or `None`
/// for an empty bitmap.
#[verifier::external_body]
pub fn bm_max(b: &RoaringBitmap) -> (r: Option<u32>)
    ensures
        match r {
            Some(m) => bitmap_set(*b).contains(m as int) && forall|x: int|
                bitmap_set(*b).contains(x) ==> x <= m,
            None => bitmap_set(*b) == Set::<int>::empty(),
        },
{
    b.max()
}

/// Relies on `RoaringBitmap::iter`: values come out in strictly increasing
/// order, each stored value exactly once.
#[verifier::external_body]
pub fn bm_to_vec(b: &RoaringBitmap) -> (r: Vec<u32>)
    ensures
        r@.len() == bitmap_set(*b).len(),
        forall|k: int| 0 <= k < r@.len() ==> bitmap_set(*b).contains(r@[k] as int),
        forall|k1: int, k2: int| 0 <= k1 < k2 < r@.len() ==> r@[k1] < r@[k2],
        forall|x: int| bitmap_set(*b).contains(x) ==> exists|k: int|
            0 <= k < r@.len() && r@[k] == x,
{
    b.iter().collect()
}

/// A set of values all below `n` is finite and holds at most `n` values.
pub proof fn lemma_bounded_set_len(s: Set<int>, n: int)
    requires
        0 <= n,
        forall|x: int| s.contains(x) ==> 0 <= x < n,
    ensures
        s.finite(),
        s.len() <= n,
{
    lemma_int_range(0, n);
    assert(s.subset_of(set_int_range(0, n)));
    lemma_len_subset(s, set_int_range(0, n));
}

/// A finite set of size one cannot hold two distinct values.
pub proof fn lemma_single_element(s: Set<int>, a: int, b: int)
    requires
        s.finite(),
        s.len() == 1,
        s.contains(a),
        s.contains(b),
    ensures
        a == b,
{
    if a != b {
        let s2 = Set::<int>::empty().insert(a).insert(b);
        assert(s2.subset_of(s));
        lemma_len_subset(s2, s);
        assert(s2.len() == 2);
    }
}

/// An intersection with a finite set is finite and no larger than either
/// operand.
pub proof fn lemma_intersect_len(a: Set<int>, b: Set<int>)
    requires
        a.finite(),
    ensures
        a.intersect(b).finite(),
        a.intersect(b).len() <= a.len(),
{
    assert(a.intersect(b).subset_of(a));
    lemma_len_subset(a.intersect(b), a);
}

} // verus!
