//! Trusted interface to `roaring::RoaringBitmap`, the compressed document-id
//! set used throughout the engine.
//!
//! A bitmap is modelled by the set of ids it holds, named by `bitmap_set`;
//! each wrapper states over that name what the corresponding `roaring`
//! operation does.

use vstd::prelude::*;
use roaring::RoaringBitmap;

verus! {

#[verifier::external_type_specification]
#[verifier::external_body]
pub struct ExRoaringBitmap(RoaringBitmap);

/// The set of document ids a bitmap holds.
pub uninterp spec fn bitmap_set(b: RoaringBitmap) -> Set<u32>;

/// What `RoaringBitmap::deserialize_from` makes of a byte string: the decoded
/// set of ids, or nothing when the bytes are not a valid serialized bitmap.
/// The result depends on the bytes alone.
pub uninterp spec fn bitmap_decode(bytes: Seq<u8>) -> Option<Set<u32>>;

/// Relies on roaring::RoaringBitmap::new: a fresh bitmap is empty.
#[verifier::external_body]
pub fn bitmap_new() -> (r: RoaringBitmap)
    ensures
        bitmap_set(r) == Set::<u32>::empty(),
{
    RoaringBitmap::new()
}

/// Relies on roaring::RoaringBitmap::is_empty: whether the set has no id.
#[verifier::external_body]
pub fn bitmap_is_empty(b: &RoaringBitmap) -> (r: bool)
    ensures
        r == (bitmap_set(*b) == Set::<u32>::empty()),
{
    b.is_empty()
}

/// Relies on roaring's `Clone` for RoaringBitmap: the copy holds the same ids.
#[verifier::external_body]
pub fn bitmap_clone(b: &RoaringBitmap) -> (r: RoaringBitmap)
    ensures
        bitmap_set(r) == bitmap_set(*b),
{
    b.clone()
}

/// Relies on roaring's `BitOrAssign<&RoaringBitmap>`: in-place union.
#[verifier::external_body]
pub fn bitmap_union_with(b: &mut RoaringBitmap, other: &RoaringBitmap)
    ensures
        bitmap_set(*final(b)) == bitmap_set(*old(b)).union(bitmap_set(*other)),
{
    *b |= other;
}

/// Relies on roaring's `BitAndAssign<&RoaringBitmap>`: in-place intersection.
#[verifier::external_body]
pub fn bitmap_intersect_with(b: &mut RoaringBitmap, other: &RoaringBitmap)
    ensures
        bitmap_set(*final(b)) == bitmap_set(*old(b)).intersect(bitmap_set(*other)),
{
    *b &= other;
}

/// Relies on roaring's `SubAssign<&RoaringBitmap>`: in-place difference.
#[verifier::external_body]
pub fn bitmap_difference_with(b: &mut RoaringBitmap, other: &RoaringBitmap)
    ensures
        bitmap_set(*final(b)) == bitmap_set(*old(b)).difference(bitmap_set(*other)),
{
    *b -= other;
}

/// Relies on roaring::RoaringBitmap::deserialize_from: decodes the portable
/// serialization deterministically; invalid bytes are an error.
#[verifier::external_body]
pub fn bitmap_deserialize(bytes: &Vec<u8>) -> (r: Option<RoaringBitmap>)
    ensures
        match r {
            Some(b) => bitmap_decode(bytes@) == Some(bitmap_set(b)),
            None => bitmap_decode(bytes@) is None,
        },
{
    RoaringBitmap::deserialize_from(&bytes[..]).ok()
}

} // verus!
