//! Validity bitmaps, as the columns of a block carry them.
//!
//! The bitmaps are those of `arrow2`. The functions marked `external_body` are the only places
//! where its code is called; what each of them promises is stated over the bits that a bitmap
//! holds.
use arrow2::bitmap::Bitmap;
use arrow2::bitmap::MutableBitmap;
use vstd::prelude::*;

verus! {

/// `arrow2::bitmap::Bitmap`: an immutable, cheaply cloned sequence of bits.
#[verifier::external_type_specification]
#[verifier::external_body]
pub struct ExBitmap(arrow2::bitmap::Bitmap);

/// `arrow2::bitmap::MutableBitmap`: a growable sequence of bits.
#[verifier::external_type_specification]
#[verifier::external_body]
pub struct ExMutableBitmap(arrow2::bitmap::MutableBitmap);

/// The bits that a bitmap holds.
pub uninterp spec fn bitmap_bits(bitmap: Bitmap) -> Seq<bool>;

/// The bits that a growable bitmap holds.
pub uninterp spec fn mutable_bits(bitmap: MutableBitmap) -> Seq<bool>;

/// Whether the buffer of a growable bitmap has exactly as many bytes as its bits need. One made
/// from a longer byte vector has not, and is then extended in the wrong place.
pub uninterp spec fn is_exact(bitmap: MutableBitmap) -> bool;

/// `n` bits that are all set.
pub open spec fn all_set(n: nat) -> Seq<bool> {
    Seq::new(n, |i: int| true)
}

/// `n` bits that are all clear.
pub open spec fn all_clear(n: nat) -> Seq<bool> {
    Seq::new(n, |i: int| false)
}

/// `MutableBitmap::new`: no bits, in an empty buffer.
#[verifier::external_body]
fn mutable_new() -> (bitmap: MutableBitmap)
    ensures
        mutable_bits(bitmap) == Seq::<bool>::empty(),
        is_exact(bitmap),
{
    MutableBitmap::new()
}

/// `MutableBitmap::extend_constant`: appends `additional` copies of `value`. The length in bits,
/// rounded up to whole bytes, has to fit in a `usize`.
#[verifier::external_body]
fn extend_constant(bitmap: &mut MutableBitmap, additional: usize, value: bool)
    requires
        is_exact(*old(bitmap)),
        mutable_bits(*old(bitmap)).len() + additional <= usize::MAX - 7,
    ensures
        mutable_bits(*final(bitmap)) == mutable_bits(*old(bitmap)) + Seq::new(
            additional as nat,
            |i: int| value,
        ),
        is_exact(*final(bitmap)),
{
    bitmap.extend_constant(additional, value)
}

/// `Bitmap::from` of a `MutableBitmap`: the same bits.
#[verifier::external_body]
fn freeze(bitmap: MutableBitmap) -> (frozen: Bitmap)
    requires
        is_exact(bitmap),
    ensures
        bitmap_bits(frozen) == mutable_bits(bitmap),
{
    bitmap.into()
}

/// `Bitmap::clone`: the same bits.
#[verifier::external_body]
pub(crate) fn share(bitmap: &Bitmap) -> (shared: Bitmap)
    ensures
        bitmap_bits(shared) == bitmap_bits(*bitmap),
{
    bitmap.clone()
}

/// `Bitmap::get_bit`: the bit at position `index`, which has to lie within the bitmap.
#[verifier::external_body]
pub(crate) fn get_bit(bitmap: &Bitmap, index: usize) -> (bit: bool)
    requires
        index < bitmap_bits(*bitmap).len(),
    ensures
        bit == bitmap_bits(*bitmap)[index as int],
{
    bitmap.get_bit(index)
}

/// `Bitmap::len`: the number of bits.
#[verifier::external_body]
fn bit_count(bitmap: &Bitmap) -> (count: usize)
    ensures
        count == bitmap_bits(*bitmap).len(),
{
    bitmap.len()
}

/// Whether `bitmap` has a bit for each of `rows` rows.
pub fn covers(bitmap: &Bitmap, rows: usize) -> (covered: bool)
    ensures
        covered == (rows <= bitmap_bits(*bitmap).len()),
{
    rows <= bit_count(bitmap)
}

/// A bitmap of `rows` set bits: every row is valid.
pub fn all_valid(rows: usize) -> (bitmap: Bitmap)
    requires
        rows <= usize::MAX - 7,
    ensures
        bitmap_bits(bitmap) == all_set(rows as nat),
        bitmap_bits(bitmap).len() == rows,
        forall|i: int| 0 <= i < rows ==> #[trigger] bitmap_bits(bitmap)[i],
{
    let mut validity = mutable_new();
    extend_constant(&mut validity, rows, true);
    let bitmap = freeze(validity);
    assert(bitmap_bits(bitmap) =~= all_set(rows as nat));
    bitmap
}

/// Bits that are all set are set, bits that are all clear are clear, and there are as many as said.
pub proof fn bits_are_as_said(n: nat)
    ensures
        all_set(n).len() == n,
        all_clear(n).len() == n,
        forall|i: int| 0 <= i < n ==> #[trigger] all_set(n)[i],
        forall|i: int| 0 <= i < n ==> !(#[trigger] all_clear(n)[i]),
{
}

} // verus!
