//! Byte buffers: what the `bytes` crate's two types hold, and the calls into
//! that crate.
use bytes::{Buf, BufMut, Bytes, BytesMut};
use vstd::prelude::*;

verus! {

/// `bytes::Bytes`: a shared, immutable run of bytes.
#[verifier::external_type_specification]
#[verifier::external_body]
pub struct ExBytes(Bytes);

/// `bytes::BytesMut`: a growable buffer of bytes.
#[verifier::external_type_specification]
#[verifier::external_body]
pub struct ExBytesMut(BytesMut);

/// The bytes that a `Bytes` holds.
pub uninterp spec fn held(b: Bytes) -> Seq<u8>;

/// The bytes that a `BytesMut` holds.
pub uninterp spec fn filled(b: BytesMut) -> Seq<u8>;

/// `BytesMut::new` gives an empty buffer.
pub assume_specification[ BytesMut::new ]() -> (r: BytesMut)
    ensures
        filled(r) == Seq::<u8>::empty(),
;

/// `BytesMut::len` counts the bytes held.
pub assume_specification[ BytesMut::len ](b: &BytesMut) -> (r: usize)
    ensures
        r == filled(*b).len(),
;

/// `BytesMut::split_to` cuts the first `at` bytes off, which it gives back,
/// and keeps the others. It panics where there are fewer.
pub assume_specification[ BytesMut::split_to ](b: &mut BytesMut, at: usize) -> (r: BytesMut)
    requires
        at <= filled(*old(b)).len(),
    ensures
        filled(r) == filled(*old(b)).take(at as int),
        filled(*final(b)) == filled(*old(b)).skip(at as int),
;

/// `BytesMut::freeze` keeps the bytes.
pub assume_specification[ BytesMut::freeze ](b: BytesMut) -> (r: Bytes)
    ensures
        held(r) == filled(b),
;

/// `Bytes::len` counts the bytes held.
pub assume_specification[ Bytes::len ](b: &Bytes) -> (r: usize)
    ensures
        r == held(*b).len(),
;

/// `Bytes::slice` over `from..to` gives the bytes of that range. It panics
/// where the range is not in order or not within the bytes.
#[verifier::external_body]
pub(crate) fn slice_of(b: &Bytes, from: usize, to: usize) -> (r: Bytes)
    requires
        from <= to <= held(*b).len(),
    ensures
        held(r) == held(*b).subrange(from as int, to as int),
{
    b.slice(from..to)
}

/// A `Bytes` dereferences to the bytes that it holds.
#[verifier::external_body]
pub(crate) fn held_slice(b: &Bytes) -> (r: &[u8])
    ensures
        r@ == held(*b),
{
    b
}

/// A `BytesMut` dereferences to the bytes that it holds.
#[verifier::external_body]
pub(crate) fn filled_slice(b: &BytesMut) -> (r: &[u8])
    ensures
        r@ == filled(*b),
{
    b
}

/// `Buf::advance` drops the first `n` bytes. It panics where there are fewer.
#[verifier::external_body]
pub(crate) fn skip_bytes(b: &mut BytesMut, n: usize)
    requires
        n <= filled(*old(b)).len(),
    ensures
        filled(*final(b)) == filled(*old(b)).skip(n as int),
{
    b.advance(n)
}

/// `n` in two bytes, the high one first.
pub open spec fn be16(n: u16) -> Seq<u8> {
    seq![(n / 256) as u8, (n % 256) as u8]
}

/// `n` in four bytes, the highest first.
pub open spec fn be32(n: u32) -> Seq<u8> {
    seq![(n / 0x100_0000) as u8, (n / 0x1_0000 % 256) as u8, (n / 256 % 256) as u8, (n % 256) as u8]
}

/// `BufMut::put_u8` appends `n`. A buffer holds at most `isize::MAX` bytes;
/// running out of memory is left aside.
#[verifier::external_body]
pub(crate) fn put_u8(b: &mut BytesMut, n: u8)
    requires
        filled(*old(b)).len() < isize::MAX,
    ensures
        filled(*final(b)) == filled(*old(b)).push(n),
{
    b.put_u8(n)
}

/// `BufMut::put_u16` appends `n`, the high byte first. A buffer holds at most
/// `isize::MAX` bytes; running out of memory is left aside.
#[verifier::external_body]
pub(crate) fn put_u16(b: &mut BytesMut, n: u16)
    requires
        filled(*old(b)).len() + 2 <= isize::MAX,
    ensures
        filled(*final(b)) == filled(*old(b)) + be16(n),
{
    b.put_u16(n)
}

/// `BufMut::put_u32` appends `n`, the highest byte first. A buffer holds at
/// most `isize::MAX` bytes; running out of memory is left aside.
#[verifier::external_body]
pub(crate) fn put_u32(b: &mut BytesMut, n: u32)
    requires
        filled(*old(b)).len() + 4 <= isize::MAX,
    ensures
        filled(*final(b)) == filled(*old(b)) + be32(n),
{
    b.put_u32(n)
}

/// `BufMut::put_slice` appends `s`. A buffer holds at most `isize::MAX` bytes;
/// running out of memory is left aside.
#[verifier::external_body]
pub(crate) fn put_slice(b: &mut BytesMut, s: &[u8])
    requires
        filled(*old(b)).len() + s@.len() <= isize::MAX,
    ensures
        filled(*final(b)) == filled(*old(b)) + s@,
{
    b.put_slice(s)
}

/// The 16-bit number in the two bytes of `p` at `i`, the high one first.
pub open spec fn be16_at(p: Seq<u8>, i: int) -> u16 {
    (p[i] * 256 + p[i + 1]) as u16
}

/// The 32-bit number in the four bytes of `p` at `i`, the highest first.
pub open spec fn be32_at(p: Seq<u8>, i: int) -> u32 {
    (p[i] * 0x100_0000 + p[i + 1] * 0x1_0000 + p[i + 2] * 256 + p[i + 3]) as u32
}

/// Reads the 16-bit number at `i`.
pub fn read_u16(p: &[u8], i: usize) -> (r: u16)
    requires
        i + 2 <= p@.len(),
    ensures
        r == be16_at(p@, i as int),
{
    p[i] as u16 * 256 + p[i + 1] as u16
}

/// Reads the 32-bit number at `i`.
pub fn read_u32(p: &[u8], i: usize) -> (r: u32)
    requires
        i + 4 <= p@.len(),
    ensures
        r == be32_at(p@, i as int),
{
    p[i] as u32 * 0x100_0000 + p[i + 1] as u32 * 0x1_0000 + p[i + 2] as u32 * 256 + p[i + 3] as u32
}

/// All of `parts`, one after the other.
pub open spec fn concat(parts: Seq<Seq<u8>>) -> Seq<u8>
    decreases parts.len(),
{
    if parts.len() == 0 {
        Seq::empty()
    } else {
        concat(parts.drop_last()) + parts.last()
    }
}

/// Concatenating two lists of parts is concatenating what each gives.
pub proof fn lemma_concat_add(a: Seq<Seq<u8>>, b: Seq<Seq<u8>>)
    ensures
        concat(a + b) == concat(a) + concat(b),
    decreases b.len(),
{
    if b.len() == 0 {
        assert(a + b =~= a);
    } else {
        assert((a + b).drop_last() =~= a + b.drop_last());
        lemma_concat_add(a, b.drop_last());
        assert(concat(a + b) =~= concat(a) + concat(b));
    }
}

/// One part by itself.
pub proof fn lemma_concat_one(a: Seq<u8>)
    ensures
        concat(seq![a]) == a,
{
    reveal_with_fuel(concat, 2);
    assert(seq![a].drop_last() =~= Seq::<Seq<u8>>::empty());
    assert(concat(seq![a]) =~= a);
}

/// The first part stands in front of the others.
pub proof fn lemma_concat_first(parts: Seq<Seq<u8>>)
    requires
        parts.len() > 0,
    ensures
        concat(parts) == parts[0] + concat(parts.skip(1)),
{
    lemma_concat_one(parts[0]);
    lemma_concat_add(seq![parts[0]], parts.skip(1));
    assert(seq![parts[0]] + parts.skip(1) =~= parts);
}

/// One part more.
pub proof fn lemma_concat_push(parts: Seq<Seq<u8>>, a: Seq<u8>)
    ensures
        concat(parts.push(a)) == concat(parts) + a,
{
    assert(parts.push(a).drop_last() =~= parts);
}

/// The first parts, and behind them the others.
pub proof fn lemma_concat_prefix(parts: Seq<Seq<u8>>, k: int)
    requires
        0 <= k <= parts.len(),
    ensures
        concat(parts) == concat(parts.take(k)) + concat(parts.skip(k)),
{
    lemma_concat_add(parts.take(k), parts.skip(k));
    assert(parts.take(k) + parts.skip(k) =~= parts);
}

} // verus!
