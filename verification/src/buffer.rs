//! `BytesMut`, the byte queue of the `bytes` crate, as this library uses it: bytes go in at the
//! back and come out at the front.

use bytes::{Buf, BytesMut};
use vstd::prelude::*;

verus! {

/// The byte queue of the `bytes` crate.
#[verifier::external_type_specification]
#[verifier::external_body]
pub struct ExBytesMut(bytes::BytesMut);

/// The bytes that a queue holds, front first.
pub uninterp spec fn contents(buf: BytesMut) -> Seq<u8>;

/// How many bytes a queue may hold. An allocation has at most `isize::MAX` bytes. A queue that
/// grows keeps the room in front of its first byte, which is at most as long as the queue will
/// be, and may double its allocation, so that it asks for no more than four times its length.
pub open spec fn capacity_limit() -> int {
    isize::MAX as int / 4
}

/// The number that bytes spell, the most significant byte first.
pub open spec fn be_value(s: Seq<u8>) -> nat
    decreases s.len(),
{
    if s.len() == 0 {
        0
    } else {
        be_value(s.drop_last()) * 256 + s.last() as nat
    }
}

/// A number spelt in `width` bytes, the most significant byte first.
pub open spec fn be_bytes(n: nat, width: nat) -> Seq<u8>
    decreases width,
{
    if width == 0 {
        seq![]
    } else {
        be_bytes(n / 256, (width - 1) as nat).push((n % 256) as u8)
    }
}

/// A number that fits comes back from the bytes that spell it.
pub proof fn law_be_bytes_round_trip(n: nat, width: nat)
    requires
        n < vstd::arithmetic::power::pow(256, width),
    ensures
        be_bytes(n, width).len() == width,
        be_value(be_bytes(n, width)) == n,
    decreases width,
{
    reveal(vstd::arithmetic::power::pow);
    if width > 0 {
        let less = (width - 1) as nat;
        let bytes = be_bytes(n, width);
        assert(n / 256 < vstd::arithmetic::power::pow(256, less));
        law_be_bytes_round_trip(n / 256, less);
        assert(bytes.drop_last() =~= be_bytes(n / 256, less));
    }
}

/// Bytes come back from the number that they spell.
pub proof fn law_be_value_round_trip(s: Seq<u8>)
    ensures
        be_bytes(be_value(s), s.len()) == s,
    decreases s.len(),
{
    if s.len() > 0 {
        law_be_value_round_trip(s.drop_last());
        let high = be_value(s.drop_last());
        assert((high * 256 + s.last()) / 256 == high);
        assert((high * 256 + s.last()) % 256 == s.last());
        assert(s.drop_last().push(s.last()) =~= s);
    } else {
        assert(be_bytes(0, 0) =~= s);
    }
}

/// Bytes spell no number that takes more bytes.
pub proof fn law_be_value_is_bounded(s: Seq<u8>)
    ensures
        be_value(s) < vstd::arithmetic::power::pow(256, s.len()),
    decreases s.len(),
{
    reveal(vstd::arithmetic::power::pow);
    if s.len() > 0 {
        law_be_value_is_bounded(s.drop_last());
        assert(vstd::arithmetic::power::pow(256, s.len()) == 256 * vstd::arithmetic::power::pow(
            256,
            (s.len() - 1) as nat,
        ));
    }
}

/// The bytes in front count for more: each byte behind them is worth a factor of 256, and a byte
/// alone spells itself.
pub proof fn law_be_value_of_joined_bytes(front: Seq<u8>, back: Seq<u8>, byte: u8)
    ensures
        be_value(seq![byte]) == byte,
        be_value(front + back) == be_value(front) * vstd::arithmetic::power::pow(256, back.len())
            + be_value(back),
    decreases back.len(),
{
    reveal(vstd::arithmetic::power::pow);
    assert(seq![byte].drop_last() =~= Seq::<u8>::empty());
    assert(be_value(seq![byte].drop_last()) == 0);
    if back.len() == 0 {
        assert(front + back =~= front);
    } else {
        let less = back.drop_last();
        law_be_value_of_joined_bytes(front, less, byte);
        assert((front + back).drop_last() =~= front + less);
        let f = be_value(front) as int;
        let p = vstd::arithmetic::power::pow(256, less.len());
        let l = be_value(less) as int;
        assert((f * p + l) * 256 == f * (256 * p) + l * 256) by (nonlinear_arith);
    }
}

/// Eight bytes spell a `u64`.
pub proof fn law_be_value_of_eight_bytes(s: Seq<u8>)
    requires
        s.len() == 8,
    ensures
        be_value(s) <= u64::MAX,
{
    law_be_value_is_bounded(s);
    reveal_with_fuel(vstd::arithmetic::power::pow, 9);
    assert(vstd::arithmetic::power::pow(256, 8) == 0x1_0000_0000_0000_0000);
}

/// `BytesMut::default`: an empty queue.
#[verifier::external_body]
pub(crate) fn empty() -> (buf: BytesMut)
    ensures
        contents(buf) == Seq::<u8>::empty(),
{
    BytesMut::default()
}

/// `BytesMut::len`: how many bytes the queue holds.
#[verifier::external_body]
pub(crate) fn len(buf: &BytesMut) -> (n: usize)
    ensures
        n == contents(*buf).len(),
{
    buf.len()
}

/// `Extend<u8>::extend` of `BytesMut`: puts the bytes behind those that are there. It panics when
/// it asks for more than an allocation can have. That memory runs out is not modelled, as it is
/// not for `Vec`.
#[verifier::external_body]
pub(crate) fn extend(buf: &mut BytesMut, bytes: Vec<u8>)
    requires
        contents(*old(buf)).len() + bytes@.len() <= capacity_limit(),
    ensures
        contents(*final(buf)) == contents(*old(buf)) + bytes@,
{
    buf.extend(bytes)
}

/// `Buf::get_u64` of `BytesMut`: takes eight bytes off the front, which spell the result in
/// big-endian order. It panics when there are fewer.
#[verifier::external_body]
pub(crate) fn get_u64(buf: &mut BytesMut) -> (n: u64)
    requires
        contents(*old(buf)).len() >= 8,
    ensures
        n == be_value(contents(*old(buf)).take(8)),
        contents(*final(buf)) == contents(*old(buf)).skip(8),
{
    buf.get_u64()
}

/// `BytesMut::split_to`: takes the first `at` bytes off the front, as a queue of their own. It
/// panics when there are fewer.
#[verifier::external_body]
pub(crate) fn split_to(buf: &mut BytesMut, at: usize) -> (front: BytesMut)
    requires
        at <= contents(*old(buf)).len(),
    ensures
        contents(front) == contents(*old(buf)).take(at as int),
        contents(*final(buf)) == contents(*old(buf)).skip(at as int),
{
    buf.split_to(at)
}

/// `BytesMut` as a slice, copied by `to_vec`: the bytes that the queue holds.
#[verifier::external_body]
pub(crate) fn to_vec(buf: &BytesMut) -> (bytes: Vec<u8>)
    ensures
        bytes@ == contents(*buf),
{
    buf.to_vec()
}

} // verus!
