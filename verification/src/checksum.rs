//! An order-sensitive digest of a byte sequence: each byte is added to
//! thirty-one times the digest so far, in 32-bit two's-complement arithmetic
//! that wraps around.

use vstd::prelude::*;

verus! {

/// The signed 32-bit number that differs from `x` by a multiple of two to the
/// power 32.
pub open spec fn wrap_i32(x: int) -> int {
    (x + 0x8000_0000) % 0x1_0000_0000 - 0x8000_0000
}

/// The digest after one more byte.
pub open spec fn checksum_step(acc: int, byte: u8) -> int {
    wrap_i32(acc * 31 + byte as int)
}

/// The digest of `bytes`: zero for the empty sequence, and one step from the
/// digest of all bytes but the last for the others.
pub open spec fn checksum_of(bytes: Seq<u8>) -> int
    decreases bytes.len(),
{
    if bytes.len() == 0 {
        0
    } else {
        checksum_step(checksum_of(bytes.drop_last()), bytes.last())
    }
}

/// One step as the machine takes it: a wrapping multiplication, then a
/// wrapping addition.
pub proof fn lemma_step_wrapping(acc: i32, byte: u8)
    ensures
        vstd::wrapping::i32_specs::wrapping_add(
            vstd::wrapping::i32_specs::wrapping_mul(acc, 31),
            byte as i32,
        ) as int == checksum_step(acc as int, byte),
{
}

/// A digest is a signed 32-bit number.
pub proof fn lemma_checksum_range(bytes: Seq<u8>)
    ensures
        i32::MIN <= checksum_of(bytes) <= i32::MAX,
{
}

/// The digest of no bytes is zero.
pub proof fn lemma_checksum_empty()
    ensures
        checksum_of(Seq::<u8>::empty()) == 0,
{
}

/// Appending a byte takes the digest one step further.
pub proof fn lemma_checksum_push(bytes: Seq<u8>, byte: u8)
    ensures
        checksum_of(bytes.push(byte)) == checksum_step(checksum_of(bytes), byte),
{
    assert(bytes.push(byte).drop_last() =~= bytes);
}

/// A step keeps different digests apart.
pub proof fn lemma_step_injective(acc1: int, acc2: int, byte: u8)
    requires
        i32::MIN <= acc1 <= i32::MAX,
        i32::MIN <= acc2 <= i32::MAX,
        acc1 != acc2,
    ensures
        checksum_step(acc1, byte) != checksum_step(acc2, byte),
{
    let x = acc1 * 31 + byte as int;
    let y = acc2 * 31 + byte as int;
    if wrap_i32(x) == wrap_i32(y) {
        let qx = (x + 0x8000_0000) / 0x1_0000_0000;
        let qy = (y + 0x8000_0000) / 0x1_0000_0000;
        let k = qx - qy;
        assert(31 * (acc1 - acc2) == 0x1_0000_0000 * k);
        assert(-31 < k < 31);
        assert(false);
    }
}

/// The sequence `bytes` with the bytes at `i` and `i + 1` exchanged.
pub open spec fn swap_adjacent(bytes: Seq<u8>, i: int) -> Seq<u8> {
    bytes.update(i, bytes[i + 1]).update(i + 1, bytes[i])
}

/// The digest depends on the order: exchanging two neighbouring bytes that
/// differ changes it.
pub proof fn lemma_checksum_order_sensitive(bytes: Seq<u8>, i: int)
    requires
        0 <= i,
        i + 1 < bytes.len(),
        bytes[i] != bytes[i + 1],
    ensures
        checksum_of(swap_adjacent(bytes, i)) != checksum_of(bytes),
    decreases bytes.len(),
{
    let swapped = swap_adjacent(bytes, i);
    let rest = bytes.drop_last();
    lemma_checksum_range(rest);
    lemma_checksum_range(swapped.drop_last());
    if i + 2 < bytes.len() {
        assert(swapped.drop_last() =~= swap_adjacent(rest, i));
        lemma_checksum_order_sensitive(rest, i);
        lemma_step_injective(checksum_of(swapped.drop_last()), checksum_of(rest), bytes.last());
    } else {
        let head = rest.drop_last();
        assert(swapped.drop_last().drop_last() =~= head);
        lemma_checksum_range(head);
        let p = checksum_of(head);
        let a = bytes[i];
        let b = bytes[i + 1];
        assert(checksum_of(bytes) == checksum_step(checksum_step(p, a), b));
        assert(checksum_of(swapped) == checksum_step(checksum_step(p, b), a));
        lemma_two_steps_differ(p, a, b);
    }
}

/// Two steps with different bytes end elsewhere than the same two steps in
/// the other order.
proof fn lemma_two_steps_differ(acc: int, a: u8, b: u8)
    requires
        a != b,
    ensures
        checksum_step(checksum_step(acc, a), b) != checksum_step(checksum_step(acc, b), a),
{
    let x = acc * 31 + a as int;
    let y = acc * 31 + b as int;
    let qx = (x + 0x8000_0000) / 0x1_0000_0000;
    let qy = (y + 0x8000_0000) / 0x1_0000_0000;
    let x2 = wrap_i32(x) * 31 + b as int;
    let y2 = wrap_i32(y) * 31 + a as int;
    assert(wrap_i32(x) == x - qx * 0x1_0000_0000);
    assert(wrap_i32(y) == y - qy * 0x1_0000_0000);
    if wrap_i32(x2) == wrap_i32(y2) {
        let rx = (x2 + 0x8000_0000) / 0x1_0000_0000;
        let ry = (y2 + 0x8000_0000) / 0x1_0000_0000;
        let k = rx - ry + 31 * (qx - qy);
        assert(30 * (a as int - b as int) == 0x1_0000_0000 * k);
        assert(false);
    }
}

} // verus!
