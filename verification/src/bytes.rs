//! Little-endian words: the byte order of AArch64 memory.

use vstd::prelude::*;

verus! {

/// The number that `bytes` spell, least significant byte first.
pub open spec fn le_value(bytes: Seq<u8>) -> nat
    decreases bytes.len(),
{
    if bytes.len() == 0 {
        0
    } else {
        bytes[0] as nat + 256 * le_value(bytes.drop_first())
    }
}

/// The `len` low bytes of `value`, least significant byte first.
pub open spec fn le_bytes(value: nat, len: nat) -> Seq<u8>
    decreases len,
{
    if len == 0 {
        Seq::empty()
    } else {
        seq![(value % 256) as u8] + le_bytes(value / 256, (len - 1) as nat)
    }
}

/// 256 to the power `len`: one more than the largest number of `len` bytes.
pub open spec fn le_limit(len: nat) -> nat
    decreases len,
{
    if len == 0 {
        1
    } else {
        256 * le_limit((len - 1) as nat)
    }
}

pub proof fn lemma_le_value_limit(bytes: Seq<u8>)
    ensures
        le_value(bytes) < le_limit(bytes.len()),
    decreases bytes.len(),
{
    if bytes.len() > 0 {
        lemma_le_value_limit(bytes.drop_first());
    }
}

pub proof fn lemma_le_bytes_len(value: nat, len: nat)
    ensures
        le_bytes(value, len).len() == len,
    decreases len,
{
    if len > 0 {
        lemma_le_bytes_len(value / 256, (len - 1) as nat);
    }
}

/// The bytes of a number that fits in them spell that number.
pub proof fn lemma_le_value_of_le_bytes(value: nat, len: nat)
    requires
        value < le_limit(len),
    ensures
        le_value(le_bytes(value, len)) == value,
    decreases len,
{
    if len > 0 {
        lemma_le_value_of_le_bytes(value / 256, (len - 1) as nat);
        lemma_le_bytes_len(value / 256, (len - 1) as nat);
        assert(le_bytes(value, len).drop_first() =~= le_bytes(value / 256, (len - 1) as nat));
    }
}

pub proof fn lemma_le_limit_values()
    ensures
        le_limit(7) == 0x100_0000_0000_0000,
        le_limit(8) == 0x1_0000_0000_0000_0000,
{
    reveal_with_fuel(le_limit, 9);
}

pub proof fn lemma_le_limit_monotonic(a: nat, b: nat)
    requires
        a <= b,
    ensures
        le_limit(a) <= le_limit(b),
    decreases b,
{
    if a < b {
        lemma_le_limit_monotonic(a, (b - 1) as nat);
    }
}

/// Byte `i` is the `i`-th digit to the base 256.
pub proof fn lemma_le_byte(value: nat, len: nat, i: nat)
    requires
        i < len,
    ensures
        le_bytes(value, len).len() == len,
        le_bytes(value, len)[i as int] == (value / le_limit(i)) % 256,
    decreases len,
{
    lemma_le_bytes_len(value, len);
    lemma_le_bytes_len(value / 256, (len - 1) as nat);
    let rest = le_bytes(value / 256, (len - 1) as nat);
    assert(le_bytes(value, len) == seq![(value % 256) as u8] + rest);
    if i == 0 {
        assert(le_limit(0) == 1);
        assert(le_bytes(value, len)[0] == value % 256);
    } else {
        lemma_le_byte(value / 256, (len - 1) as nat, (i - 1) as nat);
        lemma_le_limit_monotonic(0, (i - 1) as nat);
        vstd::arithmetic::div_mod::lemma_div_denominator(
            value as int,
            256,
            le_limit((i - 1) as nat) as int,
        );
        assert(le_bytes(value, len)[i as int] == rest[i - 1]);
        assert(le_limit(i) == 256 * le_limit((i - 1) as nat));
    }
}

/// The eight bytes of a word, spelled out.
pub proof fn lemma_le_bytes_of_word(value: u64)
    ensures
        le_bytes(value as nat, 8).len() == 8,
        forall|i: int|
            0 <= i < 8 ==> #[trigger] le_bytes(value as nat, 8)[i] == (value >> ((8 * i) as u64))
                & 0xff,
{
    let bytes = le_bytes(value as nat, 8);
    lemma_le_bytes_len(value as nat, 8);
    assert forall|i: int| 0 <= i < 8 implies #[trigger] bytes[i] == (value >> ((8 * i) as u64))
        & 0xff by {
        lemma_le_byte(value as nat, 8, i as nat);
        reveal_with_fuel(le_limit, 9);
        assert({
            &&& (value >> 0u64) & 0xff == value % 0x100
            &&& (value >> 8u64) & 0xff == (value / 0x100) % 0x100
            &&& (value >> 16u64) & 0xff == (value / 0x1_0000) % 0x100
            &&& (value >> 24u64) & 0xff == (value / 0x100_0000) % 0x100
            &&& (value >> 32u64) & 0xff == (value / 0x1_0000_0000) % 0x100
            &&& (value >> 40u64) & 0xff == (value / 0x100_0000_0000) % 0x100
            &&& (value >> 48u64) & 0xff == (value / 0x1_0000_0000_0000) % 0x100
            &&& (value >> 56u64) & 0xff == (value / 0x100_0000_0000_0000) % 0x100
        }) by (bit_vector);
        assert(i == 0 || i == 1 || i == 2 || i == 3 || i == 4 || i == 5 || i == 6 || i == 7);
    }
}

/// The number that eight bytes spell, as a sum.
pub proof fn lemma_le_value_of_word(bytes: Seq<u8>)
    requires
        bytes.len() == 8,
    ensures
        le_value(bytes) == bytes[0] + 0x100 * bytes[1] + 0x1_0000 * bytes[2] + 0x100_0000
            * bytes[3] + 0x1_0000_0000 * bytes[4] + 0x100_0000_0000 * bytes[5]
            + 0x1_0000_0000_0000 * bytes[6] + 0x100_0000_0000_0000 * bytes[7],
{
    reveal_with_fuel(le_value, 9);
    assert forall|k: int| 0 <= k < 8 implies #[trigger] bytes.skip(k).drop_first() =~= bytes.skip(
        k + 1,
    ) by {}
    assert(bytes.skip(0) =~= bytes);
    assert(bytes.skip(8) =~= Seq::empty());
    assert(le_value(bytes.skip(7)) == bytes[7]);
    assert(le_value(bytes.skip(6)) == bytes[6] + 256 * le_value(bytes.skip(7)));
    assert(le_value(bytes.skip(5)) == bytes[5] + 256 * le_value(bytes.skip(6)));
    assert(le_value(bytes.skip(4)) == bytes[4] + 256 * le_value(bytes.skip(5)));
    assert(le_value(bytes.skip(3)) == bytes[3] + 256 * le_value(bytes.skip(4)));
    assert(le_value(bytes.skip(2)) == bytes[2] + 256 * le_value(bytes.skip(3)));
    assert(le_value(bytes.skip(1)) == bytes[1] + 256 * le_value(bytes.skip(2)));
    assert(le_value(bytes.skip(0)) == bytes[0] + 256 * le_value(bytes.skip(1)));
}

/// The eight bytes of `value`, least significant byte first.
pub(crate) fn to_le_bytes(value: u64) -> (bytes: [u8; 8])
    ensures
        bytes@ == le_bytes(value as nat, 8),
{
    let mut bytes = [0u8; 8];
    let mut rest: u64 = value;
    for i in 0..8usize
        invariant
            bytes@.len() == 8,
            bytes@.take(i as int) + le_bytes(rest as nat, (8 - i) as nat) == le_bytes(
                value as nat,
                8,
            ),
    {
        let ghost before = bytes@.take(i as int);
        bytes[i] = (rest % 256) as u8;
        proof {
            assert(bytes@.take(i + 1) =~= before.push((rest % 256) as u8));
            assert(before + le_bytes(rest as nat, (8 - i) as nat) =~= before.push(
                (rest % 256) as u8,
            ) + le_bytes((rest / 256) as nat, (8 - i - 1) as nat));
        }
        rest = rest / 256;
    }
    assert(bytes@.take(8) + le_bytes(rest as nat, 0) =~= bytes@);
    bytes
}

/// The number that eight `bytes` spell, least significant byte first.
pub(crate) fn from_le_bytes(bytes: &[u8; 8]) -> (value: u64)
    ensures
        value == le_value(bytes@),
{
    let mut value: u64 = 0;
    let mut i: usize = 8;
    assert(bytes@.skip(8) =~= Seq::empty());
    while i > 0
        invariant
            i <= 8,
            value == le_value(bytes@.skip(i as int)),
        decreases i,
    {
        proof {
            lemma_le_value_limit(bytes@.skip(i as int));
            lemma_le_limit_monotonic((8 - i) as nat, 7);
            lemma_le_limit_values();
            assert(bytes@.skip(i - 1).drop_first() =~= bytes@.skip(i as int));
        }
        i = i - 1;
        value = value * 256 + bytes[i] as u64;
    }
    assert(bytes@.skip(0) =~= bytes@);
    value
}

} // verus!
