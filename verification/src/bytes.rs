//! Little-endian integers as byte sequences.

use vstd::prelude::*;

verus! {

/// The `width` lowest bytes of `value`, least significant first.
pub open spec fn le_bytes(value: nat, width: nat) -> Seq<u8>
    decreases width,
{
    if width == 0 {
        Seq::empty()
    } else {
        seq![(value % 256) as u8] + le_bytes(value / 256, (width - 1) as nat)
    }
}

/// The number whose bytes, least significant first, are `bytes`.
pub open spec fn le_value(bytes: Seq<u8>) -> nat
    decreases bytes.len(),
{
    if bytes.len() == 0 {
        0
    } else {
        bytes[0] as nat + 256 * le_value(bytes.drop_first())
    }
}

/// `256` to the power of `width`: the first number that needs more bytes.
pub open spec fn le_bound(width: nat) -> nat
    decreases width,
{
    if width == 0 {
        1
    } else {
        256 * le_bound((width - 1) as nat)
    }
}

/// A number in `width` bytes has that many bytes.
pub proof fn lemma_le_bytes_len(value: nat, width: nat)
    ensures
        le_bytes(value, width).len() == width,
    decreases width,
{
    if width > 0 {
        lemma_le_bytes_len(value / 256, (width - 1) as nat);
    }
}

/// Writing a number in `width` bytes and reading the bytes gives the number
/// back, wherever it fits.
pub proof fn law_le_round_trip(value: nat, width: nat)
    requires
        value < le_bound(width),
    ensures
        le_value(le_bytes(value, width)) == value,
    decreases width,
{
    lemma_le_bytes_len(value, width);
    if width > 0 {
        law_le_round_trip(value / 256, (width - 1) as nat);
        assert(le_bytes(value, width).drop_first() =~= le_bytes(
            value / 256,
            (width - 1) as nat,
        ));
    }
}

/// Byte `i` of a number in `width` bytes is its digit to the base 256 that
/// stands for that power.
pub proof fn law_le_digit(value: nat, width: nat, i: nat)
    requires
        i < width,
    ensures
        le_bytes(value, width).len() == width,
        le_bytes(value, width)[i as int] as int == (value as int / vstd::arithmetic::power::pow(
            256,
            i,
        )) % 256,
    decreases width,
{
    lemma_le_bytes_len(value, width);
    vstd::arithmetic::power::lemma_pow0(256);
    if i > 0 {
        law_le_digit(value / 256, (width - 1) as nat, (i - 1) as nat);
        let p = vstd::arithmetic::power::pow(256, (i - 1) as nat);
        vstd::arithmetic::power::lemma_pow_positive(256, (i - 1) as nat);
        assert(vstd::arithmetic::power::pow(256, i) == 256 * p) by {
            reveal(vstd::arithmetic::power::pow);
        }
        vstd::arithmetic::div_mod::lemma_div_denominator(value as int, 256, p);
    }
}

/// Two bytes, and four, are the number that they are digits of to the base 256,
/// the first of them the lowest.
pub proof fn law_le_value(a: u8, b: u8, c: u8, d: u8)
    ensures
        le_value(seq![a, b]) == a + 256 * b,
        le_value(seq![a, b, c, d]) == a + 256 * b + 65536 * c + 16777216 * d,
{
    reveal_with_fuel(le_value, 5);
    let two = seq![a, b];
    assert(two.drop_first() =~= seq![b]);
    assert(seq![b].drop_first() =~= Seq::<u8>::empty());
    let four = seq![a, b, c, d];
    assert(four.drop_first() =~= seq![b, c, d]);
    assert(seq![b, c, d].drop_first() =~= seq![c, d]);
    assert(seq![c, d].drop_first() =~= seq![d]);
    assert(seq![d].drop_first() =~= Seq::<u8>::empty());
}

/// Appends the `width` lowest bytes of `value`, least significant first.
pub fn push_le(out: &mut Vec<u8>, value: u128, width: usize)
    ensures
        final(out)@ == old(out)@ + le_bytes(value as nat, width as nat),
{
    let mut rest: u128 = value;
    let mut done: usize = 0;
    assert(out@ + le_bytes(rest as nat, width as nat) =~= old(out)@ + le_bytes(
        value as nat,
        width as nat,
    ));
    while done < width
        invariant
            done <= width,
            out@ + le_bytes(rest as nat, (width - done) as nat) == old(out)@ + le_bytes(
                value as nat,
                width as nat,
            ),
        decreases width - done,
    {
        let ghost before = out@;
        out.push((rest % 256) as u8);
        assert(out@ + le_bytes((rest / 256) as nat, (width - done - 1) as nat) =~= before
            + le_bytes(rest as nat, (width - done) as nat));
        rest = rest / 256;
        done = done + 1;
    }
    assert(out@ + le_bytes(rest as nat, 0) =~= out@);
}

/// The number in the first two bytes of `bytes` from `at` on.
pub fn read_le16(bytes: &[u8], at: usize) -> (value: u16)
    requires
        at + 2 <= bytes@.len(),
    ensures
        value as nat == le_value(bytes@.subrange(at as int, at + 2)),
{
    proof {
        reveal_with_fuel(le_value, 3);
        let s = bytes@.subrange(at as int, at + 2);
        assert(s.drop_first().drop_first() =~= Seq::<u8>::empty());
        assert(s.drop_first()[0] == bytes@[at + 1]);
    }
    bytes[at] as u16 + 256 * (bytes[at + 1] as u16)
}

/// The number in the first four bytes of `bytes` from `at` on.
pub fn read_le32(bytes: &[u8], at: usize) -> (value: u32)
    requires
        at + 4 <= bytes@.len(),
    ensures
        value as nat == le_value(bytes@.subrange(at as int, at + 4)),
{
    proof {
        reveal_with_fuel(le_value, 5);
        let s = bytes@.subrange(at as int, at + 4);
        assert(s.drop_first().drop_first().drop_first().drop_first() =~= Seq::<u8>::empty());
        assert(s.drop_first()[0] == bytes@[at + 1]);
        assert(s.drop_first().drop_first()[0] == bytes@[at + 2]);
        assert(s.drop_first().drop_first().drop_first()[0] == bytes@[at + 3]);
    }
    bytes[at] as u32 + 256 * (bytes[at + 1] as u32) + 65536 * (bytes[at + 2] as u32) + 16777216 * (
    bytes[at + 3] as u32)
}

} // verus!
