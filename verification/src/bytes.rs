//! Little-endian fields inside fixed-size byte tables.

use vstd::arithmetic::power::pow;
use vstd::prelude::*;

verus! {

/// The `width` low bytes of `value`, least significant first.
pub open spec fn le_bytes(value: nat, width: nat) -> Seq<u8>
    decreases width,
{
    if width == 0 {
        Seq::empty()
    } else {
        seq![(value % 256) as u8] + le_bytes(value / 256, (width - 1) as nat)
    }
}

/// The number that `bytes` spell, least significant first.
pub open spec fn le_value(bytes: Seq<u8>) -> nat
    decreases bytes.len(),
{
    if bytes.len() == 0 {
        0
    } else {
        bytes[0] as nat + 256 * le_value(bytes.drop_first())
    }
}

/// `count` zero bytes.
pub open spec fn zeros(count: nat) -> Seq<u8> {
    Seq::new(count, |i: int| 0u8)
}

/// The number in the `width` bytes of `table` at offset `at`.
pub open spec fn field(table: Seq<u8>, at: int, width: nat) -> nat {
    le_value(table.subrange(at, at + width))
}

/// `table` with the bytes from offset `at` on replaced by `bytes`.
pub open spec fn overlay(table: Seq<u8>, at: int, bytes: Seq<u8>) -> Seq<u8> {
    Seq::new(
        table.len(),
        |i: int|
            if at <= i < at + bytes.len() {
                bytes[i - at]
            } else {
                table[i]
            },
    )
}

pub proof fn lemma_le_bytes_len(value: nat, width: nat)
    ensures
        le_bytes(value, width).len() == width,
    decreases width,
{
    if width > 0 {
        lemma_le_bytes_len(value / 256, (width - 1) as nat);
    }
}

/// The bytes of zero are zero.
pub(crate) proof fn lemma_zero_bytes(width: nat)
    ensures
        le_bytes(0, width) == zeros(width),
    decreases width,
{
    if width > 0 {
        lemma_zero_bytes((width - 1) as nat);
    }
    assert(le_bytes(0, width) =~= zeros(width));
}

/// A number that fits in `width` bytes is read back from them unchanged.
pub proof fn law_le_bytes_read_back(value: nat, width: nat)
    requires
        value < pow(256, width),
    ensures
        le_value(le_bytes(value, width)) == value,
    decreases width,
{
    reveal(pow);
    if width > 0 {
        let rest = (width - 1) as nat;
        assert(value / 256 < pow(256, rest)) by (nonlinear_arith)
            requires
                value < 256 * pow(256, rest),
                value >= 0,
        ;
        law_le_bytes_read_back(value / 256, rest);
        assert(le_bytes(value, width).drop_first() =~= le_bytes(value / 256, rest));
    }
}

/// Any value of a machine word is read back from its bytes unchanged.
pub(crate) proof fn lemma_words_read_back()
    ensures
        forall|v: u16| #[trigger] le_value(le_bytes(v as nat, 2)) == v,
        forall|v: u32| #[trigger] le_value(le_bytes(v as nat, 4)) == v,
        forall|v: u64| #[trigger] le_value(le_bytes(v as nat, 8)) == v,
{
    assert(pow(256, 8) == 0x1_0000_0000_0000_0000 && pow(256, 4) == 0x1_0000_0000 && pow(256, 2)
        == 0x1_0000) by {
        reveal(pow);
        reveal_with_fuel(pow, 9);
    }
    assert forall|v: u16| #[trigger] le_value(le_bytes(v as nat, 2)) == v by {
        law_le_bytes_read_back(v as nat, 2);
    }
    assert forall|v: u32| #[trigger] le_value(le_bytes(v as nat, 4)) == v by {
        law_le_bytes_read_back(v as nat, 4);
    }
    assert forall|v: u64| #[trigger] le_value(le_bytes(v as nat, 8)) == v by {
        law_le_bytes_read_back(v as nat, 8);
    }
}

/// Stores the `width` low bytes of `value` at offset `at`, least significant first.
pub(crate) fn put_le<const N: usize>(out: &mut [u8; N], at: usize, value: u64, width: usize)
    requires
        at + width <= N,
    ensures
        final(out)@ == overlay(old(out)@, at as int, le_bytes(value as nat, width as nat)),
{
    let ghost before = out@;
    let ghost bytes = le_bytes(value as nat, width as nat);
    let mut rest: u64 = value;
    let mut i: usize = 0;
    proof {
        lemma_le_bytes_len(value as nat, width as nat);
        assert(bytes.skip(0) =~= bytes);
        assert(out@ =~= overlay(before, at as int, bytes.take(0)));
    }
    while i < width
        invariant
            i <= width,
            at + width <= N,
            bytes.len() == width,
            out@ == overlay(before, at as int, bytes.take(i as int)),
            bytes.skip(i as int) == le_bytes(rest as nat, (width - i) as nat),
        decreases width - i,
    {
        let ghost tail = le_bytes(rest as nat / 256, (width - i - 1) as nat);
        assert(bytes.skip(i as int)[0] == (rest % 256) as u8);
        assert(bytes.skip(i + 1) =~= tail) by {
            assert(bytes.skip(i + 1) =~= bytes.skip(i as int).drop_first());
            assert(bytes.skip(i as int).drop_first() =~= tail);
        }
        out[at + i] = (rest % 256) as u8;
        rest = rest / 256;
        i = i + 1;
        assert(out@ =~= overlay(before, at as int, bytes.take(i as int)));
    }
    assert(bytes.take(width as int) =~= bytes);
}

/// Stores `bytes` at offset `at`.
pub(crate) fn put_bytes<const N: usize>(out: &mut [u8; N], at: usize, bytes: &[u8])
    requires
        at + bytes@.len() <= N,
    ensures
        final(out)@ == overlay(old(out)@, at as int, bytes@),
{
    let ghost before = out@;
    let mut i: usize = 0;
    assert(out@ =~= overlay(before, at as int, bytes@.take(0)));
    while i < bytes.len()
        invariant
            i <= bytes@.len(),
            at + bytes@.len() <= N,
            out@ == overlay(before, at as int, bytes@.take(i as int)),
        decreases bytes@.len() - i,
    {
        out[at + i] = bytes[i];
        i = i + 1;
        assert(out@ =~= overlay(before, at as int, bytes@.take(i as int)));
    }
    assert(bytes@.take(bytes@.len() as int) =~= bytes@);
}

/// Bytes spell a number in base 256: no bytes spell zero, and one more byte counts by the next
/// power of 256.
pub proof fn law_le_value_is_positional(bytes: Seq<u8>, byte: u8)
    ensures
        le_value(Seq::<u8>::empty()) == 0,
        le_value(bytes.push(byte)) == le_value(bytes) + byte * pow(256, bytes.len()),
    decreases bytes.len(),
{
    reveal(pow);
    let longer = bytes.push(byte);
    if bytes.len() == 0 {
        assert(longer.drop_first() =~= Seq::empty());
        assert(longer[0] == byte);
        reveal_with_fuel(le_value, 2);
        assert(pow(256, 0) == 1);
    } else {
        let rest = bytes.drop_first();
        assert(longer.drop_first() =~= rest.push(byte));
        law_le_value_is_positional(rest, byte);
        let p = pow(256, rest.len());
        assert(pow(256, bytes.len()) == 256 * p);
        assert(byte * (256 * p) == 256 * (byte * p)) by (nonlinear_arith);
        assert(le_value(longer) == longer[0] as nat + 256 * le_value(rest.push(byte)));
    }
}

/// The bytes of a number are as many as asked for and spell it, less what they have no room for.
pub proof fn law_le_bytes_keep_the_low_digits(value: nat, width: nat)
    ensures
        le_bytes(value, width).len() == width,
        le_value(le_bytes(value, width)) == value as int % pow(256, width),
    decreases width,
{
    reveal(pow);
    vstd::arithmetic::power::lemma_pow_positive(256, width);
    if width == 0 {
        assert(pow(256, 0) == 1);
    } else {
        let rest = (width - 1) as nat;
        law_le_bytes_keep_the_low_digits(value / 256, rest);
        vstd::arithmetic::power::lemma_pow_positive(256, rest);
        vstd::arithmetic::div_mod::lemma_mod_breakdown(value as int, 256, pow(256, rest));
        assert(pow(256, width) == 256 * pow(256, rest));
        assert(le_bytes(value, width).drop_first() =~= le_bytes(value / 256, rest));
    }
}

/// A field is the number in its own bytes, whatever stands around it.
pub proof fn law_field_reads_its_own_bytes(before: Seq<u8>, bytes: Seq<u8>, after: Seq<u8>)
    ensures
        field(before + bytes + after, before.len() as int, bytes.len()) == le_value(bytes),
{
    let table = before + bytes + after;
    assert(table.subrange(before.len() as int, before.len() as int + bytes.len()) =~= bytes);
}

/// Storing bytes in a table keeps its length and every other byte. Zero bytes are zero.
pub proof fn law_overlay_replaces_only_its_range(table: Seq<u8>, at: int, bytes: Seq<u8>, i: int)
    requires
        0 <= i < table.len(),
    ensures
        overlay(table, at, bytes).len() == table.len(),
        at <= i < at + bytes.len() ==> overlay(table, at, bytes)[i] == bytes[i - at],
        i < at || at + bytes.len() <= i ==> overlay(table, at, bytes)[i] == table[i],
        zeros(table.len()).len() == table.len(),
        zeros(table.len())[i] == 0,
{
}

} // verus!
