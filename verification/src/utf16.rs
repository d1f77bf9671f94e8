//! UTF-16LE text, as firmware tables spell it.

use crate::bytes::{field, le_bytes, lemma_le_bytes_len, lemma_words_read_back};
use vstd::prelude::*;

verus! {

/// The UTF-16 code units of one character.
pub open spec fn utf16_units(c: char) -> Seq<u16> {
    let scalar = c as u32;
    if scalar < 0x1_0000 {
        seq![scalar as u16]
    } else {
        seq![
            (0xd800 + (scalar - 0x1_0000) / 0x400) as u16,
            (0xdc00 + (scalar - 0x1_0000) % 0x400) as u16,
        ]
    }
}

/// The UTF-16 code units of a text.
pub open spec fn utf16(text: Seq<char>) -> Seq<u16>
    decreases text.len(),
{
    if text.len() == 0 {
        Seq::empty()
    } else {
        utf16(text.drop_last()) + utf16_units(text.last())
    }
}

/// Code units as bytes, each unit little-endian.
pub open spec fn units_le(units: Seq<u16>) -> Seq<u8>
    decreases units.len(),
{
    if units.len() == 0 {
        Seq::empty()
    } else {
        units_le(units.drop_last()) + le_bytes(units.last() as nat, 2)
    }
}

/// A text as UTF-16LE bytes.
pub open spec fn utf16le(text: Seq<char>) -> Seq<u8> {
    units_le(utf16(text))
}

fn push_unit(out: &mut Vec<u8>, units: Ghost<Seq<u16>>, unit: u16)
    requires
        old(out)@ == units_le(units@),
    ensures
        final(out)@ == units_le(units@.push(unit)),
{
    out.push((unit % 256) as u8);
    out.push((unit / 256) as u8);
    proof {
        reveal_with_fuel(le_bytes, 3);
        assert(units@.push(unit).drop_last() =~= units@);
        assert(out@ =~= units_le(units@) + le_bytes(unit as nat, 2));
    }
}

/// Encodes `text` as UTF-16LE.
pub fn encode_utf16le(text: &str) -> (encoded: Vec<u8>)
    ensures
        encoded@ == utf16le(text@),
{
    let mut out: Vec<u8> = Vec::new();
    let count: usize = text.unicode_len();
    let mut i: usize = 0;
    assert(text@.take(0) =~= Seq::empty());
    while i < count
        invariant
            i <= count == text@.len(),
            out@ == utf16le(text@.take(i as int)),
        decreases count - i,
    {
        let ghost done = utf16(text@.take(i as int));
        let c: char = text.get_char(i);
        assert(text@.take(i + 1).drop_last() =~= text@.take(i as int));
        let scalar: u32 = c as u32;
        if scalar < 0x1_0000 {
            push_unit(&mut out, Ghost(done), scalar as u16);
            assert(done.push(scalar as u16) =~= utf16(text@.take(i + 1)));
        } else {
            let offset: u32 = scalar - 0x1_0000;
            let high: u16 = (0xd800 + offset / 0x400) as u16;
            let low: u16 = (0xdc00 + offset % 0x400) as u16;
            push_unit(&mut out, Ghost(done), high);
            push_unit(&mut out, Ghost(done.push(high)), low);
            assert(done.push(high).push(low) =~= utf16(text@.take(i + 1)));
        }
        i = i + 1;
    }
    assert(text@.take(count as int) =~= text@);
    out
}

/// Text without characters beyond the basic plane takes two bytes for each character, and those
/// spell the character's number.
pub proof fn law_plain_text_takes_two_bytes_each(text: Seq<char>)
    requires
        forall|i: int| 0 <= i < text.len() ==> (#[trigger] text[i]) as u32 <= 0xffff,
    ensures
        utf16(text).len() == text.len(),
        utf16le(text).len() == 2 * text.len(),
        forall|i: int|
            0 <= i < text.len() ==> field(utf16le(text), 2 * i, 2) == (#[trigger] text[i]) as u32,
    decreases text.len(),
{
    if text.len() > 0 {
        let shorter = text.drop_last();
        let last = text.last() as u32 as u16;
        law_plain_text_takes_two_bytes_each(shorter);
        assert(utf16_units(text.last()) =~= seq![last]);
        assert(utf16(text).drop_last() =~= utf16(shorter));
        lemma_le_bytes_len(last as nat, 2);
        lemma_words_read_back();
        assert forall|i: int| 0 <= i < text.len() implies field(utf16le(text), 2 * i, 2) == (
        #[trigger] text[i]) as u32 by {
            if i < shorter.len() {
                assert(shorter[i] == text[i]);
                assert(utf16le(text).subrange(2 * i, 2 * i + 2) =~= utf16le(shorter).subrange(
                    2 * i,
                    2 * i + 2,
                ));
            } else {
                assert(utf16le(text).subrange(2 * i, 2 * i + 2) =~= le_bytes(last as nat, 2));
            }
        }
    }
}

/// No text takes no bytes. One more character leaves the bytes before it alone and adds its number,
/// in one code unit, or in a pair of surrogates that carry ten bits each.
pub proof fn law_utf16le_grows_by_each_character(text: Seq<char>, c: char)
    ensures
        utf16le(Seq::<char>::empty()).len() == 0,
        ({
            let before = utf16le(text);
            let after = utf16le(text.push(c));
            let n = before.len() as int;
            let scalar = c as u32;
            &&& after.len() >= n && after.subrange(0, n) == before
            &&& scalar < 0x1_0000 ==> after.len() == n + 2 && field(after, n, 2) == scalar
            &&& scalar >= 0x1_0000 ==> {
                let high = field(after, n, 2);
                let low = field(after, n + 2, 2);
                &&& after.len() == n + 4
                &&& 0xd800 <= high < 0xdc00
                &&& 0xdc00 <= low < 0xe000
                &&& scalar == 0x1_0000 + (high - 0xd800) * 0x400 + (low - 0xdc00)
            }
        }),
{
    let before = utf16le(text);
    let after = utf16le(text.push(c));
    let n = before.len() as int;
    let units = utf16(text);
    let scalar = c as u32;
    assert(text.push(c).drop_last() =~= text);
    assert(utf16(text.push(c)) == units + utf16_units(c));
    lemma_words_read_back();
    if scalar < 0x1_0000 {
        let unit = scalar as u16;
        assert((units + utf16_units(c)).drop_last() =~= units);
        lemma_le_bytes_len(unit as nat, 2);
        assert(after == before + le_bytes(unit as nat, 2));
        assert(after.subrange(n, n + 2) =~= le_bytes(unit as nat, 2));
    } else {
        let high = (0xd800 + (scalar - 0x1_0000) / 0x400) as u16;
        let low = (0xdc00 + (scalar - 0x1_0000) % 0x400) as u16;
        assert((units + utf16_units(c)).drop_last() =~= units.push(high));
        assert(units.push(high).drop_last() =~= units);
        lemma_le_bytes_len(high as nat, 2);
        lemma_le_bytes_len(low as nat, 2);
        assert(units_le(units.push(high)) == before + le_bytes(high as nat, 2));
        assert((units + utf16_units(c)).last() == low);
        assert(after == before + le_bytes(high as nat, 2) + le_bytes(low as nat, 2));
        assert(after.subrange(n, n + 2) =~= le_bytes(high as nat, 2));
        assert(after.subrange(n + 2, n + 4) =~= le_bytes(low as nat, 2));
        assert(scalar <= 0x10ffff);
    }
    assert(after.subrange(0, n) =~= before);
}

} // verus!
