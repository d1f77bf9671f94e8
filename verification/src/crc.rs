//! The CRC-32 that firmware tables carry.

use vstd::prelude::*;

verus! {

/// The CRC-32 generator polynomial, bit-reversed.
pub const CRC32_POLYNOMIAL: u32 = 0xedb8_8320;

/// The shift register after one more message bit.
pub open spec fn crc_shift(register: u32, bit: bool) -> u32 {
    if (register & 1 == 1) != bit {
        (register >> 1) ^ CRC32_POLYNOMIAL
    } else {
        register >> 1
    }
}

/// Bit `n` of the message: each byte contributes its bits least significant first.
pub open spec fn message_bit(bytes: Seq<u8>, n: int) -> bool {
    (bytes[n / 8] as u32 >> ((n % 8) as u32)) & 1 == 1
}

/// The shift register after the first `n` bits of the message, starting from all ones.
pub open spec fn crc_register(bytes: Seq<u8>, n: nat) -> u32
    decreases n,
{
    if n == 0 {
        0xffff_ffffu32
    } else {
        crc_shift(crc_register(bytes, (n - 1) as nat), message_bit(bytes, n - 1))
    }
}

/// The CRC-32 of a message: the complement of the register after its last bit.
pub open spec fn crc32_spec(bytes: Seq<u8>) -> u32 {
    !crc_register(bytes, 8 * bytes.len())
}

/// The CRC-32 of `bytes`. Computed without a table.
pub fn crc32(bytes: &[u8]) -> (checksum: u32)
    ensures
        checksum == crc32_spec(bytes@),
{
    let mut crc: u32 = !0u32;
    assert(!0u32 == 0xffff_ffffu32) by (bit_vector);
    let mut i: usize = 0;
    while i < bytes.len()
        invariant
            i <= bytes@.len(),
            crc == crc_register(bytes@, 8 * i as nat),
        decreases bytes@.len() - i,
    {
        let byte: u32 = bytes[i] as u32;
        let ghost start = crc;
        crc = crc ^ byte;
        assert(start ^ byte == start ^ (byte >> 0u32)) by (bit_vector);
        let mut k: u32 = 0;
        while k < 8
            invariant
                i < bytes@.len(),
                k <= 8,
                byte == bytes@[i as int],
                crc == crc_register(bytes@, (8 * i + k) as nat) ^ (byte >> k),
            decreases 8 - k,
        {
            let ghost register = crc_register(bytes@, (8 * i + k) as nat);
            let ghost shifted = byte >> k;
            let ghost bit = message_bit(bytes@, 8 * i + k);
            let ghost next = crc_register(bytes@, (8 * i + k + 1) as nat);
            assert((8 * i + k) / 8 == i && (8 * i + k) % 8 == k);
            assert(next == crc_shift(register, bit));
            assert(shifted & 1 == (byte >> k) & 1);
            assert(byte >> ((k + 1) as u32) == shifted >> 1) by (bit_vector)
                requires
                    shifted == byte >> k,
                    k < 8,
            ;
            let mask: u32 = 0u32.wrapping_sub(crc & 1);
            assert((crc & 1) == 0 || (crc & 1) == 1) by (bit_vector);
            let ghost before = crc;
            crc = (crc >> 1) ^ (CRC32_POLYNOMIAL & mask);
            assert(crc == next ^ (shifted >> 1)) by (bit_vector)
                requires
                    before == register ^ shifted,
                    mask == (if before & 1 == 1 {
                        0xffff_ffffu32
                    } else {
                        0u32
                    }),
                    bit == (shifted & 1 == 1),
                    crc == (before >> 1) ^ (0xedb8_8320u32 & mask),
                    next == (if (register & 1 == 1) != bit {
                        (register >> 1) ^ 0xedb8_8320u32
                    } else {
                        register >> 1
                    }),
            ;
            k = k + 1;
        }
        let ghost register = crc_register(bytes@, (8 * i + 8) as nat);
        assert(register ^ (byte >> 8u32) == register) by (bit_vector)
            requires
                byte < 256,
        ;
        i = i + 1;
    }
    !crc
}

/// The shift register is linear: the shift of a sum is the sum of the shifts. A set bit moves down
/// one place, and what leaves at the bottom, or comes in as a message bit, returns as the
/// polynomial. Together this fixes every shift.
pub proof fn law_shift_is_linear(a: u32, b: u32, p: bool, q: bool, k: u32)
    requires
        1 <= k < 32,
    ensures
        crc_shift(a ^ b, p != q) == crc_shift(a, p) ^ crc_shift(b, q),
        crc_shift(1u32 << k, false) == 1u32 << ((k - 1) as u32),
        crc_shift(1, false) == 0xedb8_8320,
        crc_shift(0, true) == 0xedb8_8320,
{
    assert(crc_shift(a ^ b, p != q) == crc_shift(a, p) ^ crc_shift(b, q)) by (bit_vector);
    assert(crc_shift(1u32 << k, false) == 1u32 << ((k - 1) as u32)) by (bit_vector)
        requires
            1 <= k < 32,
    ;
    assert(crc_shift(1, false) == 0xedb8_8320) by (bit_vector);
    assert(crc_shift(0, true) == 0xedb8_8320) by (bit_vector);
}

/// The register does not depend on bytes that have not entered it yet.
proof fn lemma_register_ignores_later_bytes(a: Seq<u8>, b: Seq<u8>, n: nat)
    requires
        n <= 8 * a.len(),
        n <= 8 * b.len(),
        forall|i: int| 0 <= i && 8 * i < n ==> a[i] == b[i],
    ensures
        crc_register(a, n) == crc_register(b, n),
    decreases n,
{
    if n > 0 {
        lemma_register_ignores_later_bytes(a, b, (n - 1) as nat);
        assert(a[(n - 1) / 8] == b[(n - 1) / 8]);
    }
}

/// The CRC of no bytes is zero, and one more byte advances the complement of the CRC by the eight
/// bits of the byte, least significant first. So every byte of a message enters its CRC.
pub proof fn law_crc32_takes_in_every_byte(message: Seq<u8>, byte: u8)
    ensures
        crc32_spec(Seq::<u8>::empty()) == 0,
        ({
            let b = byte as u32;
            let r0 = !crc32_spec(message);
            let r1 = crc_shift(r0, b & 1 == 1);
            let r2 = crc_shift(r1, (b >> 1) & 1 == 1);
            let r3 = crc_shift(r2, (b >> 2) & 1 == 1);
            let r4 = crc_shift(r3, (b >> 3) & 1 == 1);
            let r5 = crc_shift(r4, (b >> 4) & 1 == 1);
            let r6 = crc_shift(r5, (b >> 5) & 1 == 1);
            let r7 = crc_shift(r6, (b >> 6) & 1 == 1);
            let r8 = crc_shift(r7, (b >> 7) & 1 == 1);
            !crc32_spec(message.push(byte)) == r8
        }),
{
    assert(!0xffff_ffffu32 == 0) by (bit_vector);
    let longer = message.push(byte);
    let n = 8 * message.len();
    let at = n as int;
    let start = crc_register(message, n);
    let end = crc_register(longer, n + 8);
    let b = byte as u32;
    assert(!(!start) == start) by (bit_vector);
    assert(!(!end) == end) by (bit_vector);
    assert(b >> 0u32 == b) by (bit_vector);
    lemma_register_ignores_later_bytes(message, longer, n);
    assert(longer[message.len() as int] == byte);
    assert forall|k: int| 0 <= k < 8 implies (n + k) / 8 == message.len() && #[trigger] ((n + k)
        % 8) == k by {}
    assert(crc_register(longer, n + 1) == crc_shift(start, message_bit(longer, at)));
    assert(message_bit(longer, at) == (b & 1 == 1));
    assert(message_bit(longer, at + 1) == ((b >> 1u32) & 1 == 1));
    assert(message_bit(longer, at + 2) == ((b >> 2u32) & 1 == 1));
    assert(message_bit(longer, at + 3) == ((b >> 3u32) & 1 == 1));
    assert(message_bit(longer, at + 4) == ((b >> 4u32) & 1 == 1));
    assert(message_bit(longer, at + 5) == ((b >> 5u32) & 1 == 1));
    assert(message_bit(longer, at + 6) == ((b >> 6u32) & 1 == 1));
    assert(message_bit(longer, at + 7) == ((b >> 7u32) & 1 == 1));
    let c1 = crc_register(longer, n + 1);
    let c2 = crc_register(longer, n + 2);
    let c3 = crc_register(longer, n + 3);
    let c4 = crc_register(longer, n + 4);
    let c5 = crc_register(longer, n + 5);
    let c6 = crc_register(longer, n + 6);
    let c7 = crc_register(longer, n + 7);
    assert(c2 == crc_shift(c1, message_bit(longer, at + 1)));
    assert(c3 == crc_shift(c2, message_bit(longer, at + 2)));
    assert(c4 == crc_shift(c3, message_bit(longer, at + 3)));
    assert(c5 == crc_shift(c4, message_bit(longer, at + 4)));
    assert(c6 == crc_shift(c5, message_bit(longer, at + 5)));
    assert(c7 == crc_shift(c6, message_bit(longer, at + 6)));
    assert(end == crc_shift(c7, message_bit(longer, at + 7)));
}

/// Different registers stay different under the same message bit.
proof fn lemma_shift_is_injective(a: u32, b: u32, bit: bool)
    requires
        a != b,
    ensures
        crc_shift(a, bit) != crc_shift(b, bit),
{
    assert(crc_shift(a, bit) != crc_shift(b, bit)) by (bit_vector)
        requires
            a != b,
    ;
}

/// Registers that start equal and take in different bytes differ throughout, once the bits still to
/// come are added in.
proof fn lemma_different_bytes_separate(a: Seq<u8>, b: Seq<u8>, i: int, k: u32)
    requires
        0 <= i < a.len(),
        i < b.len(),
        a[i] != b[i],
        k <= 8,
        crc_register(a, (8 * i) as nat) == crc_register(b, (8 * i) as nat),
    ensures
        crc_register(a, (8 * i + k) as nat) ^ (a[i] as u32 >> k) != crc_register(
            b,
            (8 * i + k) as nat,
        ) ^ (b[i] as u32 >> k),
    decreases k,
{
    let x = a[i] as u32;
    let y = b[i] as u32;
    if k == 0 {
        let r = crc_register(a, (8 * i) as nat);
        assert(r ^ (x >> 0u32) != r ^ (y >> 0u32)) by (bit_vector)
            requires
                x != y,
        ;
    } else {
        let j: u32 = (k - 1) as u32;
        lemma_different_bytes_separate(a, b, i, j);
        let ra = crc_register(a, (8 * i + j) as nat);
        let rb = crc_register(b, (8 * i + j) as nat);
        assert((8 * i + j) / 8 == i && (8 * i + j) % 8 == j);
        assert(crc_register(a, (8 * i + k) as nat) == crc_shift(ra, (x >> j) & 1 == 1));
        assert(crc_register(b, (8 * i + k) as nat) == crc_shift(rb, (y >> j) & 1 == 1));
        assert(crc_shift(ra, (x >> j) & 1 == 1) ^ (x >> k) == crc_shift(ra ^ (x >> j), false))
            by (bit_vector)
            requires
                k == j + 1,
                k <= 8,
        ;
        assert(crc_shift(rb, (y >> j) & 1 == 1) ^ (y >> k) == crc_shift(rb ^ (y >> j), false))
            by (bit_vector)
            requires
                k == j + 1,
                k <= 8,
        ;
        lemma_shift_is_injective(ra ^ (x >> j), rb ^ (y >> j), false);
    }
}

/// Registers that differ stay different while the messages agree.
proof fn lemma_registers_stay_different(a: Seq<u8>, b: Seq<u8>, from: nat, to: nat)
    requires
        from <= to <= 8 * a.len(),
        a.len() == b.len(),
        forall|i: int| from <= 8 * i + 7 && 0 <= i < a.len() ==> a[i] == b[i],
        crc_register(a, from) != crc_register(b, from),
    ensures
        crc_register(a, to) != crc_register(b, to),
    decreases to - from,
{
    if from < to {
        lemma_registers_stay_different(a, b, from, (to - 1) as nat);
        assert(from <= 8 * ((to - 1) / 8) + 7);
        assert(a[(to - 1) / 8] == b[(to - 1) / 8]);
        lemma_shift_is_injective(
            crc_register(a, (to - 1) as nat),
            crc_register(b, (to - 1) as nat),
            message_bit(a, to - 1),
        );
    }
}

/// No change of a single byte goes unnoticed, wherever in the message it is.
pub proof fn law_crc32_notices_a_changed_byte(message: Seq<u8>, i: int, byte: u8)
    requires
        0 <= i < message.len(),
        message[i] != byte,
    ensures
        crc32_spec(message) != crc32_spec(message.update(i, byte)),
{
    let changed = message.update(i, byte);
    let n = 8 * message.len();
    lemma_register_ignores_later_bytes(message, changed, (8 * i) as nat);
    lemma_different_bytes_separate(message, changed, i, 8);
    let ra = crc_register(message, (8 * i + 8) as nat);
    let rb = crc_register(changed, (8 * i + 8) as nat);
    let x = message[i] as u32;
    let y = byte as u32;
    assert(ra != rb) by (bit_vector)
        requires
            ra ^ (x >> 8u32) != rb ^ (y >> 8u32),
            x < 256,
            y < 256,
    ;
    lemma_registers_stay_different(message, changed, (8 * i + 8) as nat, n);
    let ea = crc_register(message, n);
    let eb = crc_register(changed, n);
    assert(!ea != !eb) by (bit_vector)
        requires
            ea != eb,
    ;
}

} // verus!
