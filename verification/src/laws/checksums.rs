//! What the two checksums have in common with every cyclic code.

use vstd::prelude::*;

use crate::crc;
use crate::wire;

verus! {

/// The checksums of nothing.
pub proof fn nothing_has_a_checksum()
    ensures
        crc::crc32_of(Seq::empty()) == 0,
        crc::crc16_of(Seq::empty()) == 0xFFFF,
{
    assert(0xFFFF_FFFFu32 ^ 0xFFFF_FFFFu32 == 0) by (bit_vector);
}

/// A message with its CRC-16 behind it, high byte first, has the CRC-16 zero.
pub proof fn crc16_behind_a_message_cancels(s: Seq<u8>)
    ensures
        crc::crc16_of(
            s.push((crc::crc16_of(s) / 256) as u8).push((crc::crc16_of(s) % 256) as u8),
        ) == 0,
{
    let r = crc::crc16_of(s);
    let high = (r / 256) as u8;
    let low = (r % 256) as u8;
    let t = s.push(high);
    let u = t.push(low);
    assert(t.drop_last() == s);
    assert(u.drop_last() == t);
    let l = low as u16;
    let h = high as u16;
    assert(r ^ (h << 8) == l) by (bit_vector)
        requires
            h == r / 256,
            l == r % 256,
    ;
    lemma_crc16_low(l, 8);
    let q = crc::crc16_run(0xFFFF, t);
    assert(q == crc::crc16_shifts(l, 8));
    assert(q == l << 8);
    assert(q ^ (l << 8) == 0) by (bit_vector)
        requires
            q == l << 8,
    ;
    lemma_crc16_low(0, 8);
    assert(0u16 << 8 == 0) by (bit_vector);
    assert(crc::crc16_run(0xFFFF, u) == crc::crc16_shifts(q ^ (l << 8), 8));
}

proof fn lemma_crc16_low(l: u16, n: nat)
    requires
        l < 256,
        n <= 8,
    ensures
        crc::crc16_shifts(l, n) == l << (n as u16),
    decreases n,
{
    if n > 0 {
        lemma_crc16_low(l, (n - 1) as nat);
        let m = (n - 1) as u16;
        assert((l << m) & 0x8000 != 0x8000 && (l << m) << 1 == l << ((m + 1) as u16)) by (bit_vector)
            requires
                l < 256,
                m < 8,
        ;
    } else {
        assert(l << 0 == l) by (bit_vector);
    }
}

/// What feeding one byte does to a register of which only the low byte is set.
pub open spec fn fed(low: u32) -> u32 {
    crc::crc32_shifts(low, 8)
}

/// The register after a message and its CRC-32, whatever the message is.
pub open spec fn residue() -> u32 {
    let k0 = fed(0xFF);
    let k1 = fed((k0 ^ 0xFF) & 0xFF) ^ (k0 >> 8);
    let k2 = fed((k1 ^ 0xFF) & 0xFF) ^ (k1 >> 8);
    fed((k2 ^ 0xFF) & 0xFF) ^ (k2 >> 8)
}

/// All messages with their CRC-32 behind them, low byte first, have the same
/// CRC-32.
pub proof fn crc32_behind_a_message_cancels(s: Seq<u8>, t: Seq<u8>)
    ensures
        crc::crc32_of(s + wire::u32_bytes(crc::crc32_of(s))) == crc::crc32_of(
            t + wire::u32_bytes(crc::crc32_of(t)),
        ),
{
    lemma_residue(s);
    lemma_residue(t);
}

proof fn lemma_residue(s: Seq<u8>)
    ensures
        crc::crc32_run(0xFFFF_FFFF, s + wire::u32_bytes(crc::crc32_of(s))) == residue(),
{
    let ones = 0xFFFF_FFFFu32;
    let r0 = crc::crc32_run(ones, s);
    let c = crc::crc32_of(s);
    let b = wire::u32_bytes(c);
    let s1 = s.push(b[0]);
    let s2 = s1.push(b[1]);
    let s3 = s2.push(b[2]);
    let s4 = s3.push(b[3]);
    assert(s4 == s + b);
    assert(s1.drop_last() == s && s2.drop_last() == s1 && s3.drop_last() == s2 && s4.drop_last()
        == s3);
    let b0 = b[0] as u32;
    let b1 = b[1] as u32;
    let b2 = b[2] as u32;
    let b3 = b[3] as u32;
    lemma_bytes_are_shifts(c);
    let k0 = fed(0xFF);
    let k1 = fed((k0 ^ 0xFF) & 0xFF) ^ (k0 >> 8);
    let k2 = fed((k1 ^ 0xFF) & 0xFF) ^ (k1 >> 8);
    let k3 = fed((k2 ^ 0xFF) & 0xFF) ^ (k2 >> 8);
    let r1 = crc::crc32_run(ones, s1);
    let r2 = crc::crc32_run(ones, s2);
    let r3 = crc::crc32_run(ones, s3);
    let r4 = crc::crc32_run(ones, s4);
    lemma_fed(r0 ^ b0);
    assert((r0 ^ b0) & 0xFF == 0xFF && (r0 ^ b0) >> 8 == r0 >> 8) by (bit_vector)
        requires
            c == r0 ^ 0xFFFF_FFFFu32,
            b0 == c & 0xFF,
    ;
    assert(r1 == k0 ^ (r0 >> 8));
    lemma_fed(r1 ^ b1);
    assert((r1 ^ b1) & 0xFF == (k0 ^ 0xFF) & 0xFF && (r1 ^ b1) >> 8 == (k0 >> 8) ^ (r0 >> 16))
        by (bit_vector)
        requires
            c == r0 ^ 0xFFFF_FFFFu32,
            b1 == (c >> 8) & 0xFF,
            r1 == k0 ^ (r0 >> 8),
    ;
    let f1 = fed((k0 ^ 0xFF) & 0xFF);
    assert(f1 ^ ((k0 >> 8) ^ (r0 >> 16)) == (f1 ^ (k0 >> 8)) ^ (r0 >> 16)) by (bit_vector);
    assert(r2 == k1 ^ (r0 >> 16));
    lemma_fed(r2 ^ b2);
    assert((r2 ^ b2) & 0xFF == (k1 ^ 0xFF) & 0xFF && (r2 ^ b2) >> 8 == (k1 >> 8) ^ (r0 >> 24))
        by (bit_vector)
        requires
            c == r0 ^ 0xFFFF_FFFFu32,
            b2 == (c >> 16) & 0xFF,
            r2 == k1 ^ (r0 >> 16),
    ;
    let f2 = fed((k1 ^ 0xFF) & 0xFF);
    assert(f2 ^ ((k1 >> 8) ^ (r0 >> 24)) == (f2 ^ (k1 >> 8)) ^ (r0 >> 24)) by (bit_vector);
    assert(r3 == k2 ^ (r0 >> 24));
    lemma_fed(r3 ^ b3);
    assert((r3 ^ b3) & 0xFF == (k2 ^ 0xFF) & 0xFF && (r3 ^ b3) >> 8 == k2 >> 8) by (bit_vector)
        requires
            c == r0 ^ 0xFFFF_FFFFu32,
            b3 == (c >> 24) & 0xFF,
            r3 == k2 ^ (r0 >> 24),
    ;
    assert(r4 == k3);
}

proof fn lemma_bytes_are_shifts(c: u32)
    ensures
        wire::u32_bytes(c).len() == 4,
        wire::u32_bytes(c)[0] as u32 == c & 0xFF,
        wire::u32_bytes(c)[1] as u32 == (c >> 8) & 0xFF,
        wire::u32_bytes(c)[2] as u32 == (c >> 16) & 0xFF,
        wire::u32_bytes(c)[3] as u32 == (c >> 24) & 0xFF,
{
    assert(c & 0xFF == c % 256 && (c >> 8) & 0xFF == (c / 256) % 256 && (c >> 16) & 0xFF == (c
        / 65536) % 256 && (c >> 24) & 0xFF == (c / 0x100_0000) % 256) by (bit_vector);
}

proof fn lemma_fed(x: u32)
    ensures
        crc::crc32_shifts(x, 8) == fed(x & 0xFF) ^ (x >> 8),
{
    let h = x >> 8;
    assert((x & 0xFF) ^ ((x >> 8) << 8) == x) by (bit_vector);
    lemma_crc32_sum(x & 0xFF, h << 8, 8);
    lemma_crc32_high(h, 8);
    assert(((x >> 8) << 8) >> 8 == x >> 8) by (bit_vector);
}

proof fn lemma_crc32_sum(x: u32, y: u32, n: nat)
    ensures
        crc::crc32_shifts(x ^ y, n) == crc::crc32_shifts(x, n) ^ crc::crc32_shifts(y, n),
    decreases n,
{
    if n > 0 {
        lemma_crc32_sum(x, y, (n - 1) as nat);
        let a = crc::crc32_shifts(x, (n - 1) as nat);
        let b = crc::crc32_shifts(y, (n - 1) as nat);
        assert((if (a ^ b) & 1 == 1 {
            ((a ^ b) >> 1) ^ 0xEDB8_8320u32
        } else {
            (a ^ b) >> 1
        }) == (if a & 1 == 1 {
            (a >> 1) ^ 0xEDB8_8320u32
        } else {
            a >> 1
        }) ^ (if b & 1 == 1 {
            (b >> 1) ^ 0xEDB8_8320u32
        } else {
            b >> 1
        })) by (bit_vector);
    }
}

proof fn lemma_crc32_high(h: u32, n: nat)
    requires
        n <= 8,
    ensures
        crc::crc32_shifts(h << 8, n) == (h << 8) >> (n as u32),
    decreases n,
{
    if n > 0 {
        lemma_crc32_high(h, (n - 1) as nat);
        let m = (n - 1) as u32;
        assert(((h << 8) >> m) & 1 != 1 && ((h << 8) >> m) >> 1 == (h << 8) >> ((m + 1) as u32))
            by (bit_vector)
            requires
                m < 8,
        ;
    } else {
        assert((h << 8) >> 0 == h << 8) by (bit_vector);
    }
}

} // verus!
