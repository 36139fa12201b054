//! The two checksums of the MID360 protocol.
//!
//! Command headers carry a CRC-16/CCITT-FALSE, payloads and data frames a
//! CRC-32 (the reflected one of Ethernet and zip).

use vstd::prelude::*;

verus! {

/// One bit of the CRC-32 register: shift right, and subtract the reflected
/// generator polynomial when a one falls out.
pub open spec fn crc32_shift(c: u32) -> u32 {
    if c & 1 == 1 {
        (c >> 1) ^ 0xEDB8_8320
    } else {
        c >> 1
    }
}

/// `n` bits of the CRC-32 register.
pub open spec fn crc32_shifts(c: u32, n: nat) -> u32
    decreases n,
{
    if n == 0 {
        c
    } else {
        crc32_shift(crc32_shifts(c, (n - 1) as nat))
    }
}

/// The CRC-32 register after the bytes of `s`, starting from `c`.
pub open spec fn crc32_run(c: u32, s: Seq<u8>) -> u32
    decreases s.len(),
{
    if s.len() == 0 {
        c
    } else {
        crc32_shifts(crc32_run(c, s.drop_last()) ^ (s.last() as u32), 8)
    }
}

/// The CRC-32 of `s`: register preset to ones, result inverted.
pub open spec fn crc32_of(s: Seq<u8>) -> u32 {
    crc32_run(0xFFFF_FFFF, s) ^ 0xFFFF_FFFF
}

/// One bit of the CRC-16 register: shift left, and subtract the generator
/// polynomial when a one falls out.
pub open spec fn crc16_shift(c: u16) -> u16 {
    if c & 0x8000 == 0x8000 {
        (c << 1) ^ 0x1021
    } else {
        c << 1
    }
}

/// `n` bits of the CRC-16 register.
pub open spec fn crc16_shifts(c: u16, n: nat) -> u16
    decreases n,
{
    if n == 0 {
        c
    } else {
        crc16_shift(crc16_shifts(c, (n - 1) as nat))
    }
}

/// The CRC-16 register after the bytes of `s`, starting from `c`.
pub open spec fn crc16_run(c: u16, s: Seq<u8>) -> u16
    decreases s.len(),
{
    if s.len() == 0 {
        c
    } else {
        crc16_shifts(crc16_run(c, s.drop_last()) ^ ((s.last() as u16) << 8), 8)
    }
}

/// The CRC-16/CCITT-FALSE of `s`: register preset to ones, result as it is.
pub open spec fn crc16_of(s: Seq<u8>) -> u16 {
    crc16_run(0xFFFF, s)
}

/// CRC-32 of `data`.
pub fn crc32(data: &[u8]) -> (crc: u32)
    ensures
        crc == crc32_of(data@),
{
    let n: usize = data.len();
    let mut c: u32 = 0xFFFF_FFFF;
    let mut i: usize = 0;
    while i < n
        invariant
            i <= n == data@.len(),
            c == crc32_run(0xFFFF_FFFF, data@.subrange(0, i as int)),
        decreases n - i,
    {
        c = c ^ (data[i] as u32);
        let ghost start = c;
        let mut bit: u32 = 0;
        while bit < 8
            invariant
                bit <= 8,
                c == crc32_shifts(start, bit as nat),
            decreases 8 - bit,
        {
            c = if c & 1 == 1 {
                (c >> 1) ^ 0xEDB8_8320
            } else {
                c >> 1
            };
            bit = bit + 1;
        }
        proof {
            let next = data@.subrange(0, i + 1);
            assert(next.drop_last() == data@.subrange(0, i as int));
        }
        i = i + 1;
    }
    assert(data@.subrange(0, n as int) == data@);
    c ^ 0xFFFF_FFFF
}

/// CRC-16/CCITT-FALSE of `data`.
pub fn crc16_ccitt_false(data: &[u8]) -> (crc: u16)
    ensures
        crc == crc16_of(data@),
{
    let n: usize = data.len();
    let mut c: u16 = 0xFFFF;
    let mut i: usize = 0;
    while i < n
        invariant
            i <= n == data@.len(),
            c == crc16_run(0xFFFF, data@.subrange(0, i as int)),
        decreases n - i,
    {
        c = c ^ ((data[i] as u16) << 8);
        let ghost start = c;
        let mut bit: u32 = 0;
        while bit < 8
            invariant
                bit <= 8,
                c == crc16_shifts(start, bit as nat),
            decreases 8 - bit,
        {
            c = if c & 0x8000 == 0x8000 {
                (c << 1) ^ 0x1021
            } else {
                c << 1
            };
            bit = bit + 1;
        }
        proof {
            let next = data@.subrange(0, i + 1);
            assert(next.drop_last() == data@.subrange(0, i as int));
        }
        i = i + 1;
    }
    assert(data@.subrange(0, n as int) == data@);
    c
}

proof fn lemma_crc32_shifts_injective(a: u32, b: u32, n: nat)
    requires
        a != b,
    ensures
        crc32_shifts(a, n) != crc32_shifts(b, n),
    decreases n,
{
    if n > 0 {
        lemma_crc32_shifts_injective(a, b, (n - 1) as nat);
        let x = crc32_shifts(a, (n - 1) as nat);
        let y = crc32_shifts(b, (n - 1) as nat);
        assert(x != y ==> (if x & 1 == 1 {
            (x >> 1) ^ 0xEDB8_8320u32
        } else {
            x >> 1
        }) != (if y & 1 == 1 {
            (y >> 1) ^ 0xEDB8_8320u32
        } else {
            y >> 1
        })) by (bit_vector);
    }
}

proof fn lemma_crc16_shifts_injective(a: u16, b: u16, n: nat)
    requires
        a != b,
    ensures
        crc16_shifts(a, n) != crc16_shifts(b, n),
    decreases n,
{
    if n > 0 {
        lemma_crc16_shifts_injective(a, b, (n - 1) as nat);
        let x = crc16_shifts(a, (n - 1) as nat);
        let y = crc16_shifts(b, (n - 1) as nat);
        assert(x != y ==> (if x & 0x8000 == 0x8000 {
            (x << 1) ^ 0x1021u16
        } else {
            x << 1
        }) != (if y & 0x8000 == 0x8000 {
            (y << 1) ^ 0x1021u16
        } else {
            y << 1
        })) by (bit_vector);
    }
}

proof fn lemma_crc32_run_differs(a: u32, b: u32, s: Seq<u8>)
    requires
        a != b,
    ensures
        crc32_run(a, s) != crc32_run(b, s),
    decreases s.len(),
{
    if s.len() > 0 {
        lemma_crc32_run_differs(a, b, s.drop_last());
        let x = crc32_run(a, s.drop_last());
        let y = crc32_run(b, s.drop_last());
        let w = s.last() as u32;
        assert(x != y ==> x ^ w != y ^ w) by (bit_vector);
        lemma_crc32_shifts_injective(x ^ w, y ^ w, 8);
    }
}

proof fn lemma_crc16_run_differs(a: u16, b: u16, s: Seq<u8>)
    requires
        a != b,
    ensures
        crc16_run(a, s) != crc16_run(b, s),
    decreases s.len(),
{
    if s.len() > 0 {
        lemma_crc16_run_differs(a, b, s.drop_last());
        let x = crc16_run(a, s.drop_last());
        let y = crc16_run(b, s.drop_last());
        let w = (s.last() as u16) << 8;
        assert(x != y ==> x ^ w != y ^ w) by (bit_vector);
        lemma_crc16_shifts_injective(x ^ w, y ^ w, 8);
    }
}

proof fn lemma_crc32_run_split(c: u32, s: Seq<u8>, k: int)
    requires
        0 <= k <= s.len(),
    ensures
        crc32_run(c, s) == crc32_run(crc32_run(c, s.subrange(0, k)), s.subrange(k, s.len() as int)),
    decreases s.len() - k,
{
    let tail = s.subrange(k, s.len() as int);
    if k == s.len() {
        assert(s.subrange(0, k) == s);
    } else {
        lemma_crc32_run_split(c, s.drop_last(), k);
        assert(s.drop_last().subrange(0, k) == s.subrange(0, k));
        assert(tail.drop_last() == s.drop_last().subrange(k, s.len() - 1));
        assert(tail.last() == s.last());
    }
}

proof fn lemma_crc16_run_split(c: u16, s: Seq<u8>, k: int)
    requires
        0 <= k <= s.len(),
    ensures
        crc16_run(c, s) == crc16_run(crc16_run(c, s.subrange(0, k)), s.subrange(k, s.len() as int)),
    decreases s.len() - k,
{
    let tail = s.subrange(k, s.len() as int);
    if k == s.len() {
        assert(s.subrange(0, k) == s);
    } else {
        lemma_crc16_run_split(c, s.drop_last(), k);
        assert(s.drop_last().subrange(0, k) == s.subrange(0, k));
        assert(tail.drop_last() == s.drop_last().subrange(k, s.len() - 1));
        assert(tail.last() == s.last());
    }
}

/// Changing one byte of a message always changes its CRC-32.
pub proof fn crc32_notices_one_byte(s: Seq<u8>, i: int, b: u8)
    requires
        0 <= i < s.len(),
        b != s[i],
    ensures
        crc32_of(s.update(i, b)) != crc32_of(s),
{
    let t = s.update(i, b);
    let ones = 0xFFFF_FFFFu32;
    lemma_crc32_run_split(ones, s, i + 1);
    lemma_crc32_run_split(ones, t, i + 1);
    let p = s.subrange(0, i + 1);
    let q = t.subrange(0, i + 1);
    assert(p.drop_last() == q.drop_last());
    assert(s.subrange(i + 1, s.len() as int) == t.subrange(i + 1, t.len() as int));
    let c = crc32_run(ones, p.drop_last());
    let x = p.last();
    let y = q.last();
    assert(x != y ==> c ^ (x as u32) != c ^ (y as u32)) by (bit_vector);
    lemma_crc32_shifts_injective(c ^ (x as u32), c ^ (y as u32), 8);
    lemma_crc32_run_differs(
        crc32_run(ones, p),
        crc32_run(ones, q),
        s.subrange(i + 1, s.len() as int),
    );
    let u = crc32_run(ones, s);
    let v = crc32_run(ones, t);
    assert(u != v ==> u ^ 0xFFFF_FFFF != v ^ 0xFFFF_FFFF) by (bit_vector);
}

/// Changing one byte of a message always changes its CRC-16.
pub proof fn crc16_notices_one_byte(s: Seq<u8>, i: int, b: u8)
    requires
        0 <= i < s.len(),
        b != s[i],
    ensures
        crc16_of(s.update(i, b)) != crc16_of(s),
{
    let t = s.update(i, b);
    let ones = 0xFFFFu16;
    lemma_crc16_run_split(ones, s, i + 1);
    lemma_crc16_run_split(ones, t, i + 1);
    let p = s.subrange(0, i + 1);
    let q = t.subrange(0, i + 1);
    assert(p.drop_last() == q.drop_last());
    assert(s.subrange(i + 1, s.len() as int) == t.subrange(i + 1, t.len() as int));
    let c = crc16_run(ones, p.drop_last());
    let x = p.last();
    let y = q.last();
    assert(x != y ==> c ^ ((x as u16) << 8) != c ^ ((y as u16) << 8)) by (bit_vector);
    lemma_crc16_shifts_injective(c ^ ((x as u16) << 8), c ^ ((y as u16) << 8), 8);
    lemma_crc16_run_differs(
        crc16_run(ones, p),
        crc16_run(ones, q),
        s.subrange(i + 1, s.len() as int),
    );
}

} // verus!
