//! Little-endian integers inside byte sequences.
//!
//! Every multi-byte field of the MID360 protocol is little-endian. The `*_at`
//! functions read a field, the `*_bytes` functions are the bytes of a value,
//! and [`splice`] is what overwriting a field does to a buffer.

use vstd::prelude::*;

verus! {

/// The 16-bit field that starts at `at`.
pub open spec fn u16_at(s: Seq<u8>, at: int) -> u16 {
    (s[at] + 0x100 * s[at + 1]) as u16
}

/// The 32-bit field that starts at `at`.
pub open spec fn u32_at(s: Seq<u8>, at: int) -> u32 {
    (s[at] + 0x100 * s[at + 1] + 0x1_0000 * s[at + 2] + 0x100_0000 * s[at + 3]) as u32
}

/// The 64-bit field that starts at `at`.
pub open spec fn u64_at(s: Seq<u8>, at: int) -> u64 {
    (u32_at(s, at) + 0x1_0000_0000 * u32_at(s, at + 4)) as u64
}

/// The signed 16-bit number with the bits of `x`.
pub open spec fn signed16(x: u16) -> i16 {
    if x < 0x8000 {
        x as i16
    } else {
        (x - 0x1_0000) as i16
    }
}

/// The bits of a signed 16-bit number.
pub open spec fn unsigned16(x: i16) -> u16 {
    if x >= 0 {
        x as u16
    } else {
        (x + 0x1_0000) as u16
    }
}

/// The signed 32-bit number with the bits of `x`.
pub open spec fn signed32(x: u32) -> i32 {
    if x < 0x8000_0000 {
        x as i32
    } else {
        (x - 0x1_0000_0000) as i32
    }
}

/// The bits of a signed 32-bit number.
pub open spec fn unsigned32(x: i32) -> u32 {
    if x >= 0 {
        x as u32
    } else {
        (x + 0x1_0000_0000) as u32
    }
}

/// The two bytes of a 16-bit number.
pub open spec fn u16_bytes(x: u16) -> Seq<u8> {
    seq![(x % 0x100) as u8, (x / 0x100) as u8]
}

/// The four bytes of a 32-bit number.
pub open spec fn u32_bytes(x: u32) -> Seq<u8> {
    seq![
        (x % 0x100) as u8,
        (x / 0x100 % 0x100) as u8,
        (x / 0x1_0000 % 0x100) as u8,
        (x / 0x100_0000) as u8,
    ]
}

/// The eight bytes of a 64-bit number.
pub open spec fn u64_bytes(x: u64) -> Seq<u8> {
    u32_bytes((x % 0x1_0000_0000) as u32) + u32_bytes((x / 0x1_0000_0000) as u32)
}

/// The low 16 bits of a natural number.
pub open spec fn low16(n: nat) -> u16 {
    (n % 0x1_0000) as u16
}

/// `s` with the bytes from `at` on overwritten by `b`.
pub open spec fn splice(s: Seq<u8>, at: int, b: Seq<u8>) -> Seq<u8> {
    s.subrange(0, at) + b + s.subrange(at + b.len(), s.len() as int)
}

/// Writing a 16-bit field and reading it back gives the number written, and
/// the bytes of a field that was read are the bytes that stand there.
pub proof fn u16_round_trip(s: Seq<u8>, at: int, x: u16)
    requires
        0 <= at,
        at + 2 <= s.len(),
    ensures
        u16_at(splice(s, at, u16_bytes(x)), at) == x,
        u16_bytes(u16_at(s, at)) == s.subrange(at, at + 2),
{
}

proof fn lemma_u32_digits(x: int)
    requires
        0 <= x < 0x1_0000_0000,
    ensures
        x == x % 0x100 + 0x100 * (x / 0x100 % 0x100) + 0x1_0000 * (x / 0x1_0000 % 0x100)
            + 0x100_0000 * (x / 0x100_0000),
        0 <= x / 0x100_0000 < 0x100,
{
    let q1 = x / 0x100;
    let q2 = q1 / 0x100;
    let q3 = q2 / 0x100;
    assert(x / 0x1_0000 == q2);
    assert(x / 0x100_0000 == q3);
}

proof fn lemma_u32_join(a: int, b: int, c: int, d: int)
    requires
        0 <= a < 0x100,
        0 <= b < 0x100,
        0 <= c < 0x100,
        0 <= d < 0x100,
    ensures
        ({
            let x = a + 0x100 * b + 0x1_0000 * c + 0x100_0000 * d;
            &&& 0 <= x < 0x1_0000_0000
            &&& x % 0x100 == a
            &&& x / 0x100 % 0x100 == b
            &&& x / 0x1_0000 % 0x100 == c
            &&& x / 0x100_0000 == d
        }),
{
    let x = a + 0x100 * b + 0x1_0000 * c + 0x100_0000 * d;
    assert(x / 0x100 == b + 0x100 * c + 0x1_0000 * d);
    assert(x / 0x1_0000 == c + 0x100 * d);
    assert(x / 0x100_0000 == d);
}

/// Writing a 32-bit field and reading it back gives the number written, and
/// the bytes of a field that was read are the bytes that stand there.
pub proof fn u32_round_trip(s: Seq<u8>, at: int, x: u32)
    requires
        0 <= at,
        at + 4 <= s.len(),
    ensures
        u32_at(splice(s, at, u32_bytes(x)), at) == x,
        u32_bytes(u32_at(s, at)) == s.subrange(at, at + 4),
{
    lemma_u32_digits(x as int);
    lemma_u32_join(s[at] as int, s[at + 1] as int, s[at + 2] as int, s[at + 3] as int);
}

/// A 16-bit field whose bytes are those of `v` reads as `v`.
pub proof fn lemma_u16_stands(s: Seq<u8>, at: int, v: u16)
    requires
        0 <= at,
        at + 2 <= s.len(),
        s[at] == u16_bytes(v)[0],
        s[at + 1] == u16_bytes(v)[1],
    ensures
        u16_at(s, at) == v,
{
    u16_round_trip(s, at, v);
    assert(splice(s, at, u16_bytes(v)) == s);
}

/// A 32-bit field whose bytes are those of `v` reads as `v`.
pub proof fn lemma_u32_stands(s: Seq<u8>, at: int, v: u32)
    requires
        0 <= at,
        at + 4 <= s.len(),
        s[at] == u32_bytes(v)[0],
        s[at + 1] == u32_bytes(v)[1],
        s[at + 2] == u32_bytes(v)[2],
        s[at + 3] == u32_bytes(v)[3],
    ensures
        u32_at(s, at) == v,
{
    u32_round_trip(s, at, v);
    assert(splice(s, at, u32_bytes(v)) == s);
}

proof fn lemma_u64_parts(s: Seq<u8>, at: int)
    requires
        0 <= at,
        at + 8 <= s.len(),
    ensures
        u64_at(s, at) % 0x1_0000_0000 == u32_at(s, at),
        u64_at(s, at) / 0x1_0000_0000 == u32_at(s, at + 4),
{
}

/// Writing a 64-bit field and reading it back gives the number written, and
/// the bytes of a field that was read are the bytes that stand there.
pub proof fn u64_round_trip(s: Seq<u8>, at: int, x: u64)
    requires
        0 <= at,
        at + 8 <= s.len(),
    ensures
        u64_at(splice(s, at, u64_bytes(x)), at) == x,
        u64_bytes(u64_at(s, at)) == s.subrange(at, at + 8),
{
    assert(u64_at(splice(s, at, u64_bytes(x)), at) == x) by {
        let lo: u32 = (x % 0x1_0000_0000) as u32;
        let hi: u32 = (x / 0x1_0000_0000) as u32;
        let t = splice(s, at, u64_bytes(x));
        assert(t == splice(splice(s, at, u32_bytes(lo)), at + 4, u32_bytes(hi)));
        assert(t == splice(splice(s, at + 4, u32_bytes(hi)), at, u32_bytes(lo)));
        u32_round_trip(splice(s, at, u32_bytes(lo)), at + 4, hi);
        u32_round_trip(splice(s, at + 4, u32_bytes(hi)), at, lo);
    }
    assert(u64_bytes(u64_at(s, at)) == s.subrange(at, at + 8)) by {
        lemma_u64_parts(s, at);
        u32_round_trip(s, at, 0);
        u32_round_trip(s, at + 4, 0);
        assert(s.subrange(at, at + 8) == s.subrange(at, at + 4) + s.subrange(at + 4, at + 8));
    }
}

/// A 64-bit field whose bytes are those of `v` reads as `v`.
pub proof fn lemma_u64_stands(s: Seq<u8>, at: int, v: u64)
    requires
        0 <= at,
        at + 8 <= s.len(),
        s.subrange(at, at + 8) == u64_bytes(v),
    ensures
        u64_at(s, at) == v,
{
    u64_round_trip(s, at, v);
    assert(splice(s, at, u64_bytes(v)) == s) by {
        assert forall|i: int| at <= i < at + 8 implies s[i] == u64_bytes(v)[i - at] by {
            assert(s.subrange(at, at + 8)[i - at] == s[i]);
        }
    }
}

/// Reinterpreting the bits of a number as signed and back changes nothing.
pub proof fn sign_round_trip(a: i16, b: i32)
    ensures
        signed16(unsigned16(a)) == a,
        signed32(unsigned32(b)) == b,
{
}

/// Reads the 16-bit field at `at`.
pub fn get_u16(buf: &[u8], at: usize) -> (v: u16)
    requires
        at + 2 <= buf.len(),
    ensures
        v == u16_at(buf@, at as int),
{
    (buf[at] as u16) + 0x100 * (buf[at + 1] as u16)
}

/// Reads the 32-bit field at `at`.
pub fn get_u32(buf: &[u8], at: usize) -> (v: u32)
    requires
        at + 4 <= buf.len(),
    ensures
        v == u32_at(buf@, at as int),
{
    (buf[at] as u32) + 0x100 * (buf[at + 1] as u32) + 0x1_0000 * (buf[at + 2] as u32) + 0x100_0000
        * (buf[at + 3] as u32)
}

/// Reads the 64-bit field at `at`.
pub fn get_u64(buf: &[u8], at: usize) -> (v: u64)
    requires
        at + 8 <= buf.len(),
    ensures
        v == u64_at(buf@, at as int),
{
    let lo: u32 = get_u32(buf, at);
    let hi: u32 = get_u32(buf, at + 4);
    (lo as u64) + 0x1_0000_0000 * (hi as u64)
}

/// Reinterprets the bits of `x` as a signed number.
pub fn to_signed16(x: u16) -> (v: i16)
    ensures
        v == signed16(x),
{
    if x < 0x8000 {
        x as i16
    } else {
        ((x as i32) - 0x1_0000) as i16
    }
}

/// The bits of a signed 16-bit number.
pub fn to_unsigned16(x: i16) -> (v: u16)
    ensures
        v == unsigned16(x),
{
    if x >= 0 {
        x as u16
    } else {
        ((x as i32) + 0x1_0000) as u16
    }
}

/// Reinterprets the bits of `x` as a signed number.
pub fn to_signed32(x: u32) -> (v: i32)
    ensures
        v == signed32(x),
{
    if x < 0x8000_0000 {
        x as i32
    } else {
        ((x as i64) - 0x1_0000_0000) as i32
    }
}

/// The bits of a signed 32-bit number.
pub fn to_unsigned32(x: i32) -> (v: u32)
    ensures
        v == unsigned32(x),
{
    if x >= 0 {
        x as u32
    } else {
        ((x as i64) + 0x1_0000_0000) as u32
    }
}

/// Keeps the low 16 bits of a length.
pub fn truncate16(n: usize) -> (v: u16)
    ensures
        v == low16(n as nat),
{
    (n % 0x1_0000) as u16
}

/// Overwriting some bytes and then the bytes behind them overwrites both.
pub proof fn lemma_splice_append(s: Seq<u8>, at: int, a: Seq<u8>, b: Seq<u8>)
    requires
        0 <= at,
        at + a.len() + b.len() <= s.len(),
    ensures
        splice(splice(s, at, a), at + a.len(), b) == splice(s, at, a + b),
        splice(s, at, a).len() == s.len(),
{
}

/// Overwrites the byte at `at`.
pub fn put_u8(buf: &mut [u8], at: usize, v: u8)
    requires
        at < old(buf).len(),
    ensures
        final(buf)@ == splice(old(buf)@, at as int, seq![v]),
{
    buf[at] = v;
}

/// Overwrites the 16-bit field at `at`.
pub fn put_u16(buf: &mut [u8], at: usize, v: u16)
    requires
        at + 2 <= old(buf).len(),
    ensures
        final(buf)@ == splice(old(buf)@, at as int, u16_bytes(v)),
{
    buf[at] = (v % 0x100) as u8;
    buf[at + 1] = (v / 0x100) as u8;
}

/// Overwrites the 32-bit field at `at`.
pub fn put_u32(buf: &mut [u8], at: usize, v: u32)
    requires
        at + 4 <= old(buf).len(),
    ensures
        final(buf)@ == splice(old(buf)@, at as int, u32_bytes(v)),
{
    buf[at] = (v % 0x100) as u8;
    buf[at + 1] = (v / 0x100 % 0x100) as u8;
    buf[at + 2] = (v / 0x1_0000 % 0x100) as u8;
    buf[at + 3] = (v / 0x100_0000) as u8;
}

/// Overwrites the 64-bit field at `at`.
pub fn put_u64(buf: &mut [u8], at: usize, v: u64)
    requires
        at + 8 <= old(buf).len(),
    ensures
        final(buf)@ == splice(old(buf)@, at as int, u64_bytes(v)),
{
    put_u32(buf, at, (v % 0x1_0000_0000) as u32);
    put_u32(buf, at + 4, (v / 0x1_0000_0000) as u32);
}

/// Overwrites the bytes from `at` on.
pub fn put_slice(buf: &mut [u8], at: usize, data: &[u8])
    requires
        at + data@.len() <= old(buf).len(),
    ensures
        final(buf)@ == splice(old(buf)@, at as int, data@),
{
    let n: usize = data.len();
    let mut i: usize = 0;
    while i < n
        invariant
            i <= n == data@.len(),
            at + n <= buf.len(),
            buf@.len() == old(buf)@.len(),
            buf@ == splice(old(buf)@, at as int, data@.subrange(0, i as int)),
        decreases n - i,
    {
        buf[at + i] = data[i];
        i = i + 1;
    }
    assert(data@.subrange(0, n as int) == data@);
}

/// Overwrites `n` bytes from `at` on with zeros.
pub fn put_zeros(buf: &mut [u8], at: usize, n: usize)
    requires
        at + n <= old(buf).len(),
    ensures
        final(buf)@ == splice(old(buf)@, at as int, Seq::new(n as nat, |i: int| 0u8)),
{
    let mut i: usize = 0;
    while i < n
        invariant
            i <= n,
            at + n <= buf.len(),
            buf@.len() == old(buf)@.len(),
            buf@ == splice(old(buf)@, at as int, Seq::new(i as nat, |k: int| 0u8)),
        decreases n - i,
    {
        buf[at + i] = 0;
        i = i + 1;
    }
}

/// Appends the bytes of a 16-bit number.
pub fn push_u16(out: &mut Vec<u8>, v: u16)
    ensures
        final(out)@ == old(out)@ + u16_bytes(v),
{
    out.push((v % 0x100) as u8);
    out.push((v / 0x100) as u8);
}

/// Appends a byte slice.
pub fn push_slice(out: &mut Vec<u8>, data: &[u8])
    ensures
        final(out)@ == old(out)@ + data@,
{
    let n: usize = data.len();
    let mut i: usize = 0;
    while i < n
        invariant
            i <= n == data@.len(),
            out@ == old(out)@ + data@.subrange(0, i as int),
        decreases n - i,
    {
        out.push(data[i]);
        i = i + 1;
    }
    assert(data@.subrange(0, n as int) == data@);
}

} // verus!
