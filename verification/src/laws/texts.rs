//! Numbers and fields as text, and the rows of a recording.

use vstd::prelude::*;

use crate::error::Failure;
use crate::packet::DataFrameHeader;
use crate::points::Tag;
use crate::recorder::{self, Content, Table};
use crate::text;

verus! {

/// The confidences of a tag are its three lowest pairs of bits.
pub proof fn confidences_are_pairs_of_bits(tag: Tag)
    ensures
        0 <= tag.detection() < 4,
        0 <= tag.particle() < 4,
        0 <= tag.adhesion() < 4,
        tag.0 % 64 == 16 * tag.detection() + 4 * tag.particle() + tag.adhesion(),
        tag.high() <==> tag.0 % 64 == 0,
{
    let t = tag.0 as int;
    let a = t / 4;
    let b = t / 16;
    let c = t / 64;
    assert(t == 4 * a + t % 4 && 0 <= t % 4 < 4);
    assert(a / 4 == b);
    assert(a == 4 * b + a % 4 && 0 <= a % 4 < 4);
    assert(b / 4 == c);
    assert(b == 4 * c + b % 4 && 0 <= b % 4 < 4);
    assert(t % 64 == t - 64 * c);
}

/// Digits follow each other in the character set, and so do the letters that
/// stand for digits above nine.
pub proof fn digits_follow_each_other(d: int)
    ensures
        0 <= d < 10 ==> text::digit_char(d) as u32 == '0' as u32 + d,
        10 <= d < 16 ==> text::digit_char(d) as u32 == 'A' as u32 + (d - 10),
        0 <= d < 10 ==> text::digit_value(text::digit_char(d)) == d,
{
}

/// A digit at the end makes a number ten times as large and adds its value.
pub proof fn digits_count_by_ten(s: Seq<char>, c: char)
    requires
        '0' <= c <= '9',
    ensures
        text::digits_value(Seq::empty()) == 0,
        text::digits_value(s.push(c)) == 10 * text::digits_value(s) + (c as u32 - '0' as u32),
        text::all_digits(s.push(c)) <==> text::all_digits(s),
{
    assert(s.push(c).drop_last() == s);
    if text::all_digits(s.push(c)) {
        assert forall|i: int| 0 <= i < s.len() implies '0' <= #[trigger] s[i] <= '9' by {
            assert(s.push(c)[i] == s[i]);
        }
    }
}

/// A number is written in digits that stand for it, without leading zeros.
pub proof fn decimals_stand_for_their_number(n: nat)
    ensures
        text::decimal(n).len() > 0,
        text::all_digits(text::decimal(n)),
        text::digits_value(text::decimal(n)) == n,
        text::decimal(n)[0] == '0' <==> n == 0,
        text::plain_field(text::decimal(n)),
    decreases n,
{
    text::decimal_round_trip(n);
    if n >= 10 {
        decimals_stand_for_their_number(n / 10);
        assert(text::decimal(n)[0] == text::decimal(n / 10)[0]);
    }
}

/// A written number is read where it does not pass the limit, with or without a
/// plus sign or leading zeros, and refused where it does.
pub proof fn numbers_are_read_up_to_the_limit(n: nat, max: nat)
    ensures
        text::number_of(text::decimal(n), max) == (if n <= max {
            Some(n)
        } else {
            None
        }),
        text::number_of(seq!['+'] + text::decimal(n), max) == text::number_of(
            text::decimal(n),
            max,
        ),
        text::number_of(seq!['0'] + text::decimal(n), max) == text::number_of(
            text::decimal(n),
            max,
        ),
        text::number_of(seq!['-'] + text::decimal(n), max) is None,
{
    let d = text::decimal(n);
    text::decimal_round_trip(n);
    assert((seq!['+'] + d).drop_first() == d);
    assert('0' <= d[0] <= '9');
    let z = seq!['0'] + d;
    lemma_leading_zero(d);
    assert forall|i: int| 0 <= i < z.len() implies '0' <= #[trigger] z[i] <= '9' by {
        if i > 0 {
            assert(z[i] == d[i - 1]);
        }
    }
    let m = seq!['-'] + d;
    assert(m[0] == '-');
    assert(!('0' <= m[0] <= '9'));
}

proof fn lemma_leading_zero(d: Seq<char>)
    ensures
        text::digits_value(seq!['0'] + d) == text::digits_value(d),
    decreases d.len(),
{
    let z = seq!['0'] + d;
    if d.len() == 0 {
        assert(z.drop_last() == Seq::<char>::empty());
        assert(text::digits_value(z.drop_last()) == 0);
    } else {
        lemma_leading_zero(d.drop_last());
        assert(z.drop_last() == seq!['0'] + d.drop_last());
    }
}

/// A text is a number only where everything behind a plus sign is a digit and
/// there is at least one, and then it is the number that the digits stand for.
pub proof fn numbers_are_made_of_digits(s: Seq<char>, max: nat, i: int)
    ensures
        text::number_of(s, max) matches Some(n) ==> n <= max && s.len() > 0,
        text::number_of(s, max) is Some && 0 < i < s.len() ==> '0' <= s[i] <= '9',
        text::number_of(s, max) is Some && s[0] != '+' ==> '0' <= s[0] <= '9'
            && text::number_of(s, max) == Some(text::digits_value(s)),
        text::number_of(s, max) is Some && s[0] == '+' ==> s.len() > 1,
{
    if text::number_of(s, max) is Some && s[0] == '+' && 0 < i < s.len() {
        assert(s.drop_first()[i - 1] == s[i]);
    }
}

/// A power of sixteen.
pub open spec fn pow16(k: nat) -> nat
    decreases k,
{
    if k == 0 {
        1
    } else {
        16 * pow16((k - 1) as nat)
    }
}

/// What the digits of a hexadecimal number stand for, given their values.
pub open spec fn hex_value(digits: Seq<int>) -> int
    decreases digits.len(),
{
    if digits.len() == 0 {
        0
    } else {
        16 * hex_value(digits.drop_last()) + digits.last()
    }
}

proof fn lemma_pow16_positive(k: nat)
    ensures
        pow16(k) > 0,
    decreases k,
{
    if k > 0 {
        lemma_pow16_positive((k - 1) as nat);
    }
}

proof fn lemma_one_digit_more(n: nat, m: nat)
    requires
        m > 0,
    ensures
        n % (16 * m) == 16 * ((n / 16) % m) + n % 16,
{
    let q = (n / 16) / m;
    let r = (n / 16) % m;
    vstd::arithmetic::div_mod::lemma_fundamental_div_mod((n / 16) as int, m as int);
    assert(n == 16 * (m * q + r) + n % 16);
    assert(16 * (m * q) == q * (16 * m)) by (nonlinear_arith);
    assert(16 * r + n % 16 < 16 * m);
    vstd::arithmetic::div_mod::lemma_fundamental_div_mod_converse(
        n as int,
        (16 * m) as int,
        q as int,
        (16 * r + n % 16) as int,
    );
}

/// A hexadecimal number has as many digits as asked for, and they stand for it
/// up to what does not fit.
pub proof fn hex_stands_for_its_number(n: nat, width: nat) -> (digits: Seq<int>)
    ensures
        text::hex(n, width).len() == width,
        digits.len() == width,
        forall|i: int|
            0 <= i < width ==> 0 <= #[trigger] digits[i] < 16 && text::hex(n, width)[i]
                == text::digit_char(digits[i]),
        hex_value(digits) == n % pow16(width),
        n < pow16(width) ==> hex_value(digits) == n,
    decreases width,
{
    lemma_pow16_positive(width);
    if n < pow16(width) {
        vstd::arithmetic::div_mod::lemma_small_mod(n, pow16(width));
    }
    if width == 0 {
        assert(n % 1 == 0);
        Seq::empty()
    } else {
        lemma_pow16_positive((width - 1) as nat);
        lemma_one_digit_more(n, pow16((width - 1) as nat));
        let front = hex_stands_for_its_number(n / 16, (width - 1) as nat);
        let digits = front.push((n % 16) as int);
        assert(digits.drop_last() == front);
        assert forall|i: int| 0 <= i < width implies 0 <= #[trigger] digits[i] < 16 && text::hex(
            n,
            width,
        )[i] == text::digit_char(digits[i]) by {
            if i < width - 1 {
                assert(digits[i] == front[i]);
            }
        }
        digits
    }
}

/// A filled number still stands for it, is as wide as asked for where it was
/// shorter, and is not cut where it was longer.
pub proof fn filling_keeps_the_number(n: nat, width: nat)
    ensures
        text::digits_value(text::padded_decimal(n, width)) == n,
        text::all_digits(text::padded_decimal(n, width)),
        text::decimal(n).len() <= width ==> text::padded_decimal(n, width).len() == width,
        text::decimal(n).len() >= width ==> text::padded_decimal(n, width) == text::decimal(n),
{
    text::decimal_round_trip(n);
    let d = text::decimal(n);
    if d.len() < width {
        let k = (width - d.len()) as nat;
        lemma_leading_zeros(k, d);
        let p = text::padded_decimal(n, width);
        assert forall|i: int| 0 <= i < p.len() implies '0' <= #[trigger] p[i] <= '9' by {
            if i >= k {
                assert(p[i] == d[i - k]);
            }
        }
    }
}

proof fn lemma_leading_zeros(k: nat, d: Seq<char>)
    ensures
        text::digits_value(Seq::new(k, |i: int| '0') + d) == text::digits_value(d),
    decreases k,
{
    let z = Seq::new(k, |i: int| '0');
    if k == 0 {
        assert(z + d == d);
    } else {
        lemma_leading_zeros((k - 1) as nat, d);
        let y = Seq::new((k - 1) as nat, |i: int| '0');
        assert(z + d == seq!['0'] + (y + d));
        lemma_leading_zero(y + d);
    }
}

/// White space is the blank and the controls from tab to carriage return, and
/// outside of ASCII the spaces and separators of Unicode.
pub proof fn white_space(c: char)
    ensures
        (c as u32) < 0x80 ==> (text::is_white(c) <==> c == ' ' || 9 <= c as u32 <= 13),
        0x80 <= c as u32 ==> (text::is_white(c) <==> seq![
            0x85u32,
            0xA0,
            0x1680,
            0x2000,
            0x2001,
            0x2002,
            0x2003,
            0x2004,
            0x2005,
            0x2006,
            0x2007,
            0x2008,
            0x2009,
            0x200A,
            0x2028,
            0x2029,
            0x202F,
            0x205F,
            0x3000,
        ].contains(c as u32)),
{
    let all = seq![
        0x85u32,
        0xA0,
        0x1680,
        0x2000,
        0x2001,
        0x2002,
        0x2003,
        0x2004,
        0x2005,
        0x2006,
        0x2007,
        0x2008,
        0x2009,
        0x200A,
        0x2028,
        0x2029,
        0x202F,
        0x205F,
        0x3000,
    ];
    assert(all[0] == 0x85 && all[1] == 0xA0 && all[2] == 0x1680 && all[14] == 0x2028 && all[15]
        == 0x2029 && all[16] == 0x202F && all[17] == 0x205F && all[18] == 0x3000);
    assert(forall|i: int| 3 <= i < 14 ==> #[trigger] all[i] == 0x2000 + (i - 3));
    if 0x2000 <= c as u32 <= 0x200A {
        assert(all[3 + (c as u32 - 0x2000)] == c as u32);
    }
}

/// Trimming takes white space off both ends and nothing else: what is left
/// stands in the text, everything around it is white, and neither of its ends
/// is.
pub proof fn trimming_takes_off_white_space(s: Seq<char>) -> (r: (int, int))
    ensures
        0 <= r.0 <= r.1 <= s.len(),
        text::trimmed(s) == s.subrange(r.0, r.1),
        forall|i: int| 0 <= i < r.0 ==> text::is_white(#[trigger] s[i]),
        forall|i: int| r.1 <= i < s.len() ==> text::is_white(#[trigger] s[i]),
        r.0 < r.1 ==> !text::is_white(s[r.0]) && !text::is_white(s[r.1 - 1]),
{
    let a = lemma_trimmed_start(s);
    let t = text::trimmed_start(s);
    let b = lemma_trimmed_end(t);
    assert(t.subrange(0, b) == s.subrange(a, a + b));
    assert forall|i: int| a + b <= i < s.len() implies text::is_white(#[trigger] s[i]) by {
        assert(s[i] == t[i - a]);
    }
    if b > 0 {
        assert(s[a] == t[0]);
        assert(s[a + b - 1] == t[b - 1]);
    }
    (a, a + b)
}

proof fn lemma_trimmed_start(s: Seq<char>) -> (a: int)
    ensures
        0 <= a <= s.len(),
        text::trimmed_start(s) == s.subrange(a, s.len() as int),
        forall|i: int| 0 <= i < a ==> text::is_white(#[trigger] s[i]),
        a < s.len() ==> !text::is_white(s[a]),
    decreases s.len(),
{
    if s.len() > 0 && text::is_white(s[0]) {
        let rest = s.drop_first();
        let a = lemma_trimmed_start(rest);
        assert(rest.subrange(a, rest.len() as int) == s.subrange(a + 1, s.len() as int));
        assert forall|i: int| 0 <= i < a + 1 implies text::is_white(#[trigger] s[i]) by {
            if i > 0 {
                assert(s[i] == rest[i - 1]);
            }
        }
        if a < rest.len() {
            assert(s[a + 1] == rest[a]);
        }
        a + 1
    } else {
        assert(s.subrange(0, s.len() as int) == s);
        0
    }
}

proof fn lemma_trimmed_end(s: Seq<char>) -> (b: int)
    ensures
        0 <= b <= s.len(),
        text::trimmed_end(s) == s.subrange(0, b),
        forall|i: int| b <= i < s.len() ==> text::is_white(#[trigger] s[i]),
        b > 0 ==> !text::is_white(s[b - 1]),
    decreases s.len(),
{
    if s.len() > 0 && text::is_white(s.last()) {
        let front = s.drop_last();
        let b = lemma_trimmed_end(front);
        assert(front.subrange(0, b) == s.subrange(0, b));
        assert forall|i: int| b <= i < s.len() implies text::is_white(#[trigger] s[i]) by {
            if i < front.len() {
                assert(s[i] == front[i]);
            }
        }
        if b > 0 {
            assert(s[b - 1] == front[b - 1]);
        }
        b
    } else {
        assert(s.subrange(0, s.len() as int) == s);
        s.len() as int
    }
}

/// Splitting cuts at every comma and nowhere else: no part holds one, and the
/// parts with commas between them are the text.
pub proof fn splitting_cuts_at_commas(s: Seq<char>)
    ensures
        text::fields(s).len() > 0,
        text::joined(text::fields(s)) == s,
        forall|k: int, i: int|
            0 <= k < text::fields(s).len() && 0 <= i < text::fields(s)[k].len()
                ==> #[trigger] text::fields(s)[k][i] != ',',
        text::trimmed_fields(s).len() == text::fields(s).len(),
        forall|k: int|
            0 <= k < text::fields(s).len() ==> #[trigger] text::trimmed_fields(s)[k]
                == text::trimmed(text::fields(s)[k]),
    decreases s.len(),
{
    if s.len() > 0 {
        let front = s.drop_last();
        splitting_cuts_at_commas(front);
        let f = text::fields(front);
        let g = text::fields(s);
        if s.last() == ',' {
            assert(g.drop_last() == f);
            assert(text::joined(f).push(',') + Seq::<char>::empty() == s);
        } else {
            let last = f.last().push(s.last());
            assert(g == f.drop_last().push(last));
            assert(g.drop_last() == f.drop_last());
            if f.len() == 1 {
                assert(text::joined(g) == last);
                assert(last == s);
            } else {
                let head = text::joined(f.drop_last()).push(',');
                assert(text::joined(f) == head + f.last());
                assert(text::joined(g) == head + last);
                assert(head + last == (head + f.last()).push(s.last()));
            }
            assert forall|k: int, i: int| 0 <= k < g.len() && 0 <= i < g[k].len() implies
                #[trigger] g[k][i] != ',' by {
                if k < g.len() - 1 {
                    assert(g[k] == f[k]);
                    assert(f[k][i] != ',');
                } else {
                    assert(g[k] == last);
                    if i < f.last().len() {
                        assert(f[k][i] != ',');
                    }
                }
            }
        }
    } else {
        assert(text::joined(text::fields(s)) == s);
    }
}

/// Joining puts one comma between neighbours.
pub proof fn joining_puts_commas_between(parts: Seq<Seq<char>>, part: Seq<char>)
    ensures
        text::joined(seq![part]) == part,
        parts.len() > 0 ==> text::joined(parts.push(part)) == text::joined(parts) + seq![','] + part,
{
    if parts.len() > 0 {
        assert(parts.push(part).drop_last() == parts);
        assert(text::joined(parts).push(',') == text::joined(parts) + seq![',']);
    }
}

/// Cutting the final NULs off leaves the text before them: nothing else is cut
/// and none is left.
pub proof fn only_final_nuls_are_cut(s: Seq<char>)
    ensures
        ({
            let r = text::without_final_nuls(s);
            &&& r.len() <= s.len()
            &&& r == s.subrange(0, r.len() as int)
            &&& forall|i: int| r.len() <= i < s.len() ==> #[trigger] s[i] == '\0'
            &&& r.len() > 0 ==> r.last() != '\0'
        }),
    decreases s.len(),
{
    let r = text::without_final_nuls(s);
    if s.len() > 0 && s.last() == '\0' {
        let front = s.drop_last();
        only_final_nuls_are_cut(front);
        assert(front.subrange(0, r.len() as int) == s.subrange(0, r.len() as int));
        assert forall|i: int| r.len() <= i < s.len() implies #[trigger] s[i] == '\0' by {
            if i < front.len() {
                assert(s[i] == front[i]);
            }
        }
    } else {
        assert(s.subrange(0, s.len() as int) == s);
    }
}

/// The row of a point has eleven fields, and each is read back from it: the
/// packet's timestamp and counters, the coordinates, the reflectivity, the tag
/// and the three confidences in the tag.
pub proof fn point_rows_hold_the_point(
    header: DataFrameHeader,
    x: Seq<char>,
    y: Seq<char>,
    z: Seq<char>,
    reflectivity: u8,
    tag: Tag,
)
    requires
        text::plain_field(x),
        text::plain_field(y),
        text::plain_field(z),
    ensures
        ({
            let row = text::joined(recorder::point_fields(header, x, y, z, reflectivity, tag));
            let f = text::trimmed_fields(row);
            &&& f.len() == 11
            &&& text::number_of(f[0], u64::MAX as nat) == Some(header.timestamp as nat)
            &&& text::number_of(f[1], 0xFFFF) == Some(header.udp_cnt as nat)
            &&& text::number_of(f[2], 0xFF) == Some(header.frame_cnt as nat)
            &&& f[3] == x && f[4] == y && f[5] == z
            &&& text::number_of(f[6], 0xFF) == Some(reflectivity as nat)
            &&& text::number_of(f[7], 0xFF) == Some(tag.0 as nat)
            &&& text::number_of(f[8], 3) == Some(tag.detection() as nat)
            &&& text::number_of(f[9], 3) == Some(tag.particle() as nat)
            &&& text::number_of(f[10], 3) == Some(tag.adhesion() as nat)
            &&& tag.0 % 64 == 16 * text::number_of(f[8], 3)->0 + 4 * text::number_of(f[9], 3)->0
                + text::number_of(f[10], 3)->0
        }),
{
    let f = recorder::point_fields(header, x, y, z, reflectivity, tag);
    confidences_are_pairs_of_bits(tag);
    text::decimal_round_trip(header.timestamp as nat);
    text::decimal_round_trip(header.udp_cnt as nat);
    text::decimal_round_trip(header.frame_cnt as nat);
    text::decimal_round_trip(reflectivity as nat);
    text::decimal_round_trip(tag.0 as nat);
    text::decimal_round_trip(tag.detection() as nat);
    text::decimal_round_trip(tag.particle() as nat);
    text::decimal_round_trip(tag.adhesion() as nat);
    lemma_point_fields(header, x, y, z, reflectivity, tag);
    text::fields_round_trip(f);
}

proof fn lemma_point_fields(
    header: DataFrameHeader,
    x: Seq<char>,
    y: Seq<char>,
    z: Seq<char>,
    reflectivity: u8,
    tag: Tag,
)
    ensures
        ({
            let f = recorder::point_fields(header, x, y, z, reflectivity, tag);
            &&& f.len() == 11
            &&& f[0] == text::decimal(header.timestamp as nat)
            &&& f[1] == text::decimal(header.udp_cnt as nat)
            &&& f[2] == text::decimal(header.frame_cnt as nat)
            &&& f[3] == x && f[4] == y && f[5] == z
            &&& f[6] == text::decimal(reflectivity as nat)
            &&& f[7] == text::decimal(tag.0 as nat)
            &&& f[8] == text::decimal(tag.detection() as nat)
            &&& f[9] == text::decimal(tag.particle() as nat)
            &&& f[10] == text::decimal(tag.adhesion() as nat)
        }),
{
}

/// The row of an IMU sample is its timestamp and then its components in order.
pub proof fn imu_rows_hold_the_sample(timestamp: u64, components: Seq<Seq<char>>)
    requires
        forall|i: int| 0 <= i < components.len() ==> text::plain_field(#[trigger] components[i]),
    ensures
        ({
            let f = text::trimmed_fields(text::joined(recorder::imu_fields(timestamp, components)));
            &&& f.len() == 1 + components.len()
            &&& text::number_of(f[0], u64::MAX as nat) == Some(timestamp as nat)
            &&& forall|i: int| 0 <= i < components.len() ==> f[i + 1] == #[trigger] components[i]
        }),
{
    let f = recorder::imu_fields(timestamp, components);
    text::decimal_round_trip(timestamp as nat);
    assert forall|i: int| 0 <= i < f.len() implies text::plain_field(#[trigger] f[i]) by {
        if i > 0 {
            assert(f[i] == components[i - 1]);
        }
    }
    text::fields_round_trip(f);
}

/// The columns of a points table, by name and in order.
pub proof fn point_columns_are_named()
    ensures
        recorder::POINTS_HEADER@.len() == 120,
        recorder::POINTS_HEADER@.subrange(0, 12) == "timestamp_ns"@,
        recorder::POINTS_HEADER@[12] == ',',
        recorder::POINTS_HEADER@.subrange(13, 20) == "udp_cnt"@,
        recorder::POINTS_HEADER@[20] == ',',
        recorder::POINTS_HEADER@.subrange(21, 30) == "frame_cnt"@,
        recorder::POINTS_HEADER@[30] == ',',
        recorder::POINTS_HEADER@.subrange(31, 34) == "x_m"@,
        recorder::POINTS_HEADER@[34] == ',',
        recorder::POINTS_HEADER@.subrange(35, 38) == "y_m"@,
        recorder::POINTS_HEADER@[38] == ',',
        recorder::POINTS_HEADER@.subrange(39, 42) == "z_m"@,
        recorder::POINTS_HEADER@[42] == ',',
        recorder::POINTS_HEADER@.subrange(43, 55) == "reflectivity"@,
        recorder::POINTS_HEADER@[55] == ',',
        recorder::POINTS_HEADER@.subrange(56, 59) == "tag"@,
        recorder::POINTS_HEADER@[59] == ',',
        recorder::POINTS_HEADER@.subrange(60, 80) == "detection_confidence"@,
        recorder::POINTS_HEADER@[80] == ',',
        recorder::POINTS_HEADER@.subrange(81, 100) == "particle_confidence"@,
        recorder::POINTS_HEADER@[100] == ',',
        recorder::POINTS_HEADER@.subrange(101, 120) == "adhesion_confidence"@,
{
    let h = recorder::POINTS_HEADER@;
    reveal_strlit("timestamp_ns,udp_cnt,frame_cnt,x_m,y_m,z_m,reflectivity,tag,detection_confidence,particle_confidence,adhesion_confidence");
    reveal_strlit("timestamp_ns");
    assert(h.subrange(0, 12) =~= "timestamp_ns"@);
    reveal_strlit("udp_cnt");
    assert(h.subrange(13, 20) =~= "udp_cnt"@);
    reveal_strlit("frame_cnt");
    assert(h.subrange(21, 30) =~= "frame_cnt"@);
    reveal_strlit("x_m");
    assert(h.subrange(31, 34) =~= "x_m"@);
    reveal_strlit("y_m");
    assert(h.subrange(35, 38) =~= "y_m"@);
    reveal_strlit("z_m");
    assert(h.subrange(39, 42) =~= "z_m"@);
    reveal_strlit("reflectivity");
    assert(h.subrange(43, 55) =~= "reflectivity"@);
    reveal_strlit("tag");
    assert(h.subrange(56, 59) =~= "tag"@);
    reveal_strlit("detection_confidence");
    assert(h.subrange(60, 80) =~= "detection_confidence"@);
    reveal_strlit("particle_confidence");
    assert(h.subrange(81, 100) =~= "particle_confidence"@);
    reveal_strlit("adhesion_confidence");
    assert(h.subrange(101, 120) =~= "adhesion_confidence"@);
}

/// The columns of an IMU table, by name and in order.
pub proof fn imu_columns_are_named()
    ensures
        recorder::IMU_HEADER@.len() == 51,
        recorder::IMU_HEADER@.subrange(0, 12) == "timestamp_ns"@,
        recorder::IMU_HEADER@[12] == ',',
        recorder::IMU_HEADER@.subrange(13, 19) == "gyro_x"@,
        recorder::IMU_HEADER@[19] == ',',
        recorder::IMU_HEADER@.subrange(20, 26) == "gyro_y"@,
        recorder::IMU_HEADER@[26] == ',',
        recorder::IMU_HEADER@.subrange(27, 33) == "gyro_z"@,
        recorder::IMU_HEADER@[33] == ',',
        recorder::IMU_HEADER@.subrange(34, 39) == "acc_x"@,
        recorder::IMU_HEADER@[39] == ',',
        recorder::IMU_HEADER@.subrange(40, 45) == "acc_y"@,
        recorder::IMU_HEADER@[45] == ',',
        recorder::IMU_HEADER@.subrange(46, 51) == "acc_z"@,
{
    let h = recorder::IMU_HEADER@;
    reveal_strlit("timestamp_ns,gyro_x,gyro_y,gyro_z,acc_x,acc_y,acc_z");
    reveal_strlit("timestamp_ns");
    assert(h.subrange(0, 12) =~= "timestamp_ns"@);
    reveal_strlit("gyro_x");
    assert(h.subrange(13, 19) =~= "gyro_x"@);
    reveal_strlit("gyro_y");
    assert(h.subrange(20, 26) =~= "gyro_y"@);
    reveal_strlit("gyro_z");
    assert(h.subrange(27, 33) =~= "gyro_z"@);
    reveal_strlit("acc_x");
    assert(h.subrange(34, 39) =~= "acc_x"@);
    reveal_strlit("acc_y");
    assert(h.subrange(40, 45) =~= "acc_y"@);
    reveal_strlit("acc_z");
    assert(h.subrange(46, 51) =~= "acc_z"@);
}

/// The error of a line names the line.
pub open spec fn line_error(number: nat, message: Seq<char>) -> Failure {
    Failure::ParameterParse("csv line "@ + text::decimal(number) + ": "@ + message)
}

/// A line of plain fields is a sample where it is wide enough and starts with a
/// number; it is a header where it comes first and does not start with one, or
/// starts with the name of the first column; and it is refused, by its number,
/// where it is too short or starts with anything else.
pub proof fn lines_are_samples_headers_or_errors(
    table: Table,
    number: nat,
    first: bool,
    f: Seq<Seq<char>>,
)
    requires
        f.len() > 0,
        f[0].len() > 0,
        forall|i: int| 0 <= i < f.len() ==> text::plain_field(#[trigger] f[i]),
    ensures
        ({
            let r = recorder::line_content(table, number, first, text::joined(f));
            let ts = text::number_of(f[0], u64::MAX as nat);
            let narrow = match table {
                Table::Points => f.len() < 6,
                Table::Imu => f.len() < 7,
            };
            &&& ts is Some && !narrow && table is Points ==> r == Ok::<Content, Failure>(
                Content::Sample(ts->0 as u64, seq![f[3], f[4], f[5]]),
            )
            &&& ts is Some && !narrow && table is Imu ==> r == Ok::<Content, Failure>(
                Content::Sample(ts->0 as u64, seq![f[1], f[2], f[3], f[4], f[5], f[6]]),
            )
            &&& ts is None && first ==> r == Ok::<Content, Failure>(Content::Nothing)
            &&& narrow && (ts is Some || !first) && table is Points ==> r == Err::<
                Content,
                Failure,
            >(line_error(number, "expected at least 6 columns"@))
            &&& narrow && (ts is Some || !first) && table is Imu ==> r == Err::<Content, Failure>(
                line_error(number, "expected 7 columns"@),
            )
            &&& ts is None && !first && !narrow && f[0] == "timestamp_ns"@ ==> r == Ok::<
                Content,
                Failure,
            >(Content::Nothing)
            &&& ts is None && !first && !narrow && f[0].len() != "timestamp_ns"@.len() ==> r
                == Err::<Content, Failure>(line_error(number, "timestamp_ns is not a u64"@))
        }),
{
    let ts = text::number_of(f[0], u64::MAX as nat);
    text::lemma_joined_is_trimmed(f);
    text::fields_round_trip(f);
    if ts is Some {
        reveal_strlit("timestamp_ns");
        if f[0].len() == 12 {
            numbers_are_made_of_digits(f[0], u64::MAX as nat, 1);
            assert('0' <= f[0][1] <= '9');
            assert(!recorder::folds_to(f[0][1], "timestamp_ns"@[1]));
        }
        assert(!recorder::is_first_column_name(f[0]));
        if table is Points && f.len() >= 6 {
            assert(f.subrange(3, 6) == seq![f[3], f[4], f[5]]);
        }
        if table is Imu && f.len() >= 7 {
            assert(f.subrange(1, 7) == seq![f[1], f[2], f[3], f[4], f[5], f[6]]);
        }
    }
}

/// The same of any line that is not blank, by what stands between its commas
/// without the white space around it.
pub proof fn lines_are_read_by_their_fields(
    table: Table,
    number: nat,
    first: bool,
    line: Seq<char>,
)
    requires
        text::trimmed(line).len() > 0,
    ensures
        ({
            let f = text::trimmed_fields(text::trimmed(line));
            let r = recorder::line_content(table, number, first, line);
            let ts = text::number_of(f[0], u64::MAX as nat);
            let narrow = match table {
                Table::Points => f.len() < 6,
                Table::Imu => f.len() < 7,
            };
            &&& r matches Ok(Content::Sample(t, numbers)) ==> ts == Some(t as nat) && !narrow
                && match table {
                Table::Points => numbers.len() == 3 && numbers[0] == f[3] && numbers[1] == f[4]
                    && numbers[2] == f[5],
                Table::Imu => numbers.len() == 6 && forall|i: int|
                    0 <= i < 6 ==> #[trigger] numbers[i] == f[i + 1],
            }
            &&& r == Ok::<Content, Failure>(Content::Nothing) ==> if first {
                ts is None || recorder::is_first_column_name(f[0])
            } else {
                !narrow && recorder::is_first_column_name(f[0])
            }
            &&& first && ts is None ==> r is Ok
            &&& narrow && (ts is Some || !first) ==> r is Err
            &&& r is Err ==> narrow || ts is None
        }),
{
}

/// A line of white space holds nothing.
pub proof fn blank_lines_hold_nothing(table: Table, number: nat, first: bool, line: Seq<char>)
    requires
        forall|i: int| 0 <= i < line.len() ==> text::is_white(#[trigger] line[i]),
    ensures
        recorder::line_content(table, number, first, line) == Ok::<Content, Failure>(
            Content::Nothing,
        ),
{
    let (a, b) = trimming_takes_off_white_space(line);
}

/// A table has begun with its first line that holds more than white space, and
/// stays so.
pub proof fn tables_begin_with_a_line(started: bool, line: Seq<char>)
    ensures
        started ==> recorder::started_after(started, line),
        (forall|i: int| 0 <= i < line.len() ==> text::is_white(#[trigger] line[i]))
            ==> recorder::started_after(started, line) == started,
        (exists|i: int| 0 <= i < line.len() && !text::is_white(#[trigger] line[i]))
            ==> recorder::started_after(started, line),
{
    let (a, b) = trimming_takes_off_white_space(line);
    if exists|i: int| 0 <= i < line.len() && !text::is_white(#[trigger] line[i]) {
        let i = choose|i: int| 0 <= i < line.len() && !text::is_white(#[trigger] line[i]);
        assert(a <= i < b);
    }
}

/// White space around a line makes no difference.
pub proof fn surrounding_white_space_is_nothing(
    table: Table,
    number: nat,
    first: bool,
    line: Seq<char>,
)
    ensures
        recorder::line_content(table, number, first, text::trimmed(line))
            == recorder::line_content(table, number, first, line),
{
    let (a, b) = trimming_takes_off_white_space(line);
    let t = text::trimmed(line);
    let (c, d) = trimming_takes_off_white_space(t);
    if t.len() > 0 {
        assert(t[0] == line[a]);
        assert(t[t.len() - 1] == line[b - 1]);
        assert(c == 0 && d == t.len());
    }
    assert(text::trimmed(t) == t);
}

/// The name of the first column may be written in any case: a character stands
/// for a lower-case letter where it is that letter or the capital 32 before it
/// in the character set, and for anything else where it is the same.
pub proof fn column_names_are_read_in_any_case(field: Seq<char>, c: char, lower: char)
    ensures
        recorder::is_first_column_name("timestamp_ns"@),
        recorder::is_first_column_name("TIMESTAMP_NS"@),
        recorder::is_first_column_name(field) <==> field.len() == 12 && forall|i: int|
            0 <= i < 12 ==> #[trigger] field[i] == "timestamp_ns"@[i] || ('A' <= field[i] <= 'Z'
                && field[i] as u32 + 32 == "timestamp_ns"@[i] as u32),
        'a' <= lower <= 'z' ==> (recorder::folds_to(c, lower) <==> c == lower || c as u32 + 32
            == lower as u32),
        !('a' <= lower <= 'z') ==> (recorder::folds_to(c, lower) <==> c == lower),
{
    reveal_strlit("timestamp_ns");
    reveal_strlit("TIMESTAMP_NS");
}

/// The error of a number column names the line and the column.
pub proof fn number_errors_name_the_column(line: nat)
    ensures
        recorder::number_failure(Table::Points, line, 0) == line_error(
            line,
            "x_m"@ + " is not a number"@,
        ),
        recorder::number_failure(Table::Points, line, 1) == line_error(
            line,
            "y_m"@ + " is not a number"@,
        ),
        recorder::number_failure(Table::Points, line, 2) == line_error(
            line,
            "z_m"@ + " is not a number"@,
        ),
        recorder::number_failure(Table::Imu, line, 0) == line_error(
            line,
            "gyro_x"@ + " is not a number"@,
        ),
        recorder::number_failure(Table::Imu, line, 1) == line_error(
            line,
            "gyro_y"@ + " is not a number"@,
        ),
        recorder::number_failure(Table::Imu, line, 2) == line_error(
            line,
            "gyro_z"@ + " is not a number"@,
        ),
        recorder::number_failure(Table::Imu, line, 3) == line_error(
            line,
            "acc_x"@ + " is not a number"@,
        ),
        recorder::number_failure(Table::Imu, line, 4) == line_error(
            line,
            "acc_y"@ + " is not a number"@,
        ),
        recorder::number_failure(Table::Imu, line, 5) == line_error(
            line,
            "acc_z"@ + " is not a number"@,
        ),
{
}

} // verus!
