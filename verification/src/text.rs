//! Text as character sequences: numbers, white space and separated fields.

use vstd::prelude::*;
use vstd::slice::{slice_subrange, slice_to_vec};
use vstd::utf8;

verus! {

/// `String::push` appends one character.
pub assume_specification[ String::push ](s: &mut String, c: char)
    ensures
        final(s)@ == old(s)@.push(c),
;

/// What `String::from_utf8_lossy` makes of some bytes.
pub uninterp spec fn lossy_utf8(bytes: Seq<u8>) -> Seq<char>;

/// `String::from_utf8_lossy` decodes UTF-8. The text depends on the bytes alone,
/// and where they are UTF-8 it is what they encode. How the replacement
/// characters for other bytes are placed is not said here.
#[verifier::external_body]
pub(crate) fn lossy_text(bytes: &[u8]) -> (s: String)
    ensures
        s@ == lossy_utf8(bytes@),
        utf8::valid_utf8(bytes@) ==> s@ == utf8::decode_utf8(bytes@),
{
    String::from_utf8_lossy(bytes).into_owned()
}

/// `s` without the NULs at its end.
pub open spec fn without_final_nuls(s: Seq<char>) -> Seq<char>
    decreases s.len(),
{
    if s.len() > 0 && s.last() == '\0' {
        without_final_nuls(s.drop_last())
    } else {
        s
    }
}

/// The text without the NULs at its end.
pub fn cut_final_nuls(s: &str) -> (r: String)
    ensures
        r@ == without_final_nuls(s@),
{
    let chars = chars_of(s);
    let mut end: usize = chars.len();
    assert(s@.subrange(0, end as int) == s@);
    while end > 0 && chars[end - 1] == '\0'
        invariant
            end <= chars@.len(),
            chars@ == s@,
            without_final_nuls(s@) == without_final_nuls(s@.subrange(0, end as int)),
        decreases end,
    {
        assert(s@.subrange(0, end as int).drop_last() == s@.subrange(0, end - 1));
        end = end - 1;
    }
    text_of(slice_subrange(chars.as_slice(), 0, end))
}

/// The character of a digit, upper case above nine.
pub open spec fn digit_char(d: int) -> char {
    if d == 0 { '0' }
    else if d == 1 { '1' }
    else if d == 2 { '2' }
    else if d == 3 { '3' }
    else if d == 4 { '4' }
    else if d == 5 { '5' }
    else if d == 6 { '6' }
    else if d == 7 { '7' }
    else if d == 8 { '8' }
    else if d == 9 { '9' }
    else if d == 10 { 'A' }
    else if d == 11 { 'B' }
    else if d == 12 { 'C' }
    else if d == 13 { 'D' }
    else if d == 14 { 'E' }
    else { 'F' }
}

/// A number in decimal, without leading zeros.
pub open spec fn decimal(n: nat) -> Seq<char>
    decreases n,
{
    if n < 10 {
        seq![digit_char(n as int)]
    } else {
        decimal(n / 10).push(digit_char((n % 10) as int))
    }
}

/// The last `width` hexadecimal digits of a number.
pub open spec fn hex(n: nat, width: nat) -> Seq<char>
    decreases width,
{
    if width == 0 {
        Seq::empty()
    } else {
        hex(n / 16, (width - 1) as nat).push(digit_char((n % 16) as int))
    }
}

/// A number in decimal, filled with leading zeros up to `width` digits.
pub open spec fn padded_decimal(n: nat, width: nat) -> Seq<char> {
    let d = decimal(n);
    if d.len() >= width {
        d
    } else {
        Seq::new((width - d.len()) as nat, |i: int| '0') + d
    }
}

/// The character of a digit.
pub fn digit(d: u8) -> (c: char)
    requires
        d < 16,
    ensures
        c == digit_char(d as int),
{
    match d {
        0 => '0',
        1 => '1',
        2 => '2',
        3 => '3',
        4 => '4',
        5 => '5',
        6 => '6',
        7 => '7',
        8 => '8',
        9 => '9',
        10 => 'A',
        11 => 'B',
        12 => 'C',
        13 => 'D',
        14 => 'E',
        _ => 'F',
    }
}

/// Appends a number in decimal.
pub fn push_decimal(out: &mut String, n: u64)
    ensures
        final(out)@ == old(out)@ + decimal(n as nat),
    decreases n,
{
    if n >= 10 {
        push_decimal(out, n / 10);
    }
    out.push(digit((n % 10) as u8));
}

/// Appends the last `width` hexadecimal digits of a number.
pub fn push_hex(out: &mut String, n: u32, width: u32)
    ensures
        final(out)@ == old(out)@ + hex(n as nat, width as nat),
    decreases width,
{
    if width > 0 {
        push_hex(out, n / 16, width - 1);
        out.push(digit((n % 16) as u8));
    }
}

/// How many decimal digits a number has.
fn decimal_len(n: u64) -> (k: u64)
    ensures
        k == decimal(n as nat).len(),
        k <= n / 10 + 1,
    decreases n,
{
    if n < 10 {
        1
    } else {
        decimal_len(n / 10) + 1
    }
}

/// Appends a number in decimal with at least `width` digits.
pub fn push_padded_decimal(out: &mut String, n: u64, width: u64)
    ensures
        final(out)@ == old(out)@ + padded_decimal(n as nat, width as nat),
{
    let k: u64 = decimal_len(n);
    let mut i: u64 = k;
    while i < width
        invariant
            k == decimal(n as nat).len(),
            k <= i,
            i <= width || i == k,
            out@ == old(out)@ + Seq::new((i - k) as nat, |j: int| '0'),
        decreases width - i,
    {
        out.push('0');
        i = i + 1;
    }
    push_decimal(out, n);
}

/// The characters of a text.
pub fn chars_of(s: &str) -> (chars: Vec<char>)
    ensures
        chars@ == s@,
{
    let mut chars: Vec<char> = Vec::new();
    for c in iter: s.chars()
        invariant
            iter.seq() == s@,
            chars@ == iter.seq().subrange(0, iter.index() as int),
    {
        chars.push(c);
    }
    chars
}

/// The text of some characters.
pub fn text_of(chars: &[char]) -> (s: String)
    ensures
        s@ == chars@,
{
    let mut s = String::new();
    let n: usize = chars.len();
    let mut i: usize = 0;
    while i < n
        invariant
            i <= n == chars@.len(),
            s@ == chars@.subrange(0, i as int),
        decreases n - i,
    {
        s.push(chars[i]);
        i = i + 1;
    }
    assert(chars@.subrange(0, n as int) == chars@);
    s
}

/// Whether two texts are the same.
pub fn same_text(a: &str, b: &str) -> (r: bool)
    ensures
        r == (a@ == b@),
{
    a.to_owned() == b.to_owned()
}

/// White space as Unicode has it.
pub open spec fn is_white(c: char) -> bool {
    ||| 0x09 <= c as u32 <= 0x0D
    ||| c as u32 == 0x20
    ||| c as u32 == 0x85
    ||| c as u32 == 0xA0
    ||| c as u32 == 0x1680
    ||| 0x2000 <= c as u32 <= 0x200A
    ||| c as u32 == 0x2028
    ||| c as u32 == 0x2029
    ||| c as u32 == 0x202F
    ||| c as u32 == 0x205F
    ||| c as u32 == 0x3000
}

/// `s` without the white space at its start.
pub open spec fn trimmed_start(s: Seq<char>) -> Seq<char>
    decreases s.len(),
{
    if s.len() > 0 && is_white(s[0]) {
        trimmed_start(s.drop_first())
    } else {
        s
    }
}

/// `s` without the white space at its end.
pub open spec fn trimmed_end(s: Seq<char>) -> Seq<char>
    decreases s.len(),
{
    if s.len() > 0 && is_white(s.last()) {
        trimmed_end(s.drop_last())
    } else {
        s
    }
}

/// `s` without the white space around it.
pub open spec fn trimmed(s: Seq<char>) -> Seq<char> {
    trimmed_end(trimmed_start(s))
}

fn white(c: char) -> (r: bool)
    ensures
        r == is_white(c),
{
    let v: u32 = c as u32;
    (0x09 <= v && v <= 0x0D) || v == 0x20 || v == 0x85 || v == 0xA0 || v == 0x1680 || (0x2000 <= v
        && v <= 0x200A) || v == 0x2028 || v == 0x2029 || v == 0x202F || v == 0x205F || v == 0x3000
}

/// The text without the white space around it.
pub fn trim(s: &[char]) -> (r: &[char])
    ensures
        r@ == trimmed(s@),
{
    let n: usize = s.len();
    let mut start: usize = 0;
    assert(s@.subrange(0, n as int) == s@);
    while start < n && white(s[start])
        invariant
            start <= n == s@.len(),
            trimmed_start(s@) == trimmed_start(s@.subrange(start as int, n as int)),
        decreases n - start,
    {
        assert(s@.subrange(start as int, n as int).drop_first() == s@.subrange(
            start + 1,
            n as int,
        ));
        start = start + 1;
    }
    let mut end: usize = n;
    while end > start && white(s[end - 1])
        invariant
            start <= end <= n == s@.len(),
            trimmed(s@) == trimmed_end(s@.subrange(start as int, end as int)),
        decreases end,
    {
        assert(s@.subrange(start as int, end as int).drop_last() == s@.subrange(
            start as int,
            end - 1,
        ));
        end = end - 1;
    }
    slice_subrange(s, start, end)
}

/// The parts of `s` between commas.
pub open spec fn fields(s: Seq<char>) -> Seq<Seq<char>>
    decreases s.len(),
{
    if s.len() == 0 {
        seq![Seq::empty()]
    } else {
        let f = fields(s.drop_last());
        if s.last() == ',' {
            f.push(Seq::empty())
        } else {
            f.drop_last().push(f.last().push(s.last()))
        }
    }
}

/// The parts of `s` between commas, without the white space around each.
pub open spec fn trimmed_fields(s: Seq<char>) -> Seq<Seq<char>> {
    fields(s).map_values(|f: Seq<char>| trimmed(f))
}

/// The contents of a list of character vectors.
pub open spec fn contents(v: Seq<Vec<char>>) -> Seq<Seq<char>> {
    v.map_values(|f: Vec<char>| f@)
}

proof fn lemma_fields_nonempty(s: Seq<char>)
    ensures
        fields(s).len() > 0,
    decreases s.len(),
{
    if s.len() > 0 {
        lemma_fields_nonempty(s.drop_last());
    }
}

/// The parts of the text between commas, without the white space around each.
pub fn split_fields(s: &[char]) -> (out: Vec<Vec<char>>)
    ensures
        contents(out@) == trimmed_fields(s@),
        out@.len() > 0,
{
    let n: usize = s.len();
    let mut out: Vec<Vec<char>> = Vec::new();
    let mut current: Vec<char> = Vec::new();
    let mut i: usize = 0;
    assert(s@.subrange(0, 0) == Seq::<char>::empty());
    while i < n
        invariant
            i <= n == s@.len(),
            fields(s@.subrange(0, i as int)).len() > 0,
            fields(s@.subrange(0, i as int)).last() == current@,
            contents(out@) == fields(s@.subrange(0, i as int)).drop_last().map_values(
                |f: Seq<char>| trimmed(f),
            ),
        decreases n - i,
    {
        let ghost before = fields(s@.subrange(0, i as int));
        let ghost now = fields(s@.subrange(0, i + 1));
        proof {
            assert(s@.subrange(0, i + 1).drop_last() == s@.subrange(0, i as int));
            lemma_fields_nonempty(s@.subrange(0, i + 1));
        }
        if s[i] == ',' {
            let ghost done = out@;
            let part = slice_to_vec(trim(current.as_slice()));
            out.push(part);
            assert(now.drop_last() == before);
            assert(contents(out@) == contents(done).push(trimmed(before.last())));
            assert(contents(out@) == before.map_values(|f: Seq<char>| trimmed(f)));
            current = Vec::new();
        } else {
            current.push(s[i]);
            assert(now.drop_last() == before.drop_last());
        }
        i = i + 1;
    }
    assert(s@.subrange(0, n as int) == s@);
    let ghost done = out@;
    let part = slice_to_vec(trim(current.as_slice()));
    out.push(part);
    assert(contents(out@) == contents(done).push(trimmed(fields(s@).last())));
    assert(contents(out@) == trimmed_fields(s@));
    out
}

/// The value of a decimal digit.
pub open spec fn digit_value(c: char) -> nat {
    if '0' <= c <= '9' {
        (c as u32 - '0' as u32) as nat
    } else {
        0
    }
}

/// Whether all characters are decimal digits.
pub open spec fn all_digits(s: Seq<char>) -> bool {
    forall|i: int| 0 <= i < s.len() ==> '0' <= #[trigger] s[i] <= '9'
}

/// The number that some digits stand for.
pub open spec fn digits_value(s: Seq<char>) -> nat
    decreases s.len(),
{
    if s.len() == 0 {
        0
    } else {
        digits_value(s.drop_last()) * 10 + digit_value(s.last())
    }
}

/// The number in a text of digits, with or without a plus sign in front, if it
/// is at most `max`.
pub open spec fn number_of(s: Seq<char>, max: nat) -> Option<nat> {
    let digits = if s.len() > 0 && s[0] == '+' {
        s.drop_first()
    } else {
        s
    };
    if digits.len() > 0 && all_digits(digits) && digits_value(digits) <= max {
        Some(digits_value(digits))
    } else {
        None
    }
}

proof fn lemma_digits_value_grows(s: Seq<char>, k: int)
    requires
        0 <= k <= s.len(),
    ensures
        digits_value(s.subrange(0, k)) <= digits_value(s),
    decreases s.len() - k,
{
    if k == s.len() {
        assert(s.subrange(0, k) == s);
    } else {
        assert(s.drop_last().subrange(0, k) == s.subrange(0, k));
        lemma_digits_value_grows(s.drop_last(), k);
    }
}

/// Reads a number of at most `max`.
pub fn parse_number(s: &[char], max: u64) -> (r: Option<u64>)
    ensures
        (match r {
            Some(v) => Some(v as nat),
            None => None,
        }) == number_of(s@, max as nat),
{
    let n: usize = s.len();
    let start: usize = if n > 0 && s[0] == '+' {
        1
    } else {
        0
    };
    let ghost digits = s@.subrange(start as int, n as int);
    proof {
        if start == 0 {
            assert(digits == s@);
        } else {
            assert(digits == s@.drop_first());
        }
    }
    if start == n {
        return None;
    }
    let mut value: u64 = 0;
    let mut i: usize = start;
    assert(digits.subrange(0, 0) == Seq::<char>::empty());
    while i < n
        invariant
            start <= i <= n == s@.len(),
            start < n,
            digits == s@.subrange(start as int, n as int),
            digits == (if s@.len() > 0 && s@[0] == '+' {
                s@.drop_first()
            } else {
                s@
            }),
            value <= max,
            value == digits_value(digits.subrange(0, i - start)),
            forall|k: int| 0 <= k < i - start ==> '0' <= #[trigger] digits[k] <= '9',
        decreases n - i,
    {
        let c: char = s[i];
        assert(digits[i - start] == c);
        if c < '0' || c > '9' {
            return None;
        }
        let d: u64 = (c as u64) - ('0' as u64);
        proof {
            let next = digits.subrange(0, i - start + 1);
            assert(next.drop_last() == digits.subrange(0, i - start));
            assert(next.last() == c);
            lemma_digits_value_grows(digits, i - start + 1);
        }
        if d > max || value > (max - d) / 10 {
            return None;
        }
        value = value * 10 + d;
        i = i + 1;
    }
    assert(digits.subrange(0, n - start) == digits);
    Some(value)
}

/// Whether `s` can stand in a field as it is: no comma in it and no white space
/// around it.
pub open spec fn plain_field(s: Seq<char>) -> bool {
    &&& forall|i: int| 0 <= i < s.len() ==> #[trigger] s[i] != ','
    &&& s.len() > 0 ==> !is_white(s[0]) && !is_white(s.last())
}

/// A plain field has nothing to trim.
pub proof fn lemma_plain_field(s: Seq<char>)
    requires
        plain_field(s),
    ensures
        trimmed(s) == s,
{
}

proof fn lemma_fields_of_one(s: Seq<char>)
    requires
        forall|i: int| 0 <= i < s.len() ==> #[trigger] s[i] != ',',
    ensures
        fields(s) == seq![s],
    decreases s.len(),
{
    if s.len() > 0 {
        let front = s.drop_last();
        assert forall|i: int| 0 <= i < front.len() implies #[trigger] front[i] != ',' by {
            assert(front[i] == s[i]);
        }
        lemma_fields_of_one(front);
        assert(front.push(s.last()) == s);
        assert(seq![front].drop_last().push(s) == seq![s]);
    } else {
        assert(s == Seq::<char>::empty());
    }
}

/// A comma and a plain field behind a text add that field to its parts.
pub proof fn lemma_fields_append(s: Seq<char>, f: Seq<char>)
    requires
        forall|i: int| 0 <= i < f.len() ==> #[trigger] f[i] != ',',
    ensures
        fields(s.push(',') + f) == fields(s).push(f),
    decreases f.len(),
{
    let t = s.push(',') + f;
    if f.len() == 0 {
        assert(t == s.push(','));
        assert(t.drop_last() == s);
        assert(f == Seq::<char>::empty());
    } else {
        let front = f.drop_last();
        assert forall|i: int| 0 <= i < front.len() implies #[trigger] front[i] != ',' by {
            assert(front[i] == f[i]);
        }
        lemma_fields_append(s, front);
        assert(t.drop_last() == s.push(',') + front);
        assert(t.last() == f.last());
        assert(front.push(f.last()) == f);
        assert(fields(s).push(front).drop_last() == fields(s));
    }
}

/// Fields joined by commas.
pub open spec fn joined(parts: Seq<Seq<char>>) -> Seq<char>
    decreases parts.len(),
{
    if parts.len() == 0 {
        Seq::empty()
    } else if parts.len() == 1 {
        parts[0]
    } else {
        joined(parts.drop_last()).push(',') + parts.last()
    }
}

/// The contents of a list of texts.
pub open spec fn texts_of(texts: Seq<String>) -> Seq<Seq<char>> {
    texts.map_values(|t: String| t@)
}

/// The texts joined by commas.
pub fn join(parts: &[String]) -> (s: String)
    ensures
        s@ == joined(texts_of(parts@)),
{
    let mut s = String::new();
    let n: usize = parts.len();
    let ghost all = texts_of(parts@);
    let mut i: usize = 0;
    while i < n
        invariant
            i <= n == parts@.len(),
            all == texts_of(parts@),
            s@ == joined(all.subrange(0, i as int)),
        decreases n - i,
    {
        if i > 0 {
            s.push(',');
        }
        s.append(parts[i].as_str());
        proof {
            let next = all.subrange(0, i + 1);
            assert(next.drop_last() == all.subrange(0, i as int));
            assert(next.last() == parts@[i as int]@);
        }
        i = i + 1;
    }
    assert(all.subrange(0, n as int) == all);
    s
}

/// A number in decimal.
pub fn decimal_text(n: u64) -> (s: String)
    ensures
        s@ == decimal(n as nat),
{
    let mut s = String::new();
    push_decimal(&mut s, n);
    s
}

/// Splitting joined plain fields gives them back.
pub proof fn fields_round_trip(parts: Seq<Seq<char>>)
    requires
        parts.len() > 0,
        forall|i: int| 0 <= i < parts.len() ==> plain_field(#[trigger] parts[i]),
    ensures
        trimmed_fields(joined(parts)) == parts,
        fields(joined(parts)) == parts,
    decreases parts.len(),
{
    if parts.len() == 1 {
        lemma_fields_of_one(parts[0]);
        assert(seq![parts[0]] == parts);
    } else {
        let front = parts.drop_last();
        assert forall|i: int| 0 <= i < front.len() implies plain_field(#[trigger] front[i]) by {
            assert(front[i] == parts[i]);
        }
        fields_round_trip(front);
        assert(plain_field(parts.last())) by {
            assert(parts.last() == parts[parts.len() - 1]);
        }
        lemma_fields_append(joined(front), parts.last());
        assert(front.push(parts.last()) == parts);
    }
    assert forall|i: int| 0 <= i < parts.len() implies trimmed(#[trigger] parts[i]) == parts[i] by {
        lemma_plain_field(parts[i]);
    }
    assert(trimmed_fields(joined(parts)) == parts);
}

/// Joined plain fields have no white space around them.
pub proof fn lemma_joined_is_trimmed(parts: Seq<Seq<char>>)
    requires
        parts.len() > 0,
        parts[0].len() > 0,
        forall|i: int| 0 <= i < parts.len() ==> plain_field(#[trigger] parts[i]),
    ensures
        trimmed(joined(parts)) == joined(parts),
        joined(parts).len() > 0,
        joined(parts)[0] == parts[0][0],
        !is_white(joined(parts).last()),
    decreases parts.len(),
{
    if parts.len() > 1 {
        let front = parts.drop_last();
        assert forall|i: int| 0 <= i < front.len() implies plain_field(#[trigger] front[i]) by {
            assert(front[i] == parts[i]);
        }
        lemma_joined_is_trimmed(front);
        let last = parts.last();
        assert(plain_field(last)) by {
            assert(last == parts[parts.len() - 1]);
        }
        let s = joined(front).push(',') + last;
        assert(s[0] == joined(front)[0]);
        if last.len() == 0 {
            assert(s.last() == ',');
        } else {
            assert(s.last() == last.last());
        }
    }
}

proof fn lemma_digit_char(d: int)
    requires
        0 <= d < 10,
    ensures
        '0' <= digit_char(d) <= '9',
        digit_value(digit_char(d)) == d,
        !is_white(digit_char(d)),
{
}

/// Reading a written number gives it back.
pub proof fn decimal_round_trip(n: nat)
    ensures
        number_of(decimal(n), n) == Some(n),
        plain_field(decimal(n)),
        decimal(n).len() > 0,
        all_digits(decimal(n)),
        digits_value(decimal(n)) == n,
    decreases n,
{
    let s = decimal(n);
    if n < 10 {
        lemma_digit_char(n as int);
        assert(s.drop_last() == Seq::<char>::empty());
        assert(digits_value(s.drop_last()) == 0);
        assert(s.last() == digit_char(n as int));
    } else {
        decimal_round_trip(n / 10);
        lemma_digit_char((n % 10) as int);
        let front = decimal(n / 10);
        assert(s.drop_last() == front);
        assert(s.last() == digit_char((n % 10) as int));
        assert(s[0] == front[0]);
        assert forall|i: int| 0 <= i < s.len() implies '0' <= #[trigger] s[i] <= '9' by {
            if i < front.len() {
                assert(s[i] == front[i]);
            }
        }
    }
    assert('0' <= s[0] <= '9');
}

} // verus!
