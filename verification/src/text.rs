//! Text as sequences of characters: numbers, searching, trimming.

use vstd::prelude::*;
use vstd::string::*;

verus! {

/// `String::push` appends one character.
pub assume_specification[ String::push ](s: &mut String, c: char)
    ensures
        final(s)@ == old(s)@.push(c),
;

/// `String::pop` takes the last character off, if there is one.
pub assume_specification[ String::pop ](s: &mut String) -> (r: Option<char>)
    ensures
        old(s)@.len() == 0 ==> r == None::<char> && final(s)@ == old(s)@,
        old(s)@.len() > 0 ==> r == Some(old(s)@.last()) && final(s)@ == old(s)@.drop_last(),
;

/// Whether a character counts as white space: the characters that have the
/// Unicode property `White_Space`.
pub open spec fn white_space(c: char) -> bool {
    ||| '\u{9}' <= c <= '\u{d}'
    ||| c == ' '
    ||| c == '\u{85}'
    ||| c == '\u{a0}'
    ||| c == '\u{1680}'
    ||| '\u{2000}' <= c <= '\u{200a}'
    ||| c == '\u{2028}'
    ||| c == '\u{2029}'
    ||| c == '\u{202f}'
    ||| c == '\u{205f}'
    ||| c == '\u{3000}'
}

/// `char::is_whitespace` tells the characters with the Unicode property
/// `White_Space`.
pub assume_specification[ char::is_whitespace ](c: char) -> (r: bool)
    ensures
        r == white_space(c),
;

/// The lower-case form of a text by the Unicode tables.
pub uninterp spec fn lowercase(s: Seq<char>) -> Seq<char>;

/// `str::to_lowercase` depends on the text alone. The tables are not stated.
pub assume_specification[ str::to_lowercase ](s: &str) -> (r: String)
    ensures
        r@ == lowercase(s@),
;

/// The characters of a text.
pub fn chars_of(s: &str) -> (r: Vec<char>)
    ensures
        r@ == s@,
{
    let mut out: Vec<char> = Vec::new();
    for c in iter: s.chars()
        invariant
            out@ == s@.take(iter.index() as int),
            iter.seq() == s@,
    {
        out.push(c);
    }
    out
}

/// The text made of the characters `lo`, ..., `hi - 1`.
pub fn text_of(chars: &Vec<char>, lo: usize, hi: usize) -> (r: String)
    requires
        lo <= hi <= chars@.len(),
    ensures
        r@ == chars@.subrange(lo as int, hi as int),
{
    let mut out: String = String::new();
    let mut i: usize = lo;
    while i < hi
        invariant
            lo <= i <= hi <= chars@.len(),
            out@ == chars@.subrange(lo as int, i as int),
        decreases hi - i,
    {
        out.push(chars[i]);
        i = i + 1;
        assert(chars@.subrange(lo as int, i as int) =~= chars@.subrange(
            lo as int,
            i - 1,
        ).push(chars@[i - 1]));
    }
    out
}

// ---------------------------------------------------------------------------
// Numbers
// ---------------------------------------------------------------------------

/// The character of a digit.
pub open spec fn digit(d: int) -> char {
    (48 + d) as char
}

/// A number in decimal notation.
pub open spec fn decimal(n: nat) -> Seq<char>
    decreases n,
{
    if n < 10 {
        seq![digit(n as int)]
    } else {
        decimal(n / 10).push(digit((n % 10) as int))
    }
}

/// A number in decimal notation, with a minus sign where it is negative.
pub open spec fn signed_decimal(n: int) -> Seq<char> {
    if n < 0 {
        seq!['-'] + decimal((-n) as nat)
    } else {
        decimal(n as nat)
    }
}

/// Appends a number.
pub fn push_decimal(out: &mut String, n: u64)
    ensures
        final(out)@ == old(out)@ + decimal(n as nat),
    decreases n,
{
    if n >= 10 {
        push_decimal(out, n / 10);
    }
    let d: u8 = (n % 10) as u8;
    out.push((48u8 + d) as char);
    assert(out@ =~= old(out)@ + decimal(n as nat));
}

/// Appends a number that may be negative.
pub fn push_signed(out: &mut String, n: i32)
    ensures
        final(out)@ == old(out)@ + signed_decimal(n as int),
{
    if n < 0 {
        out.push('-');
        push_decimal(out, (-(n as i64)) as u64);
    } else {
        push_decimal(out, n as u64);
    }
    assert(out@ =~= old(out)@ + signed_decimal(n as int));
}

pub open spec fn is_digit(c: char) -> bool {
    '0' <= c <= '9'
}

/// All characters are digits, and there is at least one.
pub open spec fn all_digits(s: Seq<char>) -> bool {
    s.len() > 0 && forall|i: int| 0 <= i < s.len() ==> is_digit(#[trigger] s[i])
}

/// The number that digits stand for.
pub open spec fn digits_value(s: Seq<char>) -> int
    decreases s.len(),
{
    if s.len() == 0 {
        0
    } else {
        digits_value(s.drop_last()) * 10 + (s.last() as int - 48)
    }
}

/// The text has a sign in front.
pub open spec fn has_sign(s: Seq<char>) -> bool {
    s.len() > 0 && (s[0] == '-' || s[0] == '+')
}

/// The text behind the sign.
pub open spec fn unsigned_part(s: Seq<char>) -> Seq<char> {
    if has_sign(s) {
        s.skip(1)
    } else {
        s
    }
}

/// The number that a text stands for, without regard to its size.
pub open spec fn number_value(s: Seq<char>) -> int {
    if s.len() > 0 && s[0] == '-' {
        -digits_value(unsigned_part(s))
    } else {
        digits_value(unsigned_part(s))
    }
}

/// The text is a number that fits: a sign or none, and digits.
pub open spec fn is_i32(s: Seq<char>) -> bool {
    all_digits(unsigned_part(s)) && i32::MIN <= number_value(s) <= i32::MAX
}

/// Reads a number.
pub fn parse_i32(s: &str) -> (r: Option<i32>)
    ensures
        r is Some <==> is_i32(s@),
        r matches Some(v) ==> v == number_value(s@),
{
    let chars: Vec<char> = chars_of(s);
    let n: usize = chars.len();
    let signed: bool = n > 0 && (chars[0] == '-' || chars[0] == '+');
    let negative: bool = n > 0 && chars[0] == '-';
    let start: usize = if signed {
        1
    } else {
        0
    };
    let ghost body = unsigned_part(s@);
    assert(body =~= chars@.skip(start as int));
    if start >= n {
        return None;
    }
    let mut value: i64 = 0;
    let mut i: usize = start;
    while i < n
        invariant
            start <= i <= n,
            n == chars@.len(),
            start < n,
            body == chars@.skip(start as int),
            forall|j: int| start <= j < i ==> is_digit(#[trigger] chars@[j]),
            value == digits_value(body.take(i - start)),
            0 <= value <= 0x8000_0000,
            number_value(s@) == (if negative {
                -digits_value(body)
            } else {
                digits_value(body)
            }),
            body == unsigned_part(s@),
        decreases n - i,
    {
        let c: char = chars[i];
        assert(body[i - start] == c);
        if c < '0' || c > '9' {
            return None;
        }
        value = value * 10 + (c as u32 as i64 - 48);
        i = i + 1;
        proof {
            assert(body.take(i - start).drop_last() =~= body.take(i - 1 - start));
            assert(body.take(i - start).last() == c);
        }
        if value > 0x8000_0000 {
            proof {
                lemma_value_grows(body, i - start);
            }
            return None;
        }
    }
    assert(body.take(n - start) =~= body);
    assert forall|j: int| 0 <= j < body.len() implies is_digit(#[trigger] body[j]) by {
        assert(is_digit(chars@[j + start]));
    }
    let result: i64 = if negative {
        -value
    } else {
        value
    };
    if result > i32::MAX as i64 {
        None
    } else {
        Some(result as i32)
    }
}

/// Reading more digits does not make a number smaller.
proof fn lemma_value_grows(s: Seq<char>, k: int)
    requires
        0 <= k <= s.len(),
    ensures
        all_digits(s) ==> digits_value(s) >= digits_value(s.take(k)) >= 0,
    decreases s.len(),
{
    if all_digits(s) {
        assert(is_digit(s.last()));
        if k == s.len() {
            assert(s.take(k) =~= s);
            if s.len() > 1 {
                lemma_value_grows(s.drop_last(), 0);
                lemma_digits_drop(s);
                assert(s.drop_last().take(0).len() == 0);
            } else {
                assert(s.drop_last().len() == 0);
            }
        } else if s.len() > 1 {
            lemma_digits_drop(s);
            lemma_value_grows(s.drop_last(), k);
            assert(s.drop_last().take(k) =~= s.take(k));
        } else {
            assert(s.take(k).len() == 0);
            assert(s.drop_last().len() == 0);
        }
    }
}

proof fn lemma_digits_drop(s: Seq<char>)
    requires
        all_digits(s),
        s.len() > 1,
    ensures
        all_digits(s.drop_last()),
{
    assert forall|i: int| 0 <= i < s.len() - 1 implies is_digit(#[trigger] s.drop_last()[i]) by {
        assert(is_digit(s[i]));
    }
}

/// A written number reads back as itself.
pub proof fn lemma_decimal_reads_back(n: nat)
    ensures
        all_digits(decimal(n)),
        digits_value(decimal(n)) == n,
    decreases n,
{
    let s = decimal(n);
    assert(s.last() == digit((n % 10) as int));
    if n < 10 {
        assert(s.drop_last().len() == 0);
        assert(digits_value(s.drop_last()) == 0);
    } else {
        lemma_decimal_reads_back(n / 10);
        assert(s.drop_last() =~= decimal(n / 10));
        assert forall|i: int| 0 <= i < s.len() implies is_digit(#[trigger] s[i]) by {
            if i < s.len() - 1 {
                assert(is_digit(decimal(n / 10)[i]));
            }
        }
    }
}

/// A written number that fits reads back as itself, with its sign.
pub proof fn lemma_signed_reads_back(v: i32)
    ensures
        is_i32(signed_decimal(v as int)),
        number_value(signed_decimal(v as int)) == v,
{
    let s = signed_decimal(v as int);
    if v < 0 {
        lemma_decimal_reads_back((-(v as int)) as nat);
        assert(s.skip(1) =~= decimal((-(v as int)) as nat));
    } else {
        lemma_decimal_reads_back(v as nat);
        assert(is_digit(s[0]));
    }
}

// ---------------------------------------------------------------------------
// Searching, comparing, trimming
// ---------------------------------------------------------------------------

/// `needle` stands at place `i` of `hay`.
pub open spec fn stands_at(hay: Seq<char>, needle: Seq<char>, i: int) -> bool {
    0 <= i && i + needle.len() <= hay.len() && hay.subrange(i, i + needle.len()) == needle
}

/// `needle` stands somewhere in `hay`.
pub open spec fn has_part(hay: Seq<char>, needle: Seq<char>) -> bool {
    exists|i: int| #[trigger] stands_at(hay, needle, i)
}

/// Whether `needle` stands somewhere in `hay`.
pub fn contains(hay: &Vec<char>, needle: &Vec<char>) -> (r: bool)
    ensures
        r == has_part(hay@, needle@),
{
    let n: usize = hay.len();
    let m: usize = needle.len();
    if m > n {
        return false;
    }
    let mut i: usize = 0;
    while i <= n - m
        invariant
            n == hay@.len(),
            m == needle@.len(),
            m <= n,
            i <= n - m + 1,
            forall|k: int| 0 <= k < i ==> !#[trigger] stands_at(hay@, needle@, k),
        decreases n - m + 1 - i,
    {
        let mut j: usize = 0;
        while j < m && hay[i + j] == needle[j]
            invariant
                n == hay@.len(),
                m == needle@.len(),
                m <= n,
                i <= n - m,
                j <= m,
                forall|k: int| 0 <= k < j ==> hay@[i + k] == #[trigger] needle@[k],
            decreases m - j,
        {
            j = j + 1;
        }
        if j == m {
            assert(hay@.subrange(i as int, i + m) =~= needle@);
            assert(stands_at(hay@, needle@, i as int));
            return true;
        }
        proof {
            assert(hay@[i + j] != needle@[j as int]);
            if stands_at(hay@, needle@, i as int) {
                assert(hay@.subrange(i as int, i + m)[j as int] == hay@[i + j]);
            }
        }
        i = i + 1;
    }
    false
}

/// The lower-case form of an ASCII letter; other characters stay.
pub open spec fn ascii_lower(c: char) -> char {
    if 'A' <= c <= 'Z' {
        (c as int + 32) as char
    } else {
        c
    }
}

/// A text with its ASCII letters in lower case.
pub open spec fn ascii_lowercase(s: Seq<char>) -> Seq<char> {
    Seq::new(s.len(), |i: int| ascii_lower(s[i]))
}

fn lower_char(c: char) -> (r: char)
    ensures
        r == ascii_lower(c),
{
    if 'A' <= c && c <= 'Z' {
        (c as u8 + 32) as char
    } else {
        c
    }
}

/// Puts ASCII letters into lower case.
pub fn to_ascii_lower(s: &Vec<char>) -> (r: Vec<char>)
    ensures
        r@ == ascii_lowercase(s@),
{
    let mut out: Vec<char> = Vec::with_capacity(s.len());
    let mut i: usize = 0;
    while i < s.len()
        invariant
            i <= s@.len(),
            out@.len() == i,
            forall|k: int| 0 <= k < i ==> #[trigger] out@[k] == ascii_lower(s@[k]),
        decreases s@.len() - i,
    {
        out.push(lower_char(s[i]));
        i = i + 1;
    }
    assert(out@ =~= ascii_lowercase(s@));
    out
}

/// Whether two texts are the same.
pub fn same(a: &Vec<char>, b: &Vec<char>) -> (r: bool)
    ensures
        r == (a@ == b@),
{
    if a.len() != b.len() {
        return false;
    }
    let mut i: usize = 0;
    while i < a.len()
        invariant
            i <= a@.len(),
            a@.len() == b@.len(),
            forall|k: int| 0 <= k < i ==> a@[k] == b@[k],
        decreases a@.len() - i,
    {
        if a[i] != b[i] {
            return false;
        }
        i = i + 1;
    }
    assert(a@ =~= b@);
    true
}

/// The text without the white space at both ends.
pub open spec fn trimmed(s: Seq<char>) -> Seq<char>
    decreases s.len(),
{
    if s.len() > 0 && white_space(s.first()) {
        trimmed(s.drop_first())
    } else if s.len() > 0 && white_space(s.last()) {
        trimmed(s.drop_last())
    } else {
        s
    }
}

/// Takes the white space at both ends off.
pub fn trim(s: &str) -> (r: String)
    ensures
        r@ == trimmed(s@),
{
    let chars: Vec<char> = chars_of(s);
    let mut lo: usize = 0;
    let mut hi: usize = chars.len();
    assert(chars@.subrange(0, hi as int) =~= s@);
    while lo < hi && chars[lo].is_whitespace()
        invariant
            lo <= hi == chars@.len(),
            trimmed(chars@.subrange(lo as int, hi as int)) == trimmed(s@),
        ensures
            lo <= hi == chars@.len(),
            trimmed(chars@.subrange(lo as int, hi as int)) == trimmed(s@),
            lo < hi ==> !white_space(chars@[lo as int]),
        decreases hi - lo,
    {
        assert(chars@.subrange(lo as int, hi as int).drop_first() =~= chars@.subrange(
            lo + 1,
            hi as int,
        ));
        lo = lo + 1;
    }
    while lo < hi && chars[hi - 1].is_whitespace()
        invariant
            lo <= hi <= chars@.len(),
            lo < hi ==> !white_space(chars@[lo as int]),
            trimmed(chars@.subrange(lo as int, hi as int)) == trimmed(s@),
        ensures
            lo <= hi <= chars@.len(),
            lo < hi ==> !white_space(chars@[lo as int]),
            lo < hi ==> !white_space(chars@[hi - 1]),
            trimmed(chars@.subrange(lo as int, hi as int)) == trimmed(s@),
        decreases hi - lo,
    {
        assert(chars@.subrange(lo as int, hi as int).drop_last() =~= chars@.subrange(
            lo as int,
            hi - 1,
        ));
        hi = hi - 1;
    }
    text_of(&chars, lo, hi)
}

/// Nothing is left to trim: no white space at either end, and trimming again
/// changes nothing.
pub proof fn lemma_trimmed(s: Seq<char>)
    ensures
        trimmed(s).len() > 0 ==> !white_space(trimmed(s).first()) && !white_space(
            trimmed(s).last(),
        ),
        trimmed(trimmed(s)) == trimmed(s),
    decreases s.len(),
{
    if s.len() > 0 && white_space(s.first()) {
        lemma_trimmed(s.drop_first());
    } else if s.len() > 0 && white_space(s.last()) {
        lemma_trimmed(s.drop_last());
    }
}

// ---------------------------------------------------------------------------
// What the texts are made of
// ---------------------------------------------------------------------------

/// A capital letter from `A` to `Z` becomes the small one, 32 places on; every
/// other character stays. What comes out is no capital letter.
pub proof fn lemma_ascii_lower(c: char)
    ensures
        65 <= c as int <= 90 ==> ascii_lower(c) as int == c as int + 32,
        !(65 <= c as int <= 90) ==> ascii_lower(c) == c,
        !(65 <= ascii_lower(c) as int <= 90),
        ascii_lower(ascii_lower(c)) == ascii_lower(c),
{
}

/// Each character goes into lower case by itself.
pub proof fn lemma_ascii_lowercase_parts(a: Seq<char>, b: Seq<char>, c: char)
    ensures
        ascii_lowercase(a).len() == a.len(),
        ascii_lowercase(a + b) == ascii_lowercase(a) + ascii_lowercase(b),
        ascii_lowercase(ascii_lowercase(a)) == ascii_lowercase(a),
        ascii_lowercase(seq![c]).len() == 1,
        65 <= c as int <= 90 ==> ascii_lowercase(seq![c])[0] as int == c as int + 32,
        !(65 <= c as int <= 90) ==> ascii_lowercase(seq![c])[0] == c,
{
    assert(ascii_lowercase(a + b) =~= ascii_lowercase(a) + ascii_lowercase(b));
    assert forall|i: int| 0 <= i < a.len() implies ascii_lower(ascii_lower(a[i])) == ascii_lower(
        a[i],
    ) by {
        lemma_ascii_lower(a[i]);
    }
    assert(ascii_lowercase(ascii_lowercase(a)) =~= ascii_lowercase(a));
    assert(seq![c][0] == c);
}

/// The characters that count as white space, by their code points.
pub proof fn lemma_white_space(c: char)
    ensures
        white_space(c) <==> {
            let k = c as int;
            9 <= k <= 13 || k == 32 || k == 133 || k == 160 || k == 5760 || 8192 <= k <= 8202 || k
                == 8232 || k == 8233 || k == 8239 || k == 8287 || k == 12288
        },
{
}

/// A number below ten is written as one digit, and a larger one as its tenth part
/// and one digit more.
pub proof fn lemma_decimal_digits(n: nat, d: nat)
    requires
        d < 10,
    ensures
        decimal(d).len() == 1,
        decimal(d)[0] as int == 48 + d,
        n > 0 ==> decimal((10 * n + d) as nat) == decimal(n) + decimal(d),
{
    if n > 0 {
        let m = (10 * n + d) as nat;
        assert(m / 10 == n && m % 10 == d) by (nonlinear_arith)
            requires
                m == 10 * n + d,
                d < 10,
        ;
        assert(decimal(m) =~= decimal(n) + decimal(d));
    }
}

/// There is no digit too many: a number other than zero does not start with one.
pub proof fn lemma_decimal_starts(n: nat)
    ensures
        decimal(n).len() > 0,
        n > 0 ==> decimal(n)[0] != '0',
    decreases n,
{
    if n >= 10 {
        lemma_decimal_starts(n / 10);
    }
}

/// A negative number is written as a minus sign and the number without it, another
/// one without a sign.
pub proof fn lemma_signed_decimal(n: nat)
    ensures
        signed_decimal(n as int) == decimal(n),
        n > 0 ==> signed_decimal(-n) == seq!['-'] + decimal(n),
{
}

/// A further digit makes the value ten times as large and adds the digit.
pub proof fn lemma_further_digit(s: Seq<char>, c: char)
    ensures
        digits_value(seq![]) == 0,
        digits_value(s.push(c)) == 10 * digits_value(s) + (c as int - 48),
{
    assert(s.push(c).drop_last() =~= s);
}

/// A number may have one sign in front. A minus sign turns it round, a plus sign
/// and none leave it.
pub proof fn lemma_signs(s: Seq<char>)
    requires
        s.len() == 0 || (s[0] != '-' && s[0] != '+'),
    ensures
        number_value(s) == digits_value(s),
        number_value(seq!['-'] + s) == -digits_value(s),
        number_value(seq!['+'] + s) == digits_value(s),
{
    assert((seq!['-'] + s).skip(1) =~= s);
    assert((seq!['+'] + s).skip(1) =~= s);
}

/// What is read as a number: at least one character, each from `0` to `9`, with or
/// without one sign in front, and a value of 32 bits with a sign.
pub proof fn lemma_numbers(s: Seq<char>)
    ensures
        is_i32(s) <==> {
            &&& -0x8000_0000 <= number_value(s) <= 0x7fff_ffff
            &&& s.len() > 0
            &&& s.len() == 1 ==> 48 <= s[0] as int <= 57
            &&& 48 <= s[0] as int <= 57 || s[0] == '-' || s[0] == '+'
            &&& forall|i: int| 1 <= i < s.len() ==> 48 <= (#[trigger] s[i]) as int <= 57
        },
{
    let rest = unsigned_part(s);
    if s.len() > 0 && (s[0] == '-' || s[0] == '+') {
        assert(rest == s.skip(1));
        if is_i32(s) {
            assert forall|i: int| 1 <= i < s.len() implies 48 <= (#[trigger] s[i]) as int <= 57 by {
                assert(is_digit(rest[i - 1]));
            }
        } else if s.len() > 1 && (forall|i: int|
            1 <= i < s.len() ==> 48 <= (#[trigger] s[i]) as int <= 57) {
            assert forall|i: int| 0 <= i < rest.len() implies is_digit(#[trigger] rest[i]) by {
                assert(rest[i] == s[i + 1]);
            }
        }
    } else {
        assert(rest == s);
        if is_i32(s) {
            assert(is_digit(s[0]));
        } else if s.len() > 0 && 48 <= s[0] as int <= 57 && (forall|i: int|
            1 <= i < s.len() ==> 48 <= (#[trigger] s[i]) as int <= 57) {
            assert forall|i: int| 0 <= i < s.len() implies is_digit(#[trigger] s[i]) by {}
        }
    }
}

/// A text has a part just where it is something, the part and something.
pub proof fn lemma_has_part(before: Seq<char>, part: Seq<char>, after: Seq<char>)
    ensures
        has_part(before + part + after, part),
{
    let hay = before + part + after;
    let i = before.len() as int;
    assert(hay.subrange(i, i + part.len()) =~= part);
    assert(stands_at(hay, part, i));
}

/// A part of a text is found at a place where its characters follow each other.
pub proof fn lemma_part_found(hay: Seq<char>, part: Seq<char>) -> (i: int)
    requires
        has_part(hay, part),
    ensures
        0 <= i <= hay.len() - part.len(),
        forall|k: int| 0 <= k < part.len() ==> hay[i + k] == #[trigger] part[k],
        hay == hay.take(i) + part + hay.skip(i + part.len()),
{
    let i = choose|i: int| #[trigger] stands_at(hay, part, i);
    let cut = hay.subrange(i, i + part.len());
    assert forall|k: int| 0 <= k < part.len() implies hay[i + k] == #[trigger] part[k] by {
        assert(cut[k] == hay[i + k]);
    }
    assert(hay =~= hay.take(i) + part + hay.skip(i + part.len()));
    i
}

/// Trimming takes white space off at both ends and nothing else: what is left,
/// with white space in front and behind, is the text.
pub proof fn lemma_trimmed_is_part(s: Seq<char>) -> (r: (Seq<char>, Seq<char>))
    ensures
        s == r.0 + trimmed(s) + r.1,
        forall|i: int| 0 <= i < r.0.len() ==> white_space(#[trigger] r.0[i]),
        forall|i: int| 0 <= i < r.1.len() ==> white_space(#[trigger] r.1[i]),
    decreases s.len(),
{
    if s.len() > 0 && white_space(s.first()) {
        let (a, b) = lemma_trimmed_is_part(s.drop_first());
        let front = seq![s.first()] + a;
        assert(s =~= seq![s.first()] + s.drop_first());
        assert(s =~= front + trimmed(s) + b);
        (front, b)
    } else if s.len() > 0 && white_space(s.last()) {
        let (a, b) = lemma_trimmed_is_part(s.drop_last());
        let back = b.push(s.last());
        assert(s =~= s.drop_last().push(s.last()));
        assert(s =~= a + trimmed(s) + back);
        (a, back)
    } else {
        assert(s =~= seq![] + trimmed(s) + seq![]);
        (seq![], seq![])
    }
}

} // verus!
