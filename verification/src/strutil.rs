//! Character classes and small string routines that the value objects, the
//! codec and the invocation engine share: blank tests, substring search,
//! decimal formatting and parsing.

use vstd::prelude::*;

verus! {

// --- character classes -------------------------------------------------

/// An ASCII letter.
pub open spec fn spec_is_ascii_alpha(c: char) -> bool {
    (97 <= c as u32 && c as u32 <= 122) || (65 <= c as u32 && c as u32 <= 90)
}

/// An ASCII decimal digit.
pub open spec fn spec_is_ascii_digit(c: char) -> bool {
    48 <= c as u32 && c as u32 <= 57
}

/// An ASCII letter or digit.
pub open spec fn spec_is_ascii_alphanumeric(c: char) -> bool {
    spec_is_ascii_alpha(c) || spec_is_ascii_digit(c)
}

/// A character with the Unicode `White_Space` property, the class that
/// `str::trim` removes.
pub open spec fn spec_is_whitespace(c: char) -> bool {
    let u = c as u32;
    (9 <= u && u <= 13) || u == 32 || u == 0x85 || u == 0xA0 || u == 0x1680
        || (0x2000 <= u && u <= 0x200A) || u == 0x2028 || u == 0x2029 || u == 0x202F
        || u == 0x205F || u == 0x3000
}

/// A string that is empty or all whitespace, so that trimming leaves nothing.
pub open spec fn spec_is_blank(s: Seq<char>) -> bool {
    forall|i: int| 0 <= i < s.len() ==> spec_is_whitespace(#[trigger] s[i])
}

pub fn is_ascii_alpha_char(c: char) -> (r: bool)
    ensures
        r == spec_is_ascii_alpha(c),
{
    let u = c as u32;
    (97 <= u && u <= 122) || (65 <= u && u <= 90)
}

pub fn is_ascii_digit_char(c: char) -> (r: bool)
    ensures
        r == spec_is_ascii_digit(c),
{
    let u = c as u32;
    48 <= u && u <= 57
}

pub fn is_ascii_alphanumeric_char(c: char) -> (r: bool)
    ensures
        r == spec_is_ascii_alphanumeric(c),
{
    is_ascii_alpha_char(c) || is_ascii_digit_char(c)
}

pub fn is_whitespace_char(c: char) -> (r: bool)
    ensures
        r == spec_is_whitespace(c),
{
    let u = c as u32;
    (9 <= u && u <= 13) || u == 32 || u == 0x85 || u == 0xA0 || u == 0x1680
        || (0x2000 <= u && u <= 0x200A) || u == 0x2028 || u == 0x2029 || u == 0x202F
        || u == 0x205F || u == 0x3000
}

/// Whether the string is empty or all whitespace.
pub fn is_blank(s: &str) -> (r: bool)
    ensures
        r == spec_is_blank(s@),
{
    let n = s.unicode_len();
    let mut i: usize = 0;
    while i < n
        invariant
            n == s@.len(),
            0 <= i <= n,
            forall|j: int| 0 <= j < i ==> spec_is_whitespace(#[trigger] s@[j]),
        decreases n - i,
    {
        if !is_whitespace_char(s.get_char(i)) {
            return false;
        }
        i = i + 1;
    }
    true
}

// --- string comparison and search --------------------------------------

/// Whether two strings hold the same characters.
pub fn str_eq(a: &str, b: &str) -> (r: bool)
    ensures
        r == (a@ == b@),
{
    let na = a.unicode_len();
    let nb = b.unicode_len();
    if na != nb {
        assert(a@ != b@);
        return false;
    }
    let mut i: usize = 0;
    while i < na
        invariant
            na == a@.len(),
            na == b@.len(),
            0 <= i <= na,
            forall|j: int| 0 <= j < i ==> a@[j] == b@[j],
        decreases na - i,
    {
        if a.get_char(i) != b.get_char(i) {
            assert(a@ != b@);
            return false;
        }
        i = i + 1;
    }
    assert(a@ =~= b@);
    true
}

/// Whether `needle` occurs in `hay` as a contiguous run of characters.
pub open spec fn spec_contains_sub(hay: Seq<char>, needle: Seq<char>) -> bool {
    exists|i: int|
        0 <= i && i + needle.len() <= hay.len() && #[trigger] hay.subrange(i, i + needle.len())
            == needle
}

fn matches_at(hay: &str, needle: &str, at: usize) -> (r: bool)
    requires
        at + needle@.len() <= hay@.len(),
    ensures
        r == (hay@.subrange(at as int, at + needle@.len()) == needle@),
{
    let nh = hay.unicode_len();
    let n = needle.unicode_len();
    let mut j: usize = 0;
    while j < n
        invariant
            n == needle@.len(),
            nh == hay@.len(),
            at + n <= nh,
            0 <= j <= n,
            forall|k: int| 0 <= k < j ==> hay@[at + k] == needle@[k],
        decreases n - j,
    {
        if hay.get_char(at + j) != needle.get_char(j) {
            assert(hay@.subrange(at as int, at + needle@.len())[j as int] == hay@[at + j]);
            return false;
        }
        j = j + 1;
    }
    assert(hay@.subrange(at as int, at + needle@.len()) =~= needle@);
    true
}

/// Substring search, the semantics of `str::contains` for literal needles.
pub fn contains_sub(hay: &str, needle: &str) -> (r: bool)
    ensures
        r == spec_contains_sub(hay@, needle@),
{
    let nh = hay.unicode_len();
    let nn = needle.unicode_len();
    if nn > nh {
        return false;
    }
    if nn == 0 {
        proof {
            assert(hay@.subrange(0, 0 + needle@.len() as int) =~= needle@);
        }
        return true;
    }
    let mut i: usize = 0;
    while i <= nh - nn
        invariant
            nh == hay@.len(),
            nn == needle@.len(),
            1 <= nn <= nh,
            0 <= i <= nh - nn + 1,
            forall|m: int|
                0 <= m < i ==> #[trigger] hay@.subrange(m, m + needle@.len()) != needle@,
        decreases nh - i,
    {
        if matches_at(hay, needle, i) {
            return true;
        }
        i = i + 1;
    }
    false
}

// --- decimal formatting -------------------------------------------------

/// The digit character of a value below ten.
pub open spec fn spec_digit_char(d: int) -> char {
    if d == 0 {
        '0'
    } else if d == 1 {
        '1'
    } else if d == 2 {
        '2'
    } else if d == 3 {
        '3'
    } else if d == 4 {
        '4'
    } else if d == 5 {
        '5'
    } else if d == 6 {
        '6'
    } else if d == 7 {
        '7'
    } else if d == 8 {
        '8'
    } else {
        '9'
    }
}

/// The decimal text of a natural number, without sign or leading zeros.
pub open spec fn spec_dec_digits(n: nat) -> Seq<char>
    decreases n,
{
    if n < 10 {
        seq![spec_digit_char(n as int)]
    } else {
        spec_dec_digits(n / 10).push(spec_digit_char((n % 10) as int))
    }
}

fn digit_char(d: u32) -> (c: char)
    requires
        d < 10,
    ensures
        c == spec_digit_char(d as int),
{
    if d == 0 {
        '0'
    } else if d == 1 {
        '1'
    } else if d == 2 {
        '2'
    } else if d == 3 {
        '3'
    } else if d == 4 {
        '4'
    } else if d == 5 {
        '5'
    } else if d == 6 {
        '6'
    } else if d == 7 {
        '7'
    } else if d == 8 {
        '8'
    } else {
        '9'
    }
}

/// Relies on `String::push`: appends exactly the one character.
#[verifier::external_body]
pub fn string_push(s: &mut String, c: char)
    ensures
        final(s)@ == old(s)@.push(c),
{
    s.push(c);
}

/// The decimal text of a 32-bit value.
#[verifier::rlimit(100)]
pub fn u32_to_string(n: u32) -> (s: String)
    ensures
        s@ == spec_dec_digits(n as nat),
{
    let mut digits: Vec<char> = Vec::new();
    let mut m: u32 = n;
    loop
        invariant_except_break
            spec_dec_digits(n as nat) == spec_dec_digits(m as nat) + digits@.reverse(),
        ensures
            spec_dec_digits(n as nat) == digits@.reverse(),
        decreases m,
    {
        let d = digit_char(m % 10);
        let ghost prev_rev = digits@.reverse();
        digits.push(d);
        proof {
            assert(digits@.reverse() =~= seq![d] + prev_rev);
        }
        if m < 10 {
            proof {
                assert(spec_dec_digits(m as nat) == seq![spec_digit_char(m as int)]);
                assert(spec_dec_digits(m as nat) + prev_rev =~= seq![d] + prev_rev);
            }
            break;
        }
        proof {
            let q = (m / 10) as nat;
            assert(spec_dec_digits(m as nat) == spec_dec_digits(q).push(
                spec_digit_char((m % 10) as int),
            ));
            assert(spec_dec_digits(q).push(d) + prev_rev =~= spec_dec_digits(q) + (seq![d]
                + prev_rev));
        }
        m = m / 10;
    }
    assert(spec_dec_digits(n as nat) == digits@.reverse());
    let mut s = String::new();
    let k = digits.len();
    let mut i: usize = 0;
    while i < k
        invariant
            k == digits@.len(),
            0 <= i <= k,
            s@ =~= digits@.reverse().subrange(0, i as int),
        decreases k - i,
    {
        let c = digits[k - 1 - i];
        assert(digits@.reverse()[i as int] == digits@[k - 1 - i]);
        string_push(&mut s, c);
        assert(s@ =~= digits@.reverse().subrange(0, i + 1));
        i = i + 1;
    }
    assert(s@ =~= digits@.reverse());
    s
}

/// The decimal text of an 8-bit value.
pub fn u8_to_string(n: u8) -> (s: String)
    ensures
        s@ == spec_dec_digits(n as nat),
{
    u32_to_string(n as u32)
}

// --- decimal parsing ----------------------------------------------------

/// Every character is an ASCII digit.
pub open spec fn spec_all_digits(s: Seq<char>) -> bool {
    forall|i: int| 0 <= i < s.len() ==> spec_is_ascii_digit(#[trigger] s[i])
}

/// The value of a run of digit characters.
pub open spec fn spec_digits_value(s: Seq<char>) -> nat
    decreases s.len(),
{
    if s.len() == 0 {
        0
    } else {
        spec_digits_value(s.drop_last()) * 10 + (s.last() as u32 - 48) as nat
    }
}

/// The digit run of an unsigned decimal: the text with a leading `+`
/// stripped when one is allowed.
pub open spec fn spec_uint_body(s: Seq<char>, allow_plus: bool) -> Seq<char> {
    if allow_plus && s.len() > 0 && s[0] == '+' {
        s.drop_first()
    } else {
        s
    }
}

/// The unsigned decimal reading of a string: an optional leading `+` when
/// `allow_plus` is set (as `u8::from_str` accepts), then one or more digits,
/// with a value of at most `max`. Anything else reads as nothing.
pub open spec fn spec_parse_uint(s: Seq<char>, max: nat, allow_plus: bool) -> Option<nat> {
    let t = spec_uint_body(s, allow_plus);
    if t.len() == 0 || !spec_all_digits(t) {
        None
    } else if spec_digits_value(t) > max {
        None
    } else {
        Some(spec_digits_value(t))
    }
}

proof fn lemma_digits_value_prefix_monotonic(s: Seq<char>, i: int)
    requires
        0 <= i <= s.len(),
    ensures
        spec_digits_value(s.subrange(0, i)) <= spec_digits_value(s),
    decreases s.len() - i,
{
    if i < s.len() {
        lemma_digits_value_prefix_monotonic(s, i + 1);
        let a = s.subrange(0, i);
        let b = s.subrange(0, i + 1);
        assert(b.drop_last() =~= a);
        assert(spec_digits_value(b) == spec_digits_value(a) * 10 + (b.last() as u32 - 48) as nat);
        assert(spec_digits_value(a) <= spec_digits_value(a) * 10) by (nonlinear_arith);
    } else {
        assert(s.subrange(0, i) =~= s);
    }
}

fn parse_uint(s: &str, max: u64, allow_plus: bool) -> (r: Option<u64>)
    requires
        max < 0x8000_0000_0000_0000,
    ensures
        match r {
            Some(v) => spec_parse_uint(s@, max as nat, allow_plus) == Some(v as nat),
            None => spec_parse_uint(s@, max as nat, allow_plus) is None,
        },
{
    let n = s.unicode_len();
    let mut start: usize = 0;
    if allow_plus && n > 0 && s.get_char(0) == '+' {
        start = 1;
    }
    let ghost t = spec_uint_body(s@, allow_plus);
    assert(t =~= s@.subrange(start as int, n as int));
    if start == n {
        return None;
    }
    let mut acc: u64 = 0;
    let mut i: usize = start;
    while i < n
        invariant
            n == s@.len(),
            start <= i <= n,
            t == spec_uint_body(s@, allow_plus),
            t =~= s@.subrange(start as int, n as int),
            max < 0x8000_0000_0000_0000,
            spec_all_digits(t.subrange(0, i - start)),
            acc == spec_digits_value(t.subrange(0, i - start)),
            acc <= max,
        decreases n - i,
    {
        let c = s.get_char(i);
        if !is_ascii_digit_char(c) {
            proof {
                assert(t[i - start] == c);
                assert(!spec_is_ascii_digit(t[i - start]));
            }
            return None;
        }
        let d = (c as u32 - 48) as u64;
        let ghost pre = t.subrange(0, i - start);
        let ghost cur = t.subrange(0, i + 1 - start);
        proof {
            assert(cur.drop_last() =~= pre);
            assert(cur.last() == c);
        }
        let over = acc > max / 10 || (acc == max / 10 && d > max % 10);
        proof {
            assert(over == (acc * 10 + d > max)) by (nonlinear_arith)
                requires
                    d < 10,
                    over == (acc > max / 10 || (acc == max / 10 && d > max % 10)),
                    max < 0x8000_0000_0000_0000,
            ;
        }
        if over {
            // The prefix alone already exceeds the bound, so the whole
            // reading does too, whenever the rest is digits at all.
            proof {
                if spec_all_digits(t) {
                    lemma_digits_value_prefix_monotonic(t, i + 1 - start);
                    assert(spec_digits_value(cur) == spec_digits_value(pre) * 10 + d);
                    assert(spec_digits_value(t) > max as nat);
                }
            }
            return None;
        }
        acc = acc * 10 + d;
        proof {
            assert(spec_digits_value(cur) == spec_digits_value(pre) * 10 + d);
            assert(spec_all_digits(cur)) by {
                assert(forall|j: int| 0 <= j < cur.len() ==> cur[j] == #[trigger] t[j]);
            }
        }
        i = i + 1;
    }
    assert(t.subrange(0, n - start) =~= t);
    Some(acc)
}

/// Decimal text consists of digits: at least one, and never a sign.
pub proof fn lemma_dec_digits_are_digits(n: nat)
    ensures
        spec_dec_digits(n).len() >= 1,
        spec_all_digits(spec_dec_digits(n)),
    decreases n,
{
    if n < 10 {
        assert(spec_is_ascii_digit(spec_digit_char(n as int)));
        assert(forall|i: int|
            0 <= i < spec_dec_digits(n).len() ==> spec_is_ascii_digit(
                #[trigger] spec_dec_digits(n)[i],
            ));
    } else {
        lemma_dec_digits_are_digits(n / 10);
        let s = spec_dec_digits(n / 10);
        let t = spec_dec_digits(n);
        assert(t == s.push(spec_digit_char((n % 10) as int)));
        assert(spec_is_ascii_digit(spec_digit_char((n % 10) as int)));
        assert(forall|i: int| 0 <= i < t.len() ==> spec_is_ascii_digit(#[trigger] t[i]));
    }
}

/// Reading decimal text back gives the value it was printed from.
pub proof fn lemma_dec_digits_value(n: nat)
    ensures
        spec_digits_value(spec_dec_digits(n)) == n,
    decreases n,
{
    if n < 10 {
        let s = spec_dec_digits(n);
        assert(s.drop_last() =~= Seq::<char>::empty());
        assert(spec_digits_value(Seq::<char>::empty()) == 0);
        assert(spec_digit_char(n as int) as u32 == n + 48);
    } else {
        lemma_dec_digits_value(n / 10);
        let s = spec_dec_digits(n / 10);
        let t = spec_dec_digits(n);
        assert(t.drop_last() =~= s);
        assert(t.last() == spec_digit_char((n % 10) as int));
        assert(spec_digit_char((n % 10) as int) as u32 == n % 10 + 48);
        assert(spec_digits_value(t) == (n / 10) * 10 + n % 10);
        assert(n == (n / 10) * 10 + n % 10) by (nonlinear_arith);
    }
}

/// Decimal text of a small value reads back as that value, under the
/// `u8::from_str` rules.
pub proof fn lemma_dec_digits_parse(n: nat)
    requires
        n <= 255,
    ensures
        spec_parse_uint(spec_dec_digits(n), 255, true) == Some(n),
{
    lemma_dec_digits_are_digits(n);
    lemma_dec_digits_value(n);
    let s = spec_dec_digits(n);
    assert(spec_is_ascii_digit(s[0]));
    assert(s[0] != '+') by {
        assert(48 <= s[0] as u32 && s[0] as u32 <= 57);
        assert('+' as u32 == 43);
    }
    assert(spec_uint_body(s, true) == s);
}

/// Decimal text reads back as its value under the plain number rules too.
pub proof fn lemma_dec_digits_parse_plain(n: nat, max: nat)
    requires
        n <= max,
    ensures
        spec_parse_uint(spec_dec_digits(n), max, false) == Some(n),
{
    lemma_dec_digits_are_digits(n);
    lemma_dec_digits_value(n);
    assert(spec_uint_body(spec_dec_digits(n), false) == spec_dec_digits(n));
}

/// Reads a `u8` the way `str::parse::<u8>` does, allowing a leading `+`.
pub fn parse_u8_from_str(s: &str) -> (r: Option<u8>)
    ensures
        match r {
            Some(v) => spec_parse_uint(s@, 255, true) == Some(v as nat),
            None => spec_parse_uint(s@, 255, true) is None,
        },
{
    match parse_uint(s, 255, true) {
        Some(v) => Some(v as u8),
        None => None,
    }
}

/// Reads an unsigned decimal with no sign at all, the shape an integral JSON
/// number takes, bounded by `max`.
pub fn parse_uint_plain(s: &str, max: u64) -> (r: Option<u64>)
    requires
        max < 0x8000_0000_0000_0000,
    ensures
        match r {
            Some(v) => spec_parse_uint(s@, max as nat, false) == Some(v as nat),
            None => spec_parse_uint(s@, max as nat, false) is None,
        },
{
    parse_uint(s, max, false)
}

} // verus!
