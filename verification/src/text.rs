//! Character-level text helpers shared by the tools.

use vstd::prelude::*;

verus! {

/// Appends one character to a string.
///
/// Trusted: calls `String::push`, which std documents as appending the given
/// `char` to the end of the string.
#[verifier::external_body]
pub(crate) fn push_char(s: &mut String, c: char)
    ensures
        final(s)@ == old(s)@.push(c),
{
    s.push(c);
}

/// Appends a string slice to a string.
///
/// Trusted: calls `String::push_str`, which std documents as appending the
/// given slice to the end of the string.
#[verifier::external_body]
pub(crate) fn push_str(s: &mut String, t: &str)
    ensures
        final(s)@ == old(s)@ + t@,
{
    s.push_str(t);
}

/// A fresh string holding the characters of `t`.
pub fn owned(t: &str) -> (r: String)
    ensures
        r@ == t@,
{
    t.to_owned()
}

/// Whether two string slices hold the same characters.
pub fn same_text(a: &str, b: &str) -> (r: bool)
    ensures
        r == (a@ == b@),
{
    let x = a.to_owned();
    let y = b.to_owned();
    x == y
}


/// The characters of a string slice, in order.
pub fn chars_of(s: &str) -> (r: Vec<char>)
    ensures
        r@ == s@,
{
    broadcast use vstd::string::group_string_axioms;
    let mut v: Vec<char> = Vec::new();
    for c in it: s.chars()
        invariant
            v@ == it.seq().take(it.index() as int),
            it.seq() == s@,
    {
        v.push(c);
    }
    v
}


/// A string holding the given characters.
pub fn string_of(cs: &Vec<char>) -> (r: String)
    ensures
        r@ == cs@,
{
    let mut s = String::new();
    let mut i: usize = 0;
    while i < cs.len()
        invariant
            i <= cs.len(),
            s@ == cs@.take(i as int),
        decreases cs.len() - i,
    {
        push_char(&mut s, cs[i]);
        i = i + 1;
        assert(cs@.take(i as int) == cs@.take(i - 1 as int).push(cs@[i - 1]));
    }
    assert(cs@.take(i as int) == cs@);
    s
}

/// The number of bytes in the UTF-8 encoding of `c`.
pub open spec fn char_width(c: char) -> nat {
    if (c as u32) < 0x80 {
        1
    } else if (c as u32) < 0x800 {
        2
    } else if (c as u32) < 0x10000 {
        3
    } else {
        4
    }
}

/// The number of bytes in the UTF-8 encoding of `s`: what `str::len` gives.
pub open spec fn byte_len(s: Seq<char>) -> nat
    decreases s.len(),
{
    if s.len() == 0 {
        0
    } else {
        byte_len(s.drop_last()) + char_width(s.last())
    }
}

/// The UTF-8 width of one character, as `char::len_utf8` gives it.
pub fn utf8_width(c: char) -> (r: usize)
    ensures
        r == char_width(c),
        1 <= r <= 4,
{
    let v = c as u32;
    if v < 0x80 {
        1
    } else if v < 0x800 {
        2
    } else if v < 0x10000 {
        3
    } else {
        4
    }
}

/// `byte_len` counts the bytes of vstd's UTF-8 encoding of the characters,
/// which is what `str::len` returns.
pub proof fn lemma_byte_len_is_utf8_len(s: Seq<char>)
    ensures
        byte_len(s) == vstd::utf8::encode_utf8(s).len(),
    decreases s.len(),
{
    if s.len() > 0 {
        let rest = s.drop_first();
        lemma_byte_len_is_utf8_len(rest);
        lemma_byte_len_concat(seq![s[0]], rest);
        assert(seq![s[0]] + rest == s);
        assert(seq![s[0]].drop_last() == Seq::<char>::empty());
        assert(byte_len(Seq::<char>::empty()) == 0);
        assert(byte_len(seq![s[0]]) == char_width(s[0]));
        vstd::utf8::char_is_scalar(s[0]);
        let v = s[0] as u32;
        assert(vstd::utf8::encode_scalar(v).len() == char_width(s[0]));
        assert(vstd::utf8::encode_utf8(s) == vstd::utf8::encode_scalar(v) + vstd::utf8::encode_utf8(
            rest,
        ));
    }
}

/// Every character takes one to four bytes.
pub proof fn lemma_byte_len_bounds(s: Seq<char>)
    ensures
        s.len() <= byte_len(s) <= 4 * s.len(),
    decreases s.len(),
{
    if s.len() > 0 {
        lemma_byte_len_bounds(s.drop_last());
    }
}

/// The bytes of a prefix grow by the width of the next character.
pub proof fn lemma_byte_len_take_step(s: Seq<char>, k: int)
    requires
        0 <= k < s.len(),
    ensures
        byte_len(s.take(k + 1)) == byte_len(s.take(k)) + char_width(s[k]),
{
    assert(s.take(k + 1).drop_last() == s.take(k));
}

/// Longer prefixes never take fewer bytes.
pub proof fn lemma_byte_len_take_monotonic(s: Seq<char>, j: int, k: int)
    requires
        0 <= j <= k <= s.len(),
    ensures
        byte_len(s.take(j)) <= byte_len(s.take(k)),
    decreases k - j,
{
    if j < k {
        lemma_byte_len_take_step(s, k - 1);
        lemma_byte_len_take_monotonic(s, j, k - 1);
    }
}

/// The bytes of two strings put together.
pub proof fn lemma_byte_len_concat(a: Seq<char>, b: Seq<char>)
    ensures
        byte_len(a + b) == byte_len(a) + byte_len(b),
    decreases b.len(),
{
    if b.len() == 0 {
        assert(a + b == a);
    } else {
        assert((a + b).drop_last() == a + b.drop_last());
        lemma_byte_len_concat(a, b.drop_last());
    }
}

/// The largest number of leading characters of `s` among the first `n` whose
/// encoding fits in `budget` bytes.
pub open spec fn fitting_among(s: Seq<char>, budget: int, n: int) -> nat
    decreases n,
{
    if n <= 0 {
        0
    } else if byte_len(s.take(n)) <= budget {
        n as nat
    } else {
        fitting_among(s, budget, n - 1)
    }
}

/// The largest number of leading characters of `s` whose encoding fits in
/// `budget` bytes. `budget` bytes into `s`, `str::floor_char_boundary` gives
/// the byte length of exactly this prefix.
pub open spec fn fitting_prefix(s: Seq<char>, budget: int) -> nat {
    fitting_among(s, budget, s.len() as int)
}

proof fn lemma_fitting_among(s: Seq<char>, budget: int, n: int)
    requires
        0 <= budget,
        0 <= n <= s.len(),
    ensures
        fitting_among(s, budget, n) <= n,
        byte_len(s.take(fitting_among(s, budget, n) as int)) <= budget,
        forall|k: int|
            fitting_among(s, budget, n) < k <= n ==> byte_len(#[trigger] s.take(k)) > budget,
    decreases n,
{
    if n > 0 && byte_len(s.take(n)) > budget {
        lemma_fitting_among(s, budget, n - 1);
    }
    if n == 0 {
        assert(s.take(0) =~= Seq::<char>::empty());
    }
}

/// `fitting_prefix` is the longest prefix that fits: it fits, and one more
/// character would not.
pub proof fn lemma_fitting_prefix(s: Seq<char>, budget: int)
    requires
        0 <= budget,
    ensures
        fitting_prefix(s, budget) <= s.len(),
        byte_len(s.take(fitting_prefix(s, budget) as int)) <= budget,
        forall|k: int|
            fitting_prefix(s, budget) < k <= s.len() ==> byte_len(#[trigger] s.take(k)) > budget,
{
    lemma_fitting_among(s, budget, s.len() as int);
}

/// A prefix with the longest-fitting property is `fitting_prefix`.
pub proof fn lemma_fitting_prefix_unique(s: Seq<char>, budget: int, k: int)
    requires
        0 <= budget,
        0 <= k <= s.len(),
        byte_len(s.take(k)) <= budget,
        k < s.len() ==> byte_len(s.take(k + 1)) > budget,
    ensures
        fitting_prefix(s, budget) == k,
{
    lemma_fitting_prefix(s, budget);
    let f = fitting_prefix(s, budget) as int;
    if f < k {
        assert(byte_len(s.take(k)) > budget);
    } else if k < f {
        lemma_byte_len_take_monotonic(s, k + 1, f);
    }
}

/// Counts the leading characters of `cs` that fit in `budget` bytes, and
/// their bytes.
pub fn count_fitting(cs: &Vec<char>, budget: usize) -> (r: (usize, usize))
    ensures
        r.0 == fitting_prefix(cs@, budget as int),
        r.1 == byte_len(cs@.take(r.0 as int)),
{
    let mut k: usize = 0;
    let mut bytes: usize = 0;
    proof {
        assert(cs@.take(0) =~= Seq::<char>::empty());
    }
    while k < cs.len()
        invariant
            k <= cs.len(),
            bytes == byte_len(cs@.take(k as int)),
            bytes <= budget,
        decreases cs.len() - k,
    {
        let w = utf8_width(cs[k]);
        proof {
            lemma_byte_len_take_step(cs@, k as int);
        }
        if w > budget - bytes {
            proof {
                lemma_fitting_prefix_unique(cs@, budget as int, k as int);
            }
            return (k, bytes);
        }
        bytes = bytes + w;
        k = k + 1;
    }
    proof {
        lemma_fitting_prefix_unique(cs@, budget as int, k as int);
    }
    (k, bytes)
}

/// The byte length of a string.
pub fn byte_length(cs: &Vec<char>) -> (r: usize)
    requires
        byte_len(cs@) <= usize::MAX,
    ensures
        r == byte_len(cs@),
{
    let mut k: usize = 0;
    let mut bytes: usize = 0;
    proof {
        assert(cs@.take(0) =~= Seq::<char>::empty());
    }
    while k < cs.len()
        invariant
            k <= cs.len(),
            bytes == byte_len(cs@.take(k as int)),
            byte_len(cs@) <= usize::MAX,
        decreases cs.len() - k,
    {
        proof {
            lemma_byte_len_take_step(cs@, k as int);
            lemma_byte_len_take_monotonic(cs@, k + 1, cs@.len() as int);
            assert(cs@.take(cs@.len() as int) == cs@);
        }
        bytes = bytes + utf8_width(cs[k]);
        k = k + 1;
    }
    assert(cs@.take(k as int) == cs@);
    bytes
}

/// Cuts `string` to at most `max_length` bytes without splitting a
/// character: the whole string when it fits, else its longest prefix that
/// fits.
pub fn truncate_string(string: &str, max_length: usize) -> (r: &str)
    ensures
        r@ == string@.take(fitting_prefix(string@, max_length as int) as int),
        byte_len(string@) <= max_length ==> r@ == string@,
{
    let cs = chars_of(string);
    let (k, _) = count_fitting(&cs, max_length);
    proof {
        lemma_fitting_prefix(string@, max_length as int);
        if byte_len(string@) <= max_length {
            assert(string@.take(string@.len() as int) == string@);
            lemma_fitting_prefix_unique(string@, max_length as int, string@.len() as int);
        }
    }
    string.substring_char(0, k)
}


/// The character of a decimal digit.
pub open spec fn digit_char(d: nat) -> char {
    if d == 0 {
        '0'
    } else if d == 1 {
        '1'
    } else if d == 2 {
        '2'
    } else if d == 3 {
        '3'
    } else if d == 4 {
        '4'
    } else if d == 5 {
        '5'
    } else if d == 6 {
        '6'
    } else if d == 7 {
        '7'
    } else if d == 8 {
        '8'
    } else {
        '9'
    }
}

/// The decimal notation of `n`, as `{}` formats an integer.
pub open spec fn decimal(n: nat) -> Seq<char>
    decreases n,
{
    if n < 10 {
        seq![digit_char(n)]
    } else {
        decimal(n / 10).push(digit_char(n % 10))
    }
}

pub fn digit(d: u64) -> (r: char)
    requires
        d < 10,
    ensures
        r == digit_char(d as nat),
{
    if d == 0 {
        '0'
    } else if d == 1 {
        '1'
    } else if d == 2 {
        '2'
    } else if d == 3 {
        '3'
    } else if d == 4 {
        '4'
    } else if d == 5 {
        '5'
    } else if d == 6 {
        '6'
    } else if d == 7 {
        '7'
    } else if d == 8 {
        '8'
    } else {
        '9'
    }
}

/// Appends the decimal notation of `n` to `s`.
pub fn push_decimal(s: &mut String, n: u64)
    ensures
        final(s)@ == old(s)@ + decimal(n as nat),
    decreases n,
{
    if n < 10 {
        push_char(s, digit(n));
    } else {
        push_decimal(s, n / 10);
        push_char(s, digit(n % 10));
        assert(old(s)@ + decimal(n as nat) == old(s)@ + decimal((n / 10) as nat) + seq![
            digit_char((n % 10) as nat),
        ]);
    }
}

/// The decimal notation of `n`.
pub fn decimal_string(n: u64) -> (r: String)
    ensures
        r@ == decimal(n as nat),
{
    let mut s = String::new();
    push_decimal(&mut s, n);
    assert(Seq::<char>::empty() + decimal(n as nat) == decimal(n as nat));
    s
}


/// What std's `str::trim` returns for a string: the string without its
/// leading and trailing Unicode white space.
pub uninterp spec fn trimmed(s: Seq<char>) -> Seq<char>;

/// Trusted: calls `str::trim`. Its result depends on the argument alone and
/// is named `trimmed`; std documents it as a subslice of the argument, which
/// is not stated here.
#[verifier::external_body]
pub(crate) fn trim_str(s: &str) -> (r: &str)
    ensures
        r@ == trimmed(s@),
{
    s.trim()
}


/// Whether `c` is an ASCII decimal digit.
pub open spec fn is_digit(c: char) -> bool {
    '0' <= c <= '9'
}

/// The value of a decimal digit.
pub open spec fn digit_value(c: char) -> nat {
    ((c as u32) - ('0' as u32)) as nat
}

/// The value of a string of decimal digits.
pub open spec fn digits_value(ds: Seq<char>) -> nat
    decreases ds.len(),
{
    if ds.len() == 0 {
        0
    } else {
        digits_value(ds.drop_last()) * 10 + digit_value(ds.last())
    }
}

/// The text after an optional leading `+`.
pub open spec fn unsigned_digits(s: Seq<char>) -> Seq<char> {
    if s.len() > 0 && s[0] == '+' {
        s.drop_first()
    } else {
        s
    }
}

/// What `str::parse::<usize>` gives: an optional `+` followed by one or more
/// ASCII digits whose value fits in `usize`; anything else is rejected.
pub open spec fn parsed_usize(s: Seq<char>) -> Option<nat> {
    let ds = unsigned_digits(s);
    if ds.len() > 0 && (forall|i: int| 0 <= i < ds.len() ==> is_digit(#[trigger] ds[i]))
        && digits_value(ds) <= usize::MAX {
        Some(digits_value(ds))
    } else {
        None
    }
}

proof fn lemma_digits_value_grows(ds: Seq<char>, k: int)
    requires
        0 <= k <= ds.len(),
    ensures
        digits_value(ds.take(k)) <= digits_value(ds),
    decreases ds.len() - k,
{
    if k < ds.len() {
        lemma_digits_value_grows(ds, k + 1);
        assert(ds.take(k + 1).drop_last() == ds.take(k));
    } else {
        assert(ds.take(k) == ds);
    }
}

/// Parses a decimal number the way `str::parse::<usize>` does.
pub fn parse_usize(s: &str) -> (r: Option<usize>)
    ensures
        match r {
            Some(n) => parsed_usize(s@) == Some(n as nat),
            None => parsed_usize(s@) is None,
        },
{
    let cs = chars_of(s);
    let start: usize = if cs.len() > 0 && cs[0] == '+' {
        1
    } else {
        0
    };
    let ghost ds = unsigned_digits(s@);
    assert(ds == cs@.skip(start as int));
    if start == cs.len() {
        return None;
    }
    let mut value: usize = 0;
    let mut i = start;
    assert(ds.take(0) == Seq::<char>::empty());
    while i < cs.len()
        invariant
            start <= i <= cs.len(),
            ds == cs@.skip(start as int),
            ds == unsigned_digits(s@),
            forall|j: int| 0 <= j < i - start ==> is_digit(#[trigger] ds[j]),
            value == digits_value(ds.take(i - start)),
        decreases cs.len() - i,
    {
        let c = cs[i];
        assert(ds[i - start] == c);
        if !('0' <= c && c <= '9') {
            assert(!is_digit(ds[i - start]));
            assert(parsed_usize(s@) is None);
            return None;
        }
        let d = ((c as u32) - ('0' as u32)) as usize;
        let k = i - start;
        assert(ds.take(k + 1).drop_last() == ds.take(k as int));
        assert(ds.take(k + 1).last() == c);
        match value.checked_mul(10) {
            None => {
                proof {
                    lemma_digits_value_grows(ds, k + 1);
                    assert(digits_value(ds.take(k + 1)) == value * 10 + digit_value(c));
                    assert(digits_value(ds) > usize::MAX);
                    assert(parsed_usize(s@) is None);
                }
                return None;
            },
            Some(m) => match m.checked_add(d) {
                None => {
                    proof {
                        lemma_digits_value_grows(ds, k + 1);
                    }
                    return None;
                },
                Some(v) => {
                    value = v;
                },
            },
        }
        i = i + 1;
    }
    assert(ds.take(i - start) == ds);
    Some(value)
}


/// The largest character boundary at or before byte `index` of `s`, as
/// `str::floor_char_boundary` gives it: the byte length of the longest
/// prefix that fits in `index` bytes.
pub open spec fn floor_boundary(s: Seq<char>, index: nat) -> nat {
    byte_len(s.take(fitting_prefix(s, index as int) as int))
}

/// The largest character boundary of `s` at or before byte `index`.
pub fn floor_char_boundary(s: &str, index: usize) -> (r: usize)
    ensures
        r == floor_boundary(s@, index as nat),
        r <= index,
{
    let cs = chars_of(s);
    let (_, bytes) = count_fitting(&cs, index);
    proof {
        lemma_fitting_prefix(s@, index as int);
    }
    bytes
}


/// The decimal notation of a signed integer.
pub open spec fn signed_decimal(n: int) -> Seq<char> {
    if n < 0 {
        seq!['-'] + decimal((-n) as nat)
    } else {
        decimal(n as nat)
    }
}

/// Appends the decimal notation of a signed integer to `s`.
pub fn push_signed_decimal(s: &mut String, n: i64)
    ensures
        final(s)@ == old(s)@ + signed_decimal(n as int),
{
    if n < 0 {
        push_char(s, '-');
        let magnitude: u64 = if n == i64::MIN {
            9223372036854775808u64
        } else {
            (-n) as u64
        };
        push_decimal(s, magnitude);
        assert(old(s)@.push('-') + decimal(magnitude as nat) == old(s)@ + signed_decimal(n as int));
    } else {
        push_decimal(s, n as u64);
    }
}


proof fn lemma_digit_char_value(d: nat)
    requires
        d < 10,
    ensures
        is_digit(digit_char(d)),
        digit_value(digit_char(d)) == d,
{
    assert(('0' as u32) == 48);
    assert(('9' as u32) == 57);
    assert(('1' as u32) == 49 && ('2' as u32) == 50 && ('3' as u32) == 51);
    assert(('4' as u32) == 52 && ('5' as u32) == 53 && ('6' as u32) == 54);
    assert(('7' as u32) == 55 && ('8' as u32) == 56);
}

proof fn lemma_decimal_digits(n: nat)
    ensures
        decimal(n).len() > 0,
        forall|i: int| 0 <= i < decimal(n).len() ==> is_digit(#[trigger] decimal(n)[i]),
        digits_value(decimal(n)) == n,
    decreases n,
{
    lemma_digit_char_value(n % 10);
    if n < 10 {
        assert(decimal(n) == seq![digit_char(n)]);
        assert(decimal(n).drop_last() == Seq::<char>::empty());
        assert(digits_value(Seq::<char>::empty()) == 0);
    } else {
        lemma_decimal_digits(n / 10);
        let s = decimal(n);
        assert(s.drop_last() == decimal(n / 10));
        assert(s.last() == digit_char(n % 10));
        assert((n / 10) * 10 + n % 10 == n) by (nonlinear_arith);
    }
}

/// Parsing the decimal notation of a number gives the number back: the task
/// numbers that the list shows are the keys that select those tasks.
pub proof fn lemma_parse_decimal_round_trip(n: nat)
    requires
        n <= usize::MAX,
    ensures
        parsed_usize(decimal(n)) == Some(n),
{
    lemma_decimal_digits(n);
    assert(is_digit(decimal(n)[0]));
    assert(unsigned_digits(decimal(n)) == decimal(n));
}

} // verus!
