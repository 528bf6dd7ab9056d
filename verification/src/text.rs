//! Character-sequence helpers shared by the package parsers.

use vstd::prelude::*;
use vstd::utf8::*;
use vstd::string::StringSliceAdditionalSpecFns;

verus! {

broadcast use vstd::string::group_string_axioms;

/// Two strings are equal exactly when their UTF-8 encodings are equal.
pub proof fn lemma_bytes_eq_implies_chars_eq(a: Seq<char>, b: Seq<char>)
    requires
        encode_utf8(a) == encode_utf8(b),
    ensures
        a == b,
{
    encode_utf8_decode_utf8(a);
    encode_utf8_decode_utf8(b);
}

/// Compares two strings character by character.
pub fn str_eq(a: &str, b: &str) -> (r: bool)
    ensures
        r == (a@ == b@),
{
    let x = a.as_bytes();
    let y = b.as_bytes();
    if x.len() != y.len() {
        return false;
    }
    let mut i: usize = 0;
    while i < x.len()
        invariant
            x@ == a.spec_bytes(),
            y@ == b.spec_bytes(),
            x@.len() == y@.len(),
            i <= x@.len(),
            forall|j: int| 0 <= j < i ==> x@[j] == y@[j],
        decreases x@.len() - i,
    {
        if x[i] != y[i] {
            return false;
        }
        i = i + 1;
    }
    proof {
        assert(x@ =~= y@);
        lemma_bytes_eq_implies_chars_eq(a@, b@);
    }
    true
}

/// Collects the characters of a string into a vector.
pub fn chars_of(s: &str) -> (v: Vec<char>)
    ensures
        v@ == s@,
{
    let mut v: Vec<char> = Vec::new();
    for c in it: s.chars()
        invariant
            v@ == it.seq().take(it.index() as int),
            it.seq() == s@,
    {
        v.push(c);
    }
    v
}

} // verus!

verus! {

/// Why an integer text failed to parse, in the order the standard library
/// reports it (first problem from the left wins).
#[derive(Debug, Clone, Copy, PartialEq, Eq)]
pub enum IntParseFailure {
    Empty,
    InvalidDigit,
    PosOverflow,
}

/// The value of `c` as a digit in `radix` (10 or 16), if it is one.
pub open spec fn digit_value(c: char, radix: nat) -> Option<nat> {
    if '0' <= c && c <= '9' && (c as nat) - ('0' as nat) < radix {
        Some(((c as nat) - ('0' as nat)) as nat)
    } else if radix == 16 && 'a' <= c && c <= 'f' {
        Some(((c as nat) - ('a' as nat) + 10) as nat)
    } else if radix == 16 && 'A' <= c && c <= 'F' {
        Some(((c as nat) - ('A' as nat) + 10) as nat)
    } else {
        None
    }
}

/// Left-to-right accumulation of digits, failing at the first non-digit or
/// at the first step whose value exceeds `max`.
pub open spec fn digits_scan(d: Seq<char>, radix: nat, max: nat) -> Result<nat, IntParseFailure>
    decreases d.len(),
{
    if d.len() == 0 {
        Ok(0)
    } else {
        match digits_scan(d.drop_last(), radix, max) {
            Err(e) => Err(e),
            Ok(v) => match digit_value(d.last(), radix) {
                None => Err(IntParseFailure::InvalidDigit),
                Some(dv) => if v * radix + dv > max {
                    Err(IntParseFailure::PosOverflow)
                } else {
                    Ok(v * radix + dv)
                },
            },
        }
    }
}

/// Unsigned integer parsing as `from_str_radix` does it for an unsigned type
/// whose largest value is `max`: one optional leading `+`, then digits.
pub open spec fn spec_parse_unsigned(s: Seq<char>, radix: nat, max: nat) -> Result<nat, IntParseFailure> {
    if s.len() == 0 {
        Err(IntParseFailure::Empty)
    } else if (s[0] == '+' || s[0] == '-') && s.len() == 1 {
        Err(IntParseFailure::InvalidDigit)
    } else if s[0] == '+' {
        digits_scan(s.drop_first(), radix, max)
    } else {
        digits_scan(s, radix, max)
    }
}

fn digit_of(c: char, radix: u32) -> (r: Option<u32>)
    requires
        radix == 10 || radix == 16,
    ensures
        match digit_value(c, radix as nat) {
            Some(v) => r == Some(v as u32),
            None => r is None,
        },
{
    if '0' <= c && c <= '9' {
        Some(c as u32 - '0' as u32)
    } else if radix == 16 && 'a' <= c && c <= 'f' {
        Some(c as u32 - 'a' as u32 + 10)
    } else if radix == 16 && 'A' <= c && c <= 'F' {
        Some(c as u32 - 'A' as u32 + 10)
    } else {
        None
    }
}

/// Parses an unsigned integer of at most `max` from `s` in base `radix`.
pub fn parse_unsigned(s: &[char], radix: u32, max: u64) -> (r: Result<u64, IntParseFailure>)
    requires
        radix == 10 || radix == 16,
        max <= u64::MAX / 32,
    ensures
        match spec_parse_unsigned(s@, radix as nat, max as nat) {
            Ok(v) => r == Ok::<u64, IntParseFailure>(v as u64),
            Err(e) => r == Err::<u64, IntParseFailure>(e),
        },
{
    if s.len() == 0 {
        return Err(IntParseFailure::Empty);
    }
    if (s[0] == '+' || s[0] == '-') && s.len() == 1 {
        return Err(IntParseFailure::InvalidDigit);
    }
    let start: usize = if s[0] == '+' { 1 } else { 0 };
    let ghost d = s@.subrange(start as int, s@.len() as int);
    proof {
        if start == 1 {
            assert(d =~= s@.drop_first());
        } else {
            assert(d =~= s@);
        }
        assert(spec_parse_unsigned(s@, radix as nat, max as nat) == digits_scan(d, radix as nat, max as nat));
    }
    let mut i: usize = start;
    let mut v: u64 = 0;
    while i < s.len()
        invariant
            start <= i <= s@.len(),
            d == s@.subrange(start as int, s@.len() as int),
            spec_parse_unsigned(s@, radix as nat, max as nat) == digits_scan(d, radix as nat, max as nat),
            radix == 10 || radix == 16,
            max <= u64::MAX / 32,
            v <= max,
            digits_scan(d.take(i - start), radix as nat, max as nat) == Ok::<nat, IntParseFailure>(v as nat),
        decreases s@.len() - i,
    {
        assert(d.take(i - start + 1).drop_last() =~= d.take(i - start));
        assert(d.take(i - start + 1).last() == s@[i as int]);
        match digit_of(s[i], radix) {
            None => {
                assert(digits_scan(d.take(i - start + 1), radix as nat, max as nat) == Err::<nat, IntParseFailure>(IntParseFailure::InvalidDigit));
                proof { lemma_scan_error_propagates(d, (i - start + 1) as nat, radix as nat, max as nat); }
                return Err(IntParseFailure::InvalidDigit);
            },
            Some(dv) => {
                let next: u64 = if radix == 10 { v * 10 + dv as u64 } else { v * 16 + dv as u64 };
                assert(next == v * radix + dv);
                if next > max {
                    assert(digits_scan(d.take(i - start + 1), radix as nat, max as nat) == Err::<nat, IntParseFailure>(IntParseFailure::PosOverflow));
                    proof { lemma_scan_error_propagates(d, (i - start + 1) as nat, radix as nat, max as nat); }
                    return Err(IntParseFailure::PosOverflow);
                }
                v = next;
            },
        }
        i = i + 1;
    }
    assert(d.take(i - start) =~= d);
    Ok(v)
}

/// Once a prefix fails, every extension fails the same way.
pub proof fn lemma_scan_error_propagates(d: Seq<char>, k: nat, radix: nat, max: nat)
    requires
        k <= d.len(),
        digits_scan(d.take(k as int), radix, max) is Err,
    ensures
        digits_scan(d, radix, max) == digits_scan(d.take(k as int), radix, max),
    decreases d.len() - k,
{
    if k < d.len() {
        assert(d.take(k as int + 1).drop_last() =~= d.take(k as int));
        lemma_scan_error_propagates(d, k + 1, radix, max);
    } else {
        assert(d.take(k as int) =~= d);
    }
}

/// `parse::<u32>()` on a string.
pub open spec fn spec_parse_u32(s: Seq<char>) -> Option<u32> {
    match spec_parse_unsigned(s, 10, u32::MAX as nat) {
        Ok(v) => Some(v as u32),
        Err(_) => None,
    }
}

/// Parses a decimal `u32` as `str::parse::<u32>` does.
pub fn parse_u32(s: &str) -> (r: Option<u32>)
    ensures
        r == spec_parse_u32(s@),
{
    let cs = chars_of(s);
    match parse_unsigned(cs.as_slice(), 10, u32::MAX as u64) {
        Ok(v) => Some(v as u32),
        Err(_) => None,
    }
}

} // verus!

verus! {

/// `c` with ASCII upper-case letters folded to lower case.
pub open spec fn spec_ascii_lower(c: char) -> char {
    if 'A' <= c && c <= 'Z' { ((c as u8) + 32) as u8 as char } else { c }
}

/// ASCII case-insensitive equality, as `str::eq_ignore_ascii_case`.
pub open spec fn spec_eq_ignore_ascii_case(a: Seq<char>, b: Seq<char>) -> bool {
    a.len() == b.len() && forall|i: int| 0 <= i < a.len() ==> spec_ascii_lower(#[trigger] a[i]) == spec_ascii_lower(b[i])
}

/// The ASCII lowercase of `c`.
pub fn ascii_lower(c: char) -> (r: char)
    ensures
        r == spec_ascii_lower(c),
{
    if 'A' <= c && c <= 'Z' {
        let u: u8 = c as u8 + 32;
        u as char
    } else {
        c
    }
}

/// ASCII case-insensitive comparison of two strings.
pub fn eq_ignore_ascii_case(a: &str, b: &str) -> (r: bool)
    ensures
        r == spec_eq_ignore_ascii_case(a@, b@),
{
    let x = chars_of(a);
    let y = chars_of(b);
    chars_eq_ignore_ascii_case(x.as_slice(), y.as_slice())
}

/// ASCII case-insensitive comparison of two character sequences.
pub fn chars_eq_ignore_ascii_case(x: &[char], y: &[char]) -> (r: bool)
    ensures
        r == spec_eq_ignore_ascii_case(x@, y@),
{
    if x.len() != y.len() {
        return false;
    }
    let mut i: usize = 0;
    while i < x.len()
        invariant
            x@.len() == y@.len(),
            i <= x@.len(),
            forall|j: int| 0 <= j < i ==> spec_ascii_lower(#[trigger] x@[j]) == spec_ascii_lower(y@[j]),
        decreases x@.len() - i,
    {
        if ascii_lower(x[i]) != ascii_lower(y[i]) {
            return false;
        }
        i = i + 1;
    }
    true
}

} // verus!

verus! {

/// Builds a `String` from a sequence of characters.
///
/// Trusted: wraps `String::from_iter` over `&char`, which std documents as
/// appending each character in order; the contract states exactly that.
#[verifier::external_body]
pub(crate) fn string_from_chars(v: &[char]) -> (s: String)
    ensures
        s@ == v@,
{
    v.iter().collect()
}

/// Unicode `White_Space`, as `char::is_whitespace`.
pub open spec fn spec_is_whitespace(c: char) -> bool {
    ('\u{9}' <= c && c <= '\u{d}') || c == ' ' || c == '\u{85}' || c == '\u{a0}' || c == '\u{1680}'
        || ('\u{2000}' <= c && c <= '\u{200a}') || c == '\u{2028}' || c == '\u{2029}'
        || c == '\u{202f}' || c == '\u{205f}' || c == '\u{3000}'
}

/// Whether `c` is whitespace.
pub fn is_whitespace(c: char) -> (r: bool)
    ensures
        r == spec_is_whitespace(c),
{
    ('\u{9}' <= c && c <= '\u{d}') || c == ' ' || c == '\u{85}' || c == '\u{a0}' || c == '\u{1680}'
        || ('\u{2000}' <= c && c <= '\u{200a}') || c == '\u{2028}' || c == '\u{2029}'
        || c == '\u{202f}' || c == '\u{205f}' || c == '\u{3000}'
}

} // verus!

verus! {

/// The concatenation of two strings.
pub fn concat_str(a: &str, b: &str) -> (r: String)
    ensures
        r@ == a@ + b@,
{
    String::from_str(a).concat(b)
}

} // verus!

verus! {

/// Whether a string has no characters.
pub fn str_is_empty(s: &str) -> (r: bool)
    ensures
        r == (s@.len() == 0),
{
    let v = chars_of(s);
    v.len() == 0
}

} // verus!

verus! {

/// Index of the last occurrence of `c` in `s`.
pub open spec fn rfind_char(s: Seq<char>, c: char) -> Option<int>
    decreases s.len(),
{
    if s.len() == 0 {
        None
    } else if s.last() == c {
        Some(s.len() - 1)
    } else {
        rfind_char(s.drop_last(), c)
    }
}

/// The last occurrence found is `c`, and none follows it; none found means
/// `c` does not occur.
pub proof fn lemma_rfind_char(s: Seq<char>, c: char)
    ensures
        match rfind_char(s, c) {
            Some(p) => 0 <= p < s.len() && s[p] == c && forall|j: int| p < j < s.len() ==> s[j] != c,
            None => forall|j: int| 0 <= j < s.len() ==> s[j] != c,
        },
    decreases s.len(),
{
    if s.len() > 0 {
        lemma_rfind_char(s.drop_last(), c);
        assert(forall|j: int| 0 <= j < s.len() - 1 ==> s.drop_last()[j] == s[j]);
    }
}

/// Index of the last occurrence of `c` in `s`.
pub fn rfind_char_exec(s: &[char], c: char) -> (r: Option<usize>)
    ensures
        match r {
            Some(i) => rfind_char(s@, c) == Some(i as int) && i < s.len(),
            None => rfind_char(s@, c) is None,
        },
{
    let mut i: usize = s.len();
    assert(s@.take(s@.len() as int) =~= s@);
    while i > 0
        invariant
            i <= s.len(),
            rfind_char(s@, c) == rfind_char(s@.take(i as int), c),
        decreases i,
    {
        assert(s@.take(i as int).drop_last() =~= s@.take(i - 1));
        if s[i - 1] == c {
            return Some(i - 1);
        }
        i = i - 1;
    }
    None
}

/// The characters of `s` from `from` on, as a string.
pub fn string_from(s: &[char], from: usize) -> (r: String)
    requires
        from <= s@.len(),
    ensures
        r@ == s@.subrange(from as int, s@.len() as int),
{
    let mut v: Vec<char> = Vec::new();
    let mut k: usize = from;
    while k < s.len()
        invariant
            from <= k <= s@.len(),
            v@ == s@.subrange(from as int, k as int),
        decreases s@.len() - k,
    {
        v.push(s[k]);
        k = k + 1;
        assert(v@ =~= s@.subrange(from as int, k as int));
    }
    string_from_chars(v.as_slice())
}

/// ASCII lower-casing of every character.
pub open spec fn spec_ascii_lowercase(s: Seq<char>) -> Seq<char> {
    s.map_values(|c: char| spec_ascii_lower(c))
}

/// `str::to_ascii_lowercase`.
pub fn ascii_lowercase(s: &str) -> (r: String)
    ensures
        r@ == spec_ascii_lowercase(s@),
{
    let v = chars_of(s);
    let mut out: Vec<char> = Vec::new();
    let mut i: usize = 0;
    while i < v.len()
        invariant
            v@ == s@,
            i <= v@.len(),
            out@ == spec_ascii_lowercase(v@.take(i as int)),
        decreases v@.len() - i,
    {
        out.push(ascii_lower(v[i]));
        i = i + 1;
        assert(out@ =~= spec_ascii_lowercase(v@.take(i as int)));
    }
    assert(v@.take(v@.len() as int) =~= v@);
    string_from_chars(out.as_slice())
}

} // verus!
