//! Character-level pieces of the command-line grammar: whitespace trimming, searching,
//! and the texts that std accepts as a `f32` or as a `u32`.

use vstd::prelude::*;
use vstd::string::StrSliceExecFns;

verus! {

/// Unicode `White_Space`, which `char::is_whitespace` (and so `str::trim`) goes by.
pub open spec fn is_ws(c: char) -> bool {
    ||| '\u{9}' <= c <= '\u{d}'
    ||| c == ' '
    ||| c == '\u{85}'
    ||| c == '\u{a0}'
    ||| c == '\u{1680}'
    ||| '\u{2000}' <= c <= '\u{200a}'
    ||| c == '\u{2028}'
    ||| c == '\u{2029}'
    ||| c == '\u{202f}'
    ||| c == '\u{205f}'
    ||| c == '\u{3000}'
}

pub fn white_space(c: char) -> (r: bool)
    ensures
        r == is_ws(c),
{
    ('\u{9}' <= c && c <= '\u{d}') || c == ' ' || c == '\u{85}' || c == '\u{a0}' || c == '\u{1680}'
        || ('\u{2000}' <= c && c <= '\u{200a}') || c == '\u{2028}' || c == '\u{2029}' || c == '\u{202f}'
        || c == '\u{205f}' || c == '\u{3000}'
}

/// Index of the first non-whitespace character at or after `i`.
pub open spec fn lead(s: Seq<char>, i: int) -> int
    decreases s.len() - i,
{
    if 0 <= i < s.len() && is_ws(s[i]) {
        lead(s, i + 1)
    } else {
        i
    }
}

/// End of `s[lo..j]` once its trailing whitespace is dropped.
pub open spec fn trail(s: Seq<char>, j: int, lo: int) -> int
    decreases j,
{
    if 0 <= lo < j <= s.len() && is_ws(s[j - 1]) {
        trail(s, j - 1, lo)
    } else {
        j
    }
}

/// `s` without its leading and trailing whitespace, as `str::trim` gives it.
pub open spec fn trimmed(s: Seq<char>) -> Seq<char> {
    s.subrange(lead(s, 0), trail(s, s.len() as int, lead(s, 0)))
}

/// The characters of a string.
pub fn chars_of(s: &str) -> (v: Vec<char>)
    ensures
        v@ == s@,
{
    let n = s.unicode_len();
    let mut v: Vec<char> = Vec::new();
    let mut i: usize = 0;
    while i < n
        invariant
            n == s@.len(),
            i <= n,
            v@ == s@.subrange(0, i as int),
        decreases n - i,
    {
        v.push(s.get_char(i));
        proof {
            assert(s@.subrange(0, i + 1) =~= s@.subrange(0, i as int).push(s@[i as int]));
        }
        i = i + 1;
    }
    assert(s@.subrange(0, n as int) =~= s@);
    v
}

/// Appends a character to a string (`String::push`): std documents that the string then
/// ends with that character, the characters before it unchanged.
#[verifier::external_body]
fn push_char(s: &mut String, c: char)
    ensures
        final(s)@ == old(s)@.push(c),
{
    s.push(c);
}

/// A string holding the given characters.
pub fn string_of(v: &[char]) -> (s: String)
    ensures
        s@ == v@,
{
    let mut s = String::new();
    let n = v.len();
    let mut i: usize = 0;
    while i < n
        invariant
            n == v@.len(),
            i <= n,
            s@ == v@.subrange(0, i as int),
        decreases n - i,
    {
        push_char(&mut s, v[i]);
        proof {
            assert(v@.subrange(0, i + 1) =~= v@.subrange(0, i as int).push(v@[i as int]));
        }
        i = i + 1;
    }
    assert(v@.subrange(0, n as int) =~= v@);
    s
}

/// The characters `v[lo..hi]`.
pub fn slice_chars(v: &[char], lo: usize, hi: usize) -> (r: Vec<char>)
    requires
        lo <= hi <= v@.len(),
    ensures
        r@ == v@.subrange(lo as int, hi as int),
{
    let mut r: Vec<char> = Vec::new();
    let mut i: usize = lo;
    while i < hi
        invariant
            lo <= i <= hi,
            hi <= v@.len(),
            r@ == v@.subrange(lo as int, i as int),
        decreases hi - i,
    {
        r.push(v[i]);
        proof {
            assert(v@.subrange(lo as int, i + 1) =~= v@.subrange(lo as int, i as int).push(v@[i as int]));
        }
        i = i + 1;
    }
    r
}

/// `v` without its leading and trailing whitespace.
pub fn trim(v: &[char]) -> (r: Vec<char>)
    ensures
        r@ == trimmed(v@),
{
    let n = v.len();
    let ghost s = v@;
    let mut a: usize = 0;
    while a < n && white_space(v[a])
        invariant
            n == s.len(),
            s == v@,
            a <= n,
            lead(s, a as int) == lead(s, 0),
        decreases n - a,
    {
        a = a + 1;
    }
    let mut b: usize = n;
    while b > a && white_space(v[b - 1])
        invariant
            n == s.len(),
            s == v@,
            a <= b <= n,
            a == lead(s, 0),
            trail(s, b as int, a as int) == trail(s, n as int, a as int),
        decreases b,
    {
        b = b - 1;
    }
    slice_chars(v, a, b)
}

/// Position of the first `c` at or after `i` (the length when there is none).
pub open spec fn find_char(s: Seq<char>, c: char, i: int) -> int
    decreases s.len() - i,
{
    if 0 <= i < s.len() && s[i] != c {
        find_char(s, c, i + 1)
    } else {
        i
    }
}

pub proof fn lemma_find_char(s: Seq<char>, c: char, i: int)
    requires
        0 <= i <= s.len(),
    ensures
        i <= find_char(s, c, i) <= s.len(),
        forall|j: int| i <= j < find_char(s, c, i) ==> #[trigger] s[j] != c,
        find_char(s, c, i) < s.len() ==> s[find_char(s, c, i)] == c,
    decreases s.len() - i,
{
    if i < s.len() && s[i] != c {
        lemma_find_char(s, c, i + 1);
    }
}

pub fn find(v: &[char], c: char, from: usize) -> (r: usize)
    requires
        from <= v@.len(),
    ensures
        r == find_char(v@, c, from as int),
{
    let n = v.len();
    let mut i = from;
    while i < n && v[i] != c
        invariant
            n == v@.len(),
            from <= i <= n,
            find_char(v@, c, i as int) == find_char(v@, c, from as int),
        decreases n - i,
    {
        i = i + 1;
    }
    i
}

pub open spec fn is_digit(c: char) -> bool {
    '0' <= c <= '9'
}

pub open spec fn all_digits(s: Seq<char>) -> bool {
    forall|i: int| 0 <= i < s.len() ==> is_digit(#[trigger] s[i])
}

pub open spec fn is_sign(c: char) -> bool {
    c == '+' || c == '-'
}

pub open spec fn is_e(c: char) -> bool {
    c == 'e' || c == 'E'
}

/// `s` without a leading sign.
pub open spec fn unsigned_part(s: Seq<char>) -> Seq<char> {
    if s.len() > 0 && is_sign(s[0]) {
        s.drop_first()
    } else {
        s
    }
}

/// `Digit+ | Digit+ '.' Digit* | Digit* '.' Digit+`.
pub open spec fn is_mantissa(m: Seq<char>) -> bool {
    ||| m.len() >= 1 && all_digits(m)
    ||| exists|d: int|
        0 <= d < m.len() && m[d] == '.' && all_digits(m.take(d)) && all_digits(m.skip(d + 1)) && m.len()
            >= 2
}

/// `Sign? Digit+`.
pub open spec fn is_exponent(x: Seq<char>) -> bool {
    unsigned_part(x).len() >= 1 && all_digits(unsigned_part(x))
}

/// `Mantissa ('e' Exponent)?`, the letter in either case.
pub open spec fn is_number(b: Seq<char>) -> bool {
    ||| (forall|k: int| 0 <= k < b.len() ==> !is_e(#[trigger] b[k])) && is_mantissa(b)
    ||| exists|k: int| 0 <= k < b.len() && is_e(b[k]) && is_mantissa(b.take(k)) && is_exponent(b.skip(k + 1))
}

pub open spec fn letter_is(c: char, lower: char, upper: char) -> bool {
    c == lower || c == upper
}

/// `inf`, `infinity` or `nan`, in any case.
pub open spec fn is_special(b: Seq<char>) -> bool {
    ||| b.len() == 3 && letter_is(b[0], 'i', 'I') && letter_is(b[1], 'n', 'N') && letter_is(b[2], 'f', 'F')
    ||| b.len() == 8 && letter_is(b[0], 'i', 'I') && letter_is(b[1], 'n', 'N') && letter_is(b[2], 'f', 'F')
        && letter_is(b[3], 'i', 'I') && letter_is(b[4], 'n', 'N') && letter_is(b[5], 'i', 'I')
        && letter_is(b[6], 't', 'T') && letter_is(b[7], 'y', 'Y')
    ||| b.len() == 3 && letter_is(b[0], 'n', 'N') && letter_is(b[1], 'a', 'A') && letter_is(b[2], 'n', 'N')
}

/// The texts that `str::parse::<f32>` accepts, as std documents its grammar (case-blind):
/// `Sign? ('inf' | 'infinity' | 'nan' | Number)`.
pub open spec fn is_float_text(s: Seq<char>) -> bool {
    is_special(unsigned_part(s)) || is_number(unsigned_part(s))
}

fn digits_only(v: &[char], lo: usize, hi: usize) -> (r: bool)
    requires
        lo <= hi <= v@.len(),
    ensures
        r == all_digits(v@.subrange(lo as int, hi as int)),
{
    let mut i = lo;
    while i < hi
        invariant
            lo <= i <= hi,
            hi <= v@.len(),
            forall|j: int| lo <= j < i ==> is_digit(#[trigger] v@[j]),
        decreases hi - i,
    {
        if !('0' <= v[i] && v[i] <= '9') {
            assert(!is_digit(v@.subrange(lo as int, hi as int)[i - lo]));
            return false;
        }
        i = i + 1;
    }
    assert forall|j: int| 0 <= j < hi - lo implies is_digit(#[trigger] v@.subrange(lo as int, hi as int)[j]) by {
        assert(v@.subrange(lo as int, hi as int)[j] == v@[lo + j]);
    }
    true
}

fn mantissa(v: &[char], lo: usize, hi: usize) -> (r: bool)
    requires
        lo <= hi <= v@.len(),
    ensures
        r == is_mantissa(v@.subrange(lo as int, hi as int)),
{
    let ghost m = v@.subrange(lo as int, hi as int);
    let d = find(v, '.', lo);
    proof {
        lemma_find_char(v@, '.', lo as int);
    }
    if d >= hi {
        proof {
            assert forall|j: int| 0 <= j < m.len() implies m[j] != '.' by {
                assert(m[j] == v@[lo + j]);
            }
        }
        return hi > lo && digits_only(v, lo, hi);
    }
    let left = digits_only(v, lo, d);
    let right = digits_only(v, d + 1, hi);
    let ghost dd = d - lo;
    proof {
        assert(m.take(dd) =~= v@.subrange(lo as int, d as int));
        assert(m.skip(dd + 1) =~= v@.subrange(d + 1, hi as int));
        assert(m[dd] == '.');
        if is_mantissa(m) && !(left && right && hi - lo >= 2) {
            if m.len() >= 1 && all_digits(m) {
                assert(is_digit(m[dd]));
            } else {
                let e = choose|e: int|
                    0 <= e < m.len() && m[e] == '.' && all_digits(m.take(e)) && all_digits(m.skip(e + 1))
                        && m.len() >= 2;
                if e < dd {
                    assert(m[e] == v@[lo + e]);
                } else if e > dd {
                    assert(m.take(e)[dd] == m[dd]);
                    assert(is_digit(m.take(e)[dd]));
                }
            }
        }
    }
    left && right && hi - lo >= 2
}

fn unsigned_start(v: &[char], lo: usize, hi: usize) -> (r: usize)
    requires
        lo <= hi <= v@.len(),
    ensures
        lo <= r <= hi,
        v@.subrange(r as int, hi as int) == unsigned_part(v@.subrange(lo as int, hi as int)),
{
    if lo < hi && (v[lo] == '+' || v[lo] == '-') {
        assert(v@.subrange(lo + 1, hi as int) =~= v@.subrange(lo as int, hi as int).drop_first());
        lo + 1
    } else {
        lo
    }
}

fn exponent(v: &[char], lo: usize, hi: usize) -> (r: bool)
    requires
        lo <= hi <= v@.len(),
    ensures
        r == is_exponent(v@.subrange(lo as int, hi as int)),
{
    let u = unsigned_start(v, lo, hi);
    u < hi && digits_only(v, u, hi)
}

fn number(v: &[char], lo: usize, hi: usize) -> (r: bool)
    requires
        lo <= hi <= v@.len(),
    ensures
        r == is_number(v@.subrange(lo as int, hi as int)),
{
    let ghost b = v@.subrange(lo as int, hi as int);
    let mut k = lo;
    while k < hi && v[k] != 'e' && v[k] != 'E'
        invariant
            lo <= k <= hi,
            hi <= v@.len(),
            forall|j: int| lo <= j < k ==> !is_e(#[trigger] v@[j]),
        decreases hi - k,
    {
        k = k + 1;
    }
    if k == hi {
        proof {
            assert forall|j: int| 0 <= j < b.len() implies !is_e(#[trigger] b[j]) by {
                assert(b[j] == v@[lo + j]);
            }
        }
        return mantissa(v, lo, hi);
    }
    let m = mantissa(v, lo, k);
    let x = exponent(v, k + 1, hi);
    let ghost kk = k - lo;
    proof {
        assert(b.take(kk) =~= v@.subrange(lo as int, k as int));
        assert(b.skip(kk + 1) =~= v@.subrange(k + 1, hi as int));
        assert(is_e(b[kk]));
        if is_number(b) && !(m && x) {
            let e = choose|e: int|
                0 <= e < b.len() && is_e(b[e]) && is_mantissa(b.take(e)) && is_exponent(b.skip(e + 1));
            if e < kk {
                assert(b[e] == v@[lo + e]);
            } else if e > kk {
                let t = b.take(e);
                assert(t[kk] == b[kk]);
                if t.len() >= 1 && all_digits(t) {
                    assert(is_digit(t[kk]));
                } else {
                    let d = choose|d: int|
                        0 <= d < t.len() && t[d] == '.' && all_digits(t.take(d)) && all_digits(t.skip(d + 1))
                            && t.len() >= 2;
                    if kk < d {
                        assert(t.take(d)[kk] == t[kk]);
                        assert(is_digit(t.take(d)[kk]));
                    } else if kk > d {
                        assert(t.skip(d + 1)[kk - d - 1] == t[kk]);
                        assert(is_digit(t.skip(d + 1)[kk - d - 1]));
                    }
                }
            }
        }
    }
    m && x
}

fn letter(c: char, lower: char, upper: char) -> (r: bool)
    ensures
        r == letter_is(c, lower, upper),
{
    c == lower || c == upper
}

fn special(v: &[char], lo: usize, hi: usize) -> (r: bool)
    requires
        lo <= hi <= v@.len(),
    ensures
        r == is_special(v@.subrange(lo as int, hi as int)),
{
    let n = hi - lo;
    if n == 3 {
        (letter(v[lo], 'i', 'I') && letter(v[lo + 1], 'n', 'N') && letter(v[lo + 2], 'f', 'F')) || (
        letter(v[lo], 'n', 'N') && letter(v[lo + 1], 'a', 'A') && letter(v[lo + 2], 'n', 'N'))
    } else if n == 8 {
        letter(v[lo], 'i', 'I') && letter(v[lo + 1], 'n', 'N') && letter(v[lo + 2], 'f', 'F') && letter(
            v[lo + 3],
            'i',
            'I',
        ) && letter(v[lo + 4], 'n', 'N') && letter(v[lo + 5], 'i', 'I') && letter(v[lo + 6], 't', 'T')
            && letter(v[lo + 7], 'y', 'Y')
    } else {
        false
    }
}

/// Whether `v[lo..hi]` is a text that `str::parse::<f32>` accepts.
pub fn float_text(v: &[char], lo: usize, hi: usize) -> (r: bool)
    requires
        lo <= hi <= v@.len(),
    ensures
        r == is_float_text(v@.subrange(lo as int, hi as int)),
{
    let u = unsigned_start(v, lo, hi);
    special(v, u, hi) || number(v, u, hi)
}

/// Value of a run of decimal digits.
pub open spec fn digits_value(s: Seq<char>) -> nat
    decreases s.len(),
{
    if s.len() == 0 {
        0
    } else {
        digits_value(s.drop_last()) * 10 + (s.last() as int - '0' as int) as nat
    }
}

/// What `str::parse::<u32>` gives: `'+'? Digit+` whose value fits.
pub open spec fn u32_text(s: Seq<char>) -> Option<u32> {
    let d = if s.len() > 0 && s[0] == '+' { s.drop_first() } else { s };
    if d.len() >= 1 && all_digits(d) && digits_value(d) <= u32::MAX {
        Some(digits_value(d) as u32)
    } else {
        None
    }
}

proof fn lemma_digits_value_grows(s: Seq<char>, i: int)
    requires
        0 <= i <= s.len(),
        all_digits(s),
    ensures
        digits_value(s.take(i)) <= digits_value(s),
    decreases s.len() - i,
{
    if i < s.len() {
        lemma_digits_value_grows(s, i + 1);
        assert(s.take(i + 1).drop_last() =~= s.take(i));
        assert(is_digit(s[i]));
        assert(s.take(i + 1).last() == s[i]);
    } else {
        assert(s.take(i) =~= s);
    }
}

/// `str::parse::<u32>` on `v`.
pub fn parse_u32(v: &[char]) -> (r: Option<u32>)
    ensures
        r == u32_text(v@),
{
    let n = v.len();
    let start: usize = if n > 0 && v[0] == '+' { 1 } else { 0 };
    let ghost d = if v@.len() > 0 && v@[0] == '+' { v@.drop_first() } else { v@ };
    proof {
        assert(d =~= v@.subrange(start as int, n as int));
    }
    if start == n {
        return None;
    }
    let mut acc: u64 = 0;
    let mut i = start;
    while i < n
        invariant
            n == v@.len(),
            start <= i <= n,
            d == v@.subrange(start as int, n as int),
            d == (if v@.len() > 0 && v@[0] == '+' { v@.drop_first() } else { v@ }),
            all_digits(v@.subrange(start as int, i as int)),
            acc == digits_value(v@.subrange(start as int, i as int)),
            acc <= u32::MAX,
        decreases n - i,
    {
        let c = v[i];
        if !('0' <= c && c <= '9') {
            proof {
                assert(d[i - start] == c);
                assert(!is_digit(d[i - start]));
                assert(!all_digits(d));
            }
            return None;
        }
        let digit = (c as u32 - '0' as u32) as u64;
        proof {
            assert(v@.subrange(start as int, i + 1).drop_last() =~= v@.subrange(start as int, i as int));
            assert(v@.subrange(start as int, i + 1).last() == c);
        }
        acc = acc * 10 + digit;
        assert(acc == digits_value(v@.subrange(start as int, i + 1)));
        if acc > 0xffff_ffff {
            proof {
                if all_digits(d) {
                    assert(d.take(i + 1 - start) =~= v@.subrange(start as int, i + 1));
                    lemma_digits_value_grows(d, i + 1 - start);
                }
            }
            return None;
        }
        i = i + 1;
    }
    Some(acc as u32)
}

/// `char::to_ascii_lowercase`: `A` to `Z` become `a` to `z`; everything else stays.
pub open spec fn lower(c: char) -> char {
    if 'A' <= c <= 'Z' {
        ((c as int) + 32) as char
    } else {
        c
    }
}

pub fn to_lower(c: char) -> (r: char)
    ensures
        r == lower(c),
{
    if 'A' <= c && c <= 'Z' {
        ((c as u8) + 32) as char
    } else {
        c
    }
}

} // verus!
