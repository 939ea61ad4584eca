//! Character-level helpers shared by the expansion engine and the parsers:
//! whitespace and name-character classes, trimming, word scanning, and the
//! conversions between `String` and `Vec<char>` that the scanners work on.

use vstd::prelude::*;

verus! {

/// The whitespace characters the interpreter recognizes between words.
pub open spec fn is_space_char(c: char) -> bool {
    c == ' ' || c == '\t' || c == '\n' || c == '\r'
}

/// Whether a character counts as alphanumeric under the Unicode tables.
pub uninterp spec fn unicode_alnum(c: char) -> bool;

/// Relies on `char::is_alphanumeric`: the Unicode alphanumeric classes, a
/// function of the character alone.
#[verifier::external_body]
fn alnum_char(c: char) -> (r: bool)
    ensures
        r == unicode_alnum(c),
{
    c.is_alphanumeric()
}

/// Characters allowed in a variable name: alphanumerics and the underscore.
pub open spec fn is_name_char(c: char) -> bool {
    unicode_alnum(c) || c == '_'
}

/// Executable test for [`is_space_char`].
pub fn space_char(c: char) -> (r: bool)
    ensures
        r == is_space_char(c),
{
    c == ' ' || c == '\t' || c == '\n' || c == '\r'
}

/// Executable test for [`is_name_char`].
pub fn name_char(c: char) -> (r: bool)
    ensures
        r == is_name_char(c),
{
    alnum_char(c) || c == '_'
}

/// Every character of `s` is whitespace; what `trim(s).is_empty()` means.
pub open spec fn all_space(s: Seq<char>) -> bool {
    forall|i: int| 0 <= i < s.len() ==> is_space_char(#[trigger] s[i])
}

/// Index of the first non-whitespace character at or after `i`, or `s.len()`.
pub open spec fn scan_space(s: Seq<char>, i: int) -> int
    decreases s.len() - i,
{
    if i < 0 {
        i
    } else if i >= s.len() || !is_space_char(s[i]) {
        i
    } else {
        scan_space(s, i + 1)
    }
}

/// Index of the first whitespace character at or after `i`, or `s.len()`.
pub open spec fn scan_word(s: Seq<char>, i: int) -> int
    decreases s.len() - i,
{
    if i < 0 {
        i
    } else if i >= s.len() || is_space_char(s[i]) {
        i
    } else {
        scan_word(s, i + 1)
    }
}

/// `s` with leading whitespace removed.
pub open spec fn trim_start(s: Seq<char>) -> Seq<char> {
    s.subrange(scan_space(s, 0), s.len() as int)
}

/// Index just past the last non-whitespace character of `s`, or 0.
pub open spec fn scan_space_back(s: Seq<char>, i: int) -> int
    decreases i,
{
    if i <= 0 {
        0
    } else if !is_space_char(s[i - 1]) {
        i
    } else {
        scan_space_back(s, i - 1)
    }
}

/// `s` with leading and trailing whitespace removed.
pub open spec fn trim(s: Seq<char>) -> Seq<char> {
    let a = scan_space(s, 0);
    let b = scan_space_back(s, s.len() as int);
    if a <= b {
        s.subrange(a, b)
    } else {
        Seq::empty()
    }
}

pub proof fn lemma_scan_space_bounds(s: Seq<char>, i: int)
    requires
        0 <= i <= s.len(),
    ensures
        i <= scan_space(s, i) <= s.len(),
        forall|k: int| i <= k < scan_space(s, i) ==> is_space_char(#[trigger] s[k]),
        scan_space(s, i) < s.len() ==> !is_space_char(s[scan_space(s, i)]),
    decreases s.len() - i,
{
    if i < s.len() && is_space_char(s[i]) {
        lemma_scan_space_bounds(s, i + 1);
    }
}

pub proof fn lemma_scan_word_bounds(s: Seq<char>, i: int)
    requires
        0 <= i <= s.len(),
    ensures
        i <= scan_word(s, i) <= s.len(),
        forall|k: int| i <= k < scan_word(s, i) ==> !is_space_char(#[trigger] s[k]),
        scan_word(s, i) < s.len() ==> is_space_char(s[scan_word(s, i)]),
    decreases s.len() - i,
{
    if i < s.len() && !is_space_char(s[i]) {
        lemma_scan_word_bounds(s, i + 1);
    }
}

pub proof fn lemma_scan_space_back_bounds(s: Seq<char>, i: int)
    requires
        0 <= i <= s.len(),
    ensures
        0 <= scan_space_back(s, i) <= i,
        forall|k: int| scan_space_back(s, i) <= k < i ==> is_space_char(#[trigger] s[k]),
        scan_space_back(s, i) > 0 ==> !is_space_char(s[scan_space_back(s, i) - 1]),
    decreases i,
{
    if i > 0 && is_space_char(s[i - 1]) {
        lemma_scan_space_back_bounds(s, i - 1);
    }
}

/// `s` with trailing whitespace removed.
pub open spec fn trim_end(s: Seq<char>) -> Seq<char> {
    s.subrange(0, scan_space_back(s, s.len() as int))
}

/// Removes trailing whitespace, the way captured substitution output is
/// cleaned before splicing.
pub fn trim_trailing(s: &str) -> (r: String)
    ensures
        r@ == trim_end(s@),
{
    let v = str_chars(s);
    let b = find_non_space_back(&v);
    let w = subvec(&v, 0, b);
    chars_string(&w)
}

/// A string is all whitespace exactly when trimming leaves nothing.
pub proof fn lemma_trim_empty_iff_all_space(s: Seq<char>)
    ensures
        trim(s).len() == 0 <==> all_space(s),
{
    lemma_scan_space_bounds(s, 0);
    lemma_scan_space_back_bounds(s, s.len() as int);
    let a = scan_space(s, 0);
    let b = scan_space_back(s, s.len() as int);
    if a >= s.len() {
        assert(all_space(s));
        assert(trim(s).len() == 0);
    } else {
        assert(!is_space_char(s[a]));
        assert(!all_space(s));
        assert(b > a) by {
            if b <= a {
                assert(is_space_char(s[a]));
            }
        }
        assert(trim(s).len() > 0);
    }
}

/// Trimming never lengthens a string.
pub proof fn lemma_trim_len(s: Seq<char>)
    ensures
        trim(s).len() <= s.len(),
{
    lemma_scan_space_bounds(s, 0);
    lemma_scan_space_back_bounds(s, s.len() as int);
}

/// Converts a string slice into the vector of its characters.
pub fn str_chars(s: &str) -> (r: Vec<char>)
    ensures
        r@ == s@,
{
    let n = s.unicode_len();
    let mut r: Vec<char> = Vec::new();
    let mut i: usize = 0;
    while i < n
        invariant
            n == s@.len(),
            i <= n,
            r@ == s@.subrange(0, i as int),
        decreases n - i,
    {
        r.push(s.get_char(i));
        i += 1;
        proof {
            assert(r@ =~= s@.subrange(0, i as int));
        }
    }
    proof {
        assert(r@ =~= s@);
    }
    r
}

/// Relies on `String::push`: appends one character to the end of the string.
#[verifier::external_body]
fn push_char(s: &mut String, c: char)
    ensures
        final(s)@ == old(s)@.push(c),
{
    s.push(c)
}

/// Builds a `String` out of a vector of characters.
pub fn chars_string(v: &Vec<char>) -> (r: String)
    ensures
        r@ == v@,
{
    let mut r = String::new();
    let mut i: usize = 0;
    while i < v.len()
        invariant
            i <= v@.len(),
            r@ == v@.subrange(0, i as int),
        decreases v@.len() - i,
    {
        push_char(&mut r, v[i]);
        i += 1;
        proof {
            assert(r@ =~= v@.subrange(0, i as int));
        }
    }
    proof {
        assert(r@ =~= v@);
    }
    r
}

/// The characters of `v` from `a` (inclusive) to `b` (exclusive).
pub fn subvec(v: &Vec<char>, a: usize, b: usize) -> (r: Vec<char>)
    requires
        a <= b <= v@.len(),
    ensures
        r@ == v@.subrange(a as int, b as int),
{
    let mut r: Vec<char> = Vec::new();
    let mut i: usize = a;
    while i < b
        invariant
            a <= i <= b <= v@.len(),
            r@ == v@.subrange(a as int, i as int),
        decreases b - i,
    {
        r.push(v[i]);
        i += 1;
        proof {
            assert(r@ =~= v@.subrange(a as int, i as int));
        }
    }
    r
}

/// Whether `v` contains the character `c`.
pub fn contains_char(v: &Vec<char>, c: char) -> (r: bool)
    ensures
        r == v@.contains(c),
{
    let mut i: usize = 0;
    while i < v.len()
        invariant
            i <= v@.len(),
            forall|k: int| 0 <= k < i ==> v@[k] != c,
        decreases v@.len() - i,
    {
        if v[i] == c {
            return true;
        }
        i += 1;
    }
    false
}

/// Whether the character vector `v` spells the string slice `s`.
pub fn chars_eq_str(v: &Vec<char>, s: &str) -> (r: bool)
    ensures
        r == (v@ == s@),
{
    let n = s.unicode_len();
    if v.len() != n {
        return false;
    }
    let mut i: usize = 0;
    while i < n
        invariant
            n == s@.len(),
            v@.len() == n,
            i <= n,
            forall|k: int| 0 <= k < i ==> v@[k] == s@[k],
        decreases n - i,
    {
        if v[i] != s.get_char(i) {
            return false;
        }
        i += 1;
    }
    proof {
        assert(v@ =~= s@);
    }
    true
}

/// Whether two character vectors hold the same characters.
pub fn chars_eq(a: &Vec<char>, b: &Vec<char>) -> (r: bool)
    ensures
        r == (a@ == b@),
{
    if a.len() != b.len() {
        return false;
    }
    let mut i: usize = 0;
    while i < a.len()
        invariant
            a@.len() == b@.len(),
            i <= a@.len(),
            forall|k: int| 0 <= k < i ==> a@[k] == b@[k],
        decreases a@.len() - i,
    {
        if a[i] != b[i] {
            return false;
        }
        i += 1;
    }
    proof {
        assert(a@ =~= b@);
    }
    true
}

/// First non-whitespace position at or after `from`.
pub fn find_non_space(v: &Vec<char>, from: usize) -> (r: usize)
    requires
        from <= v@.len(),
    ensures
        r == scan_space(v@, from as int),
        from <= r <= v@.len(),
{
    proof {
        lemma_scan_space_bounds(v@, from as int);
    }
    let mut i: usize = from;
    while i < v.len()
        invariant
            from <= i <= v@.len(),
            scan_space(v@, from as int) == scan_space(v@, i as int),
        decreases v@.len() - i,
    {
        if !space_char(v[i]) {
            return i;
        }
        i += 1;
    }
    i
}

/// First whitespace position at or after `from`.
pub fn find_space(v: &Vec<char>, from: usize) -> (r: usize)
    requires
        from <= v@.len(),
    ensures
        r == scan_word(v@, from as int),
        from <= r <= v@.len(),
{
    proof {
        lemma_scan_word_bounds(v@, from as int);
    }
    let mut i: usize = from;
    while i < v.len()
        invariant
            from <= i <= v@.len(),
            scan_word(v@, from as int) == scan_word(v@, i as int),
        decreases v@.len() - i,
    {
        if space_char(v[i]) {
            return i;
        }
        i += 1;
    }
    i
}

/// Position just past the last non-whitespace character.
pub fn find_non_space_back(v: &Vec<char>) -> (r: usize)
    ensures
        r == scan_space_back(v@, v@.len() as int),
        r <= v@.len(),
{
    proof {
        lemma_scan_space_back_bounds(v@, v@.len() as int);
    }
    let mut i: usize = v.len();
    while i > 0
        invariant
            i <= v@.len(),
            scan_space_back(v@, v@.len() as int) == scan_space_back(v@, i as int),
        decreases i,
    {
        if !space_char(v[i - 1]) {
            return i;
        }
        i -= 1;
    }
    0
}

/// The characters of `v` with surrounding whitespace removed.
pub fn trim_chars(v: &Vec<char>) -> (r: Vec<char>)
    ensures
        r@ == trim(v@),
{
    let a = find_non_space(v, 0);
    let b = find_non_space_back(v);
    if a <= b {
        subvec(v, a, b)
    } else {
        Vec::new()
    }
}

/// Whether every character of `v` is whitespace; equivalently, whether
/// trimming `v` leaves nothing.
pub fn chars_all_space(v: &Vec<char>) -> (r: bool)
    ensures
        r == all_space(v@),
        r == (trim(v@).len() == 0),
{
    let mut i: usize = 0;
    while i < v.len()
        invariant
            i <= v@.len(),
            forall|k: int| 0 <= k < i ==> is_space_char(#[trigger] v@[k]),
        decreases v@.len() - i,
    {
        if !space_char(v[i]) {
            proof {
                lemma_trim_empty_iff_all_space(v@);
            }
            return false;
        }
        i += 1;
    }
    proof {
        lemma_trim_empty_iff_all_space(v@);
    }
    true
}

/// Appends a copy of every character of `src` to `dst`.
pub fn push_all(dst: &mut Vec<char>, src: &Vec<char>)
    ensures
        final(dst)@ == old(dst)@ + src@,
{
    let mut i: usize = 0;
    while i < src.len()
        invariant
            i <= src@.len(),
            dst@ == old(dst)@ + src@.subrange(0, i as int),
        decreases src@.len() - i,
    {
        dst.push(src[i]);
        i += 1;
        proof {
            assert(dst@ =~= old(dst)@ + src@.subrange(0, i as int));
        }
    }
    proof {
        assert(dst@ =~= old(dst)@ + src@);
    }
}

/// The decimal digit character for `d` (0 through 9).
pub open spec fn digit_char(d: int) -> char {
    if d == 0 {
        '0'
    } else if d == 1 {
        '1'
    } else if d == 2 {
        '2'
    } else if d == 3 {
        '3'
    } else if d == 4 {
        '4'
    } else if d == 5 {
        '5'
    } else if d == 6 {
        '6'
    } else if d == 7 {
        '7'
    } else if d == 8 {
        '8'
    } else {
        '9'
    }
}

/// The decimal digits of `n`, most significant first, no leading zeros.
pub open spec fn nat_digits(n: nat) -> Seq<char>
    decreases n,
{
    if n < 10 {
        seq![digit_char(n as int)]
    } else {
        nat_digits(n / 10).push(digit_char((n % 10) as int))
    }
}

/// The decimal rendering of `n`, with a leading minus sign when negative.
pub open spec fn int_digits(n: int) -> Seq<char> {
    if n < 0 {
        seq!['-'] + nat_digits((-n) as nat)
    } else {
        nat_digits(n as nat)
    }
}

fn digit_char_of(d: u64) -> (r: char)
    requires
        d < 10,
    ensures
        r == digit_char(d as int),
{
    if d == 0 {
        '0'
    } else if d == 1 {
        '1'
    } else if d == 2 {
        '2'
    } else if d == 3 {
        '3'
    } else if d == 4 {
        '4'
    } else if d == 5 {
        '5'
    } else if d == 6 {
        '6'
    } else if d == 7 {
        '7'
    } else if d == 8 {
        '8'
    } else {
        '9'
    }
}

/// The decimal digits of `n` as characters.
pub fn u64_digits(n: u64) -> (r: Vec<char>)
    ensures
        r@ == nat_digits(n as nat),
    decreases n,
{
    if n < 10 {
        let mut v: Vec<char> = Vec::new();
        v.push(digit_char_of(n));
        proof {
            assert(v@ =~= nat_digits(n as nat));
        }
        v
    } else {
        proof {
            assert(n / 10 < n && n / 10 >= 1) by (nonlinear_arith)
                requires
                    n >= 10,
            ;
        }
        let mut v = u64_digits(n / 10);
        v.push(digit_char_of(n % 10));
        v
    }
}

/// The decimal rendering of a signed 32-bit value as characters.
pub fn i32_digits(n: i32) -> (r: Vec<char>)
    ensures
        r@ == int_digits(n as int),
{
    if n >= 0 {
        u64_digits(n as u64)
    } else {
        let m: u64 = (-(n as i64)) as u64;
        let mut v: Vec<char> = Vec::new();
        v.push('-');
        let mut d = u64_digits(m);
        v.append(&mut d);
        proof {
            assert(v@ =~= int_digits(n as int));
        }
        v
    }
}

} // verus!
