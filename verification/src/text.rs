//! Character-level helpers shared by the path builder, the selection
//! parser and the registry: ASCII lowercasing, filename sanitization,
//! whitespace trimming, digit parsing and string building.
//!
//! Case and whitespace are treated at the ASCII level throughout, so
//! that every transform has an exact character-by-character
//! specification; characters beyond ASCII pass through unchanged.

use vstd::prelude::*;

verus! {

/// Relies on `alloc::string::String::push`: appends the given character
/// to the end of the string.
pub assume_specification[ String::push ](s: &mut String, c: char)
    ensures
        final (s)@ == old(s)@.push(c),
;

/// True for the ASCII uppercase letters.
pub open spec fn is_upper(c: char) -> bool {
    'A' <= c && c <= 'Z'
}

/// ASCII lowercasing of a single character; other characters are unchanged.
pub open spec fn lower_char(c: char) -> char {
    if is_upper(c) {
        ((c as u32) + 32) as char
    } else {
        c
    }
}

/// Lowercases one ASCII letter, leaving every other character alone.
pub fn to_lower_char(c: char) -> (r: char)
    ensures
        r == lower_char(c),
{
    if c >= 'A' && c <= 'Z' {
        ((c as u8) + 32) as char
    } else {
        c
    }
}

/// Characters that sanitization turns into hyphens.
pub open spec fn is_separator(c: char) -> bool {
    c == ' ' || c == '_'
}

/// Characters that sanitization removes outright.
pub open spec fn is_stripped(c: char) -> bool {
    c == '.' || c == '\'' || c == ':'
}

/// What one character contributes to a sanitized filename: separators
/// become hyphens, stripped punctuation vanishes, the rest is lowercased.
pub open spec fn sanitize_char(c: char) -> Seq<char> {
    if is_separator(c) {
        seq!['-']
    } else if is_stripped(c) {
        Seq::empty()
    } else {
        seq![lower_char(c)]
    }
}

/// Filename sanitization over a whole character sequence.
pub open spec fn sanitized(s: Seq<char>) -> Seq<char>
    decreases s.len(),
{
    if s.len() == 0 {
        Seq::empty()
    } else {
        sanitized(s.drop_last()) + sanitize_char(s.last())
    }
}

/// ASCII whitespace, as trimmed from the ends of a finished filename.
pub open spec fn is_space(c: char) -> bool {
    c == ' ' || c == '\t' || c == '\n' || c == '\r' || c == '\u{b}' || c == '\u{c}'
}

/// The number of leading whitespace characters.
pub open spec fn leading_spaces(s: Seq<char>) -> int
    decreases s.len(),
{
    if s.len() == 0 || !is_space(s[0]) {
        0
    } else {
        1 + leading_spaces(s.drop_first())
    }
}

/// The number of trailing whitespace characters.
pub open spec fn trailing_spaces(s: Seq<char>) -> int
    decreases s.len(),
{
    if s.len() == 0 || !is_space(s.last()) {
        0
    } else {
        1 + trailing_spaces(s.drop_last())
    }
}

/// The sequence with whitespace removed from both ends.
pub open spec fn trimmed(s: Seq<char>) -> Seq<char> {
    let t = s.skip(leading_spaces(s));
    t.take(t.len() - trailing_spaces(t))
}

/// ASCII lowercasing of a whole character sequence.
pub open spec fn lower_seq(s: Seq<char>) -> Seq<char> {
    Seq::new(s.len(), |i: int| lower_char(s[i]))
}

/// Lowercases every ASCII letter of a string into a character vector.
pub fn lower_vec(s: &str) -> (r: Vec<char>)
    ensures
        r@ == lower_seq(s@),
{
    let n = s.unicode_len();
    let mut r: Vec<char> = Vec::new();
    let mut i: usize = 0;
    while i < n
        invariant
            n == s@.len(),
            i <= n,
            r@ =~= lower_seq(s@).take(i as int),
        decreases n - i,
    {
        r.push(to_lower_char(s.get_char(i)));
        assert(r@ =~= lower_seq(s@).take(i + 1));
        i = i + 1;
    }
    assert(r@ =~= lower_seq(s@));
    r
}

/// Compares a character vector with a string slice.
pub fn vec_eq_str(a: &Vec<char>, b: &str) -> (r: bool)
    ensures
        r == (a@ == b@),
{
    let n = b.unicode_len();
    if a.len() != n {
        proof {
            assert(a@ != b@) by {
                assert(a@.len() != b@.len());
            }
        }
        return false;
    }
    let mut i: usize = 0;
    while i < n
        invariant
            n == b@.len() == a@.len(),
            i <= n,
            forall|k: int| 0 <= k < i ==> a@[k] == b@[k],
        decreases n - i,
    {
        if a[i] != b.get_char(i) {
            return false;
        }
        i = i + 1;
    }
    proof {
        assert(a@ =~= b@);
    }
    true
}

/// True for the ASCII decimal digits.
pub open spec fn is_digit(c: char) -> bool {
    '0' <= c && c <= '9'
}

/// The numeric value of one ASCII digit.
pub open spec fn digit_val(c: char) -> int {
    c as int - 48
}

/// True when the sequence is a non-empty run of ASCII digits.
pub open spec fn all_digits(s: Seq<char>) -> bool {
    s.len() > 0 && forall|i: int| 0 <= i < s.len() ==> is_digit(#[trigger] s[i])
}

/// The number denoted by a run of ASCII digits, most significant first.
pub open spec fn digits_val(s: Seq<char>) -> int
    decreases s.len(),
{
    if s.len() == 0 {
        0
    } else {
        digits_val(s.drop_last()) * 10 + digit_val(s.last())
    }
}

/// A longer digit prefix never denotes a smaller number.
proof fn lemma_digits_val_monotone(s: Seq<char>, i: int, j: int)
    requires
        0 <= i <= j <= s.len(),
        forall|k: int| 0 <= k < s.len() ==> is_digit(#[trigger] s[k]),
    ensures
        digits_val(s.take(i)) <= digits_val(s.take(j)),
        digits_val(s.take(i)) >= 0,
    decreases j - i,
{
    if i == j {
        lemma_digits_val_nonneg(s.take(i), s);
    } else {
        lemma_digits_val_monotone(s, i, j - 1);
        lemma_digits_val_nonneg(s.take(j - 1), s);
        assert(s.take(j).drop_last() =~= s.take(j - 1));
        assert(digits_val(s.take(j)) == digits_val(s.take(j - 1)) * 10 + digit_val(s[j - 1]));
    }
}

/// A run of digits denotes a non-negative number.
proof fn lemma_digits_val_nonneg(p: Seq<char>, s: Seq<char>)
    requires
        p.len() <= s.len(),
        p =~= s.take(p.len() as int),
        forall|k: int| 0 <= k < s.len() ==> is_digit(#[trigger] s[k]),
    ensures
        digits_val(p) >= 0,
    decreases p.len(),
{
    if p.len() > 0 {
        assert(p.drop_last() =~= s.take(p.len() - 1));
        lemma_digits_val_nonneg(p.drop_last(), s);
    }
}

/// Collects the characters of a string slice into a vector.
pub fn chars_of(s: &str) -> (r: Vec<char>)
    ensures
        r@ == s@,
{
    let n = s.unicode_len();
    let mut r: Vec<char> = Vec::new();
    let mut i: usize = 0;
    while i < n
        invariant
            n == s@.len(),
            i <= n,
            r@ =~= s@.take(i as int),
        decreases n - i,
    {
        r.push(s.get_char(i));
        assert(r@ =~= s@.take(i + 1));
        i = i + 1;
    }
    assert(r@ =~= s@);
    r
}

/// Builds an owned string out of a vector of characters.
pub fn string_of(chars: &Vec<char>) -> (r: String)
    ensures
        r@ == chars@,
{
    let mut r = String::new();
    let mut i: usize = 0;
    while i < chars.len()
        invariant
            i <= chars@.len(),
            r@ =~= chars@.take(i as int),
        decreases chars@.len() - i,
    {
        r.push(chars[i]);
        assert(r@ =~= chars@.take(i + 1));
        i = i + 1;
    }
    assert(r@ =~= chars@);
    r
}

/// Copies the characters of a sub-range out of a vector.
pub fn subvec(v: &Vec<char>, lo: usize, hi: usize) -> (r: Vec<char>)
    requires
        lo <= hi <= v@.len(),
    ensures
        r@ == v@.subrange(lo as int, hi as int),
{
    let mut r: Vec<char> = Vec::new();
    let mut i: usize = lo;
    while i < hi
        invariant
            lo <= i <= hi <= v@.len(),
            r@ =~= v@.subrange(lo as int, i as int),
        decreases hi - i,
    {
        r.push(v[i]);
        assert(r@ =~= v@.subrange(lo as int, i + 1));
        i = i + 1;
    }
    r
}

/// Sanitizes a filename character sequence: separators to hyphens,
/// punctuation stripped, letters lowercased.
pub fn sanitize(s: &Vec<char>) -> (r: Vec<char>)
    ensures
        r@ == sanitized(s@),
{
    let mut r: Vec<char> = Vec::new();
    let mut i: usize = 0;
    while i < s.len()
        invariant
            i <= s@.len(),
            r@ == sanitized(s@.take(i as int)),
        decreases s@.len() - i,
    {
        let c = s[i];
        if c == ' ' || c == '_' {
            r.push('-');
        } else if c == '.' || c == '\'' || c == ':' {
            // removed outright
        } else {
            r.push(to_lower_char(c));
        }
        proof {
            assert(s@.take(i + 1).drop_last() =~= s@.take(i as int));
            assert(s@.take(i + 1).last() == s@[i as int]);
            assert(r@ =~= sanitized(s@.take(i as int)) + sanitize_char(s@[i as int]));
        }
        i = i + 1;
    }
    assert(s@.take(s@.len() as int) =~= s@);
    r
}

/// Removes leading and trailing ASCII whitespace from a character vector.
pub fn trim_spaces(s: &Vec<char>) -> (r: Vec<char>)
    ensures
        r@ == trimmed(s@),
{
    let n = s.len();
    let mut lo: usize = 0;
    while lo < n && is_space_char(s[lo])
        invariant
            n == s@.len(),
            lo <= n,
            forall|k: int| 0 <= k < lo ==> is_space(#[trigger] s@[k]),
        decreases n - lo,
    {
        lo = lo + 1;
    }
    let mut hi: usize = n;
    while hi > lo && is_space_char(s[hi - 1])
        invariant
            n == s@.len(),
            lo <= hi <= n,
            forall|k: int| 0 <= k < lo ==> is_space(#[trigger] s@[k]),
            lo < n ==> !is_space(s@[lo as int]),
            forall|k: int| hi <= k < n ==> is_space(#[trigger] s@[k]),
        decreases hi,
    {
        hi = hi - 1;
    }
    let mut r: Vec<char> = Vec::new();
    let mut i: usize = lo;
    while i < hi
        invariant
            lo <= i <= hi <= n,
            n == s@.len(),
            r@ =~= s@.subrange(lo as int, i as int),
        decreases hi - i,
    {
        r.push(s[i]);
        assert(r@ =~= s@.subrange(lo as int, i + 1));
        i = i + 1;
    }
    proof {
        lemma_leading_spaces_bound(s@, lo as int);
        let t = s@.skip(lo as int);
        if hi == lo {
            lemma_trailing_all_spaces(t);
        } else {
            lemma_trailing_spaces_bound(t, n - hi);
        }
        assert(r@ =~= trimmed(s@));
    }
    r
}

/// Exec test for [`is_space`].
fn is_space_char(c: char) -> (r: bool)
    ensures
        r == is_space(c),
{
    c == ' ' || c == '\t' || c == '\n' || c == '\r' || c == '\u{b}' || c == '\u{c}'
}

/// `leading_spaces` equals the length of the maximal whitespace prefix.
proof fn lemma_leading_spaces_bound(s: Seq<char>, lo: int)
    requires
        0 <= lo <= s.len(),
        forall|k: int| 0 <= k < lo ==> is_space(#[trigger] s[k]),
        lo < s.len() ==> !is_space(s[lo]),
    ensures
        leading_spaces(s) == lo,
    decreases lo,
{
    if lo == 0 {
    } else {
        lemma_leading_spaces_bound(s.drop_first(), lo - 1);
    }
}

/// `trailing_spaces` equals the length of the maximal whitespace suffix.
proof fn lemma_trailing_spaces_bound(s: Seq<char>, k: int)
    requires
        0 <= k <= s.len(),
        forall|j: int| s.len() - k <= j < s.len() ==> is_space(#[trigger] s[j]),
        s.len() - k - 1 >= 0 ==> !is_space(s[s.len() - k - 1]),
    ensures
        trailing_spaces(s) == k,
    decreases k,
{
    if k == 0 {
    } else {
        lemma_trailing_spaces_bound(s.drop_last(), k - 1);
    }
}

/// On an all-whitespace sequence, `trailing_spaces` is the whole length.
proof fn lemma_trailing_all_spaces(s: Seq<char>)
    requires
        forall|j: int| 0 <= j < s.len() ==> is_space(#[trigger] s[j]),
    ensures
        trailing_spaces(s) == s.len(),
    decreases s.len(),
{
    if s.len() > 0 {
        lemma_trailing_all_spaces(s.drop_last());
    }
}

/// Parses a token consisting only of ASCII digits into a `usize`,
/// rejecting any other shape and any overflowing value.
pub fn parse_usize(s: &str) -> (r: Option<usize>)
    ensures
        match r {
            Some(v) => all_digits(s@) && v == digits_val(s@),
            None => !(all_digits(s@) && digits_val(s@) <= usize::MAX),
        },
{
    let n = s.unicode_len();
    if n == 0 {
        return None;
    }
    let mut acc: usize = 0;
    let mut i: usize = 0;
    while i < n
        invariant
            n == s@.len(),
            0 < n,
            i <= n,
            forall|k: int| 0 <= k < i ==> is_digit(#[trigger] s@[k]),
            acc == digits_val(s@.take(i as int)),
        decreases n - i,
    {
        let c = s.get_char(i);
        if !(c >= '0' && c <= '9') {
            return None;
        }
        let d: usize = ((c as u8) - 48) as usize;
        let step = match acc.checked_mul(10) {
            Some(x) => x.checked_add(d),
            None => None,
        };
        proof {
            assert(s@.take(i + 1).drop_last() =~= s@.take(i as int));
            assert(s@.take(i + 1).last() == s@[i as int]);
        }
        match step {
            Some(v) => {
                acc = v;
            },
            None => {
                proof {
                    if all_digits(s@) {
                        lemma_digits_val_monotone(s@, i + 1, s@.len() as int);
                        assert(s@.take(s@.len() as int) =~= s@);
                    }
                }
                return None;
            },
        }
        i = i + 1;
    }
    proof {
        assert(s@.take(n as int) =~= s@);
    }
    Some(acc)
}

} // verus!
