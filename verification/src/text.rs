//! Verified character-level string utilities: equality, lexicographic order,
//! whitespace trimming, decimal parsing, and the title-case fallback used for
//! display names.

use vstd::prelude::*;

verus! {

/// Relies on `String::push`: appends the given character to the end of the
/// string.
pub assume_specification[ String::push ](s: &mut String, c: char)
    ensures
        final(s)@ == old(s)@.push(c),
;

/// Character-for-character string equality.
pub fn str_eq(a: &str, b: &str) -> (r: bool)
    ensures
        r == (a@ == b@),
{
    let n = a.unicode_len();
    if n != b.unicode_len() {
        return false;
    }
    let mut i: usize = 0;
    while i < n
        invariant
            n == a@.len(),
            n == b@.len(),
            i <= n,
            forall|k: int| 0 <= k < i ==> a@[k] == b@[k],
        decreases n - i,
    {
        if a.get_char(i) != b.get_char(i) {
            return false;
        }
        i = i + 1;
    }
    proof {
        assert(a@ =~= b@);
    }
    true
}

/// The XML white-space characters.
pub open spec fn is_space(c: char) -> bool {
    c == ' ' || c == '\t' || c == '\n' || c == '\r'
}

pub open spec fn count_leading_spaces(s: Seq<char>) -> int
    decreases s.len(),
{
    if s.len() == 0 {
        0
    } else if !is_space(s[0]) {
        0
    } else {
        1 + count_leading_spaces(s.drop_first())
    }
}

pub open spec fn count_trailing_spaces(s: Seq<char>) -> int
    decreases s.len(),
{
    if s.len() == 0 {
        0
    } else if !is_space(s.last()) {
        0
    } else {
        1 + count_trailing_spaces(s.drop_last())
    }
}

/// The string with leading and trailing white space removed.
pub open spec fn spec_trim(s: Seq<char>) -> Seq<char> {
    let a = count_leading_spaces(s);
    let b = count_trailing_spaces(s);
    if a + b <= s.len() {
        s.subrange(a, s.len() - b)
    } else {
        Seq::empty()
    }
}

proof fn lemma_leading_spaces(s: Seq<char>)
    ensures
        0 <= count_leading_spaces(s) <= s.len(),
        forall|k: int| 0 <= k < count_leading_spaces(s) ==> is_space(s[k]),
        count_leading_spaces(s) < s.len() ==> !is_space(s[count_leading_spaces(s)]),
    decreases s.len(),
{
    if s.len() > 0 && is_space(s[0]) {
        lemma_leading_spaces(s.drop_first());
        let a = count_leading_spaces(s);
        assert forall|k: int| 0 <= k < a implies is_space(s[k]) by {
            if k > 0 {
                assert(is_space(s.drop_first()[k - 1]));
            }
        }
    }
}

proof fn lemma_trailing_spaces(s: Seq<char>)
    ensures
        0 <= count_trailing_spaces(s) <= s.len(),
        forall|k: int| s.len() - count_trailing_spaces(s) <= k < s.len() ==> is_space(s[k]),
        count_trailing_spaces(s) < s.len() ==> !is_space(
            s[s.len() - count_trailing_spaces(s) - 1],
        ),
    decreases s.len(),
{
    if s.len() > 0 && is_space(s.last()) {
        lemma_trailing_spaces(s.drop_last());
        let b = count_trailing_spaces(s);
        assert forall|k: int| s.len() - b <= k < s.len() implies is_space(s[k]) by {
            if k < s.len() - 1 {
                assert(is_space(s.drop_last()[k]));
            }
        }
    }
}

/// A copy of the given string with leading and trailing white space removed.
pub fn trim_str(s: &str) -> (r: String)
    ensures
        r@ == spec_trim(s@),
{
    proof {
        lemma_leading_spaces(s@);
        lemma_trailing_spaces(s@);
    }
    let n = s.unicode_len();
    let mut i: usize = 0;
    while i < n && is_space_char(s.get_char(i))
        invariant
            n == s@.len(),
            i <= n,
            forall|k: int| 0 <= k < i ==> is_space(s@[k]),
        decreases n - i,
    {
        i = i + 1;
    }
    if i == n {
        // all white space
        proof {
            if count_leading_spaces(s@) < s@.len() {
                assert(is_space(s@[count_leading_spaces(s@)]));
            }
            assert(count_leading_spaces(s@) + count_trailing_spaces(s@) > s@.len() || s@.len()
                == 0);
        }
        return String::new();
    }
    // i is the first non-space index
    proof {
        let a = count_leading_spaces(s@);
        if a < i {
            assert(is_space(s@[a]));
        }
        if i < a {
            assert(is_space(s@[i as int]));
        }
        assert(i == a);
    }
    let mut j: usize = n - 1;
    while is_space_char(s.get_char(j))
        invariant
            n == s@.len(),
            i <= j < n,
            !is_space(s@[i as int]),
            forall|k: int| j < k < n ==> is_space(s@[k]),
        decreases j,
    {
        proof {
            if j == i {
                assert(false);
            }
        }
        j = j - 1;
    }
    // j is the last non-space index
    proof {
        let b = count_trailing_spaces(s@);
        let jb = s@.len() - b - 1;
        if b < s@.len() - 1 - j {
            assert(is_space(s@[j as int]));
        }
        if b > s@.len() - 1 - j {
            assert(jb < j);
            assert(is_space(s@[jb]));
            assert(count_trailing_spaces(s@) < s@.len());
        }
        assert(s@.len() - b - 1 == j);
    }
    let t = s.substring_char(i, j + 1);
    String::from_str(t)
}

/// Exec test for [`is_space`].
pub fn is_space_char(c: char) -> (r: bool)
    ensures
        r == is_space(c),
{
    c == ' ' || c == '\t' || c == '\n' || c == '\r'
}

/// Decimal digits.
pub open spec fn is_digit(c: char) -> bool {
    48 <= c as u32 <= 57
}

pub open spec fn digit_val(c: char) -> int {
    c as u32 - 48
}

pub open spec fn all_digits(s: Seq<char>) -> bool {
    forall|i: int| 0 <= i < s.len() ==> is_digit(s[i])
}

/// The numeric value of a digit string.
pub open spec fn digits_val(s: Seq<char>) -> int
    decreases s.len(),
{
    if s.len() == 0 {
        0
    } else {
        digits_val(s.drop_last()) * 10 + digit_val(s.last())
    }
}

/// The accepted grammar for unsigned numbers: one or more decimal digits whose
/// value fits the target width.
pub open spec fn spec_parse_u64(s: Seq<char>) -> Option<u64> {
    if s.len() > 0 && all_digits(s) && digits_val(s) <= u64::MAX {
        Some(digits_val(s) as u64)
    } else {
        None
    }
}

pub open spec fn spec_parse_u32(s: Seq<char>) -> Option<u32> {
    if s.len() > 0 && all_digits(s) && digits_val(s) <= u32::MAX {
        Some(digits_val(s) as u32)
    } else {
        None
    }
}

proof fn lemma_digits_val_nonneg(s: Seq<char>)
    requires
        all_digits(s),
    ensures
        digits_val(s) >= 0,
    decreases s.len(),
{
    if s.len() > 0 {
        assert(all_digits(s.drop_last())) by {
            assert(forall|i: int|
                0 <= i < s.len() - 1 ==> s.drop_last()[i] == s[i] && is_digit(s[i]));
        }
        lemma_digits_val_nonneg(s.drop_last());
    }
}

/// Appending digits never decreases the value.
proof fn lemma_digits_val_prefix(s: Seq<char>, i: int)
    requires
        all_digits(s),
        0 <= i <= s.len(),
    ensures
        digits_val(s) >= digits_val(s.take(i)),
    decreases s.len() - i,
{
    if i < s.len() {
        let t = s.take(i + 1);
        assert(t.drop_last() =~= s.take(i));
        assert(all_digits(s.take(i))) by {
            assert(forall|k: int| 0 <= k < i ==> s.take(i)[k] == s[k]);
        }
        lemma_digits_val_nonneg(s.take(i));
        assert(digits_val(t) == digits_val(s.take(i)) * 10 + digit_val(s[i]));
        assert(digits_val(s.take(i)) * 10 >= digits_val(s.take(i))) by (nonlinear_arith)
            requires
                digits_val(s.take(i)) >= 0,
        ;
        lemma_digits_val_prefix(s, i + 1);
        assert(s.take(s.len() as int) =~= s);
    } else {
        assert(s.take(i) =~= s);
    }
}

/// Exec test for [`is_digit`].
fn is_digit_char(c: char) -> (r: bool)
    ensures
        r == is_digit(c),
{
    let v = c as u32;
    48 <= v && v <= 57
}

/// Parse a decimal `u64`; `None` when the string is empty, holds a non-digit,
/// or the value does not fit.
pub fn parse_u64_str(s: &str) -> (r: Option<u64>)
    ensures
        r == spec_parse_u64(s@),
{
    let n = s.unicode_len();
    if n == 0 {
        return None;
    }
    let mut acc: u64 = 0;
    let mut i: usize = 0;
    while i < n
        invariant
            n == s@.len(),
            i <= n,
            all_digits(s@.take(i as int)),
            acc == digits_val(s@.take(i as int)),
        decreases n - i,
    {
        let c = s.get_char(i);
        if !is_digit_char(c) {
            proof {
                assert(!all_digits(s@));
            }
            return None;
        }
        let d: u64 = (c as u32 - 48) as u64;
        proof {
            assert(s@.take(i + 1).drop_last() =~= s@.take(i as int));
            assert(s@.take(i + 1).last() == s@[i as int]);
            assert(forall|k: int|
                0 <= k < i + 1 ==> s@.take(i + 1)[k] == s@[k]);
        }
        if acc > (u64::MAX - d) / 10 {
            // the value exceeds u64::MAX
            proof {
                let v1 = digits_val(s@.take(i + 1));
                assert(v1 == acc * 10 + d);
                assert(acc * 10 + d > u64::MAX) by (nonlinear_arith)
                    requires
                        acc > (u64::MAX - d) / 10,
                        0 <= d <= 9,
                        acc >= 0,
                ;
                if s@.len() > 0 && all_digits(s@) && digits_val(s@) <= u64::MAX {
                    lemma_digits_val_prefix(s@, i + 1);
                }
            }
            return None;
        }
        proof {
            assert(acc * 10 + d <= u64::MAX) by (nonlinear_arith)
                requires
                    acc <= (u64::MAX - d) / 10,
                    0 <= d <= 9,
                    acc >= 0,
            ;
        }
        acc = acc * 10 + d;
        i = i + 1;
    }
    proof {
        assert(s@.take(n as int) =~= s@);
    }
    Some(acc)
}

/// Parse a decimal `u32` under the same grammar.
pub fn parse_u32_str(s: &str) -> (r: Option<u32>)
    ensures
        r == spec_parse_u32(s@),
{
    proof {
        if s@.len() > 0 && all_digits(s@) {
            lemma_digits_val_nonneg(s@);
        }
    }
    match parse_u64_str(s) {
        Some(v) => {
            if v <= 0xFFFF_FFFF {
                Some(v as u32)
            } else {
                None
            }
        },
        None => None,
    }
}

/// Lexicographic order on character sequences by scalar value.
pub open spec fn lex_leq(a: Seq<char>, b: Seq<char>) -> bool
    decreases a.len(),
{
    if a.len() == 0 {
        true
    } else if b.len() == 0 {
        false
    } else if a[0] != b[0] {
        (a[0] as u32) < (b[0] as u32)
    } else {
        lex_leq(a.drop_first(), b.drop_first())
    }
}

/// The order is total.
pub proof fn lemma_lex_total(a: Seq<char>, b: Seq<char>)
    ensures
        lex_leq(a, b) || lex_leq(b, a),
    decreases a.len(),
{
    if a.len() > 0 && b.len() > 0 && a[0] == b[0] {
        lemma_lex_total(a.drop_first(), b.drop_first());
    } else if a.len() > 0 && b.len() > 0 && a[0] != b[0] {
        vstd::utf8::char_u32_cast(a[0], a[0] as u32);
        vstd::utf8::char_u32_cast(b[0], b[0] as u32);
        assert(a[0] as u32 != b[0] as u32);
    }
}

/// The order is transitive.
pub proof fn lemma_lex_trans(a: Seq<char>, b: Seq<char>, c: Seq<char>)
    requires
        lex_leq(a, b),
        lex_leq(b, c),
    ensures
        lex_leq(a, c),
    decreases a.len(),
{
    if a.len() > 0 && b.len() > 0 && c.len() > 0 {
        if a[0] == b[0] && b[0] == c[0] {
            lemma_lex_trans(a.drop_first(), b.drop_first(), c.drop_first());
        } else {
            vstd::utf8::char_u32_cast(a[0], a[0] as u32);
            vstd::utf8::char_u32_cast(b[0], b[0] as u32);
            vstd::utf8::char_u32_cast(c[0], c[0] as u32);
        }
    }
}

/// `lex_leq` looks only at the suffixes once the first `i` characters agree.
proof fn lemma_lex_skip(a: Seq<char>, b: Seq<char>, i: int)
    requires
        0 <= i <= a.len(),
        i <= b.len(),
        forall|k: int| 0 <= k < i ==> a[k] == b[k],
    ensures
        lex_leq(a, b) == lex_leq(a.skip(i), b.skip(i)),
    decreases i,
{
    if i == 0 {
        assert(a.skip(0) =~= a);
        assert(b.skip(0) =~= b);
    } else {
        assert(a.len() > 0 && b.len() > 0 && a[0] == b[0]);
        assert(a.drop_first() =~= a.skip(1));
        assert(b.drop_first() =~= b.skip(1));
        lemma_lex_skip(a.skip(1), b.skip(1), i - 1);
        assert(a.skip(1).skip(i - 1) =~= a.skip(i));
        assert(b.skip(1).skip(i - 1) =~= b.skip(i));
    }
}

/// Exec comparison deciding [`lex_leq`].
pub fn str_lex_leq(a: &str, b: &str) -> (r: bool)
    ensures
        r == lex_leq(a@, b@),
{
    let na = a.unicode_len();
    let nb = b.unicode_len();
    let mut i: usize = 0;
    while i < na && i < nb
        invariant
            na == a@.len(),
            nb == b@.len(),
            i <= na,
            i <= nb,
            forall|k: int| 0 <= k < i ==> a@[k] == b@[k],
        decreases na - i,
    {
        let ca = a.get_char(i);
        let cb = b.get_char(i);
        if ca != cb {
            proof {
                lemma_lex_skip(a@, b@, i as int);
            }
            return (ca as u32) < (cb as u32);
        }
        i = i + 1;
    }
    proof {
        lemma_lex_skip(a@, b@, i as int);
    }
    na <= nb
}

/// Category separators become spaces in the display-name fallback.
pub open spec fn sep_to_space(c: char) -> char {
    if c == '.' {
        ' '
    } else {
        c
    }
}

/// ASCII upper case.
pub open spec fn upper_ascii(c: char) -> char {
    if 97 <= c as u32 <= 122 {
        ((c as u32) - 32) as char
    } else {
        c
    }
}

/// The algorithmic display name for an uncurated category id: separators
/// become spaces and every word start is upper-cased.
pub open spec fn spec_title_words(s: Seq<char>) -> Seq<char> {
    Seq::new(
        s.len(),
        |i: int|
            {
                let c = sep_to_space(s[i]);
                if i == 0 || sep_to_space(s[i - 1]) == ' ' {
                    upper_ascii(c)
                } else {
                    c
                }
            },
    )
}

fn upper_char(c: char) -> (r: char)
    ensures
        r == upper_ascii(c),
{
    let v = c as u32;
    if 97 <= v && v <= 122 {
        let r = ((c as u8) - 32) as char;
        proof {
            vstd::utf8::char_u32_cast(r, r as u32);
        }
        r
    } else {
        c
    }
}

/// Exec form of the display-name fallback.
pub fn title_words(s: &str) -> (r: String)
    ensures
        r@ == spec_title_words(s@),
{
    let n = s.unicode_len();
    let mut r = String::new();
    let mut i: usize = 0;
    let mut at_word_start: bool = true;
    while i < n
        invariant
            n == s@.len(),
            i <= n,
            r@ == spec_title_words(s@).take(i as int),
            at_word_start == (i == 0 || sep_to_space(s@[i - 1]) == ' '),
        decreases n - i,
    {
        let c0 = s.get_char(i);
        let c = if c0 == '.' {
            ' '
        } else {
            c0
        };
        let out = if at_word_start {
            upper_char(c)
        } else {
            c
        };
        r.push(out);
        proof {
            assert(r@ =~= spec_title_words(s@).take(i + 1));
        }
        at_word_start = c == ' ';
        i = i + 1;
    }
    proof {
        assert(spec_title_words(s@).take(n as int) =~= spec_title_words(s@));
    }
    r
}

} // verus!
