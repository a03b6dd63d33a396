//! The branch-name grammar: an uppercase team prefix, an optional hyphen, a run
//! of decimal digits (the issue number), then anything. Only the leftmost match
//! in a name counts, and within it the digit run is as long as possible.
use vstd::prelude::*;

verus! {

/// Whether `c` is an ASCII uppercase letter.
pub open spec fn is_upper(c: char) -> bool {
    'A' <= c && c <= 'Z'
}

/// Whether `c` is an ASCII decimal digit.
pub open spec fn is_digit(c: char) -> bool {
    '0' <= c && c <= '9'
}

/// The value of a decimal digit character.
pub open spec fn digit_value(c: char) -> nat {
    (c as u32 - '0' as u32) as nat
}

/// The digit character for a value below ten.
pub open spec fn digit_char(d: nat) -> char {
    ((d + 48) as u8) as char
}

/// Whether every character of `s` is a decimal digit.
pub open spec fn all_digits(s: Seq<char>) -> bool {
    forall|k: int| 0 <= k < s.len() ==> is_digit(#[trigger] s[k])
}

/// The number that a string of decimal digits denotes (leading zeros allowed).
pub open spec fn digits_value(s: Seq<char>) -> nat
    decreases s.len(),
{
    if s.len() == 0 {
        0
    } else {
        digits_value(s.drop_last()) * 10 + digit_value(s.last())
    }
}

/// Whether the pattern matches `s` starting at position `i`: an uppercase
/// letter, then either a digit or a hyphen followed by a digit.
pub open spec fn match_at(s: Seq<char>, i: int) -> bool {
    &&& 0 <= i
    &&& i + 1 < s.len()
    &&& is_upper(s[i])
    &&& (is_digit(s[i + 1]) || (s[i + 1] == '-' && i + 2 < s.len() && is_digit(s[i + 2])))
}

/// Where the digit run of a match at `i` begins.
pub open spec fn digits_start(s: Seq<char>, i: int) -> int {
    if s[i + 1] == '-' {
        i + 2
    } else {
        i + 1
    }
}

/// The end of the longest run of digits that starts at `j`.
pub open spec fn digit_run_end(s: Seq<char>, j: int) -> int
    decreases s.len() - j,
{
    if 0 <= j && j < s.len() && is_digit(s[j]) {
        digit_run_end(s, j + 1)
    } else {
        j
    }
}

/// The leftmost position at or after `i` where the pattern matches.
pub open spec fn first_match_from(s: Seq<char>, i: int) -> Option<int>
    decreases s.len() - i,
{
    if i < 0 || i >= s.len() {
        None
    } else if match_at(s, i) {
        Some(i)
    } else {
        first_match_from(s, i + 1)
    }
}

/// The leftmost position where the pattern matches `s`.
pub open spec fn first_match(s: Seq<char>) -> Option<int> {
    first_match_from(s, 0)
}

/// Whether the pattern matches anywhere in `s`.
pub open spec fn matches_pattern(s: Seq<char>) -> bool {
    exists|i: int| match_at(s, i)
}

/// The prefix captured by a match at `i`.
pub open spec fn captured_prefix(s: Seq<char>, i: int) -> Seq<char> {
    seq![s[i]]
}

/// The digits captured by a match at `i`.
pub open spec fn captured_digits(s: Seq<char>, i: int) -> Seq<char> {
    s.subrange(digits_start(s, i), digit_run_end(s, digits_start(s, i)))
}

proof fn lemma_digit_run_end_at(s: Seq<char>, j: int, e: int)
    requires
        0 <= j <= e <= s.len(),
        forall|k: int| j <= k < e ==> is_digit(#[trigger] s[k]),
        e == s.len() || !is_digit(s[e]),
    ensures
        digit_run_end(s, j) == e,
    decreases e - j,
{
    if j < e {
        lemma_digit_run_end_at(s, j + 1, e);
    }
}

/// Where `i` is the leftmost match, it is the one that resolution uses.
pub proof fn lemma_first_match_at(s: Seq<char>, i: int)
    requires
        match_at(s, i),
        forall|k: int| 0 <= k < i ==> !match_at(s, k),
    ensures
        first_match(s) == Some(i),
{
    lemma_first_match_is_leftmost(s, 0);
}

/// A name built as an uppercase letter, an optional hyphen, a run of digits,
/// and a tail that does not begin with a digit matches at its first character
/// and captures that letter and exactly that run of digits.
pub proof fn lemma_ticket_name_captures(
    upper: char,
    dash: bool,
    digits: Seq<char>,
    suffix: Seq<char>,
)
    requires
        is_upper(upper),
        digits.len() > 0,
        all_digits(digits),
        suffix.len() == 0 || !is_digit(suffix[0]),
    ensures
        ({
            let name = seq![upper] + (if dash {
                seq!['-']
            } else {
                Seq::<char>::empty()
            }) + digits + suffix;
            &&& first_match(name) == Some(0int)
            &&& captured_prefix(name, 0) == seq![upper]
            &&& captured_digits(name, 0) == digits
        }),
{
    let head = seq![upper] + (if dash {
        seq!['-']
    } else {
        Seq::<char>::empty()
    });
    let name = head + digits + suffix;
    let start = head.len() as int;
    let end = start + digits.len();
    assert(name[0] == upper);
    assert forall|k: int| start <= k < end implies is_digit(#[trigger] name[k]) by {
        assert(name[k] == digits[k - start]);
    }
    if dash {
        assert(name[1] == '-');
    }
    assert(match_at(name, 0));
    assert(digits_start(name, 0) == start);
    if end < name.len() {
        assert(name[end] == suffix[0]);
    }
    lemma_digit_run_end_at(name, start, end);
    lemma_first_match_at(name, 0);
    assert(captured_digits(name, 0) =~= digits);
    assert(captured_prefix(name, 0) =~= seq![upper]);
}

/// A name in which the pattern matches nowhere has no leftmost match.
pub proof fn lemma_no_match(s: Seq<char>)
    requires
        !matches_pattern(s),
    ensures
        first_match(s) is None,
{
    lemma_first_match_is_leftmost(s, 0);
}

/// At the leftmost match, the captured digits are a non-empty run of digits.
pub proof fn lemma_first_match_captures(s: Seq<char>)
    ensures
        first_match(s) matches Some(i) ==> match_at(s, i) && captured_digits(s, i).len() > 0
            && all_digits(captured_digits(s, i)),
{
    lemma_first_match_is_leftmost(s, 0);
    if let Some(i) = first_match(s) {
        let d = digits_start(s, i);
        lemma_digit_run_end_bounds(s, d);
        lemma_digit_run_end_bounds(s, d + 1);
    }
}

pub(crate) fn char_of_digit(d: u32) -> (c: char)
    requires
        d < 10,
    ensures
        c == digit_char(d as nat),
        is_digit(c),
        digit_value(c) == d,
{
    ((d + 48) as u8) as char
}

proof fn lemma_digit_run_end_bounds(s: Seq<char>, j: int)
    requires
        0 <= j <= s.len(),
    ensures
        j <= digit_run_end(s, j) <= s.len(),
        all_digits(s.subrange(j, digit_run_end(s, j))),
        digit_run_end(s, j) < s.len() ==> !is_digit(s[digit_run_end(s, j)]),
    decreases s.len() - j,
{
    if j < s.len() && is_digit(s[j]) {
        lemma_digit_run_end_bounds(s, j + 1);
        let e = digit_run_end(s, j);
        assert forall|k: int| 0 <= k < e - j implies is_digit(#[trigger] s.subrange(j, e)[k]) by {
            if k > 0 {
                assert(s.subrange(j, e)[k] == s.subrange(j + 1, e)[k - 1]);
            }
        }
    }
}

proof fn lemma_first_match_is_leftmost(s: Seq<char>, i: int)
    requires
        0 <= i,
    ensures
        first_match_from(s, i) matches Some(m) ==> i <= m && match_at(s, m) && forall|k: int|
            i <= k < m ==> !match_at(s, k),
        first_match_from(s, i) is None ==> forall|k: int| i <= k ==> !match_at(s, k),
    decreases s.len() - i,
{
    if i < s.len() && !match_at(s, i) {
        lemma_first_match_is_leftmost(s, i + 1);
    }
}

/// Finds the leftmost match of the pattern in `name` and returns the captured
/// prefix and digits, or `None` where the pattern matches nowhere.
pub fn match_branch_name(name: &str) -> (r: Option<(String, String)>)
    ensures
        match first_match(name@) {
            None => r is None,
            Some(i) => r matches Some((p, d)) && p@ == captured_prefix(name@, i) && d@
                == captured_digits(name@, i),
        },
{
    let n = name.unicode_len();
    let mut i: usize = 0;
    while i < n
        invariant
            n == name@.len(),
            i <= n,
            first_match(name@) == first_match_from(name@, i as int),
        decreases n - i,
    {
        if i + 1 < n && name.get_char(i) >= 'A' && name.get_char(i) <= 'Z' {
            let next = name.get_char(i + 1);
            let mut start: usize = n;
            if next >= '0' && next <= '9' {
                start = i + 1;
            } else if next == '-' && i + 2 < n {
                let after = name.get_char(i + 2);
                if after >= '0' && after <= '9' {
                    start = i + 2;
                }
            }
            if start < n {
                assert(match_at(name@, i as int));
                assert(start == digits_start(name@, i as int));
                let mut end: usize = start;
                while end < n && name.get_char(end) >= '0' && name.get_char(end) <= '9'
                    invariant
                        start <= end <= n,
                        n == name@.len(),
                        0 <= start < n,
                        digit_run_end(name@, start as int) == digit_run_end(name@, end as int),
                    decreases n - end,
                {
                    end = end + 1;
                }
                let prefix = name.substring_char(i, i + 1).to_owned();
                let digits = name.substring_char(start, end).to_owned();
                assert(prefix@ =~= captured_prefix(name@, i as int));
                return Some((prefix, digits));
            }
        }
        i = i + 1;
    }
    None
}

proof fn lemma_digits_value_push(s: Seq<char>, c: char)
    ensures
        digits_value(s.push(c)) == digits_value(s) * 10 + digit_value(c),
        digits_value(s.push(c)) >= digits_value(s),
{
    assert(s.push(c).drop_last() =~= s);
}

/// Reads a string of decimal digits as an unsigned 32-bit number. The result
/// is `None` where the string is empty, holds a character other than a digit,
/// or denotes a number above `u32::MAX`.
pub fn parse_issue_number(digits: &str) -> (r: Option<u32>)
    ensures
        r == (if digits@.len() > 0 && all_digits(digits@) && digits_value(digits@) <= u32::MAX {
            Some(digits_value(digits@) as u32)
        } else {
            None
        }),
{
    let n = digits.unicode_len();
    if n == 0 {
        return None;
    }
    let mut acc: u64 = 0;
    let mut too_large = false;
    let mut k: usize = 0;
    while k < n
        invariant
            n == digits@.len(),
            k <= n,
            all_digits(digits@.subrange(0, k as int)),
            !too_large ==> acc == digits_value(digits@.subrange(0, k as int)) && acc <= u32::MAX,
            too_large ==> digits_value(digits@.subrange(0, k as int)) > u32::MAX,
        decreases n - k,
    {
        let c = digits.get_char(k);
        if !(c >= '0' && c <= '9') {
            assert(!all_digits(digits@)) by {
                assert(!is_digit(digits@[k as int]));
            }
            return None;
        }
        proof {
            assert(digits@.subrange(0, k + 1) =~= digits@.subrange(0, k as int).push(c));
            lemma_digits_value_push(digits@.subrange(0, k as int), c);
        }
        if !too_large {
            acc = acc * 10 + (c as u32 - '0' as u32) as u64;
            if acc > 4294967295 {
                too_large = true;
            }
        }
        k = k + 1;
    }
    assert(digits@.subrange(0, n as int) =~= digits@);
    if too_large {
        None
    } else {
        Some(acc as u32)
    }
}

} // verus!
