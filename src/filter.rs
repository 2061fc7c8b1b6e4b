use vstd::prelude::*;
use crate::text::{
    chars_of, find_char, find_from, find_word_end, has_substring, is_alnum, is_alphanumeric,
    lemma_find_from_bounds, lemma_skip_white_bounds, lemma_word_end_bounds, occurs_at,
    skip_white, skip_whitespace, substring, word_end,
};

verus! {

/// Longest accepted quoted or `key=value` token, exclusive.
pub const MAX_TOKEN_LEN: usize = 100;

/// The span of the first quoted value: the characters between the first two `"`,
/// when there are between 1 and 99 of them.
pub open spec fn quoted_span(s: Seq<char>) -> Option<(int, int)> {
    let q1 = find_from(s, '"', 0);
    let q2 = find_from(s, '"', q1 + 1);
    if q1 < s.len() && q2 < s.len() && 0 < q2 - (q1 + 1) < MAX_TOKEN_LEN {
        Some((q1 + 1, q2))
    } else {
        None
    }
}

/// The span of the value after the first `=`: the first white-space delimited
/// token after it, when the `=` is neither first nor last and the token has
/// between 1 and 99 characters.
pub open spec fn key_value_span(s: Seq<char>) -> Option<(int, int)> {
    let e = find_from(s, '=', 0);
    let a = skip_white(s, e + 1);
    let b = word_end(s, a);
    if 0 < e < s.len() - 1 && 0 < b - a < MAX_TOKEN_LEN {
        Some((a, b))
    } else {
        None
    }
}

/// Some character of `s` in `[a, b)` is alphanumeric, as `al` marks them.
pub open spec fn any_alnum(al: Seq<bool>, a: int, b: int) -> bool {
    exists|k: int| a <= k < b && al[k]
}

/// A character that a cleaned word keeps.
pub open spec fn word_char(s: Seq<char>, al: Seq<bool>, k: int) -> bool {
    al[k] || s[k] == '_' || s[k] == '-'
}

/// The first index in `[i, b)` whose character a cleaned word does not keep, or `b`.
pub open spec fn clean_end(s: Seq<char>, al: Seq<bool>, i: int, b: int) -> int
    decreases b - i,
{
    if i >= b {
        b
    } else if !word_char(s, al, i) {
        i
    } else {
        clean_end(s, al, i + 1, b)
    }
}

/// The span of the first white-space delimited word at or after `i` that has at
/// least two characters and an alphanumeric one.
pub open spec fn first_word_from(s: Seq<char>, al: Seq<bool>, i: int) -> Option<(int, int)>
    decreases s.len() - i,
{
    let a = skip_white(s, i);
    let b = word_end(s, a);
    if i < 0 || i >= s.len() || a >= s.len() {
        None
    } else if b - a >= 2 && any_alnum(al, a, b) {
        Some((a, b))
    } else if b <= i || b > s.len() {
        None
    } else {
        first_word_from(s, al, b)
    }
}

/// The span of that first word with its punctuation cut off, when at least two
/// characters stay.
pub open spec fn word_span(s: Seq<char>, al: Seq<bool>) -> Option<(int, int)> {
    match first_word_from(s, al, 0) {
        Some((a, b)) => {
            let c = clean_end(s, al, a, b);
            if c - a >= 2 {
                Some((a, c))
            } else {
                None
            }
        },
        None => None,
    }
}

/// The span of the filter token of `s`, given which of its characters are
/// alphanumeric: the quoted value, else the `key=value` value, else the first word.
pub open spec fn filter_span(s: Seq<char>, al: Seq<bool>) -> Option<(int, int)> {
    match quoted_span(s) {
        Some(p) => Some(p),
        None => match key_value_span(s) {
            Some(p) => Some(p),
            None => word_span(s, al),
        },
    }
}

/// Which characters of `s` are alphanumeric.
pub open spec fn alnum_flags(s: Seq<char>) -> Seq<bool> {
    Seq::new(s.len(), |k: int| is_alnum(s[k]))
}

/// The filter token that a line yields, if any.
pub open spec fn filter_token(s: Seq<char>) -> Option<Seq<char>> {
    match filter_span(s, alnum_flags(s)) {
        Some((a, b)) => Some(s.subrange(a, b)),
        None => None,
    }
}

/// A token is never empty and always occurs in the line it came from.
pub proof fn lemma_token_in_line(s: Seq<char>)
    ensures
        filter_token(s) matches Some(t) ==> t.len() > 0 && has_substring(s, t),
{
    lemma_filter_span_bounds(s, alnum_flags(s));
    if let Some((a, b)) = filter_span(s, alnum_flags(s)) {
        assert(occurs_at(s, s.subrange(a, b), a));
    }
}

proof fn lemma_clean_end_bounds(s: Seq<char>, al: Seq<bool>, i: int, b: int)
    requires
        i <= b,
    ensures
        i <= clean_end(s, al, i, b) <= b,
    decreases b - i,
{
    if i < b && word_char(s, al, i) {
        lemma_clean_end_bounds(s, al, i + 1, b);
    }
}

proof fn lemma_first_word_bounds(s: Seq<char>, al: Seq<bool>, i: int)
    ensures
        first_word_from(s, al, i) matches Some((a, b)) ==> 0 <= a < b <= s.len(),
    decreases s.len() - i,
{
    if 0 <= i < s.len() {
        lemma_skip_white_bounds(s, i);
        let a = skip_white(s, i);
        if a < s.len() {
            lemma_word_end_bounds(s, a);
            let b = word_end(s, a);
            if !(b - a >= 2 && any_alnum(al, a, b)) && b > i {
                lemma_first_word_bounds(s, al, b);
            }
        }
    }
}

/// Every span that `filter_span` gives lies inside the line and is not empty.
pub proof fn lemma_filter_span_bounds(s: Seq<char>, al: Seq<bool>)
    ensures
        filter_span(s, al) matches Some((a, b)) ==> 0 <= a < b <= s.len(),
{
    lemma_find_from_bounds(s, '"', 0);
    let q1 = find_from(s, '"', 0);
    if q1 < s.len() {
        lemma_find_from_bounds(s, '"', q1 + 1);
    }
    lemma_find_from_bounds(s, '=', 0);
    let e = find_from(s, '=', 0);
    if 0 < e < s.len() - 1 {
        lemma_skip_white_bounds(s, e + 1);
        lemma_word_end_bounds(s, skip_white(s, e + 1));
    }
    lemma_first_word_bounds(s, al, 0);
    if let Some((a, b)) = first_word_from(s, al, 0) {
        lemma_clean_end_bounds(s, al, a, b);
    }
}

fn quoted_span_of(s: &Vec<char>) -> (r: Option<(usize, usize)>)
    ensures
        r matches Some((a, b)) ==> quoted_span(s@) == Some((a as int, b as int)),
        r is None ==> quoted_span(s@) is None,
{
    let q1 = find_char(s, '"', 0);
    proof {
        lemma_find_from_bounds(s@, '"', 0);
    }
    if q1 >= s.len() {
        return None;
    }
    let q2 = find_char(s, '"', q1 + 1);
    proof {
        lemma_find_from_bounds(s@, '"', q1 + 1);
    }
    if q2 < s.len() && q2 - (q1 + 1) > 0 && q2 - (q1 + 1) < MAX_TOKEN_LEN {
        Some((q1 + 1, q2))
    } else {
        None
    }
}

fn key_value_span_of(s: &Vec<char>) -> (r: Option<(usize, usize)>)
    ensures
        r matches Some((a, b)) ==> key_value_span(s@) == Some((a as int, b as int)),
        r is None ==> key_value_span(s@) is None,
{
    let e = find_char(s, '=', 0);
    proof {
        lemma_find_from_bounds(s@, '=', 0);
    }
    if e == 0 || s.len() == 0 || e >= s.len() - 1 {
        return None;
    }
    let a = skip_whitespace(s, e + 1);
    proof {
        lemma_skip_white_bounds(s@, e + 1);
    }
    let b = find_word_end(s, a);
    proof {
        lemma_word_end_bounds(s@, a as int);
    }
    if b - a > 0 && b - a < MAX_TOKEN_LEN {
        Some((a, b))
    } else {
        None
    }
}

fn has_alnum(al: &Vec<bool>, a: usize, b: usize) -> (r: bool)
    requires
        a <= b <= al@.len(),
    ensures
        r == any_alnum(al@, a as int, b as int),
{
    let mut k = a;
    while k < b
        invariant
            a <= k <= b,
            b <= al@.len(),
            forall|j: int| a <= j < k ==> !al@[j],
        decreases b - k,
    {
        if al[k] {
            return true;
        }
        k = k + 1;
    }
    false
}

fn clean_end_of(s: &Vec<char>, al: &Vec<bool>, a: usize, b: usize) -> (r: usize)
    requires
        a <= b <= s@.len(),
        al@.len() == s@.len(),
    ensures
        r == clean_end(s@, al@, a as int, b as int),
{
    let mut k = a;
    while k < b
        invariant
            a <= k <= b,
            b <= s@.len(),
            al@.len() == s@.len(),
            clean_end(s@, al@, a as int, b as int) == clean_end(s@, al@, k as int, b as int),
        decreases b - k,
    {
        if !(al[k] || s[k] == '_' || s[k] == '-') {
            return k;
        }
        k = k + 1;
    }
    k
}

fn word_span_of(s: &Vec<char>, al: &Vec<bool>) -> (r: Option<(usize, usize)>)
    requires
        al@.len() == s@.len(),
    ensures
        r matches Some((a, b)) ==> word_span(s@, al@) == Some((a as int, b as int)),
        r is None ==> word_span(s@, al@) is None,
{
    let mut i: usize = 0;
    while i < s.len()
        invariant
            i <= s@.len(),
            al@.len() == s@.len(),
            first_word_from(s@, al@, 0) == first_word_from(s@, al@, i as int),
        decreases s@.len() - i,
    {
        let a = skip_whitespace(s, i);
        proof {
            lemma_skip_white_bounds(s@, i as int);
        }
        if a >= s.len() {
            return None;
        }
        let b = find_word_end(s, a);
        proof {
            lemma_word_end_bounds(s@, a as int);
        }
        if b - a >= 2 && has_alnum(al, a, b) {
            let c = clean_end_of(s, al, a, b);
            proof {
                lemma_clean_end_bounds(s@, al@, a as int, b as int);
            }
            if c - a >= 2 {
                return Some((a, c));
            } else {
                return None;
            }
        }
        i = b;
    }
    None
}

/// The span of the filter token of `s`, given for each of its characters whether
/// it is alphanumeric.
pub fn filter_span_of(s: &Vec<char>, al: &Vec<bool>) -> (r: Option<(usize, usize)>)
    requires
        al@.len() == s@.len(),
    ensures
        r matches Some((a, b)) ==> filter_span(s@, al@) == Some((a as int, b as int)),
        r is None ==> filter_span(s@, al@) is None,
{
    match quoted_span_of(s) {
        Some(p) => Some(p),
        None => match key_value_span_of(s) {
            Some(p) => Some(p),
            None => word_span_of(s, al),
        },
    }
}

/// Derives the filter token of a line: the first quoted value, else the value of
/// the first `key=value`, else the first word with at least two characters and
/// an alphanumeric one, cut at its first character that is neither alphanumeric
/// nor `_` nor `-`. None when no strategy yields a token.
pub fn extract_filter_text(line: &str) -> (r: Option<String>)
    ensures
        r is Some == filter_token(line@) is Some,
        r matches Some(t) ==> t@ == filter_token(line@)->0,
{
    let s = chars_of(line);
    let mut al: Vec<bool> = Vec::new();
    let mut k: usize = 0;
    while k < s.len()
        invariant
            k <= s@.len(),
            s@ == line@,
            al@.len() == k,
            forall|j: int| 0 <= j < k ==> al@[j] == is_alnum(s@[j]),
        decreases s@.len() - k,
    {
        al.push(is_alphanumeric(s[k]));
        k = k + 1;
    }
    proof {
        assert(al@ =~= alnum_flags(line@));
        lemma_filter_span_bounds(s@, al@);
    }
    match filter_span_of(&s, &al) {
        Some((a, b)) => Some(substring(line, a, b)),
        None => None,
    }
}

} // verus!
