use vstd::prelude::*;
use crate::text::{
    chars_of, find_char, find_from, find_word_end, is_cntrl, is_control, is_white, is_whitespace,
    lemma_find_from_bounds, lemma_skip_white_bounds, lemma_word_end_bounds, push_char,
    skip_white, skip_whitespace, substring, word_end,
};

verus! {

/// Bytes that `c` takes in UTF-8.
pub open spec fn utf8_width(c: char) -> nat {
    let u = c as u32;
    if u < 0x80 {
        1
    } else if u < 0x800 {
        2
    } else if u < 0x10000 {
        3
    } else {
        4
    }
}

/// Bytes that `s` takes in UTF-8.
pub open spec fn utf8_len(s: Seq<char>) -> nat
    decreases s.len(),
{
    if s.len() == 0 {
        0
    } else {
        utf8_len(s.drop_last()) + utf8_width(s.last())
    }
}

/// What a character becomes on screen: a tab two spaces, a newline a space, a
/// carriage return nothing, NUL `\0`, another control code `?`, anything else itself.
pub open spec fn replacement(c: char) -> Seq<char> {
    if c == '\t' {
        seq![' ', ' ']
    } else if c == '\n' {
        seq![' ']
    } else if c == '\r' {
        Seq::empty()
    } else if is_cntrl(c) {
        if c == '\0' {
            seq!['\\', '0']
        } else {
            seq!['?']
        }
    } else {
        seq![c]
    }
}

/// `acc` followed by the replacements of `s`, until `acc` reaches `max` bytes
/// with characters still to come: then `...` ends it.
pub open spec fn sanitize_from(s: Seq<char>, max: int, acc: Seq<char>) -> Seq<char>
    decreases s.len(),
{
    if s.len() == 0 {
        acc
    } else if utf8_len(acc) >= max {
        acc + seq!['.', '.', '.']
    } else {
        sanitize_from(s.drop_first(), max, acc + replacement(s[0]))
    }
}

pub open spec fn sanitized(s: Seq<char>, max: int) -> Seq<char> {
    sanitize_from(s, max, Seq::empty())
}

pub proof fn lemma_utf8_len_push(s: Seq<char>, c: char)
    ensures
        utf8_len(s.push(c)) == utf8_len(s) + utf8_width(c),
{
    assert(s.push(c).drop_last() =~= s);
}

pub(crate) fn char_width(c: char) -> (r: u128)
    ensures
        r == utf8_width(c),
{
    let u = c as u32;
    if u < 0x80 {
        1
    } else if u < 0x800 {
        2
    } else if u < 0x10000 {
        3
    } else {
        4
    }
}

fn push_tracked(out: &mut String, bytes: &mut u128, c: char)
    requires
        *old(bytes) == utf8_len(old(out)@),
        *old(bytes) < u128::MAX - 4,
    ensures
        final(out)@ == old(out)@.push(c),
        *final(bytes) == utf8_len(final(out)@),
        *final(bytes) == *old(bytes) + utf8_width(c),
{
    proof {
        lemma_utf8_len_push(out@, c);
    }
    push_char(out, c);
    *bytes = *bytes + char_width(c);
}

/// Makes a line safe to show: control characters replaced, and cut with `...`
/// once the text reaches `max_len` bytes while characters remain.
pub fn sanitize_for_display(s: &str, max_len: usize) -> (r: String)
    ensures
        r@ == sanitized(s@, max_len as int),
{
    let cs = chars_of(s);
    let mut out = String::new();
    let mut bytes: u128 = 0;
    let mut i: usize = 0;
    proof {
        assert(cs@.skip(0) =~= s@);
    }
    while i < cs.len()
        invariant
            i <= cs@.len(),
            cs@ == s@,
            bytes == utf8_len(out@),
            bytes < max_len + 4,
            sanitized(s@, max_len as int) == sanitize_from(cs@.skip(i as int), max_len as int, out@),
        decreases cs@.len() - i,
    {
        let ghost acc = out@;
        if bytes >= max_len as u128 {
            push_tracked(&mut out, &mut bytes, '.');
            push_tracked(&mut out, &mut bytes, '.');
            push_tracked(&mut out, &mut bytes, '.');
            proof {
                assert(out@ =~= acc + seq!['.', '.', '.']);
            }
            return out;
        }
        let c = cs[i];
        if c == '\t' {
            push_tracked(&mut out, &mut bytes, ' ');
            push_tracked(&mut out, &mut bytes, ' ');
        } else if c == '\n' {
            push_tracked(&mut out, &mut bytes, ' ');
        } else if c == '\r' {
        } else if is_control(c) {
            if c == '\0' {
                push_tracked(&mut out, &mut bytes, '\\');
                push_tracked(&mut out, &mut bytes, '0');
            } else {
                push_tracked(&mut out, &mut bytes, '?');
            }
        } else {
            push_tracked(&mut out, &mut bytes, c);
        }
        proof {
            assert(out@ =~= acc + replacement(c));
            assert(cs@.skip(i as int).drop_first() =~= cs@.skip(i + 1));
        }
        i = i + 1;
    }
    out
}

/// The number of leading characters of `s` from `k` on that fit in `max` bytes.
pub open spec fn fitting_chars(s: Seq<char>, max: int, k: int) -> int
    decreases s.len() - k,
{
    if k < 0 || k >= s.len() || utf8_len(s.take(k + 1)) > max {
        k
    } else {
        fitting_chars(s, max, k + 1)
    }
}

proof fn lemma_take_push_len(s: Seq<char>, k: int)
    requires
        0 <= k < s.len(),
    ensures
        utf8_len(s.take(k + 1)) == utf8_len(s.take(k)) + utf8_width(s[k]),
{
    assert(s.take(k + 1) =~= s.take(k).push(s[k]));
    lemma_utf8_len_push(s.take(k), s[k]);
}

/// Bytes that the characters take in UTF-8.
pub fn utf8_length(cs: &Vec<char>) -> (r: u128)
    ensures
        r == utf8_len(cs@),
{
    let mut total: u128 = 0;
    let mut k: usize = 0;
    while k < cs.len()
        invariant
            k <= cs@.len(),
            total == utf8_len(cs@.take(k as int)),
            total <= 4 * k,
        decreases cs@.len() - k,
    {
        proof {
            lemma_take_push_len(cs@, k as int);
        }
        total = total + char_width(cs[k]);
        k = k + 1;
    }
    proof {
        assert(cs@.take(k as int) =~= cs@);
    }
    total
}

/// The longest prefix of the characters that fits in `max` bytes: its length in
/// characters and in bytes.
pub fn fitting_prefix(cs: &Vec<char>, max: u128) -> (r: (usize, u128))
    ensures
        r.0 == fitting_chars(cs@, max as int, 0),
        r.0 <= cs@.len(),
        r.1 == utf8_len(cs@.take(r.0 as int)),
        r.1 <= max,
{
    let mut kept: u128 = 0;
    let mut n: usize = 0;
    proof {
        assert(cs@.take(0) =~= Seq::<char>::empty());
    }
    while n < cs.len() && char_width(cs[n]) <= max - kept
        invariant
            n <= cs@.len(),
            kept == utf8_len(cs@.take(n as int)),
            kept <= max,
            fitting_chars(cs@, max as int, 0) == fitting_chars(cs@, max as int, n as int),
        decreases cs@.len() - n,
    {
        proof {
            lemma_take_push_len(cs@, n as int);
        }
        kept = kept + char_width(cs[n]);
        n = n + 1;
    }
    proof {
        if n < cs@.len() {
            lemma_take_push_len(cs@, n as int);
        }
    }
    (n, kept)
}

/// Every character of `s` is white space.
pub open spec fn all_white(s: Seq<char>) -> bool {
    forall|k: int| 0 <= k < s.len() ==> is_white(#[trigger] s[k])
}

/// What a line looks like on screen: sanitized to 1000 bytes, or `[empty line]`
/// when nothing but white space is left.
pub open spec fn display_text(s: Seq<char>) -> Seq<char> {
    if all_white(sanitized(s, 1000)) {
        "[empty line]"@
    } else {
        sanitized(s, 1000)
    }
}

pub fn safe_string_display(s: &str) -> (r: String)
    ensures
        r@ == display_text(s@),
{
    let clean = sanitize_for_display(s, 1000);
    let cs = chars_of(clean.as_str());
    let mut k: usize = 0;
    while k < cs.len()
        invariant
            k <= cs@.len(),
            cs@ == clean@,
            clean@ == sanitized(s@, 1000),
            forall|j: int| 0 <= j < k ==> is_white(#[trigger] cs@[j]),
        decreases cs@.len() - k,
    {
        if !is_whitespace(cs[k]) {
            proof {
                assert(!is_white(clean@[k as int]));
                assert(!all_white(clean@));
            }
            return clean;
        }
        k = k + 1;
    }
    String::from_str("[empty line]")
}

/// The `key=value` pairs of the white-space delimited words from index `i` on:
/// each word with an `=` splits at its first one, key sanitized to 100 bytes and
/// value to 200; words whose key comes out empty are left out.
pub open spec fn pairs_from(s: Seq<char>, i: int) -> Seq<(Seq<char>, Seq<char>)>
    decreases s.len() - i,
{
    let a = skip_white(s, i);
    let b = word_end(s, a);
    let e = find_from(s, '=', a);
    if i < 0 || a >= s.len() || b <= i || b > s.len() {
        Seq::empty()
    } else {
        let here = if e < b && sanitized(s.subrange(a, e), 100).len() > 0 {
            seq![(sanitized(s.subrange(a, e), 100), sanitized(s.subrange(e + 1, b), 200))]
        } else {
            Seq::empty()
        };
        here + pairs_from(s, b)
    }
}

pub open spec fn pair_views(v: Seq<(String, String)>) -> Seq<(Seq<char>, Seq<char>)> {
    v.map_values(|p: (String, String)| (p.0@, p.1@))
}

pub fn extract_key_value_pairs(line: &str) -> (r: Vec<(String, String)>)
    ensures
        pair_views(r@) == pairs_from(line@, 0),
{
    let cs = chars_of(line);
    let mut out: Vec<(String, String)> = Vec::new();
    let mut i: usize = 0;
    proof {
        assert(pair_views(out@) + pairs_from(line@, 0) =~= pairs_from(line@, 0));
    }
    while i < cs.len()
        invariant
            i <= cs@.len(),
            cs@ == line@,
            pairs_from(line@, 0) == pair_views(out@) + pairs_from(line@, i as int),
        decreases cs@.len() - i,
    {
        let a = skip_whitespace(&cs, i);
        proof {
            lemma_skip_white_bounds(cs@, i as int);
        }
        if a >= cs.len() {
            proof {
                assert(pair_views(out@) + pairs_from(line@, i as int) =~= pair_views(out@));
            }
            return out;
        }
        let b = find_word_end(&cs, a);
        let e = find_char(&cs, '=', a);
        proof {
            lemma_word_end_bounds(cs@, a as int);
            lemma_find_from_bounds(cs@, '=', a as int);
        }
        let ghost before = out@;
        if e < b {
            let key = sanitize_for_display(substring(line, a, e).as_str(), 100);
            if !key.as_str().is_empty() {
                let value = sanitize_for_display(substring(line, e + 1, b).as_str(), 200);
                out.push((key, value));
            }
        }
        proof {
            let here = if e < b && sanitized(line@.subrange(a as int, e as int), 100).len() > 0 {
                seq![
                    (
                        sanitized(line@.subrange(a as int, e as int), 100),
                        sanitized(line@.subrange(e + 1, b as int), 200),
                    ),
                ]
            } else {
                Seq::empty()
            };
            assert(pair_views(out@) =~= pair_views(before) + here);
            assert(pairs_from(line@, i as int) == here + pairs_from(line@, b as int));
            assert(pair_views(before) + (here + pairs_from(line@, b as int)) =~= pair_views(out@)
                + pairs_from(line@, b as int));
        }
        i = b;
    }
    proof {
        assert(pair_views(out@) + pairs_from(line@, i as int) =~= pair_views(out@));
    }
    out
}

} // verus!
