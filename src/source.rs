use vstd::prelude::*;
use crate::display::{fitting_chars, fitting_prefix, utf8_len, utf8_length};
use crate::text::{
    chars_of, find_char, opt_str_view, find_from, is_white, is_whitespace, lemma_find_from_bounds,
    lemma_skip_white_bounds, push_char, skip_white, skip_whitespace, substring,
};

verus! {

/// Longest command shown whole, in UTF-8 bytes.
pub const MAX_COMMAND_LEN: usize = 60;

/// Bytes kept at most of a longer command, before `...`.
pub const KEPT_COMMAND_LEN: usize = 57;

/// The end of `s` without the white space that closes it, looking below `j`.
pub open spec fn trail_end(s: Seq<char>, j: int) -> int
    decreases j,
{
    if j <= 0 {
        0
    } else if !is_white(s[j - 1]) {
        j
    } else {
        trail_end(s, j - 1)
    }
}

/// `s` without white space at either end.
pub open spec fn trimmed(s: Seq<char>) -> Seq<char> {
    let a = skip_white(s, 0);
    let b = trail_end(s, s.len() as int);
    if a < b {
        s.subrange(a, b)
    } else {
        Seq::empty()
    }
}

/// The last index below `j` that holds `c`, or -1.
pub open spec fn rfind_before(s: Seq<char>, c: char, j: int) -> int
    decreases j,
{
    if j <= 0 {
        -1
    } else if s[j - 1] == c {
        j - 1
    } else {
        rfind_before(s, c, j - 1)
    }
}

pub open spec fn is_prefix(p: Seq<char>, s: Seq<char>) -> bool {
    p.len() <= s.len() && s.take(p.len() as int) == p
}

/// A command as the status bar shows it: trimmed; for a command run through
/// `sh -c` the text between its first and last single quote; else, when it takes
/// more than 60 bytes in UTF-8, the characters that fit in its first 57 bytes
/// and `...`.
pub open spec fn cleaned_command(cmd: Seq<char>) -> Seq<char> {
    let t = trimmed(cmd);
    let shell = is_prefix("sh -c "@, t) || is_prefix("/bin/sh -c "@, t);
    let st = find_from(t, '\'', 0);
    let en = rfind_before(t, '\'', t.len() as int);
    if shell && st < t.len() && en > st {
        t.subrange(st + 1, en)
    } else if utf8_len(t) > MAX_COMMAND_LEN {
        t.take(fitting_chars(t, KEPT_COMMAND_LEN as int, 0)) + "..."@
    } else {
        t
    }
}

proof fn lemma_trail_end_bounds(s: Seq<char>, j: int)
    requires
        0 <= j <= s.len(),
    ensures
        0 <= trail_end(s, j) <= j,
    decreases j,
{
    if j > 0 && is_white(s[j - 1]) {
        lemma_trail_end_bounds(s, j - 1);
    }
}

proof fn lemma_rfind_bounds(s: Seq<char>, c: char, j: int)
    requires
        0 <= j <= s.len(),
    ensures
        -1 <= rfind_before(s, c, j) < j,
    decreases j,
{
    if j > 0 && s[j - 1] != c {
        lemma_rfind_bounds(s, c, j - 1);
    }
}

/// `s` with the white space at both ends removed.
pub fn trim(s: &str) -> (r: String)
    ensures
        r@ == trimmed(s@),
{
    let cs = chars_of(s);
    let a = skip_whitespace(&cs, 0);
    proof {
        lemma_skip_white_bounds(cs@, 0);
    }
    let mut b = cs.len();
    while b > 0
        invariant
            b <= cs@.len(),
            cs@ == s@,
            trail_end(cs@, cs@.len() as int) == trail_end(cs@, b as int),
        ensures
            trail_end(cs@, cs@.len() as int) == trail_end(cs@, b as int),
            b == 0 || !is_white(cs@[b - 1]),
        decreases b,
    {
        if !is_whitespace(cs[b - 1]) {
            break;
        }
        b = b - 1;
    }
    proof {
        lemma_trail_end_bounds(cs@, b as int);
    }
    if a < b {
        substring(s, a, b)
    } else {
        String::new()
    }
}

fn starts_with(s: &Vec<char>, p: &str) -> (r: bool)
    ensures
        r == is_prefix(p@, s@),
{
    let pc = chars_of(p);
    if pc.len() > s.len() {
        return false;
    }
    let mut k: usize = 0;
    while k < pc.len()
        invariant
            pc@ == p@,
            pc@.len() <= s@.len(),
            k <= pc@.len(),
            forall|j: int| 0 <= j < k ==> s@[j] == pc@[j],
        decreases pc@.len() - k,
    {
        if s[k] != pc[k] {
            proof {
                assert(s@.take(pc@.len() as int)[k as int] != p@[k as int]);
            }
            return false;
        }
        k = k + 1;
    }
    proof {
        assert(s@.take(pc@.len() as int) =~= p@);
    }
    true
}

fn rfind_char(s: &Vec<char>, c: char) -> (r: Option<usize>)
    ensures
        r matches Some(k) ==> k == rfind_before(s@, c, s@.len() as int),
        r is None ==> rfind_before(s@, c, s@.len() as int) == -1,
{
    let mut j = s.len();
    while j > 0
        invariant
            j <= s@.len(),
            rfind_before(s@, c, s@.len() as int) == rfind_before(s@, c, j as int),
        decreases j,
    {
        if s[j - 1] == c {
            return Some(j - 1);
        }
        j = j - 1;
    }
    None
}

/// Shortens a command line for display (see `cleaned_command`).
pub fn clean_command(cmd: &str) -> (r: String)
    ensures
        r@ == cleaned_command(cmd@),
{
    let t = trim(cmd);
    let tc = chars_of(t.as_str());
    let shell = starts_with(&tc, "sh -c ") || starts_with(&tc, "/bin/sh -c ");
    if shell {
        let st = find_char(&tc, '\'', 0);
        proof {
            lemma_find_from_bounds(tc@, '\'', 0);
            lemma_rfind_bounds(tc@, '\'', tc@.len() as int);
        }
        if st < tc.len() {
            match rfind_char(&tc, '\'') {
                Some(en) => {
                    if en > st {
                        return substring(t.as_str(), st + 1, en);
                    }
                },
                None => {},
            }
        }
    }
    if utf8_length(&tc) > MAX_COMMAND_LEN as u128 {
        let (n, _) = fitting_prefix(&tc, KEPT_COMMAND_LEN as u128);
        let mut out = substring(t.as_str(), 0, n);
        out.append("...");
        proof {
            assert(t@.subrange(0, n as int) =~= t@.take(n as int));
        }
        out
    } else {
        t
    }
}

/// What the status bar says of the input: waiting when standard input is a
/// terminal, else the cleaned command of the parent process when it is known
/// and not empty, else plain standard input.
pub open spec fn input_description(stdin_is_tty: bool, parent: Option<Seq<char>>) -> Seq<char> {
    if stdin_is_tty {
        "Waiting for input..."@
    } else {
        match parent {
            Some(cmd) => if cleaned_command(cmd).len() > 0 {
                "Reading from: "@ + cleaned_command(cmd)
            } else {
                "Reading from stdin"@
            },
            None => "Reading from stdin"@,
        }
    }
}

/// Describes the input source, given the command line of the parent process
/// when it could be found.
pub fn detect_input_source(stdin_is_tty: bool, parent_command: Option<&str>) -> (r: String)
    ensures
        r@ == input_description(stdin_is_tty, opt_str_view(parent_command)),
{
    if stdin_is_tty {
        return String::from_str("Waiting for input...");
    }
    match parent_command {
        Some(cmd) => {
            let cleaned = clean_command(cmd);
            if !cleaned.as_str().is_empty() {
                let mut r = String::from_str("Reading from: ");
                r.append(cleaned.as_str());
                return r;
            }
        },
        None => {},
    }
    String::from_str("Reading from stdin")
}

/// Fields of a NUL-separated command line shown at most.
pub const MAX_COMMAND_FIELDS: usize = 3;

/// The spans of the NUL-separated fields of `s` from index `i` on.
pub open spec fn nul_fields(s: Seq<char>, i: int) -> Seq<(int, int)>
    decreases s.len() + 1 - i,
{
    let e = find_from(s, '\0', i);
    if i < 0 || i > s.len() {
        Seq::empty()
    } else if e >= s.len() || e < i {
        seq![(i, s.len() as int)]
    } else {
        seq![(i, e)] + nul_fields(s, e + 1)
    }
}

/// The fields among `spans` that are not empty, joined by single spaces.
pub open spec fn join_fields(s: Seq<char>, spans: Seq<(int, int)>) -> Seq<char>
    decreases spans.len(),
{
    if spans.len() == 0 {
        Seq::empty()
    } else {
        let rest = join_fields(s, spans.drop_last());
        let (a, b) = spans.last();
        if a >= b {
            rest
        } else if rest.len() == 0 {
            s.subrange(a, b)
        } else {
            rest + seq![' '] + s.subrange(a, b)
        }
    }
}

/// A process command line as `/proc` gives it (arguments separated by NUL):
/// its first three fields, the empty ones left out, joined by spaces.
pub open spec fn command_of_cmdline(s: Seq<char>) -> Seq<char> {
    let fields = nul_fields(s, 0);
    join_fields(
        s,
        if fields.len() > MAX_COMMAND_FIELDS {
            fields.take(MAX_COMMAND_FIELDS as int)
        } else {
            fields
        },
    )
}

proof fn lemma_nul_fields_step(s: Seq<char>, i: int)
    requires
        0 <= i <= s.len(),
    ensures
        nul_fields(s, i).len() >= 1,
        nul_fields(s, i)[0] == (i, if find_from(s, '\0', i) >= s.len() {
            s.len() as int
        } else {
            find_from(s, '\0', i)
        }),
        find_from(s, '\0', i) < s.len() ==> nul_fields(s, i).skip(1) == nul_fields(
            s,
            find_from(s, '\0', i) + 1,
        ),
        find_from(s, '\0', i) >= s.len() ==> nul_fields(s, i).len() == 1,
{
    lemma_find_from_bounds(s, '\0', i);
    let e = find_from(s, '\0', i);
    if e < s.len() {
        assert(nul_fields(s, i).skip(1) =~= nul_fields(s, e + 1));
    }
}

/// The command that a `/proc/<pid>/cmdline` text stands for.
pub fn command_from_cmdline(raw: &str) -> (r: String)
    ensures
        r@ == command_of_cmdline(raw@),
{
    let cs = chars_of(raw);
    let mut out = String::new();
    let mut start: usize = 0;
    let mut taken: usize = 0;
    let ghost all = nul_fields(raw@, 0);
    proof {
        lemma_nul_fields_step(raw@, 0);
        assert(all.skip(0) =~= all);
        assert(all.take(0) =~= Seq::<(int, int)>::empty());
    }
    while taken < MAX_COMMAND_FIELDS
        invariant
            cs@ == raw@,
            start <= cs@.len(),
            taken <= MAX_COMMAND_FIELDS,
            taken <= all.len(),
            all == nul_fields(raw@, 0),
            all.skip(taken as int) == nul_fields(raw@, start as int),
            out@ == join_fields(raw@, all.take(taken as int)),
        decreases MAX_COMMAND_FIELDS - taken,
    {
        let e = find_char(&cs, '\0', start);
        proof {
            lemma_nul_fields_step(raw@, start as int);
            lemma_find_from_bounds(raw@, '\0', start as int);
            assert(all.skip(taken as int)[0] == all[taken as int]);
            assert(all.take(taken + 1).drop_last() =~= all.take(taken as int));
            assert(all.take(taken + 1).last() == all[taken as int]);
        }
        let ghost before = out@;
        if e > start {
            if !out.as_str().is_empty() {
                push_char(&mut out, ' ');
            }
            let field = substring(raw, start, e);
            out.append(field.as_str());
        }
        proof {
            if e > start && before.len() > 0 {
                assert(out@ =~= before + seq![' '] + raw@.subrange(start as int, e as int));
            }
        }
        taken = taken + 1;
        if e >= cs.len() {
            proof {
                assert(all.len() == taken);
                                assert(all.take(taken as int) =~= all);
            }
            return out;
        }
        start = e + 1;
        proof {
            assert(all.skip(taken as int) =~= all.skip(taken - 1).skip(1));
        }
    }
    out
}

} // verus!
