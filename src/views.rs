use vstd::prelude::*;
use crate::classify::{decimal, to_decimal};
use crate::display::{
    display_text, extract_key_value_pairs, pair_views, pairs_from, safe_string_display,
    sanitize_for_display, sanitized,
};
use crate::json::{format_value, value_text, JsonValue};
use crate::log::AppState;
use crate::text::{chars_of, contains, has_substring, occurs_at, substring};

verus! {

/// How the log lines are shown: a built-in view, or an external tool by name.
#[derive(Clone, Debug)]
pub enum ViewKind {
    Plain,
    KeyValue,
    Json,
    ExternalTool(String),
}

/// The name of a view as the status bar shows it.
pub open spec fn view_name(v: ViewKind) -> Seq<char> {
    match v {
        ViewKind::Plain => "Plain"@,
        ViewKind::KeyValue => "KeyValue"@,
        ViewKind::Json => "Json"@,
        ViewKind::ExternalTool(name) => "External: "@ + name@,
    }
}

impl ViewKind {
    pub fn name(&self) -> (r: String)
        ensures
            r@ == view_name(*self),
    {
        match self {
            ViewKind::Plain => String::from_str("Plain"),
            ViewKind::KeyValue => String::from_str("KeyValue"),
            ViewKind::Json => String::from_str("Json"),
            ViewKind::ExternalTool(name) => {
                let mut r = String::from_str("External: ");
                r.append(name.as_str());
                r
            },
        }
    }
}

/// The first position at or after `i` where `t` occurs in `s`.
pub open spec fn first_occurrence(s: Seq<char>, t: Seq<char>, i: int) -> Option<int>
    decreases s.len() - i,
{
    if i < 0 || i >= s.len() || i + t.len() > s.len() {
        None
    } else if occurs_at(s, t, i) {
        Some(i)
    } else {
        first_occurrence(s, t, i + 1)
    }
}

/// The pieces of `s` from `i` on: the text between occurrences of `t` plain, and
/// each occurrence (leftmost first, not overlapping) highlighted.
pub open spec fn segments_from(s: Seq<char>, t: Seq<char>, i: int) -> Seq<(Seq<char>, bool)>
    decreases s.len() - i,
{
    if t.len() == 0 || i < 0 || i > s.len() {
        Seq::empty()
    } else {
        match first_occurrence(s, t, i) {
            Some(k) => if k < i || k + t.len() > s.len() {
                Seq::empty()
            } else {
                (if k > i {
                    seq![(s.subrange(i, k), false)]
                } else {
                    Seq::empty()
                }) + seq![(t, true)] + segments_from(s, t, k + t.len())
            },
            None => if i < s.len() {
                seq![(s.subrange(i, s.len() as int), false)]
            } else {
                Seq::empty()
            },
        }
    }
}

/// A line cut into plain and highlighted pieces around the filter token; a line
/// with no pieces (the empty line) is one plain piece.
pub open spec fn highlight_segments(s: Seq<char>, t: Seq<char>) -> Seq<(Seq<char>, bool)> {
    if segments_from(s, t, 0).len() == 0 {
        seq![(s, false)]
    } else {
        segments_from(s, t, 0)
    }
}

pub open spec fn segment_views(v: Seq<(String, bool)>) -> Seq<(Seq<char>, bool)> {
    v.map_values(|p: (String, bool)| (p.0@, p.1))
}

proof fn lemma_first_occurrence_bounds(s: Seq<char>, t: Seq<char>, i: int)
    ensures
        first_occurrence(s, t, i) matches Some(k) ==> i <= k && k + t.len() <= s.len() && occurs_at(
            s,
            t,
            k,
        ),
    decreases s.len() - i,
{
    if !(i < 0 || i >= s.len() || i + t.len() > s.len()) && !occurs_at(s, t, i) {
        lemma_first_occurrence_bounds(s, t, i + 1);
    }
}

fn occurs_at_exec(s: &Vec<char>, t: &Vec<char>, i: usize) -> (r: bool)
    requires
        i + t@.len() <= s@.len(),
    ensures
        r == occurs_at(s@, t@, i as int),
{
    let n = s.len();
    let mut k: usize = 0;
    while k < t.len()
        invariant
            n == s@.len(),
            i + t@.len() <= s@.len(),
            k <= t@.len(),
            forall|j: int| 0 <= j < k ==> s@[i + j] == t@[j],
        decreases t@.len() - k,
    {
        if s[i + k] != t[k] {
            proof {
                assert(s@.subrange(i as int, i + t@.len())[k as int] != t@[k as int]);
            }
            return false;
        }
        k = k + 1;
    }
    proof {
        assert(s@.subrange(i as int, i + t@.len()) =~= t@);
    }
    true
}

fn find_occurrence(s: &Vec<char>, t: &Vec<char>, from: usize) -> (r: Option<usize>)
    requires
        from <= s@.len(),
        t@.len() > 0,
    ensures
        r matches Some(k) ==> first_occurrence(s@, t@, from as int) == Some(k as int),
        r is None ==> first_occurrence(s@, t@, from as int) is None,
{
    if t.len() > s.len() {
        return None;
    }
    let n = s.len();
    let last = n - t.len();
    let mut i = from;
    while i <= last
        invariant
            n == s@.len(),
            t@.len() > 0,
            from <= i,
            last + t@.len() == s@.len(),
            first_occurrence(s@, t@, from as int) == first_occurrence(s@, t@, i as int),
        decreases last + 1 - i,
    {
        if occurs_at_exec(s, t, i) {
            return Some(i);
        }
        i = i + 1;
    }
    None
}

/// Cuts `line` into plain and highlighted pieces around each occurrence of the
/// (non-empty) filter token.
pub fn highlight_filter_text(line: &str, filter: &str) -> (r: Vec<(String, bool)>)
    requires
        filter@.len() > 0,
    ensures
        segment_views(r@) == highlight_segments(line@, filter@),
{
    let s = chars_of(line);
    let t = chars_of(filter);
    let mut out: Vec<(String, bool)> = Vec::new();
    let mut i: usize = 0;
    proof {
        assert(segment_views(out@) + segments_from(line@, filter@, 0) =~= segments_from(
            line@,
            filter@,
            0,
        ));
    }
    let n = s.len();
    loop
        invariant_except_break
            segments_from(line@, filter@, 0) == segment_views(out@) + segments_from(
                line@,
                filter@,
                i as int,
            ),
        invariant
            n == s@.len(),
            s@ == line@,
            t@ == filter@,
            t@.len() > 0,
            i <= s@.len(),
        ensures
            segments_from(line@, filter@, 0) == segment_views(out@),
        decreases s@.len() - i,
    {
        let ghost before = out@;
        proof {
            lemma_first_occurrence_bounds(s@, t@, i as int);
        }
        match find_occurrence(&s, &t, i) {
            Some(k) => {
                if k > i {
                    out.push((substring(line, i, k), false));
                }
                out.push((substring(filter, 0, t.len()), true));
                proof {
                    assert(filter@.subrange(0, filter@.len() as int) =~= filter@);
                    let pre = if k > i {
                        seq![(line@.subrange(i as int, k as int), false)]
                    } else {
                        Seq::empty()
                    };
                    assert(segment_views(out@) =~= segment_views(before) + pre + seq![(filter@, true)]);
                }
                i = k + t.len();
            },
            None => {
                if i < s.len() {
                    out.push((substring(line, i, s.len()), false));
                }
                proof {
                    let rest = if i < s@.len() {
                        seq![(line@.subrange(i as int, line@.len() as int), false)]
                    } else {
                        Seq::empty()
                    };
                    assert(segment_views(out@) =~= segment_views(before) + rest);
                }
                break;
            },
        }
    }
    if out.len() == 0 {
        proof {
            assert(segment_views(out@) =~= Seq::<(Seq<char>, bool)>::empty());
        }
        out.push((substring(line, 0, s.len()), false));
        proof {
            assert(line@.subrange(0, line@.len() as int) =~= line@);
            assert(segment_views(out@) =~= seq![(line@, false)]);
        }
    } else {
        proof {
            assert(segment_views(out@).len() > 0);
        }
    }
    out
}

/// How a line of the display is styled.
#[derive(Clone, Copy, Debug, PartialEq, Eq, Structural)]
pub enum LineStyle {
    /// The selected line
    Selected,
    /// A line shown because it matches the filter
    Matched,
    /// Any other line
    Normal,
}

/// The style of the line at buffer index `idx`: selected, else matched while a
/// filter is set, else normal.
pub open spec fn style_of(state: &AppState, idx: usize) -> LineStyle {
    if state.selected_index == Some(idx) {
        LineStyle::Selected
    } else if state.filter_text is Some {
        LineStyle::Matched
    } else {
        LineStyle::Normal
    }
}

pub fn line_style(state: &AppState, idx: usize) -> (r: LineStyle)
    ensures
        r == style_of(state, idx),
{
    match state.selected_index {
        Some(k) => if k == idx {
            return LineStyle::Selected;
        },
        None => {},
    }
    if state.filter_text.is_some() {
        LineStyle::Matched
    } else {
        LineStyle::Normal
    }
}

/// The pieces of a shown text: cut around the filter token while one is set,
/// else the whole text plain.
pub open spec fn pieces_of(text: Seq<char>, filter: Option<String>) -> Seq<(Seq<char>, bool)> {
    match filter {
        Some(t) => if t@.len() > 0 {
            highlight_segments(text, t@)
        } else {
            seq![(text, false)]
        },
        None => seq![(text, false)],
    }
}

fn pieces(text: String, filter: &Option<String>) -> (r: Vec<(String, bool)>)
    ensures
        segment_views(r@) == pieces_of(text@, *filter),
{
    match filter {
        Some(t) => if !t.as_str().is_empty() {
            return highlight_filter_text(text.as_str(), t.as_str());
        },
        None => {},
    }
    let ghost v = text@;
    let mut r: Vec<(String, bool)> = Vec::new();
    r.push((text, false));
    proof {
        assert(segment_views(r@) =~= seq![(v, false)]);
    }
    r
}

/// A title, with the filter token and the number of matches while filtering.
pub open spec fn title_text(base: Seq<char>, state: &AppState) -> Seq<char> {
    match state.filter_text {
        Some(f) => base + " (filtered: '"@ + f@ + "', "@ + decimal(
            state.filtered_indices@.len(),
        ) + " matches)"@,
        None => base,
    }
}

pub fn view_title(base: &str, state: &AppState) -> (r: String)
    ensures
        r@ == title_text(base@, state),
{
    let mut r = String::from_str(base);
    match &state.filter_text {
        Some(f) => {
            r.append(" (filtered: '");
            r.append(f.as_str());
            r.append("', ");
            r.append(to_decimal(state.filtered_indices.len() as u128).as_str());
            r.append(" matches)");
        },
        None => {},
    }
    r
}

/// The plain view: every display line, sanitized, with the filter token marked.
pub struct PlainView;

/// A line of the plain view.
pub struct PlainLine {
    /// Index of the line in the buffer
    pub index: usize,
    pub style: LineStyle,
    /// The shown text, in plain and marked pieces
    pub pieces: Vec<(String, bool)>,
}

impl PlainView {
    /// The lines of the plain view, in display order.
    pub fn lines(state: &AppState) -> (r: Vec<PlainLine>)
        requires
            state.wf(),
        ensures
            r@.len() == state.display_count(),
            forall|k: int|
                0 <= k < r@.len() ==> {
                    let i = (#[trigger] r@[k]).index;
                    &&& i == state.display_index(k)
                    &&& i < state.log_buffer@.len()
                    &&& r@[k].style == style_of(state, i)
                    &&& segment_views(r@[k].pieces@) == pieces_of(
                        display_text(state.log_buffer@[i as int]@),
                        state.filter_text,
                    )
                },
    {
        let shown = state.get_display_logs();
        let mut out: Vec<PlainLine> = Vec::new();
        let mut k: usize = 0;
        while k < shown.len()
            invariant
                k <= shown@.len(),
                shown@.len() == state.display_count(),
                forall|j: int|
                    0 <= j < shown@.len() ==> (#[trigger] shown@[j]).0 == state.display_index(j)
                        && shown@[j].0 < state.log_buffer@.len() && *shown@[j].1
                        == state.log_buffer@[shown@[j].0 as int],
                out@.len() == k,
                forall|j: int|
                    0 <= j < k ==> {
                        let i = (#[trigger] out@[j]).index;
                        &&& i == state.display_index(j)
                        &&& i < state.log_buffer@.len()
                        &&& out@[j].style == style_of(state, i)
                        &&& segment_views(out@[j].pieces@) == pieces_of(
                            display_text(state.log_buffer@[i as int]@),
                            state.filter_text,
                        )
                    },
            decreases shown@.len() - k,
        {
            let (idx, line) = shown[k];
            let text = safe_string_display(line.as_str());
            let style = line_style(state, idx);
            let ps = pieces(text, &state.filter_text);
            out.push(PlainLine { index: idx, style, pieces: ps });
            k = k + 1;
        }
        out
    }
}

/// A row of the key-value view.
pub enum KeyValueRow {
    /// The pairs of a line: key, value, and whether either holds the filter token
    Pairs(LineStyle, Vec<(String, String, bool)>),
    /// A line without pairs, shown as in the plain view
    Text(LineStyle, Vec<(String, bool)>),
}

/// `s` holds the filter token, while one is set.
pub open spec fn filter_hit(s: Seq<char>, filter: Option<String>) -> bool {
    match filter {
        Some(t) => has_substring(s, t@),
        None => false,
    }
}

pub open spec fn cell_views(v: Seq<(String, String, bool)>) -> Seq<(Seq<char>, Seq<char>, bool)> {
    v.map_values(|c: (String, String, bool)| (c.0@, c.1@, c.2))
}

/// The cells of a line's pairs.
pub open spec fn pair_cells(ps: Seq<(Seq<char>, Seq<char>)>, filter: Option<String>) -> Seq<
    (Seq<char>, Seq<char>, bool),
> {
    ps.map_values(
        |p: (Seq<char>, Seq<char>)|
            (p.0, p.1, filter_hit(p.0, filter) || filter_hit(p.1, filter)),
    )
}

/// The row of the key-value view for a line.
pub open spec fn key_value_row_ok(
    row: KeyValueRow,
    line: Seq<char>,
    style: LineStyle,
    filter: Option<String>,
) -> bool {
    if pairs_from(line, 0).len() > 0 {
        row matches KeyValueRow::Pairs(s, cells) && s == style && cell_views(cells@) == pair_cells(
            pairs_from(line, 0),
            filter,
        )
    } else {
        row matches KeyValueRow::Text(s, ps) && s == style && segment_views(ps@) == pieces_of(
            display_text(line),
            filter,
        )
    }
}

fn hit(s: &str, filter: &Option<String>) -> (r: bool)
    ensures
        r == filter_hit(s@, *filter),
{
    match filter {
        Some(t) => contains(s, t.as_str()),
        None => false,
    }
}

/// The key-value view: the `key=value` pairs of each display line.
pub struct KeyValueView;

impl KeyValueView {
    fn row(line: &str, style: LineStyle, filter: &Option<String>) -> (r: KeyValueRow)
        ensures
            key_value_row_ok(r, line@, style, *filter),
    {
        let mut pairs = extract_key_value_pairs(line);
        if pairs.len() == 0 {
            let text = safe_string_display(line);
            return KeyValueRow::Text(style, pieces(text, filter));
        }
        let ghost ps = pair_views(pairs@);
        let ghost n = pairs@.len();
        let mut cells: Vec<(String, String, bool)> = Vec::new();
        while pairs.len() > 0
            invariant
                ps == pairs_from(line@, 0),
                n == ps.len(),
                pairs@.len() <= n,
                pair_views(pairs@) == ps.skip(n - pairs@.len()),
                cell_views(cells@) == pair_cells(ps.take(n - pairs@.len()), *filter),
            decreases pairs@.len(),
        {
            let ghost before = pairs@;
            let ghost done = n - pairs@.len();
            let (k, v) = pairs.remove(0);
            let h = hit(k.as_str(), filter) || hit(v.as_str(), filter);
            let ghost kv = (k@, v@);
            let ghost cb = cell_views(cells@);
            cells.push((k, v, h));
            proof {
                assert(pair_views(before)[0] == kv);
                assert(ps[done] == kv);
                assert(ps.take(done + 1) =~= ps.take(done).push(kv));
                assert(cell_views(cells@) =~= cb.push((kv.0, kv.1, h)));
                assert(pair_cells(ps.take(done + 1), *filter) =~= pair_cells(ps.take(done), *filter).push(
                    (kv.0, kv.1, h),
                ));
                assert(pair_views(pairs@) =~= pair_views(before).skip(1));
                assert(ps.skip(done).skip(1) =~= ps.skip(done + 1));
            }
        }
        proof {
            assert(ps.take(n as int) =~= ps);
        }
        KeyValueRow::Pairs(style, cells)
    }

    /// The rows of the key-value view, in display order, with the buffer index
    /// of each line.
    pub fn rows(state: &AppState) -> (r: Vec<(usize, KeyValueRow)>)
        requires
            state.wf(),
        ensures
            r@.len() == state.display_count(),
            forall|k: int|
                0 <= k < r@.len() ==> {
                    let i = (#[trigger] r@[k]).0;
                    &&& i == state.display_index(k)
                    &&& i < state.log_buffer@.len()
                    &&& key_value_row_ok(
                        r@[k].1,
                        state.log_buffer@[i as int]@,
                        style_of(state, i),
                        state.filter_text,
                    )
                },
    {
        let shown = state.get_display_logs();
        let mut out: Vec<(usize, KeyValueRow)> = Vec::new();
        let mut k: usize = 0;
        while k < shown.len()
            invariant
                k <= shown@.len(),
                shown@.len() == state.display_count(),
                forall|j: int|
                    0 <= j < shown@.len() ==> (#[trigger] shown@[j]).0 == state.display_index(j)
                        && shown@[j].0 < state.log_buffer@.len() && *shown@[j].1
                        == state.log_buffer@[shown@[j].0 as int],
                out@.len() == k,
                forall|j: int|
                    0 <= j < k ==> {
                        let i = (#[trigger] out@[j]).0;
                        &&& i == state.display_index(j)
                        &&& i < state.log_buffer@.len()
                        &&& key_value_row_ok(
                            out@[j].1,
                            state.log_buffer@[i as int]@,
                            style_of(state, i),
                            state.filter_text,
                        )
                    },
            decreases shown@.len() - k,
        {
            let (idx, line) = shown[k];
            let style = line_style(state, idx);
            let row = Self::row(line.as_str(), style, &state.filter_text);
            out.push((idx, row));
            k = k + 1;
        }
        out
    }
}

/// The JSON view: a row per member of each display line that is a JSON object.
pub struct JsonView;

/// A member of a logged JSON object as the JSON view shows it.
pub struct JsonMember {
    /// The key, sanitized to 100 bytes
    pub key: String,
    /// The value's text
    pub value: String,
    /// The key holds the filter token
    pub key_hit: bool,
    /// The value is a string that holds the filter token
    pub value_hit: bool,
}

impl JsonView {
    /// A member `key: value` of a logged object.
    pub fn member(key: &str, value: &JsonValue, filter: &Option<String>) -> (r: JsonMember)
        ensures
            r.key@ == sanitized(key@, 100),
            r.value@ == value_text(*value),
            r.key_hit == filter_hit(key@, *filter),
            r.value_hit == match value {
                JsonValue::Str(s) => filter_hit(s@, *filter),
                _ => false,
            },
    {
        let value_hit = match value {
            JsonValue::Str(s) => hit(s.as_str(), filter),
            _ => false,
        };
        JsonMember {
            key: sanitize_for_display(key, 100),
            value: format_value(value),
            key_hit: hit(key, filter),
            value_hit,
        }
    }
}

/// The notice shown while an external tool takes over.
pub struct ExternalToolView;

impl ExternalToolView {
    pub fn message(tool_name: &str) -> (r: String)
        ensures
            r@ == "External tool '"@ + tool_name@ + "' will be launched.\n\nLaunching in 1 second..."@,
    {
        let mut r = String::from_str("External tool '");
        r.append(tool_name);
        r.append("' will be launched.\n\nLaunching in 1 second...");
        r
    }
}

} // verus!
