use vstd::prelude::*;
use crate::filter::{extract_filter_text, filter_token, lemma_token_in_line};
use crate::keys::{KeyCode, KeyEvent};
use crate::text::{contains, has_substring};
use crate::views::ViewKind;

verus! {

/// tokio's `mpsc::Receiver`, the receiving end of the channel that brings in the
/// lines; the state only carries it for the session loop to drain.
#[verifier::external_type_specification]
#[verifier::external_body]
#[verifier::reject_recursive_types(T)]
pub struct ExReceiver<T>(tokio::sync::mpsc::Receiver<T>);

/// Most lines the buffer holds; appending beyond it evicts the oldest line.
pub const LOG_CAPACITY: usize = 2000;

/// The ascending indices below `n` of the lines that contain `t`.
pub open spec fn matching(lines: Seq<Seq<char>>, t: Seq<char>, n: int) -> Seq<usize>
    decreases n,
{
    if n <= 0 {
        Seq::empty()
    } else {
        matching(lines, t, n - 1) + if has_substring(lines[n - 1], t) {
            seq![(n - 1) as usize]
        } else {
            Seq::empty()
        }
    }
}

/// Index references after the line at index 0 left: 0 is dropped, the others
/// move down by one.
pub open spec fn renumber(m: Seq<usize>) -> Seq<usize>
    decreases m.len(),
{
    if m.len() == 0 {
        Seq::empty()
    } else {
        renumber(m.drop_last()) + if m.last() == 0 {
            Seq::<usize>::empty()
        } else {
            seq![(m.last() - 1) as usize]
        }
    }
}

/// The lines of a buffer, as character sequences.
pub open spec fn lines_of(buf: Seq<String>) -> Seq<Seq<char>> {
    buf.map_values(|s: String| s@)
}

/// Session state: the bounded log buffer, the selection, the filter with the
/// indices of the lines it matches, and the scroll offset into the display
/// sequence (the matching lines while a filter is set, else all lines).
pub struct AppState {
    pub log_buffer: Vec<String>,
    pub active_view: ViewKind,
    pub last_model_response: Option<String>,
    pub log_receiver: tokio::sync::mpsc::Receiver<String>,
    pub input_source: String,
    pub scroll_offset: usize,
    pub selected_index: Option<usize>,
    pub filter_text: Option<String>,
    pub filtered_indices: Vec<usize>,
}

impl AppState {
    pub open spec fn lines(&self) -> Seq<Seq<char>> {
        lines_of(self.log_buffer@)
    }

    pub open spec fn filtering(&self) -> bool {
        self.filter_text is Some
    }

    /// How many lines the display sequence holds.
    pub open spec fn display_count(&self) -> int {
        if self.filtering() {
            self.filtered_indices@.len() as int
        } else {
            self.log_buffer@.len() as int
        }
    }

    /// The buffer index of the `k`-th line of the display sequence.
    pub open spec fn display_index(&self, k: int) -> usize {
        if self.filtering() {
            self.filtered_indices@[k]
        } else {
            k as usize
        }
    }

    /// The invariant of the state: the buffer within capacity, the selection
    /// inside it, the match list exactly the ascending indices of the lines that
    /// contain the (non-empty) filter token and empty without one, and the
    /// offset inside the display sequence.
    pub open spec fn wf(&self) -> bool {
        &&& self.log_buffer@.len() <= LOG_CAPACITY
        &&& self.selected_index matches Some(k) ==> k < self.log_buffer@.len()
        &&& match self.filter_text {
            Some(t) => t@.len() > 0 && self.filtered_indices@ == matching(
                self.lines(),
                t@,
                self.log_buffer@.len() as int,
            ),
            None => self.filtered_indices@.len() == 0,
        }
        &&& if self.display_count() > 0 {
            self.scroll_offset < self.display_count()
        } else {
            self.scroll_offset == 0
        }
    }
}

proof fn lemma_matching_prefix(l1: Seq<Seq<char>>, l2: Seq<Seq<char>>, t: Seq<char>, n: int)
    requires
        0 <= n <= l1.len(),
        n <= l2.len(),
        forall|k: int| 0 <= k < n ==> l1[k] == l2[k],
    ensures
        matching(l1, t, n) == matching(l2, t, n),
    decreases n,
{
    if n > 0 {
        lemma_matching_prefix(l1, l2, t, n - 1);
    }
}

/// Each entry of `matching(lines, t, n)` is below `n`, the entries ascend
/// strictly, and an index below `n` is there exactly when its line contains `t`.
pub proof fn lemma_matching_exact(lines: Seq<Seq<char>>, t: Seq<char>, n: int)
    requires
        0 <= n <= lines.len(),
        n <= usize::MAX,
    ensures
        matching(lines, t, n).len() <= n,
        forall|k: int|
            0 <= k < matching(lines, t, n).len() ==> #[trigger] matching(lines, t, n)[k] < n
                && has_substring(lines[matching(lines, t, n)[k] as int], t),
        forall|a: int, b: int|
            0 <= a < b < matching(lines, t, n).len() ==> matching(lines, t, n)[a] < matching(
                lines,
                t,
                n,
            )[b],
        forall|j: int|
            0 <= j < n ==> (has_substring(#[trigger] lines[j], t) <==> matching(
                lines,
                t,
                n,
            ).contains(j as usize)),
    decreases n,
{
    if n > 0 {
        lemma_matching_exact(lines, t, n - 1);
        let prev = matching(lines, t, n - 1);
        let m = matching(lines, t, n);
        assert forall|j: int| 0 <= j < n implies (has_substring(#[trigger] lines[j], t)
            <==> m.contains(j as usize)) by {
            if j < n - 1 {
                if m.contains(j as usize) {
                    let k = choose|k: int| 0 <= k < m.len() && m[k] == j as usize;
                    if k >= prev.len() {
                        assert(m[k] == (n - 1) as usize);
                    } else {
                        assert(m[k] == prev[k]);
                    }
                }
                if has_substring(lines[j], t) {
                    let k = choose|k: int| 0 <= k < prev.len() && prev[k] == j as usize;
                    assert(m[k] == prev[k]);
                }
            } else {
                if has_substring(lines[j], t) {
                    assert(m[m.len() - 1] == j as usize);
                }
                if m.contains(j as usize) {
                    let k = choose|k: int| 0 <= k < m.len() && m[k] == j as usize;
                    if k < prev.len() {
                        assert(m[k] == prev[k]);
                    }
                }
            }
        }
    }
}

proof fn lemma_renumber_push(m: Seq<usize>, x: usize)
    ensures
        renumber(m.push(x)) == renumber(m) + if x == 0 {
            Seq::<usize>::empty()
        } else {
            seq![(x - 1) as usize]
        },
{
    assert(m.push(x).drop_last() =~= m);
}

proof fn lemma_matching_evict(lines: Seq<Seq<char>>, t: Seq<char>, n: int)
    requires
        0 <= n,
        n + 1 <= lines.len(),
        n + 1 <= usize::MAX,
    ensures
        matching(lines.skip(1), t, n) == renumber(matching(lines, t, n + 1)),
    decreases n,
{
    if n == 0 {
        let m1 = matching(lines, t, 1);
        assert(matching(lines, t, 0) =~= Seq::<usize>::empty());
        if has_substring(lines[0], t) {
            assert(m1 =~= seq![0usize]);
            lemma_renumber_push(Seq::<usize>::empty(), 0);
            assert(Seq::<usize>::empty().push(0) =~= seq![0usize]);
        } else {
            assert(m1 =~= Seq::<usize>::empty());
        }
        assert(renumber(m1) =~= Seq::<usize>::empty());
    } else {
        lemma_matching_evict(lines, t, n - 1);
        let prev = matching(lines, t, n);
        assert(lines.skip(1)[n - 1] == lines[n]);
        if has_substring(lines[n], t) {
            lemma_renumber_push(prev, n as usize);
            assert(prev + seq![n as usize] =~= prev.push(n as usize));
            assert((n as usize - 1) as usize == (n - 1) as usize);
        } else {
            assert(prev + Seq::<usize>::empty() =~= prev);
            assert(matching(lines.skip(1), t, n - 1) + Seq::<usize>::empty() =~= matching(
                lines.skip(1),
                t,
                n - 1,
            ));
        }
    }
}


proof fn lemma_renumber_len(m: Seq<usize>)
    requires
        forall|k: int| 0 < k < m.len() ==> m[k] > 0,
    ensures
        m.len() - 1 <= renumber(m).len() <= m.len(),
    decreases m.len(),
{
    if m.len() > 0 {
        lemma_renumber_len(m.drop_last());
    }
}

proof fn lemma_lines_push(buf: Seq<String>, x: String)
    ensures
        lines_of(buf.push(x)) == lines_of(buf).push(x@),
{
    assert(lines_of(buf.push(x)) =~= lines_of(buf).push(x@));
}

proof fn lemma_lines_skip(buf: Seq<String>)
    requires
        buf.len() > 0,
    ensures
        lines_of(buf.remove(0)) == lines_of(buf).skip(1),
{
    assert(lines_of(buf.remove(0)) =~= lines_of(buf).skip(1));
}

/// The match that a line appended at index `idx` adds under filter `f`.
pub open spec fn new_match(f: Option<String>, line: Seq<char>, idx: int) -> Seq<usize> {
    match f {
        Some(t) => if has_substring(line, t@) {
            seq![idx as usize]
        } else {
            Seq::empty()
        },
        None => Seq::empty(),
    }
}

/// What the session does after a key event.
#[derive(Clone, Copy, Debug, PartialEq, Eq, Structural)]
pub enum KeyAction {
    Continue,
    Quit,
    Analyze,
}

impl AppState {
    /// The fields that the log operations leave alone.
    pub open spec fn same_extras(&self, other: &AppState) -> bool {
        &&& self.active_view == other.active_view
        &&& self.last_model_response == other.last_model_response
        &&& self.log_receiver == other.log_receiver
        &&& self.input_source == other.input_source
    }

    /// Buffer, selection and filter equal.
    pub open spec fn same_log(&self, other: &AppState) -> bool {
        &&& self.log_buffer@ == other.log_buffer@
        &&& self.selected_index == other.selected_index
        &&& self.filter_text == other.filter_text
        &&& self.filtered_indices@ == other.filtered_indices@
    }

    pub fn new(log_receiver: tokio::sync::mpsc::Receiver<String>, input_source: String) -> (r: Self)
        ensures
            r.wf(),
            r.log_buffer@.len() == 0,
            r.active_view == ViewKind::Plain,
            r.last_model_response is None,
            r.log_receiver == log_receiver,
            r.input_source == input_source,
            r.scroll_offset == 0,
            r.selected_index is None,
            r.filter_text is None,
            r.filtered_indices@.len() == 0,
    {
        AppState {
            log_buffer: Vec::with_capacity(LOG_CAPACITY),
            active_view: ViewKind::Plain,
            last_model_response: None,
            log_receiver,
            input_source,
            scroll_offset: 0,
            selected_index: None,
            filter_text: None,
            filtered_indices: Vec::new(),
        }
    }

    /// Appends a line. When the buffer is full the oldest line goes first: the
    /// matches and the selection that referred to it are dropped, the others move
    /// down by one, and a positive scroll offset moves up by one. The new line
    /// joins the matches when it contains the filter token.
    pub fn add_log(&mut self, line: String)
        requires
            old(self).wf(),
        ensures
            final(self).wf(),
            final(self).same_extras(old(self)),
            final(self).filter_text == old(self).filter_text,
            final(self).log_buffer@.len() == if old(self).log_buffer@.len() < LOG_CAPACITY {
                old(self).log_buffer@.len() + 1
            } else {
                LOG_CAPACITY as nat
            },
            old(self).log_buffer@.len() < LOG_CAPACITY ==> {
                &&& final(self).log_buffer@ == old(self).log_buffer@.push(line)
                &&& final(self).filtered_indices@ == old(self).filtered_indices@ + new_match(
                    old(self).filter_text,
                    line@,
                    old(self).log_buffer@.len() as int,
                )
                &&& final(self).selected_index == old(self).selected_index
                &&& final(self).scroll_offset == old(self).scroll_offset
            },
            old(self).log_buffer@.len() == LOG_CAPACITY ==> {
                &&& final(self).log_buffer@ == old(self).log_buffer@.skip(1).push(line)
                &&& final(self).filtered_indices@ == renumber(old(self).filtered_indices@)
                    + new_match(old(self).filter_text, line@, LOG_CAPACITY - 1)
                &&& final(self).selected_index == match old(self).selected_index {
                    Some(k) => if k == 0 {
                        None
                    } else {
                        Some((k - 1) as usize)
                    },
                    None => None,
                }
                &&& final(self).scroll_offset == if old(self).scroll_offset > 0 {
                    (old(self).scroll_offset - 1) as usize
                } else {
                    0
                }
            },
    {
        let ghost old_lines = self.lines();
        let ghost old_m = self.filtered_indices@;
        let ghost n = self.log_buffer@.len() as int;
        proof {
            if self.filter_text is Some { let t = self.filter_text->0;
                lemma_matching_exact(old_lines, t@, n);
            }
        }
        if self.log_buffer.len() >= LOG_CAPACITY {
            let ghost old_buf = self.log_buffer@;
            let _ = self.log_buffer.remove(0);
            proof {
                lemma_lines_skip(old_buf);
                assert(self.log_buffer@ =~= old_buf.skip(1));
            }
            let mut kept: Vec<usize> = Vec::new();
            let mut k: usize = 0;
            while k < self.filtered_indices.len()
                invariant
                    k <= self.filtered_indices@.len(),
                    self.filtered_indices@ == old_m,
                    kept@ == renumber(old_m.take(k as int)),
                decreases self.filtered_indices@.len() - k,
            {
                let idx = self.filtered_indices[k];
                proof {
                    assert(old_m.take(k + 1) =~= old_m.take(k as int).push(idx));
                    lemma_renumber_push(old_m.take(k as int), idx);
                }
                if idx != 0 {
                    kept.push(idx - 1);
                }
                proof {
                    if idx == 0 {
                        assert(kept@ =~= renumber(old_m.take(k as int)) + Seq::<usize>::empty());
                    }
                }
                k = k + 1;
            }
            proof {
                assert(old_m.take(k as int) =~= old_m);
            }
            self.filtered_indices = kept;
            match self.selected_index {
                Some(sel) => {
                    if sel == 0 {
                        self.selected_index = None;
                    } else {
                        self.selected_index = Some(sel - 1);
                    }
                },
                None => {},
            }
            if self.scroll_offset > 0 {
                self.scroll_offset = self.scroll_offset - 1;
            }
            proof {
                if self.filter_text is Some { let t = self.filter_text->0;
                    lemma_matching_evict(old_lines, t@, n - 1);
                    assert forall|k: int| 0 < k < old_m.len() implies old_m[k] > 0 by {
                        assert(old_m[0] < old_m[k]);
                    }
                    lemma_renumber_len(old_m);
                }
            }
        }
        let ghost mid_lines = self.lines();
        let ghost mid_m = self.filtered_indices@;
        let idx = self.log_buffer.len();
        let is_match = match &self.filter_text {
            Some(t) => contains(line.as_str(), t.as_str()),
            None => false,
        };
        let ghost mid_buf = self.log_buffer@;
        self.log_buffer.push(line);
        if is_match {
            self.filtered_indices.push(idx);
        }
        proof {
            lemma_lines_push(mid_buf, line);
            let nl = self.lines();
            assert(self.filtered_indices@ =~= mid_m + new_match(self.filter_text, line@, idx as int));
            if self.filter_text is Some { let t = self.filter_text->0;
                lemma_matching_prefix(nl, mid_lines, t@, idx as int);
                assert(nl[idx as int] == line@);
            }
        }
    }

    pub fn set_view(&mut self, view: ViewKind)
        requires
            old(self).wf(),
        ensures
            final(self).wf(),
            final(self).active_view == view,
            final(self).same_log(old(self)),
            final(self).scroll_offset == old(self).scroll_offset,
            final(self).last_model_response == old(self).last_model_response,
            final(self).input_source == old(self).input_source,
    {
        self.active_view = view;
    }

    pub fn set_model_response(&mut self, response: String)
        requires
            old(self).wf(),
        ensures
            final(self).wf(),
            final(self).last_model_response == Some(response),
            final(self).same_log(old(self)),
            final(self).scroll_offset == old(self).scroll_offset,
            final(self).active_view == old(self).active_view,
            final(self).input_source == old(self).input_source,
    {
        self.last_model_response = Some(response);
    }

    /// Moves the offset up by `amount`, stopping at 0.
    pub fn scroll_up(&mut self, amount: usize)
        requires
            old(self).wf(),
        ensures
            final(self).wf(),
            final(self).same_log(old(self)),
            final(self).same_extras(old(self)),
            final(self).scroll_offset == if old(self).scroll_offset > amount {
                old(self).scroll_offset - amount
            } else {
                0
            },
            final(self).scroll_offset < if final(self).display_count() > 1 {
                final(self).display_count()
            } else {
                1
            },
    {
        self.scroll_offset = self.scroll_offset.saturating_sub(amount);
    }

    /// Moves the offset down by `amount`, clamped to `max_lines - 1` (to 0 when
    /// `max_lines` is 0). `max_lines` is the display count that the caller
    /// passes; a larger one is held to the real display count.
    pub fn scroll_down(&mut self, amount: usize, max_lines: usize)
        requires
            old(self).wf(),
        ensures
            final(self).wf(),
            final(self).same_log(old(self)),
            final(self).same_extras(old(self)),
            final(self).scroll_offset == clamp_down(
                old(self).scroll_offset as int,
                amount as int,
                if max_lines < old(self).display_count() {
                    max_lines as int
                } else {
                    old(self).display_count()
                },
            ),
            max_lines <= old(self).display_count() ==> final(self).scroll_offset == clamp_down(
                old(self).scroll_offset as int,
                amount as int,
                max_lines as int,
            ),
            final(self).scroll_offset < if max_lines > 1 {
                max_lines as int
            } else {
                1
            },
    {
        let count = self.get_display_count();
        let limit = if max_lines < count {
            max_lines
        } else {
            count
        };
        let max_scroll = limit.saturating_sub(1);
        let moved = self.scroll_offset.saturating_add(amount);
        self.scroll_offset = if moved < max_scroll {
            moved
        } else {
            max_scroll
        };
    }

    /// The number of lines in the display sequence.
    pub fn get_display_count(&self) -> (r: usize)
        ensures
            r == self.display_count(),
    {
        if self.filter_text.is_some() {
            self.filtered_indices.len()
        } else {
            self.log_buffer.len()
        }
    }
}


impl AppState {
    /// `self` is `prev` with line `index` selected: the filter is the line's token
    /// and the matches are rescanned over the whole buffer, or there is no filter
    /// when the line yields no token.
    pub open spec fn selects(&self, prev: &AppState, index: int) -> bool {
        &&& self.log_buffer@ == prev.log_buffer@
        &&& self.selected_index == Some(index as usize)
        &&& match filter_token(prev.lines()[index]) {
            Some(t) => {
                &&& self.filter_text is Some
                &&& self.filter_text->0@ == t
                &&& self.filtered_indices@ == matching(
                    prev.lines(),
                    t,
                    prev.log_buffer@.len() as int,
                )
            },
            None => self.filter_text is None && self.filtered_indices@.len() == 0,
        }
    }

    /// Selects line `index` and filters by the token it yields; an index past the
    /// end is ignored. With a token the offset goes back to 0.
    pub fn select_line(&mut self, index: usize)
        requires
            old(self).wf(),
        ensures
            final(self).wf(),
            final(self).same_extras(old(self)),
            index >= old(self).log_buffer@.len() ==> final(self).same_log(old(self))
                && final(self).scroll_offset == old(self).scroll_offset,
            index < old(self).log_buffer@.len() ==> {
                &&& final(self).selects(old(self), index as int)
                &&& final(self).scroll_offset == if final(self).filtering() {
                    0
                } else {
                    old(self).scroll_offset
                }
                &&& final(self).filtering() ==> final(self).filtered_indices@.contains(index)
            },
    {
        if index < self.log_buffer.len() {
            self.selected_index = Some(index);
            let token = extract_filter_text(self.log_buffer[index].as_str());
            proof {
                let l = self.lines()[index as int];
                assert(l == self.log_buffer@[index as int]@);
                lemma_token_in_line(l);
                if self.filter_text is Some {
                    lemma_matching_exact(self.lines(), self.filter_text->0@, self.log_buffer@.len() as int);
                }
            }
            self.filter_text = token;
            self.update_filter();
            proof {
                if self.filter_text is Some {
                    let t = self.filter_text->0;
                    lemma_matching_exact(self.lines(), t@, self.log_buffer@.len() as int);
                    assert(has_substring(self.lines()[index as int], t@));
                }
            }
        }
    }

    /// Recomputes the matches by scanning the whole buffer.
    fn update_filter(&mut self)
        requires
            old(self).log_buffer@.len() <= LOG_CAPACITY,
            old(self).selected_index matches Some(k) ==> k < old(self).log_buffer@.len(),
            old(self).filter_text matches Some(t) ==> t@.len() > 0,
            old(self).scroll_offset < old(self).log_buffer@.len() || old(self).scroll_offset == 0,
        ensures
            final(self).wf(),
            final(self).same_extras(old(self)),
            final(self).log_buffer@ == old(self).log_buffer@,
            final(self).selected_index == old(self).selected_index,
            final(self).filter_text == old(self).filter_text,
            final(self).scroll_offset == if old(self).filtering() {
                0
            } else {
                old(self).scroll_offset
            },
    {
        match &self.filter_text {
            Some(f) => {
                let mut m: Vec<usize> = Vec::new();
                let mut i: usize = 0;
                while i < self.log_buffer.len()
                    invariant
                        i <= self.log_buffer@.len(),
                        m@ == matching(self.lines(), f@, i as int),
                    decreases self.log_buffer@.len() - i,
                {
                    let hit = contains(self.log_buffer[i].as_str(), f.as_str());
                    proof {
                        assert(self.lines()[i as int] == self.log_buffer@[i as int]@);
                    }
                    if hit {
                        m.push(i);
                    }
                    proof {
                        if !hit {
                            assert(m@ =~= matching(self.lines(), f@, i as int) + Seq::<usize>::empty());
                        }
                    }
                    i = i + 1;
                }
                self.filtered_indices = m;
                self.scroll_offset = 0;
            },
            None => {
                self.filtered_indices.clear();
            },
        }
    }

    /// Drops the selection and the filter; the offset stays.
    pub fn clear_selection(&mut self)
        requires
            old(self).wf(),
        ensures
            final(self).wf(),
            final(self).same_extras(old(self)),
            final(self).log_buffer@ == old(self).log_buffer@,
            final(self).selected_index is None,
            final(self).filter_text is None,
            final(self).filtered_indices@.len() == 0,
            final(self).scroll_offset == old(self).scroll_offset,
    {
        proof {
            if self.filter_text is Some {
                lemma_matching_exact(self.lines(), self.filter_text->0@, self.log_buffer@.len() as int);
            }
        }
        self.selected_index = None;
        self.filter_text = None;
        self.filtered_indices.clear();
    }

    /// The display sequence: each line to show with its buffer index, the
    /// matching lines while a filter is set, else all lines, in order.
    pub fn get_display_logs(&self) -> (r: Vec<(usize, &String)>)
        requires
            self.wf(),
        ensures
            r@.len() == self.display_count(),
            forall|k: int|
                0 <= k < r@.len() ==> (#[trigger] r@[k]).0 == self.display_index(k) && r@[k].0
                    < self.log_buffer@.len() && *r@[k].1 == self.log_buffer@[r@[k].0 as int],
    {
        let mut out: Vec<(usize, &String)> = Vec::new();
        let count = self.get_display_count();
        proof {
            if self.filter_text is Some {
                lemma_matching_exact(self.lines(), self.filter_text->0@, self.log_buffer@.len() as int);
            }
        }
        let mut k: usize = 0;
        while k < count
            invariant
                self.wf(),
                count == self.display_count(),
                k <= count,
                out@.len() == k,
                forall|j: int|
                    0 <= j < k ==> (#[trigger] out@[j]).0 == self.display_index(j) && out@[j].0
                        < self.log_buffer@.len() && *out@[j].1 == self.log_buffer@[out@[j].0 as int],
                self.filter_text is Some ==> forall|j: int|
                    0 <= j < self.filtered_indices@.len() ==> #[trigger] self.filtered_indices@[j]
                        < self.log_buffer@.len(),
            decreases count - k,
        {
            let idx = if self.filter_text.is_some() {
                self.filtered_indices[k]
            } else {
                k
            };
            out.push((idx, &self.log_buffer[idx]));
            k = k + 1;
        }
        out
    }

    /// Moves the offset so that the line at buffer index `idx` is shown there:
    /// its position in the display sequence, or `idx` clamped into it.
    fn follow_selection(&mut self, idx: usize)
        requires
            old(self).wf(),
        ensures
            final(self).wf(),
            final(self).same_extras(old(self)),
            final(self).same_log(old(self)),
            (old(self).filtering() ==> old(self).filtered_indices@.contains(idx)) && idx
                < old(self).log_buffer@.len() ==> final(self).display_index(
                final(self).scroll_offset as int,
            ) == idx,
    {
        let count = self.get_display_count();
        let mut pos: usize = 0;
        let mut found = false;
        if self.filter_text.is_some() {
            while pos < self.filtered_indices.len() && !found
                invariant
                    pos <= self.filtered_indices@.len(),
                    found ==> pos < self.filtered_indices@.len() && self.filtered_indices@[pos as int]
                        == idx,
                    !found ==> forall|j: int| 0 <= j < pos ==> self.filtered_indices@[j] != idx,
                decreases self.filtered_indices@.len() - pos + if found {
                    0int
                } else {
                    1int
                },
            {
                if self.filtered_indices[pos] == idx {
                    found = true;
                } else {
                    pos = pos + 1;
                }
            }
        }
        if found {
            self.scroll_offset = pos;
        } else {
            let last = count.saturating_sub(1);
            self.scroll_offset = if idx < last {
                idx
            } else {
                last
            };
        }
    }
}


/// Lines that a page key scrolls by.
pub const PAGE_LINES: usize = 10;

/// What the session does for a key event: quit on `q` or Ctrl+C, start an
/// analysis on `a`, else carry on. Only fresh presses count.
pub open spec fn key_action(key: KeyEvent) -> KeyAction {
    if !key.press {
        KeyAction::Continue
    } else {
        match key.code {
            KeyCode::Char(c) => if c == 'q' || (c == 'c' && key.ctrl) {
                KeyAction::Quit
            } else if c == 'a' {
                KeyAction::Analyze
            } else {
                KeyAction::Continue
            },
            _ => KeyAction::Continue,
        }
    }
}

/// `o` moved down by `amount`, clamped to `count - 1` (0 when `count` is 0).
pub open spec fn clamp_down(o: int, amount: int, count: int) -> int {
    if count <= 0 {
        0
    } else if o + amount < count - 1 {
        o + amount
    } else {
        count - 1
    }
}

/// `o` moved up by `amount`, stopping at 0.
pub open spec fn clamp_up(o: int, amount: int) -> int {
    if o > amount {
        o - amount
    } else {
        0
    }
}

impl AppState {
    /// Nothing of the log view changed.
    pub open spec fn unchanged(&self, prev: &AppState) -> bool {
        self.same_log(prev) && self.scroll_offset == prev.scroll_offset
    }

    /// Selection and filter dropped, the buffer and the offset kept.
    pub open spec fn cleared(&self, prev: &AppState) -> bool {
        &&& self.log_buffer@ == prev.log_buffer@
        &&& self.selected_index is None
        &&& self.filter_text is None
        &&& self.filtered_indices@.len() == 0
        &&& self.scroll_offset == prev.scroll_offset
    }

    /// Selection moved to line `idx`, its filter applied, and the offset on it.
    pub open spec fn moved_selection(&self, prev: &AppState, idx: int) -> bool {
        self.selects(prev, idx) && self.display_index(self.scroll_offset as int) == idx
    }

    /// Applies one key event to the log view and says what the session does next.
    /// Up and Down move the selection when there is one (the filter follows the
    /// new line and the offset moves onto it), else they scroll by one; the page
    /// keys scroll by ten; Home goes to the top and drops the selection; End goes
    /// to the last line; `f` toggles between selecting the line at the offset and
    /// clearing; `c` and Escape clear.
    pub fn handle_key(&mut self, key: KeyEvent) -> (r: KeyAction)
        requires
            old(self).wf(),
        ensures
            final(self).wf(),
            final(self).same_extras(old(self)),
            r == key_action(key),
            !key.press ==> final(self).unchanged(old(self)),
            key.press ==> match key.code {
                KeyCode::Up => match old(self).selected_index {
                    Some(s) => if s > 0 {
                        final(self).moved_selection(old(self), s - 1)
                    } else {
                        final(self).unchanged(old(self))
                    },
                    None => final(self).same_log(old(self)) && final(self).scroll_offset
                        == clamp_up(old(self).scroll_offset as int, 1),
                },
                KeyCode::Down => match old(self).selected_index {
                    Some(s) => if s + 1 < old(self).log_buffer@.len() {
                        final(self).moved_selection(old(self), s + 1)
                    } else {
                        final(self).unchanged(old(self))
                    },
                    None => final(self).same_log(old(self)) && final(self).scroll_offset
                        == clamp_down(old(self).scroll_offset as int, 1, old(self).display_count()),
                },
                KeyCode::PageUp => final(self).same_log(old(self)) && final(self).scroll_offset
                    == clamp_up(old(self).scroll_offset as int, PAGE_LINES as int),
                KeyCode::PageDown => final(self).same_log(old(self)) && final(self).scroll_offset
                    == clamp_down(
                    old(self).scroll_offset as int,
                    PAGE_LINES as int,
                    old(self).display_count(),
                ),
                KeyCode::Home => {
                    &&& final(self).log_buffer@ == old(self).log_buffer@
                    &&& final(self).filter_text == old(self).filter_text
                    &&& final(self).filtered_indices@ == old(self).filtered_indices@
                    &&& final(self).selected_index is None
                    &&& final(self).scroll_offset == 0
                },
                KeyCode::End => final(self).same_log(old(self)) && final(self).scroll_offset == if old(
                    self,
                ).display_count() > 0 {
                    old(self).display_count() - 1
                } else {
                    old(self).scroll_offset as int
                },
                KeyCode::Esc => final(self).cleared(old(self)),
                KeyCode::Char(c) => if c == 'f' {
                    if old(self).selected_index is Some {
                        final(self).cleared(old(self))
                    } else if old(self).log_buffer@.len() > 0 {
                        let idx = if old(self).scroll_offset < old(self).log_buffer@.len() {
                            old(self).scroll_offset as int
                        } else {
                            old(self).log_buffer@.len() - 1
                        };
                        final(self).selects(old(self), idx)
                    } else {
                        final(self).unchanged(old(self))
                    }
                } else if c == 'c' && !key.ctrl {
                    final(self).cleared(old(self))
                } else {
                    final(self).unchanged(old(self))
                },
            },
    {
        if !key.press {
            return KeyAction::Continue;
        }
        match key.code {
            KeyCode::Char(c) => {
                if c == 'q' || (c == 'c' && key.ctrl) {
                    return KeyAction::Quit;
                } else if c == 'a' {
                    return KeyAction::Analyze;
                } else if c == 'f' {
                    if self.selected_index.is_some() {
                        self.clear_selection();
                    } else if self.log_buffer.len() > 0 {
                        let last = self.log_buffer.len() - 1;
                        let idx = if self.scroll_offset < last {
                            self.scroll_offset
                        } else {
                            last
                        };
                        self.select_line(idx);
                    }
                } else if c == 'c' {
                    self.clear_selection();
                }
            },
            KeyCode::Up => {
                match self.selected_index {
                    Some(sel) => {
                        if sel > 0 {
                            self.select_line(sel - 1);
                            self.follow_selection(sel - 1);
                        }
                    },
                    None => self.scroll_up(1),
                }
            },
            KeyCode::Down => {
                match self.selected_index {
                    Some(sel) => {
                        if sel < self.log_buffer.len().saturating_sub(1) {
                            self.select_line(sel + 1);
                            self.follow_selection(sel + 1);
                        }
                    },
                    None => {
                        let count = self.get_display_count();
                        self.scroll_down(1, count);
                    },
                }
            },
            KeyCode::PageUp => self.scroll_up(PAGE_LINES),
            KeyCode::PageDown => {
                let count = self.get_display_count();
                self.scroll_down(PAGE_LINES, count);
            },
            KeyCode::Home => {
                self.scroll_offset = 0;
                self.selected_index = None;
            },
            KeyCode::End => {
                let count = self.get_display_count();
                if count > 0 {
                    self.scroll_offset = count - 1;
                }
            },
            KeyCode::Esc => self.clear_selection(),
        }
        KeyAction::Continue
    }
}

/// After the oldest line leaves, an ascending list of line indices keeps its
/// order: an index 0 is dropped and every other index `k` becomes `k - 1`.
pub proof fn lemma_eviction_renumbers(m: Seq<usize>)
    requires
        forall|a: int, b: int| 0 <= a < b < m.len() ==> m[a] < m[b],
    ensures
        renumber(m) == (if m.len() > 0 && m[0] == 0 {
            m.skip(1)
        } else {
            m
        }).map_values(|x: usize| (x - 1) as usize),
    decreases m.len(),
{
    if m.len() > 0 {
        let d = m.drop_last();
        lemma_eviction_renumbers(d);
        if m.len() == 1 {
            assert(d =~= Seq::<usize>::empty());
            if m[0] == 0 {
                assert(renumber(m) =~= Seq::<usize>::empty());
                assert(m.skip(1) =~= Seq::<usize>::empty());
            } else {
                assert(renumber(m) =~= seq![(m[0] - 1) as usize]);
            }
            assert(renumber(m) =~= (if m.len() > 0 && m[0] == 0 {
                m.skip(1)
            } else {
                m
            }).map_values(|x: usize| (x - 1) as usize));
        } else {
            assert(m.last() > m[0]);
            assert(d[0] == m[0]);
            if m[0] == 0 {
                assert(m.skip(1) =~= d.skip(1).push(m.last()));
            } else {
                assert(m =~= d.push(m.last()));
            }
            assert(renumber(m) =~= (if m.len() > 0 && m[0] == 0 {
                m.skip(1)
            } else {
                m
            }).map_values(|x: usize| (x - 1) as usize));
        }
    }
}

/// While a filter is set, the match list is exactly the ascending list of the
/// indices of the lines that contain the token.
pub proof fn lemma_filter_complete(st: &AppState)
    requires
        st.wf(),
        st.filter_text is Some,
    ensures
        forall|k: int|
            0 <= k < st.filtered_indices@.len() ==> #[trigger] st.filtered_indices@[k]
                < st.log_buffer@.len() && has_substring(
                st.log_buffer@[st.filtered_indices@[k] as int]@,
                st.filter_text->0@,
            ),
        forall|a: int, b: int|
            0 <= a < b < st.filtered_indices@.len() ==> st.filtered_indices@[a]
                < st.filtered_indices@[b],
        forall|j: int|
            0 <= j < st.log_buffer@.len() ==> (has_substring(
                #[trigger] st.log_buffer@[j]@,
                st.filter_text->0@,
            ) <==> st.filtered_indices@.contains(j as usize)),
{
    let t = st.filter_text->0@;
    lemma_matching_exact(st.lines(), t, st.log_buffer@.len() as int);
    assert forall|j: int| 0 <= j < st.log_buffer@.len() implies (has_substring(
        #[trigger] st.log_buffer@[j]@,
        t,
    ) <==> st.filtered_indices@.contains(j as usize)) by {
        assert(st.lines()[j] == st.log_buffer@[j]@);
    }
    assert forall|k: int| 0 <= k < st.filtered_indices@.len() implies #[trigger] st.filtered_indices@[k]
        < st.log_buffer@.len() && has_substring(
        st.log_buffer@[st.filtered_indices@[k] as int]@,
        t,
    ) by {
        assert(st.lines()[st.filtered_indices@[k] as int] == st.log_buffer@[st.filtered_indices@[k] as int]@);
    }
}

} // verus!
