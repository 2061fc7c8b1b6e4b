use vstd::prelude::*;
use crate::display::{
    fitting_chars, fitting_prefix, sanitize_for_display, sanitized, utf8_len, utf8_length,
};
use crate::text::{chars_of, opt_str_view, push_char, same_text, substring};
use crate::tools::{ToolRegistry, is_installed};
use crate::views::ViewKind;

verus! {

/// Most recent lines sent for analysis.
pub const SAMPLE_LINES: usize = 100;

/// Bytes each sampled line is cut to.
pub const SAMPLE_LINE_BYTES: usize = 500;

/// Bytes of sampled text sent at most.
pub const MAX_MESSAGE_BYTES: usize = 10000;

/// Lines joined with newlines.
pub open spec fn joined(ls: Seq<Seq<char>>) -> Seq<char>
    decreases ls.len(),
{
    if ls.len() == 0 {
        Seq::empty()
    } else if ls.len() == 1 {
        ls[0]
    } else {
        joined(ls.drop_last()) + seq!['\n'] + ls.last()
    }
}

/// The lines sent for analysis: the last 100, each sanitized to 500 bytes.
pub open spec fn sample_lines(logs: Seq<String>) -> Seq<Seq<char>> {
    let start = if logs.len() > SAMPLE_LINES {
        logs.len() - SAMPLE_LINES
    } else {
        0
    };
    Seq::new(
        (logs.len() - start) as nat,
        |k: int| sanitized(logs[start + k]@, SAMPLE_LINE_BYTES as int),
    )
}

/// The sampled lines as one text.
pub fn sample_text(logs: &Vec<String>) -> (r: String)
    ensures
        r@ == joined(sample_lines(logs@)),
{
    let start = if logs.len() > SAMPLE_LINES {
        logs.len() - SAMPLE_LINES
    } else {
        0
    };
    let ghost ls = sample_lines(logs@);
    let mut out = String::new();
    let mut k = start;
    while k < logs.len()
        invariant
            start <= k <= logs@.len(),
            start == if logs@.len() > SAMPLE_LINES {
                logs@.len() - SAMPLE_LINES
            } else {
                0
            },
            ls == sample_lines(logs@),
            out@ == joined(ls.take(k - start)),
        decreases logs@.len() - k,
    {
        let line = sanitize_for_display(logs[k].as_str(), SAMPLE_LINE_BYTES);
        if k > start {
            push_char(&mut out, '\n');
        }
        out.append(line.as_str());
        proof {
            let j = k - start;
            assert(ls[j] == line@);
            assert(ls.take(j + 1).drop_last() =~= ls.take(j));
            if j == 0 {
                assert(out@ =~= line@);
            } else {
                assert(out@ =~= joined(ls.take(j)) + seq!['\n'] + line@);
            }
        }
        k = k + 1;
    }
    proof {
        assert(ls.take(k - start) =~= ls);
    }
    out
}

/// The decimal digit of `d`.
pub open spec fn digit(d: int) -> char {
    if d == 0 {
        '0'
    } else if d == 1 {
        '1'
    } else if d == 2 {
        '2'
    } else if d == 3 {
        '3'
    } else if d == 4 {
        '4'
    } else if d == 5 {
        '5'
    } else if d == 6 {
        '6'
    } else if d == 7 {
        '7'
    } else if d == 8 {
        '8'
    } else {
        '9'
    }
}

/// `n` written in decimal.
pub open spec fn decimal(n: nat) -> Seq<char>
    decreases n,
{
    if n < 10 {
        seq![digit(n as int)]
    } else {
        decimal(n / 10) + seq![digit((n % 10) as int)]
    }
}

fn digit_char(d: u128) -> (r: char)
    requires
        d < 10,
    ensures
        r == digit(d as int),
{
    if d == 0 {
        '0'
    } else if d == 1 {
        '1'
    } else if d == 2 {
        '2'
    } else if d == 3 {
        '3'
    } else if d == 4 {
        '4'
    } else if d == 5 {
        '5'
    } else if d == 6 {
        '6'
    } else if d == 7 {
        '7'
    } else if d == 8 {
        '8'
    } else {
        '9'
    }
}

/// Writes `n` in decimal.
pub fn to_decimal(n: u128) -> (r: String)
    ensures
        r@ == decimal(n as nat),
    decreases n,
{
    if n < 10 {
        let mut r = String::new();
        push_char(&mut r, digit_char(n));
        proof {
            assert(r@ =~= seq![digit(n as int)]);
        }
        r
    } else {
        let mut r = to_decimal(n / 10);
        push_char(&mut r, digit_char(n % 10));
        r
    }
}

pub const MESSAGE_HEAD: &'static str = "Analyze these log lines and select the best view:\n\n";

/// The request text for a sample: a fixed head and the sample; a sample over
/// 10000 bytes is cut to the characters that fit in them, followed by a note of
/// how many bytes were left out.
pub open spec fn message_of(sample: Seq<char>) -> Seq<char> {
    let total = utf8_len(sample);
    if total > MAX_MESSAGE_BYTES {
        let kept = sample.take(fitting_chars(sample, MAX_MESSAGE_BYTES as int, 0));
        MESSAGE_HEAD@ + kept + "...\n[truncated "@ + decimal((total - utf8_len(kept)) as nat)
            + " chars]"@
    } else {
        MESSAGE_HEAD@ + sample
    }
}

/// Builds the request text for the sampled lines.
pub fn user_message(sample: &str) -> (r: String)
    ensures
        r@ == message_of(sample@),
{
    let cs = chars_of(sample);
    let total = utf8_length(&cs);
    let mut out = String::from_str(MESSAGE_HEAD);
    if total <= MAX_MESSAGE_BYTES as u128 {
        out.append(sample);
        return out;
    }
    let (n, kept) = fitting_prefix(&cs, MAX_MESSAGE_BYTES as u128);
    proof {
        assert(cs@.take(n as int) =~= sample@.take(n as int));
        assert(sample@.subrange(0, n as int) =~= sample@.take(n as int));
    }
    let cut = substring(sample, 0, n);
    out.append(cut.as_str());
    out.append("...\n[truncated ");
    let count = to_decimal(total - kept);
    out.append(count.as_str());
    out.append(" chars]");
    out
}

/// Why the classifier's answer names no view that can be used.
#[derive(Clone, Debug, PartialEq, Eq)]
pub enum ViewChoiceError {
    /// An external tool was chosen without naming it
    MissingTool,
    /// The named tool is not known
    UnknownTool(String),
    /// The view is none of the known ones
    UnknownView(String),
}

impl ViewChoiceError {
    /// The error as a sentence.
    pub fn message(&self) -> (r: String)
        ensures
            r@ == match self {
                ViewChoiceError::MissingTool => "ExternalTool view requires 'tool' field"@,
                ViewChoiceError::UnknownTool(t) => "Unknown external tool: "@ + t@,
                ViewChoiceError::UnknownView(v) => "Unknown view type: "@ + v@,
            },
    {
        match self {
            ViewChoiceError::MissingTool => String::from_str("ExternalTool view requires 'tool' field"),
            ViewChoiceError::UnknownTool(t) => {
                let mut r = String::from_str("Unknown external tool: ");
                r.append(t.as_str());
                r
            },
            ViewChoiceError::UnknownView(v) => {
                let mut r = String::from_str("Unknown view type: ");
                r.append(v.as_str());
                r
            },
        }
    }
}

/// Some tool of the registry has this name.
pub open spec fn has_tool(reg: &ToolRegistry, name: Seq<char>) -> bool {
    exists|i: int| 0 <= i < reg.tools@.len() && reg.tools@[i].name@ == name
}

/// The check command of the tool with this name.
pub open spec fn tool_check_cmd(reg: &ToolRegistry, name: Seq<char>) -> Seq<char> {
    let i = choose|i: int| 0 <= i < reg.tools@.len() && reg.tools@[i].name@ == name;
    reg.tools@[i].check_cmd@
}

/// What the classifier's answer (`view`, and `tool` for an external tool) comes
/// to: the view and its label, an installed tool by name, the JSON view when the
/// tool is known but not installed, or an error.
pub open spec fn view_choice_ok(
    r: Result<(ViewKind, String), ViewChoiceError>,
    view: Seq<char>,
    tool: Option<Seq<char>>,
    reg: &ToolRegistry,
    installed: Seq<String>,
) -> bool {
    if view == "Plain"@ {
        r matches Ok((ViewKind::Plain, l)) && l@ == "Plain"@
    } else if view == "KeyValue"@ {
        r matches Ok((ViewKind::KeyValue, l)) && l@ == "KeyValue"@
    } else if view == "Json"@ {
        r matches Ok((ViewKind::Json, l)) && l@ == "Json"@
    } else if view == "ExternalTool"@ {
        match tool {
            None => r matches Err(ViewChoiceError::MissingTool),
            Some(t) => if !has_tool(reg, t) {
                r matches Err(ViewChoiceError::UnknownTool(n)) && n@ == t
            } else if is_installed(installed, tool_check_cmd(reg, t)) {
                r matches Ok((ViewKind::ExternalTool(n), l)) && n@ == t && l@ == "External: "@ + t
            } else {
                r matches Ok((ViewKind::Json, l)) && l@ == "Json ("@ + t + " not available)"@
            },
        }
    } else {
        r matches Err(ViewChoiceError::UnknownView(n)) && n@ == view
    }
}

/// Maps the classifier's answer to a view and its label, given the commands
/// that are installed.
pub fn select_view(
    view: &str,
    tool: Option<&str>,
    registry: &ToolRegistry,
    installed: &Vec<String>,
) -> (r: Result<(ViewKind, String), ViewChoiceError>)
    requires
        registry.wf(),
    ensures
        view_choice_ok(r, view@, opt_str_view(tool), registry, installed@),
{
    if same_text(view, "Plain") {
        return Ok((ViewKind::Plain, String::from_str("Plain")));
    }
    if same_text(view, "KeyValue") {
        return Ok((ViewKind::KeyValue, String::from_str("KeyValue")));
    }
    if same_text(view, "Json") {
        return Ok((ViewKind::Json, String::from_str("Json")));
    }
    if !same_text(view, "ExternalTool") {
        return Err(ViewChoiceError::UnknownView(String::from_str(view)));
    }
    let t = match tool {
        Some(t) => t,
        None => {
            return Err(ViewChoiceError::MissingTool);
        },
    };
    match registry.get(t) {
        Some(found) => {
            proof {
                let i = choose|i: int|
                    0 <= i < registry.tools@.len() && registry.tools@[i] == *found && found.name@
                        == t@;
                let j = choose|j: int| 0 <= j < registry.tools@.len() && registry.tools@[j].name@ == t@;
                if i < j {
                    assert(registry.tools@[i].name@ != registry.tools@[j].name@);
                } else if j < i {
                    assert(registry.tools@[j].name@ != registry.tools@[i].name@);
                }
                assert(tool_check_cmd(registry, t@) == found.check_cmd@);
            }
            let mut installed_here = false;
            let mut k: usize = 0;
            while k < installed.len()
                invariant
                    k <= installed@.len(),
                    installed_here == exists|j: int| 0 <= j < k && installed@[j]@ == found.check_cmd@,
                decreases installed@.len() - k,
            {
                if installed[k] == found.check_cmd {
                    installed_here = true;
                }
                k = k + 1;
            }
            if installed_here {
                let mut label = String::from_str("External: ");
                label.append(t);
                Ok((ViewKind::ExternalTool(String::from_str(t)), label))
            } else {
                let mut label = String::from_str("Json (");
                label.append(t);
                label.append(" not available)");
                Ok((ViewKind::Json, label))
            }
        },
        None => Err(ViewChoiceError::UnknownTool(String::from_str(t))),
    }
}

} // verus!
