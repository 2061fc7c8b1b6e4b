use vstd::prelude::*;
use crate::classify::{decimal, to_decimal};
use crate::display::{sanitize_for_display, sanitized};
use crate::text::{join_sep, join_with, push_char};

verus! {

/// A JSON value nested one level down, as the JSON view shows it.
#[derive(Debug)]
pub enum JsonItem {
    Str(String),
    /// A number, in the text the parser gives it
    Number(String),
    Bool(bool),
    Null,
    /// An array or object, in its debug text
    Other(String),
}

/// A JSON value with its direct members.
#[derive(Debug)]
pub enum JsonValue {
    Str(String),
    /// A number, in the text the parser gives it
    Number(String),
    Bool(bool),
    Null,
    Array(Vec<JsonItem>),
    Object(Vec<(String, JsonItem)>),
}

/// Longest array whose items are listed.
pub const LISTED_ITEMS: usize = 5;

/// Largest object whose members are listed.
pub const LISTED_KEYS: usize = 3;

pub open spec fn bool_text(b: bool) -> Seq<char> {
    if b {
        "true"@
    } else {
        "false"@
    }
}

pub open spec fn quoted(s: Seq<char>) -> Seq<char> {
    seq!['"'] + s + seq!['"']
}

/// An item of a listed array: strings quoted and sanitized to 50 bytes.
pub open spec fn array_item_text(it: JsonItem) -> Seq<char> {
    match it {
        JsonItem::Str(s) => quoted(sanitized(s@, 50)),
        JsonItem::Number(n) => n@,
        JsonItem::Bool(b) => bool_text(b),
        JsonItem::Null => "null"@,
        JsonItem::Other(d) => d@,
    }
}

/// A member value of a listed object: strings quoted and sanitized to 30 bytes,
/// null and nested values in their debug text.
pub open spec fn member_text(it: JsonItem) -> Seq<char> {
    match it {
        JsonItem::Str(s) => quoted(sanitized(s@, 30)),
        JsonItem::Number(n) => n@,
        JsonItem::Bool(b) => bool_text(b),
        JsonItem::Null => "Null"@,
        JsonItem::Other(d) => d@,
    }
}

/// How the JSON view shows the value of a member of a logged object.
pub open spec fn value_text(v: JsonValue) -> Seq<char> {
    match v {
        JsonValue::Str(s) => sanitized(s@, 500),
        JsonValue::Number(n) => n@,
        JsonValue::Bool(b) => bool_text(b),
        JsonValue::Null => "null"@,
        JsonValue::Array(items) => if items@.len() == 0 {
            "[]"@
        } else if items@.len() <= LISTED_ITEMS {
            seq!['['] + join_sep(items@.map_values(|it: JsonItem| array_item_text(it)), ", "@)
                + seq![']']
        } else {
            seq!['['] + decimal(items@.len()) + " items]"@
        },
        JsonValue::Object(members) => if members@.len() == 0 {
            "{}"@
        } else if members@.len() <= LISTED_KEYS {
            seq!['{'] + join_sep(
                members@.map_values(|m: (String, JsonItem)| m.0@ + ": "@ + member_text(m.1)),
                ", "@,
            ) + seq!['}']
        } else {
            seq!['{'] + decimal(members@.len()) + " keys}"@
        },
    }
}

/// How a JSON value that is not an object is shown on its own.
pub open spec fn json_text(v: JsonValue) -> Seq<char> {
    match v {
        JsonValue::Str(s) => sanitized(s@, 500),
        JsonValue::Number(n) => n@,
        JsonValue::Bool(b) => bool_text(b),
        JsonValue::Null => "null"@,
        JsonValue::Array(items) => if items@.len() == 0 {
            "[]"@
        } else {
            seq!['['] + decimal(items@.len()) + " items]"@
        },
        JsonValue::Object(members) => if members@.len() == 0 {
            "{}"@
        } else {
            seq!['{'] + decimal(members@.len()) + " keys}"@
        },
    }
}

fn bool_string(b: bool) -> (r: String)
    ensures
        r@ == bool_text(b),
{
    if b {
        String::from_str("true")
    } else {
        String::from_str("false")
    }
}

fn quote(s: &str) -> (r: String)
    ensures
        r@ == quoted(s@),
{
    let mut r = String::new();
    push_char(&mut r, '"');
    r.append(s);
    push_char(&mut r, '"');
    proof {
        assert(r@ =~= quoted(s@));
    }
    r
}

fn copy(s: &String) -> (r: String)
    ensures
        r@ == s@,
{
    String::from_str(s.as_str())
}

fn array_item_string(it: &JsonItem) -> (r: String)
    ensures
        r@ == array_item_text(*it),
{
    match it {
        JsonItem::Str(s) => quote(sanitize_for_display(s.as_str(), 50).as_str()),
        JsonItem::Number(n) => copy(n),
        JsonItem::Bool(b) => bool_string(*b),
        JsonItem::Null => String::from_str("null"),
        JsonItem::Other(d) => copy(d),
    }
}

fn member_string(m: &(String, JsonItem)) -> (r: String)
    ensures
        r@ == m.0@ + ": "@ + member_text(m.1),
{
    let v = match &m.1 {
        JsonItem::Str(s) => quote(sanitize_for_display(s.as_str(), 30).as_str()),
        JsonItem::Number(n) => copy(n),
        JsonItem::Bool(b) => bool_string(*b),
        JsonItem::Null => String::from_str("Null"),
        JsonItem::Other(d) => copy(d),
    };
    let mut r = copy(&m.0);
    r.append(": ");
    r.append(v.as_str());
    r
}

fn counted(open: char, n: usize, tail: &str) -> (r: String)
    ensures
        r@ == seq![open] + decimal(n as nat) + tail@,
{
    let mut r = String::new();
    push_char(&mut r, open);
    r.append(to_decimal(n as u128).as_str());
    r.append(tail);
    proof {
        assert(r@ =~= seq![open] + decimal(n as nat) + tail@);
    }
    r
}

fn bracketed(open: char, inner: String, close: char) -> (r: String)
    ensures
        r@ == seq![open] + inner@ + seq![close],
{
    let mut r = String::new();
    push_char(&mut r, open);
    r.append(inner.as_str());
    push_char(&mut r, close);
    proof {
        assert(r@ =~= seq![open] + inner@ + seq![close]);
    }
    r
}

/// The text of a member value in the JSON view.
pub fn format_value(v: &JsonValue) -> (r: String)
    ensures
        r@ == value_text(*v),
{
    match v {
        JsonValue::Array(items) => {
            if items.len() == 0 {
                String::from_str("[]")
            } else if items.len() <= LISTED_ITEMS {
                let mut parts: Vec<String> = Vec::new();
                let mut k: usize = 0;
                while k < items.len()
                    invariant
                        k <= items@.len(),
                        parts@.map_values(|p: String| p@) == items@.map_values(
                            |it: JsonItem| array_item_text(it),
                        ).take(k as int),
                    decreases items@.len() - k,
                {
                    let p = array_item_string(&items[k]);
                    let ghost before = parts@;
                    parts.push(p);
                    proof {
                        assert(parts@.map_values(|p: String| p@) =~= before.map_values(|p: String| p@).push(
                            array_item_text(items@[k as int]),
                        ));
                        assert(parts@.map_values(|p: String| p@) =~= items@.map_values(
                            |it: JsonItem| array_item_text(it),
                        ).take(k + 1));
                    }
                    k = k + 1;
                }
                proof {
                    assert(items@.map_values(|it: JsonItem| array_item_text(it)).take(k as int)
                        =~= items@.map_values(|it: JsonItem| array_item_text(it)));
                }
                bracketed('[', join_with(&parts, ", "), ']')
            } else {
                counted('[', items.len(), " items]")
            }
        },
        JsonValue::Object(members) => {
            if members.len() == 0 {
                String::from_str("{}")
            } else if members.len() <= LISTED_KEYS {
                let ghost texts = members@.map_values(
                    |m: (String, JsonItem)| m.0@ + ": "@ + member_text(m.1),
                );
                let mut parts: Vec<String> = Vec::new();
                let mut k: usize = 0;
                while k < members.len()
                    invariant
                        k <= members@.len(),
                        texts == members@.map_values(
                            |m: (String, JsonItem)| m.0@ + ": "@ + member_text(m.1),
                        ),
                        parts@.map_values(|p: String| p@) == texts.take(k as int),
                    decreases members@.len() - k,
                {
                    let p = member_string(&members[k]);
                    let ghost before = parts@;
                    parts.push(p);
                    proof {
                        assert(parts@.map_values(|p: String| p@) =~= before.map_values(|p: String| p@).push(
                            texts[k as int],
                        ));
                        assert(parts@.map_values(|p: String| p@) =~= texts.take(k + 1));
                    }
                    k = k + 1;
                }
                proof {
                    assert(texts.take(k as int) =~= texts);
                }
                bracketed('{', join_with(&parts, ", "), '}')
            } else {
                counted('{', members.len(), " keys}")
            }
        },
        _ => safe_json_display(v),
    }
}

/// The text of a JSON value that is shown on its own.
pub fn safe_json_display(v: &JsonValue) -> (r: String)
    ensures
        r@ == json_text(*v),
        !(v is Array || v is Object) ==> r@ == value_text(*v),
{
    match v {
        JsonValue::Str(s) => sanitize_for_display(s.as_str(), 500),
        JsonValue::Number(n) => copy(n),
        JsonValue::Bool(b) => bool_string(*b),
        JsonValue::Null => String::from_str("null"),
        JsonValue::Array(items) => if items.len() == 0 {
            String::from_str("[]")
        } else {
            counted('[', items.len(), " items]")
        },
        JsonValue::Object(members) => if members.len() == 0 {
            String::from_str("{}")
        } else {
            counted('{', members.len(), " keys}")
        },
    }
}

} // verus!
