use vstd::prelude::*;
use crate::text::{ascii_lower_chars, ascii_lower_seq, chars_eq, chars_of, string_of, trim_chars, trim_seq};

verus! {

pub open spec fn active_text() -> Seq<char> {
    seq!['a', 'c', 't', 'i', 'v', 'e']
}

pub open spec fn deprecated_text() -> Seq<char> {
    seq!['d', 'e', 'p', 'r', 'e', 'c', 'a', 't', 'e', 'd']
}

/// A status as the rules table accepts it.
pub open spec fn is_status(s: Seq<char>) -> bool {
    s == active_text() || s == deprecated_text()
}

/// The status word a user typed: trimmed, ASCII letters lowered.
pub open spec fn status_key(raw: Seq<char>) -> Seq<char> {
    ascii_lower_seq(trim_seq(raw))
}

/// The status that the command line accepts for `raw`: empty means
/// `active`; anything but `active` or `deprecated` is refused.
pub open spec fn cli_status(raw: Seq<char>) -> Option<Seq<char>> {
    let k = status_key(raw);
    if k.len() == 0 {
        Some(active_text())
    } else if is_status(k) {
        Some(k)
    } else {
        None
    }
}

/// The status that the picker takes for `raw`: `deprecated` when it says
/// so, `active` otherwise.
pub open spec fn ui_status(raw: Seq<char>) -> Seq<char> {
    if status_key(raw) == deprecated_text() {
        deprecated_text()
    } else {
        active_text()
    }
}

pub fn active_string() -> (r: String)
    ensures
        r@ == active_text(),
{
    proof {
        reveal_strlit("active");
    }
    "active".to_string()
}

pub fn deprecated_string() -> (r: String)
    ensures
        r@ == deprecated_text(),
{
    proof {
        reveal_strlit("deprecated");
    }
    "deprecated".to_string()
}

/// The status a rule gets when its input names none.
pub fn default_status() -> (r: String)
    ensures
        r@ == active_text(),
{
    active_string()
}

pub fn is_active(s: &str) -> (b: bool)
    ensures
        b == (s@ == active_text()),
{
    let v = chars_of(s);
    let a = chars_of(active_string().as_str());
    chars_eq(&v, &a)
}

/// Whether the text is a status the rules table accepts, as it stands.
pub fn is_status_str(s: &str) -> (b: bool)
    ensures
        b == is_status(s@),
{
    let v = chars_of(s);
    let a = chars_of(active_string().as_str());
    let d = chars_of(deprecated_string().as_str());
    chars_eq(&v, &a) || chars_eq(&v, &d)
}

fn status_key_chars(raw: &str) -> (r: Vec<char>)
    ensures
        r@ == status_key(raw@),
{
    let v = chars_of(raw);
    let t = trim_chars(&v);
    ascii_lower_chars(&t)
}

/// The status given on the command line, checked.
pub fn normalize_status(raw: &str) -> (r: Result<String, String>)
    ensures
        match cli_status(raw@) {
            Some(s) => r matches Ok(v) && v@ == s,
            None => r matches Err(e) && e@ == "status must be one of: active, deprecated"@,
        },
{
    let k = status_key_chars(raw);
    if k.len() == 0 {
        return Ok(active_string());
    }
    let a = chars_of(active_string().as_str());
    let d = chars_of(deprecated_string().as_str());
    if chars_eq(&k, &a) || chars_eq(&k, &d) {
        Ok(string_of(&k))
    } else {
        Err("status must be one of: active, deprecated".to_string())
    }
}

/// The status the picker's editor takes: `deprecated` or else `active`.
pub fn normalize_ui_status(raw: &str) -> (r: String)
    ensures
        r@ == ui_status(raw@),
        is_status(r@),
{
    let k = status_key_chars(raw);
    let d = chars_of(deprecated_string().as_str());
    if chars_eq(&k, &d) {
        deprecated_string()
    } else {
        active_string()
    }
}

} // verus!
