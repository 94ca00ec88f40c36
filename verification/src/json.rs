use vstd::prelude::*;
use crate::split::{hex_digit, join_seq};
use crate::text::texts_of;

verus! {

/// How serde_json writes one character inside a string: `"` and `\`
/// behind a backslash; backspace, tab, line feed, form feed and carriage
/// return as `\b`, `\t`, `\n`, `\f`, `\r`; the other control
/// characters below U+0020 as `\u00` and two lower-case hex digits; every
/// other character as itself.
pub open spec fn json_char(c: char) -> Seq<char> {
    let u = c as u32;
    if c == '"' {
        seq!['\\', '"']
    } else if c == '\\' {
        seq!['\\', '\\']
    } else if u == 0x08 {
        seq!['\\', 'b']
    } else if u == 0x09 {
        seq!['\\', 't']
    } else if u == 0x0A {
        seq!['\\', 'n']
    } else if u == 0x0C {
        seq!['\\', 'f']
    } else if u == 0x0D {
        seq!['\\', 'r']
    } else if u < 0x20 {
        seq!['\\', 'u', '0', '0', hex_digit((u / 16) as nat), hex_digit((u % 16) as nat)]
    } else {
        seq![c]
    }
}

/// The characters of a string, each as serde_json writes it.
pub open spec fn json_escaped(s: Seq<char>) -> Seq<char>
    decreases s.len(),
{
    if s.len() == 0 {
        Seq::empty()
    } else {
        json_escaped(s.drop_last()) + json_char(s.last())
    }
}

/// A JSON string: the escaped characters between double quotes.
pub open spec fn json_string(s: Seq<char>) -> Seq<char> {
    seq!['"'] + json_escaped(s) + seq!['"']
}

/// The JSON text that `serde_json::to_string` writes for a list of strings:
/// `[`, the strings separated by `,` with no spaces, `]`.
pub open spec fn json_text_of_list(items: Seq<Seq<char>>) -> Seq<char> {
    seq!['['] + join_seq(items.map_values(|t: Seq<char>| json_string(t)), seq![',']) + seq![']']
}

/// The list of strings that `serde_json::from_str::<Vec<String>>` reads from
/// a text, or `None` where it reports an error.
pub uninterp spec fn json_list_of_text(text: Seq<char>) -> Option<Seq<Seq<char>>>;

/// `serde_json::to_string` on a list of strings. Claimed: the text is the
/// JSON text of the list as stated above (serde_json's compact writer and
/// its escape table), and reading it back gives the same list.
/// Serialization of a `Vec<String>` cannot fail (serde_json fails only where
/// a `Serialize` impl decides to, or on a map with non-string keys), so the
/// error branch is never taken.
#[verifier::external_body]
pub(crate) fn encode_string_list(items: &Vec<String>) -> (r: String)
    ensures
        r@ == json_text_of_list(texts_of(items@)),
        json_list_of_text(r@) == Some(texts_of(items@)),
{
    serde_json::to_string(items).unwrap_or_default()
}

/// `serde_json::from_str::<Vec<String>>`. Claimed: the list is the named
/// reading of the text, `None` where serde_json reports an error.
#[verifier::external_body]
pub(crate) fn decode_string_list(text: &str) -> (r: Option<Vec<String>>)
    ensures
        match json_list_of_text(text@) {
            Some(items) => r matches Some(v) && texts_of(v@) == items,
            None => r is None,
        },
{
    serde_json::from_str::<Vec<String>>(text).ok()
}

/// The tags stored as JSON, or none where the text is not a JSON list of
/// strings.
pub open spec fn tags_of_json(text: Seq<char>) -> Seq<Seq<char>> {
    match json_list_of_text(text) {
        Some(items) => items,
        None => Seq::empty(),
    }
}

/// Reads the tags stored as JSON; text that is not a JSON list of strings
/// reads as no tags.
pub fn parse_tags_json(raw: &str) -> (r: Vec<String>)
    ensures
        texts_of(r@) == tags_of_json(raw@),
{
    match decode_string_list(raw) {
        Some(v) => v,
        None => {
            let v: Vec<String> = Vec::new();
            assert(texts_of(v@) =~= Seq::<Seq<char>>::empty());
            v
        },
    }
}

} // verus!
