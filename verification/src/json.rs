//! JSON by way of `serde_json`.
//!
//! A JSON value is passed on as its text: reading an object or an array gives
//! the texts of its members.
use vstd::prelude::*;

verus! {

/// Names and values, each value by its view.
pub open spec fn pairs_v(v: Seq<(String, String)>) -> Seq<(Seq<char>, Seq<char>)> {
    Seq::new(v.len(), |i: int| (v[i].0@, v[i].1@))
}

pub open spec fn texts_v(v: Seq<String>) -> Seq<Seq<char>> {
    Seq::new(v.len(), |i: int| v[i]@)
}

/// The members of the object that a text denotes, each value as its JSON text;
/// none where the text denotes no object.
pub uninterp spec fn json_object(text: Seq<char>) -> Option<Seq<(Seq<char>, Seq<char>)>>;

/// `serde_json::from_str` into a map: the members of the object that a text
/// denotes, each value printed again, or nothing where the text is no JSON
/// object. The result is a function of the text alone.
#[verifier::external_body]
pub(crate) fn read_object(text: &str) -> (r: Option<Vec<(String, String)>>)
    ensures
        json_object(text@) == (match r {
            Some(v) => Some(pairs_v(v@)),
            None => None,
        }),
{
    match serde_json::from_str::<serde_json::Map<String, serde_json::Value>>(text) {
        Ok(map) => Some(map.into_iter().map(|(k, v)| (k, v.to_string())).collect()),
        Err(_) => None,
    }
}

/// The items of the array that a text denotes, each as its JSON text, or what is
/// wrong with the text.
pub uninterp spec fn json_array(text: Seq<char>) -> Result<Seq<Seq<char>>, Seq<char>>;

/// `serde_json::from_str` into a list: the items of the array that a text
/// denotes, each printed again, or the message of the error. The result is a
/// function of the text alone.
#[verifier::external_body]
pub(crate) fn read_array(text: &str) -> (r: Result<Vec<String>, String>)
    ensures
        json_array(text@) == (match r {
            Ok(v) => Ok(texts_v(v@)),
            Err(m) => Err(m@),
        }),
{
    match serde_json::from_str::<Vec<serde_json::Value>>(text) {
        Ok(items) => Ok(items.into_iter().map(|v| v.to_string()).collect()),
        Err(e) => Err(e.to_string()),
    }
}

/// The natural number that a text denotes, where it does.
pub uninterp spec fn json_natural(text: Seq<char>) -> Option<u64>;

/// `serde_json::Value::as_u64` on the value that a text denotes; nothing where
/// the text is not JSON. The result is a function of the text alone.
#[verifier::external_body]
pub(crate) fn read_natural(text: &str) -> (r: Option<u64>)
    ensures
        r == json_natural(text@),
{
    match serde_json::from_str::<serde_json::Value>(text) {
        Ok(v) => v.as_u64(),
        Err(_) => None,
    }
}

/// The string that a text denotes, where it does.
pub uninterp spec fn json_string(text: Seq<char>) -> Option<Seq<char>>;

/// `serde_json::Value::as_str` on the value that a text denotes; nothing where
/// the text is not JSON. The result is a function of the text alone.
#[verifier::external_body]
pub(crate) fn read_string(text: &str) -> (r: Option<String>)
    ensures
        json_string(text@) == (match r {
            Some(s) => Some(s@),
            None => None,
        }),
{
    match serde_json::from_str::<serde_json::Value>(text) {
        Ok(v) => v.as_str().map(|s| s.to_string()),
        Err(_) => None,
    }
}

/// A digit of a hexadecimal number, in lower case.
pub open spec fn hex_digit(n: int) -> char {
    if n < 10 {
        (48 + n) as char
    } else {
        (87 + n) as char
    }
}

/// A character within a JSON string: quotes, backslashes and control characters
/// are escaped.
pub open spec fn escaped(c: char) -> Seq<char> {
    let u = c as int;
    if c == '"' {
        seq!['\\', '"']
    } else if c == '\\' {
        seq!['\\', '\\']
    } else if u == 8 {
        seq!['\\', 'b']
    } else if u == 9 {
        seq!['\\', 't']
    } else if u == 10 {
        seq!['\\', 'n']
    } else if u == 12 {
        seq!['\\', 'f']
    } else if u == 13 {
        seq!['\\', 'r']
    } else if u < 32 {
        seq!['\\', 'u', '0', '0', hex_digit(u / 16), hex_digit(u % 16)]
    } else {
        seq![c]
    }
}

pub open spec fn escaped_all(s: Seq<char>) -> Seq<char>
    decreases s.len(),
{
    if s.len() == 0 {
        seq![]
    } else {
        escaped_all(s.drop_last()) + escaped(s.last())
    }
}

/// A text as a JSON string.
pub open spec fn quoted(s: Seq<char>) -> Seq<char> {
    seq!['"'] + escaped_all(s) + seq!['"']
}

/// `serde_json::to_string` on a string: its characters between quotes, with
/// quotes, backslashes and control characters escaped. It does not fail on
/// strings.
#[verifier::external_body]
pub(crate) fn quote(s: &str) -> (r: String)
    ensures
        r@ == quoted(s@),
{
    serde_json::to_string(s).unwrap()
}

} // verus!
