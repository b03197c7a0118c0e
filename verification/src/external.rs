//! Calls into serde_json, chrono and `std::path`, each behind a contract.
use chrono::{Datelike, Timelike};
use vstd::prelude::*;
use crate::calendar::{clock_text, is_calendar_of, stamp_text, CalendarTime};

verus! {

// ---------------------------------------------------------------------------
// serde_json
// ---------------------------------------------------------------------------
/// A JSON value read under a key, as plain values: a string, a number in
/// serde_json's rendering, an array (each element's text when it is a
/// string), or any other kind of value.
#[derive(Debug)]
pub enum JsonValue {
    Text(String),
    Number(String),
    Array(Vec<Option<String>>),
    Other,
}

/// The value of a [`JsonValue`].
pub enum JsonValueView {
    Text(Seq<char>),
    Number(Seq<char>),
    Array(Seq<Option<Seq<char>>>),
    Other,
}

pub open spec fn text_view(t: Option<String>) -> Option<Seq<char>> {
    match t {
        Some(s) => Some(s@),
        None => None,
    }
}

impl View for JsonValue {
    type V = JsonValueView;

    open spec fn view(&self) -> JsonValueView {
        match self {
            JsonValue::Text(t) => JsonValueView::Text(t@),
            JsonValue::Number(n) => JsonValueView::Number(n@),
            JsonValue::Array(items) => JsonValueView::Array(items@.map_values(|i: Option<String>| text_view(i))),
            JsonValue::Other => JsonValueView::Other,
        }
    }
}

/// The value that the JSON document `doc` holds under the top-level key
/// `key`, or `None` when `doc` is not valid JSON, is not an object or lacks
/// the key.
pub uninterp spec fn json_lookup_value(doc: Seq<char>, key: Seq<char>) -> Option<JsonValueView>;

/// Parses `doc` with `serde_json::from_str::<Value>` and reads `key` with
/// `Value::get`; the value found is handed back variant by variant (a number
/// through `Number::to_string`, each array element through `Value::as_str`).
/// serde_json's grammar and number rendering are not restated: the result is
/// the name above.
#[verifier::external_body]
pub(crate) fn json_lookup(doc: &str, key: &str) -> (r: Option<JsonValue>)
    ensures
        match r {
            Some(v) => json_lookup_value(doc@, key@) == Some(v@),
            None => json_lookup_value(doc@, key@) is None,
        },
{
    let value = serde_json::from_str::<serde_json::Value>(doc).ok()?;
    Some(match value.get(key)? {
        serde_json::Value::String(text) => JsonValue::Text(text.clone()),
        serde_json::Value::Number(number) => JsonValue::Number(number.to_string()),
        serde_json::Value::Array(items) => JsonValue::Array(items.iter().map(|item| item.as_str().map(str::to_string)).collect()),
        _ => JsonValue::Other,
    })
}

/// The text a field reads as: a string as it is, a number's text, the first
/// element of an array when that element is a string; nothing otherwise.
pub open spec fn string_of(v: JsonValueView) -> Option<Seq<char>> {
    match v {
        JsonValueView::Text(t) => Some(t),
        JsonValueView::Number(n) => Some(n),
        JsonValueView::Array(items) => if items.len() > 0 {
            items[0]
        } else {
            None
        },
        JsonValueView::Other => None,
    }
}

/// The text of a JSON value, as [`string_of`] says.
pub fn json_string(value: &JsonValue) -> (r: Option<String>)
    ensures
        text_view(r) == string_of(value@),
{
    match value {
        JsonValue::Text(text) => Some(text.clone()),
        JsonValue::Number(number) => Some(number.clone()),
        JsonValue::Array(items) => {
            if items.len() > 0 {
                match &items[0] {
                    Some(t) => Some(t.clone()),
                    None => None,
                }
            } else {
                None
            }
        },
        JsonValue::Other => None,
    }
}

/// The text that the JSON document `doc` holds under the top-level key `key`
/// (see [`string_of`]); `None` when there is no such value or it has no text.
pub open spec fn json_field_text(doc: Seq<char>, key: Seq<char>) -> Option<Seq<char>> {
    match json_lookup_value(doc, key) {
        Some(v) => string_of(v),
        None => None,
    }
}

/// The text under a top-level key of a JSON document.
pub fn json_field(doc: &str, key: &str) -> (r: Option<String>)
    ensures
        match r {
            Some(s) => json_field_text(doc@, key@) == Some(s@),
            None => json_field_text(doc@, key@) is None,
        },
{
    match json_lookup(doc, key) {
        Some(v) => json_string(&v),
        None => None,
    }
}

/// A JSON text read as a list: the elements of a top-level array, or one
/// other value, each rendered back as JSON text.
pub enum JsonItems {
    Array(Vec<String>),
    Single(String),
}

pub enum JsonItemsView {
    Array(Seq<Seq<char>>),
    Single(Seq<char>),
}

impl View for JsonItems {
    type V = JsonItemsView;

    open spec fn view(&self) -> JsonItemsView {
        match self {
            JsonItems::Array(items) => JsonItemsView::Array(items@.map_values(|i: String| i@)),
            JsonItems::Single(one) => JsonItemsView::Single(one@),
        }
    }
}

/// The top-level value of a JSON text, or `None` when the text is not valid JSON.
pub uninterp spec fn json_top_value(doc: Seq<char>) -> Option<JsonItemsView>;

/// Parses `doc` with `serde_json::from_str::<Value>`; an array hands back
/// its elements and any other value itself, each rendered with
/// `Value::to_string`.
#[verifier::external_body]
pub(crate) fn json_top(doc: &str) -> (r: Option<JsonItems>)
    ensures
        match r {
            Some(v) => json_top_value(doc@) == Some(v@),
            None => json_top_value(doc@) is None,
        },
{
    let value = serde_json::from_str::<serde_json::Value>(doc).ok()?;
    Some(match value {
        serde_json::Value::Array(items) => JsonItems::Array(items.iter().map(serde_json::Value::to_string).collect()),
        other => JsonItems::Single(other.to_string()),
    })
}

/// The JSON documents of a JSON text read as a list: the elements of a
/// top-level array, or the one document otherwise.
pub open spec fn json_items_text(doc: Seq<char>) -> Option<Seq<Seq<char>>> {
    match json_top_value(doc) {
        Some(JsonItemsView::Array(items)) => Some(items),
        Some(JsonItemsView::Single(one)) => Some(seq![one]),
        None => None,
    }
}

/// The items of a JSON text read as a list.
pub fn json_items(doc: &str) -> (r: Option<Vec<String>>)
    ensures
        match r {
            Some(items) => json_items_text(doc@) matches Some(t) && t.len() == items@.len() && forall|
                k: int,
            | 0 <= k < t.len() ==> #[trigger] t[k] == items@[k]@,
            None => json_items_text(doc@) is None,
        },
{
    match json_top(doc) {
        Some(JsonItems::Array(items)) => Some(items),
        Some(JsonItems::Single(one)) => {
            let mut v: Vec<String> = Vec::new();
            v.push(one);
            Some(v)
        },
        None => None,
    }
}

// ---------------------------------------------------------------------------
// chrono
// ---------------------------------------------------------------------------
/// Seconds since the Unix epoch of an RFC 3339 date-time text, or `None` when
/// the text is not one.
pub uninterp spec fn rfc3339_seconds(text: Seq<char>) -> Option<int>;

/// `chrono::DateTime::parse_from_rfc3339(text)` then `timestamp()`. chrono's
/// RFC 3339 grammar is not restated: the result is the name above.
#[verifier::external_body]
pub(crate) fn parse_rfc3339_seconds(text: &str) -> (r: Option<i64>)
    ensures
        match r {
            Some(v) => rfc3339_seconds(text@) == Some(v as int),
            None => rfc3339_seconds(text@) is None,
        },
{
    chrono::DateTime::parse_from_rfc3339(text).ok().map(|stamp| stamp.timestamp())
}

/// `chrono::DateTime::<Utc>::from_timestamp_millis(millis)` read back with
/// `year`, `month`, `day`, `hour`, `minute`, `second` and
/// `timestamp_subsec_millis`: the UTC calendar reading, defined for every
/// instant within about 250 000 years of the epoch.
#[verifier::external_body]
pub(crate) fn utc_calendar(millis: i64) -> (r: Option<CalendarTime>)
    ensures
        match r {
            Some(ct) => is_calendar_of(ct, millis as int),
            None => millis < -8_000_000_000_000_000 || millis > 8_000_000_000_000_000,
        },
{
    let stamp = chrono::DateTime::from_timestamp_millis(millis)?;
    Some(CalendarTime {
        year: stamp.year(),
        month: stamp.month(),
        day: stamp.day(),
        hour: stamp.hour(),
        minute: stamp.minute(),
        second: stamp.second(),
        millisecond: stamp.timestamp_subsec_millis(),
    })
}

/// `chrono::DateTime::from_timestamp(secs, 0)` formatted with `"%H:%M:%S"`:
/// the UTC hour, minute and second of the instant, two digits each. chrono
/// gives no date more than about 262 000 years from the epoch; the contract
/// promises one within 250 000 years.
#[verifier::external_body]
pub(crate) fn utc_clock(secs: i64) -> (r: Option<String>)
    ensures
        match r {
            Some(s) => exists|ct: CalendarTime| is_calendar_of(ct, secs * 1000) && s@ == clock_text(ct),
            None => secs < -8_000_000_000_000 || secs > 8_000_000_000_000,
        },
{
    chrono::DateTime::from_timestamp(secs, 0).map(|stamp| stamp.format("%H:%M:%S").to_string())
}

/// `chrono::DateTime::<Utc>::from_timestamp_millis(millis)` formatted with
/// `"%Y%m%d_%H%M%S_%3f"`: year, month, day, `_`, hour, minute, second, `_`
/// and milliseconds of the UTC reading, as chrono's formatter writes them:
/// two digits each, three for the milliseconds, four for a year from 0 to
/// 9999 and a sign before the digits of any other year.
#[verifier::external_body]
pub(crate) fn utc_stamp(millis: i64) -> (r: Option<String>)
    ensures
        match r {
            Some(s) => exists|ct: CalendarTime| is_calendar_of(ct, millis as int) && s@ == stamp_text(ct),
            None => millis < -8_000_000_000_000_000 || millis > 8_000_000_000_000_000,
        },
{
    let stamp = chrono::DateTime::from_timestamp_millis(millis)?;
    Some(stamp.format("%Y%m%d_%H%M%S_%3f").to_string())
}

// ---------------------------------------------------------------------------
// std::path
// ---------------------------------------------------------------------------
/// The final component of a path, as `Path::file_name` gives it, or `None`
/// when the path ends in `..` or has no normal last component.
pub uninterp spec fn path_file_name(path: Seq<char>) -> Option<Seq<char>>;

/// `Path::new(path).file_name()`, read back as text (a `&str` path has only
/// UTF-8 components). Path component rules are not restated.
#[verifier::external_body]
pub(crate) fn file_name_of(path: &str) -> (r: Option<String>)
    ensures
        match r {
            Some(name) => path_file_name(path@) == Some(name@),
            None => path_file_name(path@) is None,
        },
{
    let name = std::path::Path::new(path).file_name()?;
    name.to_str().map(str::to_string)
}

/// Two paths are equal as `Path` compares them: component by component.
pub uninterp spec fn path_equal(a: Seq<char>, b: Seq<char>) -> bool;

/// `Path::new(a) == Path::new(b)`. Path component rules are not restated.
#[verifier::external_body]
pub(crate) fn same_path(a: &str, b: &str) -> (r: bool)
    ensures
        r == path_equal(a@, b@),
{
    std::path::Path::new(a) == std::path::Path::new(b)
}

/// The extension of a path, as `Path::extension` gives it.
pub uninterp spec fn path_extension(path: Seq<char>) -> Option<Seq<char>>;

/// `Path::new(path).extension()`, read back as text.
#[verifier::external_body]
pub(crate) fn extension_of(path: &str) -> (r: Option<String>)
    ensures
        match r {
            Some(ext) => path_extension(path@) == Some(ext@),
            None => path_extension(path@) is None,
        },
{
    let ext = std::path::Path::new(path).extension()?;
    ext.to_str().map(str::to_string)
}

} // verus!
