//! The crate's trusted boundary: wrappers around functions of outside
//! crates and the few std functions vstd gives no specification for.
//! Each wrapper's doc comment names the function relied on.

use vstd::prelude::*;

use crate::json::JsonValue;

verus! {

/// What `str::to_lowercase` returns; the result depends on the characters
/// alone.
pub uninterp spec fn lower_of(s: Seq<char>) -> Seq<char>;

/// Relies on str::to_lowercase for Unicode case folding.
#[verifier::external_body]
pub(crate) fn lowercase(s: &str) -> (r: String)
    ensures
        r@ == lower_of(s@),
{
    s.to_lowercase()
}

/// Relies on std::str::from_utf8: it succeeds exactly on valid UTF-8
/// input and returns the decoded characters.
#[verifier::external_body]
pub(crate) fn bytes_to_string(bytes: &[u8]) -> (r: Option<String>)
    ensures
        match r {
            Some(s) => vstd::utf8::valid_utf8(bytes@) && s@ == vstd::utf8::decode_utf8(bytes@),
            None => !vstd::utf8::valid_utf8(bytes@),
        },
{
    std::str::from_utf8(bytes).ok().map(|s| s.to_owned())
}

/// serde_json's document type, declared so the conversion helpers below
/// may name it; the library itself sees only its own tree.
#[verifier::external_type_specification]
#[verifier::external_body]
pub struct ExValue(serde_json::Value);

/// What parsing text as one JSON document yields: `None` exactly on text
/// that is not a single valid document.  serde_json keeps object members
/// sorted and collapses duplicate keys, so the result depends on the text
/// alone.
pub uninterp spec fn json_of(s: Seq<char>) -> Option<JsonValue>;

/// Helper of `parse_json`: maps serde_json's value type onto the
/// library's tree, one arm per variant, numbers by their rendering.
#[verifier::external_body]
fn value_tree(v: &serde_json::Value) -> JsonValue {
    match v {
        serde_json::Value::Null => JsonValue::Null,
        serde_json::Value::Bool(b) => JsonValue::Bool(*b),
        serde_json::Value::Number(n) => JsonValue::Num(n.to_string()),
        serde_json::Value::String(s) => JsonValue::Str(s.clone()),
        serde_json::Value::Array(a) => JsonValue::Arr(a.iter().map(value_tree).collect()),
        serde_json::Value::Object(o) => JsonValue::Obj(
            o.iter().map(|(k, x)| (k.clone(), value_tree(x))).collect(),
        ),
    }
}

/// Relies on serde_json::from_str::<Value>: whether text is one valid JSON
/// document, and what it holds, depend on the text alone.
#[verifier::external_body]
pub(crate) fn parse_json(s: &str) -> (r: Option<JsonValue>)
    ensures
        r == json_of(s@),
{
    serde_json::from_str::<serde_json::Value>(s).ok().map(|v| value_tree(&v))
}

/// What serde_json's compact rendering of a tree looks like; it depends on
/// the tree alone.
pub uninterp spec fn render_of(v: JsonValue) -> Seq<char>;

/// Helper of `render_json`: rebuilds serde_json's value from the tree, one
/// arm per variant; a number rendering is re-parsed.
#[verifier::external_body]
fn tree_value(v: &JsonValue) -> serde_json::Value {
    match v {
        JsonValue::Null => serde_json::Value::Null,
        JsonValue::Bool(b) => serde_json::Value::Bool(*b),
        JsonValue::Num(n) => serde_json::from_str(n).unwrap_or(serde_json::Value::Null),
        JsonValue::Str(s) => serde_json::Value::String(s.clone()),
        JsonValue::Arr(a) => serde_json::Value::Array(a.iter().map(tree_value).collect()),
        JsonValue::Obj(o) => serde_json::Value::Object(
            o.iter().map(|(k, x)| (k.clone(), tree_value(x))).collect(),
        ),
    }
}

/// Relies on serde_json::to_string: the compact one-line rendering of a
/// document.
#[verifier::external_body]
pub(crate) fn render_json(v: &JsonValue) -> (r: String)
    ensures
        r@ == render_of(*v),
{
    serde_json::to_string(&tree_value(v)).unwrap_or_default()
}

/// What similar's unified diff of two texts under a header pair looks
/// like; the diff depends on the texts and the path alone.
pub uninterp spec fn unified_diff_of(old: Seq<char>, new: Seq<char>, path: Seq<char>) -> Seq<char>;

/// Relies on similar::TextDiff::from_lines and its unified_diff rendering
/// with `a/<path>`, `b/<path>` headers.
#[verifier::external_body]
pub(crate) fn unified_diff(old_text: &str, new_text: &str, path: &str) -> (r: String)
    ensures
        r@ == unified_diff_of(old_text@, new_text@, path@),
{
    similar::TextDiff::from_lines(old_text, new_text)
        .unified_diff()
        .header(&format!("a/{path}"), &format!("b/{path}"))
        .to_string()
}

/// The ISO week an instant falls in; a pure calendar function of the
/// timestamp.
pub uninterp spec fn iso_week_of(secs: i64) -> (i32, u32);

/// Relies on chrono's Datelike::iso_week over DateTime::from_timestamp; an
/// instant chrono cannot represent maps to the zero pair.
#[verifier::external_body]
pub(crate) fn iso_week_of_unix(secs: i64) -> (r: (i32, u32))
    ensures
        r == iso_week_of(secs),
{
    match chrono::DateTime::<chrono::Utc>::from_timestamp(secs, 0) {
        Some(dt) => {
            let iso = chrono::Datelike::iso_week(&dt);
            (iso.year(), iso.week())
        },
        None => (0, 0),
    }
}

/// The Monday 00:00:00 UTC of an ISO week, as unix seconds; `None` when no
/// such week exists.
pub uninterp spec fn iso_week_monday(year: i32, week: u32) -> Option<i64>;

/// Relies on chrono::NaiveDate::from_isoywd_opt and naive date-time
/// arithmetic in UTC.
#[verifier::external_body]
pub(crate) fn iso_week_monday_unix(year: i32, week: u32) -> (r: Option<i64>)
    ensures
        r == iso_week_monday(year, week),
{
    chrono::NaiveDate::from_isoywd_opt(year, week, chrono::Weekday::Mon)
        .and_then(|d| d.and_hms_opt(0, 0, 0))
        .map(|dt| dt.and_utc().timestamp())
}

} // verus!
