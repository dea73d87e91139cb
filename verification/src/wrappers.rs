//! Thin wrappers around the outside functions that the library calls: the
//! wall clock and RFC 3339 dates (chrono), random identifiers (uuid), random
//! choices (rand), the host's size (sysinfo), JSON lists and maps
//! (serde_json), and the case mappings of `str` in the standard library.
//! Each states only what the documentation of the wrapped function promises.
use vstd::prelude::*;
use crate::string_map::{entries_map, keys_distinct};
use crate::rows::pairs_map;

verus! {

/// Smallest timestamp, in milliseconds since the Unix epoch, that a
/// `chrono::DateTime<Utc>` can hold (1 January of the year -262143).
pub const MIN_TIMESTAMP_MS: i64 = -8334601315200000;

/// Largest timestamp, in milliseconds since the Unix epoch, that a
/// `chrono::DateTime<Utc>` can hold (31 December 262142, 23:59:59.999).
pub const MAX_TIMESTAMP_MS: i64 = 8210266876799999;

/// Whether `t` (milliseconds since the epoch) lies in chrono's range.
pub open spec fn valid_timestamp(t: int) -> bool {
    MIN_TIMESTAMP_MS <= t <= MAX_TIMESTAMP_MS
}

/// The current time, in milliseconds since the Unix epoch.
///
/// Calls `chrono::Utc::now()` and `DateTime::timestamp_millis`. The result
/// depends on the clock, so the contract says only that it lies in the range
/// of `chrono::DateTime<Utc>`, which every value of that type does.
#[verifier::external_body]
pub(crate) fn now_millis() -> (t: i64)
    ensures
        valid_timestamp(t as int),
{
    chrono::Utc::now().timestamp_millis()
}

/// What `str::to_uppercase` returns for a string: the string with every
/// character mapped to its Unicode uppercase form.
pub uninterp spec fn str_to_uppercase(s: Seq<char>) -> Seq<char>;

/// What `str::to_lowercase` returns for a string: the string with every
/// character mapped to its Unicode lowercase form.
pub uninterp spec fn str_to_lowercase(s: Seq<char>) -> Seq<char>;

/// Whether every character of `s` is one of the capital letters `A` to `Z`.
pub open spec fn ascii_capitals(s: Seq<char>) -> bool {
    forall|i: int| 0 <= i < s.len() ==> 'A' <= #[trigger] s[i] <= 'Z'
}

/// Whether every character of `s` is one of the small letters `a` to `z`.
pub open spec fn ascii_small_letters(s: Seq<char>) -> bool {
    forall|i: int| 0 <= i < s.len() ==> 'a' <= #[trigger] s[i] <= 'z'
}

/// Calls `str::to_uppercase`; the result is named by `str_to_uppercase`, a
/// function of the argument alone (the Unicode case tables). The string is
/// upper-cased character by character, and a character with no uppercase
/// mapping is kept as it is (`char::to_uppercase`); the capital letters `A`
/// to `Z` have none, so a string of them comes back unchanged.
#[verifier::external_body]
pub(crate) fn to_uppercase(s: &str) -> (r: String)
    ensures
        r@ == str_to_uppercase(s@),
        ascii_capitals(s@) ==> r@ == s@,
{
    s.to_uppercase()
}

/// Calls `str::to_lowercase`; the result is named by `str_to_lowercase`, a
/// function of the argument alone (the Unicode case tables). The string is
/// lower-cased character by character, and a character with no lowercase
/// mapping is kept as it is (`char::to_lowercase`); the small letters `a`
/// to `z` have none, so a string of them comes back unchanged.
#[verifier::external_body]
pub(crate) fn to_lowercase(s: &str) -> (r: String)
    ensures
        r@ == str_to_lowercase(s@),
        ascii_small_letters(s@) ==> r@ == s@,
{
    s.to_lowercase()
}

/// Whether `c` is a digit of lowercase hexadecimal notation.
pub open spec fn is_lower_hex(c: char) -> bool {
    ('0' <= c && c <= '9') || ('a' <= c && c <= 'f')
}

/// A fresh random identifier: `uuid::Uuid::new_v4()` written in its
/// `simple` form. The value is random, so the contract says only what holds
/// of every outcome, as the uuid documentation gives it: 32 lowercase
/// hexadecimal digits.
#[verifier::external_body]
pub(crate) fn new_uuid_simple() -> (r: String)
    ensures
        r@.len() == 32,
        forall|i: int| 0 <= i < 32 ==> is_lower_hex(#[trigger] r@[i]),
{
    uuid::Uuid::new_v4().simple().to_string()
}

/// The host's CPU count and total memory in bytes, as sysinfo reports them:
/// `System::new_all()`, `refresh_all()`, then the length of `cpus()` and
/// `total_memory()`. Both depend on the machine, so nothing is promised of
/// them.
#[verifier::external_body]
pub(crate) fn host_resources() -> (usize, u64) {
    let mut sys = sysinfo::System::new_all();
    sys.refresh_all();
    (sys.cpus().len(), sys.total_memory())
}

/// A random number below `n`: `rand::rng().random_range(0..n)`. The range
/// must not be empty (the call panics on an empty range), and the result
/// lies in it; which number comes out is up to chance.
#[verifier::external_body]
pub(crate) fn random_below(n: usize) -> (r: usize)
    requires
        n > 0,
    ensures
        r < n,
{
    rand::Rng::random_range(&mut rand::rng(), 0..n)
}

/// What `chrono::DateTime::parse_from_rfc3339` makes of a text, as
/// milliseconds since the epoch (`timestamp_millis`), or nothing when the
/// text is not an RFC 3339 date and time.
pub uninterp spec fn rfc3339_millis(s: Seq<char>) -> Option<i64>;

/// Reads an RFC 3339 date and time (see `rfc3339_millis`).
#[verifier::external_body]
pub(crate) fn parse_rfc3339_millis(s: &str) -> (r: Option<i64>)
    ensures
        r == rfc3339_millis(s@),
{
    match chrono::DateTime::parse_from_rfc3339(s) {
        Ok(t) => Some(t.timestamp_millis()),
        Err(_) => None,
    }
}

/// The earliest time, in milliseconds since the epoch, whose year RFC 3339
/// writes in four digits (1 January of the year 0).
pub const MIN_FOUR_DIGIT_YEAR_MS: i64 = -62167219200000;

/// The latest time, in milliseconds since the epoch, whose year RFC 3339
/// writes in four digits (31 December 9999, 23:59:59.999).
pub const MAX_FOUR_DIGIT_YEAR_MS: i64 = 253402300799999;

/// What `DateTime::<Utc>::to_rfc3339` writes for the time `ms` (milliseconds
/// since the epoch).
pub uninterp spec fn rfc3339_text(ms: i64) -> Seq<char>;

/// Writes the time `ms` as RFC 3339 text: `DateTime::from_timestamp_millis`,
/// then `to_rfc3339`, which writes the offset `+00:00` and as many digits of
/// the second's fraction as it needs. For a year written in four digits,
/// `parse_from_rfc3339` reads the text back as the same millisecond; other
/// years are written with a sign and more digits, which that parser refuses.
#[verifier::external_body]
pub(crate) fn format_rfc3339(ms: i64) -> (r: String)
    requires
        valid_timestamp(ms as int),
    ensures
        r@ == rfc3339_text(ms),
        MIN_FOUR_DIGIT_YEAR_MS <= ms <= MAX_FOUR_DIGIT_YEAR_MS ==> rfc3339_millis(r@) == Some(ms),
{
    match chrono::DateTime::from_timestamp_millis(ms) {
        Some(t) => t.to_rfc3339(),
        None => String::new(),
    }
}

/// What `serde_json::to_string` writes for a list of strings.
pub uninterp spec fn json_list_text(v: Seq<Seq<char>>) -> Seq<char>;

/// Writes a list of strings as a JSON array (`serde_json::to_string`, which
/// cannot fail on strings); `serde_json::from_str` reads the same list back.
#[verifier::external_body]
pub(crate) fn format_json_list(v: &Vec<String>) -> (r: String)
    ensures
        r@ == json_list_text(v.deep_view()),
        json_string_list(r@) == Some(v.deep_view()),
{
    serde_json::to_string(v).unwrap_or_default()
}

/// What `serde_json::to_string` writes for the `BTreeMap` holding a map of
/// strings: a JSON object with its keys in order.
pub uninterp spec fn json_map_text(m: Map<Seq<char>, Seq<char>>) -> Seq<char>;

/// Writes entries with distinct keys as a JSON object: they are collected
/// into a `BTreeMap`, which `serde_json::to_string` writes (it cannot fail
/// on strings); reading it back gives entries that make the same map.
#[verifier::external_body]
pub(crate) fn format_json_map(entries: &Vec<(String, String)>) -> (r: String)
    requires
        keys_distinct(entries@),
    ensures
        r@ == json_map_text(entries_map(entries@)),
        json_string_map(r@) is Some,
        pairs_map(json_string_map(r@)->0) == entries_map(entries@),
{
    let m: std::collections::BTreeMap<&String, &String> = entries.iter().map(|e| (&e.0, &e.1)).collect();
    serde_json::to_string(&m).unwrap_or_default()
}

/// What `serde_json::from_str::<Vec<String>>` makes of a text: the list of
/// strings it holds, or nothing when it is not a JSON array of strings.
pub uninterp spec fn json_string_list(s: Seq<char>) -> Option<Seq<Seq<char>>>;

/// Reads a JSON array of strings (see `json_string_list`).
#[verifier::external_body]
pub(crate) fn parse_json_string_list(s: &str) -> (r: Option<Vec<String>>)
    ensures
        r.deep_view() == json_string_list(s@),
{
    match serde_json::from_str::<Vec<String>>(s) {
        Ok(v) => Some(v),
        Err(_) => None,
    }
}

/// What `serde_json::from_str::<BTreeMap<String, String>>` makes of a
/// text: its entries in key order, or nothing when it is not a JSON object
/// whose values are strings.
pub uninterp spec fn json_string_map(s: Seq<char>) -> Option<Seq<(Seq<char>, Seq<char>)>>;

/// Reads a JSON object of strings (see `json_string_map`).
#[verifier::external_body]
pub(crate) fn parse_json_string_map(s: &str) -> (r: Option<Vec<(String, String)>>)
    ensures
        match r {
            Some(v) => json_string_map(s@) == Some(v@.map_values(|e: (String, String)| (e.0@, e.1@))),
            None => json_string_map(s@) is None,
        },
{
    match serde_json::from_str::<std::collections::BTreeMap<String, String>>(s) {
        Ok(m) => Some(m.into_iter().collect()),
        Err(_) => None,
    }
}

} // verus!
