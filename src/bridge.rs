//! The calls this library makes into outside crates, each with the contract
//! that the crate's source gives it.
use convert_case::{Case, Casing};
use vstd::prelude::*;

verus! {

/// What `convert_case` makes of `s`: snake case, or Pascal case when `pascal`.
pub uninterp spec fn converted_case(s: Seq<char>, pascal: bool) -> Seq<char>;

/// What `urlencoding::encode` makes of `s`.
pub uninterp spec fn percent_encoded(s: Seq<char>) -> Seq<char>;

/// What `serde_json` writes for the string `s`: a quoted, escaped JSON string.
pub uninterp spec fn json_quoted(s: Seq<char>) -> Seq<char>;

/// The string found at `error.id` when `body` parses as JSON, if any.
pub uninterp spec fn envelope_id_of(body: Seq<u8>) -> Option<Seq<char>>;

/// The URL that `url` makes of `relative` against `base`, if both parse.
pub uninterp spec fn url_joined(base: Seq<char>, relative: Seq<char>) -> Option<Seq<char>>;

/// Relies on `url::Url::parse` of the base, then `Url::join` of the relative
/// reference, the result written out as a string.
#[verifier::external_body]
pub(crate) fn join_url(base: &str, relative: &str) -> (r: Option<String>)
    ensures
        match r {
            Some(u) => url_joined(base@, relative@) == Some(u@),
            None => url_joined(base@, relative@) is None,
        },
{
    let base = url::Url::parse(base).ok()?;
    base.join(relative).ok().map(String::from)
}

/// Relies on `convert_case::Casing::to_case` with `Case::Snake` or
/// `Case::Pascal`: the result depends on the characters alone.
#[verifier::external_body]
pub(crate) fn to_case(s: &str, pascal: bool) -> (r: String)
    ensures
        r@ == converted_case(s@, pascal),
{
    s.to_case(if pascal { Case::Pascal } else { Case::Snake })
}

/// Relies on `urlencoding::encode`: percent-encodes every byte of the UTF-8
/// text but ASCII alphanumerics and `-`, `_`, `.`, `~`.
#[verifier::external_body]
pub(crate) fn percent_encode(s: &str) -> (r: String)
    ensures
        r@ == percent_encoded(s@),
{
    urlencoding::encode(s).into_owned()
}

/// Relies on `serde_json::to_string` on a `&str`, which writes into memory and
/// does not fail on a string.
#[verifier::external_body]
pub(crate) fn json_string(s: &str) -> (r: String)
    ensures
        r@ == json_quoted(s@),
{
    match serde_json::to_string(s) {
        Ok(t) => t,
        Err(_) => String::new(),
    }
}

/// Relies on `serde_json::from_slice` into a `serde_json::Value`, then
/// `Value::pointer("/error/id")` and `Value::as_str`.
#[verifier::external_body]
pub(crate) fn envelope_id(body: &[u8]) -> (r: Option<String>)
    ensures
        match r {
            Some(s) => envelope_id_of(body@) == Some(s@),
            None => envelope_id_of(body@) is None,
        },
{
    let value = serde_json::from_slice::<serde_json::Value>(body).ok()?;
    value.pointer("/error/id")?.as_str().map(str::to_owned)
}

/// Relies on `http::StatusCode::from_u16`, which accepts exactly the codes
/// from 100 to 999.
#[verifier::external_body]
pub(crate) fn status_is_valid(code: u16) -> (r: bool)
    ensures
        r == (100 <= code <= 999),
{
    http::StatusCode::from_u16(code).is_ok()
}

} // verus!
