//! Identifier generation, link derivation and the preview filter.

use regex::Regex;
use vstd::arithmetic::div_mod::lemma_fundamental_div_mod;
use vstd::prelude::*;
use crate::auth::{base64_url, base64_url_of};
use crate::config::AppConfig;

verus! {

/// The minimal big-endian byte form of a number: no leading zero bytes,
/// so the mapping from number to bytes is one-to-one.
pub open spec fn min_be_bytes(n: nat) -> Seq<u8>
    decreases n,
{
    if n == 0 {
        Seq::empty()
    } else {
        min_be_bytes(n / 256).push((n % 256) as u8)
    }
}

/// The identifier derived from an ingest time: the minimal big-endian
/// bytes of the nanosecond count, as unpadded URL-safe base64.
pub open spec fn unique_id_spec(now_nanos: u128) -> Seq<u8> {
    base64_url_of(min_be_bytes(now_nanos as nat))
}

/// Distinct numbers have distinct minimal big-endian forms.
proof fn lemma_min_be_bytes_injective(a: nat, b: nat)
    requires
        min_be_bytes(a) == min_be_bytes(b),
    ensures
        a == b,
    decreases a,
{
    if a == 0 {
        if b != 0 {
            assert(min_be_bytes(b).len() >= 1);
            assert(false);
        }
    } else if b == 0 {
        assert(min_be_bytes(a).len() >= 1);
        assert(false);
    } else {
        let sa = min_be_bytes(a);
        let sb = min_be_bytes(b);
        assert(sa.last() == (a % 256) as u8);
        assert(sb.last() == (b % 256) as u8);
        assert(a % 256 == b % 256);
        assert(sa.drop_last() =~= min_be_bytes(a / 256));
        assert(sb.drop_last() =~= min_be_bytes(b / 256));
        lemma_min_be_bytes_injective(a / 256, b / 256);
        lemma_fundamental_div_mod(a as int, 256);
        lemma_fundamental_div_mod(b as int, 256);
    }
}

/// The minimal big-endian bytes of `n`.
fn min_bytes(n: u128) -> (r: Vec<u8>)
    ensures
        r@ == min_be_bytes(n as nat),
    decreases n,
{
    if n == 0 {
        Vec::new()
    } else {
        let mut rest = min_bytes(n / 256);
        rest.push((n % 256) as u8);
        rest
    }
}

/// Derives the identifier for an ingest at the given nanosecond
/// timestamp. The derivation is one-to-one: no other timestamp yields
/// this identifier, so identifiers are collision-free as long as the
/// caller's time source never hands out one reading twice.
pub fn unique_id(now_nanos: u128) -> (r: Vec<u8>)
    ensures
        r@ == unique_id_spec(now_nanos),
        forall|other: u128| unique_id_spec(other) == r@ ==> other == now_nanos,
{
    let stripped = min_bytes(now_nanos);
    let r = base64_url(&stripped);
    proof {
        assert forall|other: u128| unique_id_spec(other) == r@ implies other == now_nanos by {
            assert(min_be_bytes(other as nat) == stripped@);
            lemma_min_be_bytes_injective(other as nat, now_nanos as nat);
        }
    }
    r
}

/// The download link of an identifier.
pub fn get_download_link(uid: String) -> (r: String)
    ensures
        r@ == "/api/file/"@ + uid@,
{
    let mut out = "/api/file/".to_owned();
    out.push_str(uid.as_str());
    out
}

/// Relies on String::push_str: appends the given string slice onto the
/// end of this String.
pub assume_specification[ String::push_str ](s: &mut String, other: &str)
    ensures
        final(s)@ == old(s)@ + other@,
;

/// Whether the pattern is a regular expression the engine accepts.
pub uninterp spec fn regex_valid(pattern: Seq<char>) -> bool;

/// Whether the pattern matches somewhere in the text: a function of the
/// two strings alone.
pub uninterp spec fn regex_match_of(pattern: Seq<char>, text: Seq<char>) -> bool;

/// Relies on regex::Regex::new and regex::Regex::is_match: whether the
/// pattern compiles, and whether it then matches the text, depend on the
/// two strings alone. The two calls share one body because the compiled
/// value cannot be carried across this boundary.
#[verifier::external_body]
fn regex_is_match(pattern: &str, text: &str) -> (r: Option<bool>)
    ensures
        r matches Some(b) ==> regex_valid(pattern@) && b == regex_match_of(pattern@, text@),
        r is None ==> !regex_valid(pattern@),
{
    match Regex::new(pattern) {
        Ok(re) => Some(re.is_match(text)),
        Err(_) => None,
    }
}

/// Whether the content type may be rendered inline: the configured
/// preview pattern accepts it. A pattern the engine refuses previews
/// nothing — the core never panics on configuration.
pub fn should_preview(mime_type: &str, config: &AppConfig) -> (r: bool)
    ensures
        r == (regex_valid(config.allowed_preview_mime_regex@) && regex_match_of(
            config.allowed_preview_mime_regex@,
            mime_type@,
        )),
{
    match regex_is_match(config.allowed_preview_mime_regex.as_str(), mime_type) {
        Some(b) => b,
        None => false,
    }
}

} // verus!
