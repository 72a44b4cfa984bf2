//! Configuration values that name an environment variable, written
//! `${env.NAME}`.
use vstd::prelude::*;

use crate::text::str_from_utf8;
use vstd::string::StringSliceAdditionalSpecFns;
use vstd::utf8::valid_utf8;

verus! {

/// What `regex::Regex::new(pattern)` then `is_match(text)` give: `None`
/// when the pattern does not compile, else whether the text matches.
pub uninterp spec fn regex_match(pattern: Seq<char>, text: Seq<char>) -> Option<bool>;

/// `regex::Regex::new` then `Regex::is_match`. Trusted: the result depends
/// on the pattern and the text alone and is named `regex_match`.
#[verifier::external_body]
fn regex_is_match(pattern: &str, text: &str) -> (r: Option<bool>)
    ensures
        r == regex_match(pattern@, text@),
{
    match regex::Regex::new(pattern) {
        Ok(re) => Some(re.is_match(text)),
        Err(_) => None,
    }
}

/// The pattern of a value naming an environment variable: `${env.`, one or
/// more word characters, `}`, and nothing else.
pub const ENV_VAR_PATTERN: &'static str = "^\\$\\{env\\.\\w+\\}$";

/// Whether a value names an environment variable, as the pattern
/// `^\$\{env\.\w+\}$` decides; `None` if the pattern did not compile.
pub fn is_env_var(value: &str) -> (r: Option<bool>)
    ensures
        r == regex_match(ENV_VAR_PATTERN@, value@),
{
    regex_is_match(ENV_VAR_PATTERN, value)
}

/// The name inside `${env.NAME}`: the bytes after the first six and before
/// the last one, when there are such bytes and they are UTF-8 text.
pub fn env_var_key(wrapped_key: &str) -> (r: Option<&str>)
    ensures
        r is Some <==> (wrapped_key.spec_bytes().len() >= 7 && valid_utf8(
            wrapped_key.spec_bytes().subrange(6, wrapped_key.spec_bytes().len() - 1),
        )),
        r matches Some(k) ==> k.spec_bytes() == wrapped_key.spec_bytes().subrange(
            6,
            wrapped_key.spec_bytes().len() - 1,
        ),
{
    let bytes = wrapped_key.as_bytes();
    if bytes.len() < 7 {
        return None;
    }
    let inner = vstd::slice::slice_subrange(bytes, 6, bytes.len() - 1);
    str_from_utf8(inner)
}

} // verus!
