use vstd::prelude::*;

verus! {

/// `url::Url`, as re-exported by `reqwest`, declared so that parsed URLs
/// can be carried through signatures; the value is opaque here.
#[verifier::external_type_specification]
#[verifier::external_body]
pub struct ExUrl(reqwest::Url);

/// Relies on `reqwest::Url::parse` (the `url` crate's parser): returns the
/// parsed URL, or `None` where the parser rejects the input.
#[verifier::external_body]
pub(crate) fn parse_url(s: &str) -> (r: Option<reqwest::Url>) {
    match reqwest::Url::parse(s) {
        Ok(u) => Some(u),
        Err(_) => None,
    }
}

} // verus!
