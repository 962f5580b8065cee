//! Where a script comes from: a web address or a local path.

use vstd::prelude::*;

verus! {

/// Whether `text` parses as an absolute URL. This is whether `url::Url::parse`
/// accepts it.
pub uninterp spec fn parses_as_url(text: Seq<char>) -> bool;

/// `url::Url`, a parsed URL. Nothing of what it holds is visible here.
#[verifier::external_type_specification]
#[verifier::external_body]
pub struct ExUrl(url::Url);

/// `url::ParseError`, the reason why a text is no URL. Nothing of what it
/// holds is visible here.
#[verifier::external_type_specification]
#[verifier::external_body]
pub struct ExParseError(url::ParseError);

/// `url::Url::parse` returns `Ok` exactly for the texts that `parses_as_url`
/// holds of. Nothing is said of the URL or of the error that it returns.
pub assume_specification[ url::Url::parse ](input: &str) -> (parsed: Result<
    url::Url,
    url::ParseError,
>)
    ensures
        parsed is Ok == parses_as_url(input@),
;

/// Whether `text` names a script on the web rather than a local file.
pub fn is_url(text: &str) -> (remote: bool)
    ensures
        remote == parses_as_url(text@),
{
    match url::Url::parse(text) {
        Ok(_) => true,
        Err(_) => false,
    }
}

} // verus!
