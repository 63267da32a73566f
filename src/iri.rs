//! The IRI validator this library relies on: the `url` crate parses a string
//! as an absolute URL and hands back its normalized serialization.
use vstd::prelude::*;

verus! {

#[verifier::external_type_specification]
#[verifier::external_body]
pub struct ExParseError(url::ParseError);

/// What `url::Url::parse` makes of a text: `None` when it is no absolute URL,
/// otherwise the serialization of the parsed URL (which depends on the text
/// alone).
pub uninterp spec fn url_serialization(input: Seq<char>) -> Option<Seq<char>>;

/// Relies on `url::Url::parse`, which parses an absolute URL or fails, and on
/// `String::from(Url)`, which hands back the URL's normalized serialization.
#[verifier::external_body]
pub(crate) fn parse_absolute_url(input: &str) -> (r: Result<String, url::ParseError>)
    ensures
        match r {
            Ok(s) => url_serialization(input@) == Some(s@),
            Err(_) => url_serialization(input@) is None,
        },
{
    url::Url::parse(input).map(String::from)
}

} // verus!
