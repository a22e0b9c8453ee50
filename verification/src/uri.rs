//! Request targets, parsed by the `http` crate.
use vstd::prelude::*;

verus! {

#[verifier::external_type_specification]
#[verifier::external_body]
pub struct ExInvalidUri(http::uri::InvalidUri);

/// The parts of a request target that a WSGI environment shows.
pub struct UriParts {
    pub path: String,
    pub query: Option<String>,
    pub scheme: Option<String>,
}

/// A text that may be absent.
pub open spec fn optional_text(text: Option<String>) -> Option<Seq<char>> {
    match text {
        Some(t) => Some(t@),
        None => None,
    }
}

impl View for UriParts {
    type V = (Seq<char>, Option<Seq<char>>, Option<Seq<char>>);

    open spec fn view(&self) -> Self::V {
        (self.path@, optional_text(self.query), optional_text(self.scheme))
    }
}

/// Path, query and scheme of the target that these bytes are, as `http::Uri` reads
/// them, or `None` where they are no target.
pub uninterp spec fn uri_of(target: Seq<u8>) -> Option<
    (Seq<char>, Option<Seq<char>>, Option<Seq<char>>),
>;

/// `Uri::try_from` on bytes, with `Uri::path`, `Uri::query` and `Uri::scheme_str` of
/// what it gives.
#[verifier::external_body]
pub(crate) fn parse_uri(target: &[u8]) -> (parts: Result<UriParts, http::uri::InvalidUri>)
    ensures
        parts is Ok <==> uri_of(target@) is Some,
        parts is Ok ==> uri_of(target@) == Some(parts->Ok_0@),
{
    http::Uri::try_from(target).map(
        |uri| UriParts {
            path: uri.path().to_owned(),
            query: uri.query().map(str::to_owned),
            scheme: uri.scheme_str().map(str::to_owned),
        },
    )
}

}
