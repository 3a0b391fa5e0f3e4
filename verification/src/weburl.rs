//! URL parsing, resolution and origins, done by the `url` crate.
use vstd::prelude::*;

verus! {

/// The outcome of resolving a reference against a base URL.
#[derive(Debug)]
pub enum UrlJoin {
    /// The absolute URL, serialized.
    Joined(String),
    /// The base is not an absolute URL; the parse error's message.
    BadBase(String),
    /// The reference cannot be resolved; the parse error's message.
    BadReference(String),
}

/// The abstract form of a [`UrlJoin`].
pub enum UrlJoinV {
    Joined(Seq<char>),
    BadBase(Seq<char>),
    BadReference(Seq<char>),
}

impl View for UrlJoin {
    type V = UrlJoinV;

    open spec fn view(&self) -> UrlJoinV {
        match self {
            UrlJoin::Joined(s) => UrlJoinV::Joined(s@),
            UrlJoin::BadBase(m) => UrlJoinV::BadBase(m@),
            UrlJoin::BadReference(m) => UrlJoinV::BadReference(m@),
        }
    }
}

/// What `url::Url::parse` gives for `input`: the serialization, or the error's message.
pub uninterp spec fn url_parsed(input: Seq<char>) -> Result<Seq<char>, Seq<char>>;

/// What resolving `reference` against the URL parsed from `base` gives.
pub uninterp spec fn url_joined(base: Seq<char>, reference: Seq<char>) -> UrlJoinV;

/// The ASCII serialization of the origin of the URL parsed from `input`, if it parses.
pub uninterp spec fn url_origin(input: Seq<char>) -> Option<Seq<char>>;

/// `url::Url::parse(input)`, the URL given back as its serialization (`to_string`) and the
/// error as its message. The contract only ties the outcome to the name [`url_parsed`].
#[verifier::external_body]
pub(crate) fn parse_url(input: &str) -> (r: Result<String, String>)
    ensures
        match r {
            Ok(s) => url_parsed(input@) == Ok::<Seq<char>, Seq<char>>(s@),
            Err(m) => url_parsed(input@) == Err::<Seq<char>, Seq<char>>(m@),
        },
{
    match url::Url::parse(input) {
        Ok(u) => Ok(u.to_string()),
        Err(e) => Err(e.to_string()),
    }
}

/// `url::Url::parse(base)` followed by `Url::join(reference)`, each failure kept apart and
/// given as its message. The contract ties the outcome to the name [`url_joined`], and
/// says that the base fails exactly when `Url::parse` fails on it, with the same message.
#[verifier::external_body]
pub(crate) fn join_url(base: &str, reference: &str) -> (r: UrlJoin)
    ensures
        r@ == url_joined(base@, reference@),
        url_parsed(base@) matches Err(m) ==> r@ == UrlJoinV::BadBase(m),
        url_parsed(base@) is Ok ==> !(r@ is BadBase),
{
    match url::Url::parse(base) {
        Err(e) => UrlJoin::BadBase(e.to_string()),
        Ok(b) => match b.join(reference) {
            Ok(u) => UrlJoin::Joined(u.to_string()),
            Err(e) => UrlJoin::BadReference(e.to_string()),
        },
    }
}

/// `url::Url::parse(input)` and, when it parses, `origin().ascii_serialization()`. The
/// contract ties the outcome to the name [`url_origin`]; there is an origin exactly when
/// `Url::parse` succeeds.
#[verifier::external_body]
pub(crate) fn origin_of(input: &str) -> (r: Option<String>)
    ensures
        r is None <==> url_parsed(input@) is Err,
        match r {
            Some(s) => url_origin(input@) == Some(s@),
            None => url_origin(input@) is None,
        },
{
    match url::Url::parse(input) {
        Ok(u) => Some(u.origin().ascii_serialization()),
        Err(_) => None,
    }
}

} // verus!
