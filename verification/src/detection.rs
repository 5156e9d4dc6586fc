//! Link detection: whether a piece of message text is a URL.
use vstd::prelude::*;

verus! {

/// Whether `url`'s parser accepts this text as an absolute URL. The
/// parser's grammar (WHATWG) is far too large to restate; the result is a
/// function of the text alone.
pub uninterp spec fn url_parses(text: Seq<char>) -> bool;

/// True iff the text is a URL.
///
/// Relies on `url::Url::parse`: a pure parser whose acceptance depends on
/// the input text alone.
#[verifier::external_body]
pub fn is_url(text: &str) -> (r: bool)
    ensures
        r == url_parses(text@),
{
    url::Url::parse(text).is_ok()
}

} // verus!
