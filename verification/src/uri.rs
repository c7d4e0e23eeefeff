//! The boundary to `hyper`'s URI parser.

use vstd::prelude::*;

verus! {

/// Whether `hyper::Uri`'s parser accepts `text` as a URI.
pub uninterp spec fn uri_accepts(text: Seq<char>) -> bool;

/// Runs `<hyper::Uri as FromStr>::from_str` on `text` and reports whether it
/// returned a URI. Trusted, not proved: the parser reads nothing but its
/// argument and returns on every input, so what it says of a text is a
/// function of that text. What it accepts is its own business and is not
/// restated here.
#[verifier::external_body]
pub(crate) fn parses_as_uri(text: &str) -> (accepted: bool)
    ensures
        accepted == uri_accepts(text@),
{
    text.parse::<hyper::Uri>().is_ok()
}

} // verus!
