//! Query strings.

use vstd::prelude::*;
use vstd::string::*;

verus! {

/// What `url::form_urlencoded::Serializer` writes for names and values, in order.
pub uninterp spec fn form_encoded(pairs: Seq<(Seq<char>, Seq<char>)>) -> Seq<char>;

pub open spec fn form_pairs(pairs: Seq<(&str, &str)>) -> Seq<(Seq<char>, Seq<char>)> {
    pairs.map_values(|pair: (&str, &str)| (pair.0@, pair.1@))
}

/// `url::form_urlencoded::Serializer`, given an empty string and then each pair
/// in order: the query string of names and values. It depends on the pairs
/// alone; which characters it escapes, and how, is left to the name.
#[verifier::external_body]
pub(crate) fn encode_form(pairs: &[(&str, &str)]) -> (out: String)
    ensures
        out@ == form_encoded(form_pairs(pairs@)),
{
    url::form_urlencoded::Serializer::new(String::new()).extend_pairs(pairs).finish()
}

} // verus!
