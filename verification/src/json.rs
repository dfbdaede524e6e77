//! Tags as the JSON text in which they are stored.

use vstd::prelude::*;

verus! {

/// The JSON text of a list of tags; `None` where the serializer fails.
pub uninterp spec fn json_of_tags(tags: Seq<Seq<char>>) -> Option<Seq<char>>;

/// The list of tags that a JSON text holds; `None` for a text that is no
/// JSON array of strings.
pub uninterp spec fn tags_of_json(text: Seq<char>) -> Option<Seq<Seq<char>>>;

/// `serde_json::to_string` on a list of strings. It is believed that the
/// outcome depends on the strings alone.
#[verifier::external_body]
pub(crate) fn tags_to_json(tags: &Vec<String>) -> (text: Option<String>)
    ensures
        match text {
            Some(text) => json_of_tags(tags.deep_view()) == Some(text@),
            None => json_of_tags(tags.deep_view()) is None,
        },
{
    match serde_json::to_string(tags) {
        Ok(text) => Some(text),
        Err(_) => None,
    }
}

/// `serde_json::from_str` for a list of strings. It is believed that the
/// outcome depends on the text alone.
#[verifier::external_body]
pub(crate) fn tags_from_json(text: &str) -> (tags: Option<Vec<String>>)
    ensures
        match tags {
            Some(tags) => tags_of_json(text@) == Some(tags.deep_view()),
            None => tags_of_json(text@) is None,
        },
{
    match serde_json::from_str::<Vec<String>>(text) {
        Ok(tags) => Some(tags),
        Err(_) => None,
    }
}

} // verus!
