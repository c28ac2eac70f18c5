//! Tag lists and their stored text.
//!
//! A note's tags are kept in the store as one JSON text. Writing and reading
//! that text is left to serde_json; everything built on top is verified for
//! whatever serde_json returns.

use vstd::prelude::*;
use crate::models::tag_texts;

verus! {

#[verifier::external_type_specification]
#[verifier::external_body]
pub struct ExJsonError(serde_json::Error);

/// The JSON text that serde_json writes for a list of strings, or `None`
/// where it reports an error.
pub uninterp spec fn tags_json(tags: Seq<Seq<char>>) -> Option<Seq<char>>;

/// The list of strings that serde_json reads from a text, or `None` where it
/// reports an error.
pub uninterp spec fn parsed_tags(text: Seq<char>) -> Option<Seq<Seq<char>>>;

/// Calls `serde_json::to_string` on a list of strings. The contract only
/// names the outcome: it depends on the strings alone.
#[verifier::external_body]
fn write_json(tags: &Vec<String>) -> (r: Result<String, serde_json::Error>)
    ensures
        r is Ok == tags_json(tag_texts(tags@)) is Some,
        r matches Ok(s) ==> Some(s@) == tags_json(tag_texts(tags@)),
{
    serde_json::to_string(tags)
}

/// Calls `serde_json::from_str` for a list of strings. The contract only
/// names the outcome: it depends on the text alone.
#[verifier::external_body]
fn read_json(text: &str) -> (r: Result<Vec<String>, serde_json::Error>)
    ensures
        r is Ok == parsed_tags(text@) is Some,
        r matches Ok(v) ==> Some(tag_texts(v@)) == parsed_tags(text@),
{
    serde_json::from_str::<Vec<String>>(text)
}

/// A tag list can be stored: it has a JSON text, and that text reads back
/// as the same list.
pub open spec fn storable(tags: Seq<Seq<char>>) -> bool {
    tags_json(tags) matches Some(text) && parsed_tags(text) == Some(tags)
}

/// The tags that a stored text stands for in aggregations: a text that does
/// not read as a list of strings stands for no tags.
pub open spec fn tags_of(text: Seq<char>) -> Seq<Seq<char>> {
    match parsed_tags(text) {
        Some(tags) => tags,
        None => Seq::empty(),
    }
}

/// Decides whether two tag lists hold the same texts in the same order.
pub fn same_tags(a: &Vec<String>, b: &Vec<String>) -> (r: bool)
    ensures
        r == (tag_texts(a@) == tag_texts(b@)),
{
    if a.len() != b.len() {
        assert(tag_texts(a@).len() != tag_texts(b@).len());
        return false;
    }
    let mut i: usize = 0;
    while i < a.len()
        invariant
            a.len() == b.len(),
            i <= a.len(),
            forall|k: int| 0 <= k < i ==> a@[k]@ == b@[k]@,
        decreases a.len() - i,
    {
        if a[i] != b[i] {
            assert(tag_texts(a@)[i as int] != tag_texts(b@)[i as int]);
            return false;
        }
        i = i + 1;
    }
    assert(tag_texts(a@) =~= tag_texts(b@));
    true
}

/// Decides whether a tag list holds exactly the given tag.
pub fn contains_tag(tags: &Vec<String>, tag: &String) -> (r: bool)
    ensures
        r == tag_texts(tags@).contains(tag@),
{
    let mut i: usize = 0;
    while i < tags.len()
        invariant
            i <= tags.len(),
            forall|k: int| 0 <= k < i ==> tags@[k]@ != tag@,
        decreases tags.len() - i,
    {
        if tags[i] == *tag {
            assert(tag_texts(tags@)[i as int] == tag@);
            return true;
        }
        i = i + 1;
    }
    assert(forall|k: int| 0 <= k < tags.len() ==> tag_texts(tags@)[k] != tag@);
    false
}

/// Serializes a tag list for the store. `None` where the list cannot be
/// stored.
pub fn encode_tags(tags: &Vec<String>) -> (r: Option<String>)
    ensures
        r is Some == storable(tag_texts(tags@)),
        r matches Some(text) ==> tags_json(tag_texts(tags@)) == Some(text@),
{
    match write_json(tags) {
        Ok(text) => {
            match read_json(text.as_str()) {
                Ok(back) => {
                    if same_tags(&back, tags) {
                        Some(text)
                    } else {
                        None
                    }
                },
                Err(_) => None,
            }
        },
        Err(_) => None,
    }
}

/// Reads a stored text back as a tag list. `None` where the text is not a
/// JSON list of strings.
pub fn decode_tags(text: &String) -> (r: Option<Vec<String>>)
    ensures
        r is Some == parsed_tags(text@) is Some,
        r matches Some(tags) ==> parsed_tags(text@) == Some(tag_texts(tags@)),
{
    match read_json(text.as_str()) {
        Ok(tags) => Some(tags),
        Err(_) => None,
    }
}

} // verus!
