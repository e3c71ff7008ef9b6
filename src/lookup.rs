//! The allow-lists of tag and attribute names, as sauron's lookup tables hold them.
use vstd::prelude::*;

verus! {

/// Whether `tag` is one of the html or svg tag names that sauron knows.
pub uninterp spec fn is_known_tag(tag: Seq<char>) -> bool;

/// Whether `att` is one of the html or svg attribute names that sauron knows.
pub uninterp spec fn is_known_attribute(att: Seq<char>) -> bool;

/// The name of the function with which sauron builds the attribute `att`.
pub uninterp spec fn attribute_function_of(att: Seq<char>) -> Seq<char>;

/// Whether `tag` is one of the html tags that sauron writes without a closing tag.
pub uninterp spec fn is_void_tag(tag: Seq<char>) -> bool;

/// Relies on sauron::html::lookup::match_tag: it returns the entry of its tag
/// tables that equals `tag`, if there is one.
#[verifier::external_body]
fn lookup_tag(tag: &str) -> (r: Option<&'static str>)
    ensures
        r is Some == is_known_tag(tag@),
        r matches Some(t) ==> t@ == tag@,
{
    sauron::html::lookup::match_tag(tag)
}

/// Relies on sauron::html::lookup::match_attribute: it returns the entry of its
/// attribute table that equals `att`, if there is one.
#[verifier::external_body]
fn lookup_attribute(att: &str) -> (r: Option<&'static str>)
    ensures
        r is Some == is_known_attribute(att@),
        r matches Some(a) ==> a@ == att@,
{
    sauron::html::lookup::match_attribute(att)
}

/// Relies on sauron::html::lookup::attribute_function: it searches the same
/// attribute table as `match_attribute`, and returns the function name of the
/// entry found.
#[verifier::external_body]
fn lookup_attribute_function(att: &str) -> (r: Option<&'static str>)
    ensures
        r is Some == is_known_attribute(att@),
        r matches Some(f) ==> f@ == attribute_function_of(att@),
{
    sauron::html::lookup::attribute_function(att)
}

/// Relies on sauron::html::lookup::is_self_closing: membership in its table of
/// self-closing html tags, which its tag tables include.
#[verifier::external_body]
fn lookup_self_closing(tag: &str) -> (r: bool)
    ensures
        r == is_void_tag(tag@),
        r ==> is_known_tag(tag@),
{
    sauron::html::lookup::is_self_closing(tag)
}

/// The known tag name equal to `tag`, if `tag` is in the allow-list.
pub fn match_tag(tag: &str) -> (r: Option<String>)
    ensures
        r is Some == is_known_tag(tag@),
        r matches Some(t) ==> t@ == tag@,
{
    match lookup_tag(tag) {
        Some(t) => Some(String::from_str(t)),
        None => None,
    }
}

/// The known attribute name equal to `att`, if `att` is in the allow-list.
pub fn match_attribute(att: &str) -> (r: Option<String>)
    ensures
        r is Some == is_known_attribute(att@),
        r matches Some(a) ==> a@ == att@,
{
    match lookup_attribute(att) {
        Some(a) => Some(String::from_str(a)),
        None => None,
    }
}

/// The name of the function that builds the attribute `att`, if `att` is in the
/// allow-list.
pub fn attribute_function(att: &str) -> (r: Option<String>)
    ensures
        r is Some == is_known_attribute(att@),
        r matches Some(f) ==> f@ == attribute_function_of(att@),
{
    match lookup_attribute_function(att) {
        Some(f) => Some(String::from_str(f)),
        None => None,
    }
}

/// Whether `tag` is written without a closing tag.
pub fn is_self_closing(tag: &str) -> (r: bool)
    ensures
        r == is_void_tag(tag@),
        r ==> is_known_tag(tag@),
{
    lookup_self_closing(tag)
}

} // verus!
