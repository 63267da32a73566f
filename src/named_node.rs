use vstd::prelude::*;
use vstd::string::*;
use crate::error::Error;
use crate::iri::{parse_absolute_url, url_serialization};

verus! {

/// A resource named by an absolute URI, kept in the normalized form that the
/// IRI validator hands back.
#[derive(Debug, Hash)]
pub struct NamedNode {
    value: String,
}

impl View for NamedNode {
    type V = Seq<char>;

    closed spec fn view(&self) -> Seq<char> {
        self.value@
    }
}

/// `<uri>`
pub open spec fn named_node_text(iri: Seq<char>) -> Seq<char> {
    seq!['<'] + iri + seq!['>']
}

impl NamedNode {
    /// Validates `value` as an absolute URI and keeps its normalized form;
    /// fails with `InvalidURIError(value)` when it is none.
    pub fn new(value: &str) -> (r: Result<NamedNode, Error>)
        ensures
            match url_serialization(value@) {
                Some(iri) => r matches Ok(n) && n@ == iri,
                None => r matches Err(e) && e.rejected_text() == value@,
            },
    {
        let normalized = match parse_absolute_url(value) {
            Ok(iri) => Some(iri),
            Err(_) => None,
        };
        NamedNode::from_validation(value, normalized)
    }

    /// Builds the node from what the IRI validator made of `value`: its
    /// normalized form, or `None` when it rejected the text.
    pub fn from_validation(value: &str, normalized: Option<String>) -> (r: Result<NamedNode, Error>)
        ensures
            match normalized {
                Some(iri) => r matches Ok(n) && n@ == iri@,
                None => r matches Err(e) && e.rejected_text() == value@,
            },
    {
        match normalized {
            Some(iri) => Ok(NamedNode { value: iri }),
            None => Err(Error::InvalidURIError(value.to_string())),
        }
    }

    /// The same as `new`.
    pub fn try_from(value: &str) -> (r: Result<NamedNode, Error>)
        ensures
            match url_serialization(value@) {
                Some(iri) => r matches Ok(n) && n@ == iri,
                None => r matches Err(e) && e.rejected_text() == value@,
            },
    {
        NamedNode::new(value)
    }

    /// Wraps a text that the caller knows to be a normalized absolute URI
    /// already (for instance one taken from another `NamedNode`); no check is
    /// made.
    pub fn new_unchecked(value: &str) -> (r: NamedNode)
        ensures
            r@ == value@,
    {
        NamedNode { value: value.to_string() }
    }

    /// The normalized URI.
    pub fn as_str(&self) -> (r: &str)
        ensures
            r@ == self@,
    {
        self.value.as_str()
    }

    /// The canonical text `<uri>`.
    pub fn to_string(&self) -> (r: String)
        ensures
            r@ == named_node_text(self@),
    {
        let mut r = String::from_str("<");
        r.append(self.value.as_str());
        r.append(">");
        proof {
            reveal_strlit("<");
            reveal_strlit(">");
            assert(r@ =~= named_node_text(self@));
        }
        r
    }
}

impl Clone for NamedNode {
    fn clone(&self) -> (r: NamedNode)
        ensures
            r == *self,
    {
        NamedNode { value: self.value.clone() }
    }
}

impl PartialEq for NamedNode {
    fn eq(&self, other: &NamedNode) -> (r: bool)
        ensures
            r == (self@ == other@),
    {
        self.value == other.value
    }
}

impl vstd::std_specs::cmp::PartialEqSpecImpl for NamedNode {
    open spec fn obeys_eq_spec() -> bool {
        true
    }

    open spec fn eq_spec(&self, other: &NamedNode) -> bool {
        self@ == other@
    }
}

impl Eq for NamedNode {
}

} // verus!
