use vstd::prelude::*;
use vstd::string::*;
use crate::error::Error;

verus! {

/// A locally scoped, anonymous resource, identified by a name that is
/// meaningful only inside one store.
#[derive(Debug, Hash)]
pub struct BlankNode {
    value: String,
}

impl View for BlankNode {
    type V = Seq<char>;

    closed spec fn view(&self) -> Seq<char> {
        self.value@
    }
}

/// `_:name`
pub open spec fn blank_node_text(name: Seq<char>) -> Seq<char> {
    seq!['_', ':'] + name
}

impl BlankNode {
    /// Builds a blank node with the given local name; this never fails.
    pub fn new(value: &str) -> (r: Result<BlankNode, Error>)
        ensures
            r matches Ok(b) && b@ == value@,
    {
        Ok(BlankNode::from(value))
    }

    /// Builds a blank node with the given local name.
    pub fn from(value: &str) -> (r: BlankNode)
        ensures
            r@ == value@,
    {
        BlankNode { value: value.to_string() }
    }

    /// The local name.
    pub fn as_str(&self) -> (r: &str)
        ensures
            r@ == self@,
    {
        self.value.as_str()
    }

    /// The canonical text `_:name`.
    pub fn to_string(&self) -> (r: String)
        ensures
            r@ == blank_node_text(self@),
    {
        let mut r = String::from_str("_:");
        r.append(self.value.as_str());
        proof {
            reveal_strlit("_:");
            assert(r@ =~= blank_node_text(self@));
        }
        r
    }
}

impl Clone for BlankNode {
    fn clone(&self) -> (r: BlankNode)
        ensures
            r == *self,
    {
        BlankNode { value: self.value.clone() }
    }
}

impl PartialEq for BlankNode {
    fn eq(&self, other: &BlankNode) -> (r: bool)
        ensures
            r == (self@ == other@),
    {
        self.value == other.value
    }
}

impl vstd::std_specs::cmp::PartialEqSpecImpl for BlankNode {
    open spec fn obeys_eq_spec() -> bool {
        true
    }

    open spec fn eq_spec(&self, other: &BlankNode) -> bool {
        self@ == other@
    }
}

impl Eq for BlankNode {
}

} // verus!
