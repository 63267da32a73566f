//! The XSD datatype that a Rust value type stands for.
use vstd::prelude::*;
use crate::literal::{XSD_BOOLEAN, XSD_INTEGER, XSD_STRING, XSD_TIME};
use crate::named_node::NamedNode;

verus! {

#[verifier::external_type_specification]
#[verifier::external_body]
pub struct ExTime(time::Time);

/// A value type with a fixed XSD datatype.
pub trait XsdType {
    /// The URI of the datatype.
    spec fn xsd_type_iri() -> Seq<char>;

    /// The datatype, as a named node.
    fn xsd_type() -> (r: NamedNode)
        ensures
            r@ == Self::xsd_type_iri(),
    ;
}

impl XsdType for String {
    open spec fn xsd_type_iri() -> Seq<char> {
        XSD_STRING@
    }

    fn xsd_type() -> (r: NamedNode) {
        NamedNode::new_unchecked(XSD_STRING)
    }
}

impl XsdType for &str {
    open spec fn xsd_type_iri() -> Seq<char> {
        XSD_STRING@
    }

    fn xsd_type() -> (r: NamedNode) {
        NamedNode::new_unchecked(XSD_STRING)
    }
}

impl XsdType for u32 {
    open spec fn xsd_type_iri() -> Seq<char> {
        XSD_INTEGER@
    }

    fn xsd_type() -> (r: NamedNode) {
        NamedNode::new_unchecked(XSD_INTEGER)
    }
}

impl XsdType for bool {
    open spec fn xsd_type_iri() -> Seq<char> {
        XSD_BOOLEAN@
    }

    fn xsd_type() -> (r: NamedNode) {
        NamedNode::new_unchecked(XSD_BOOLEAN)
    }
}

impl XsdType for time::Time {
    open spec fn xsd_type_iri() -> Seq<char> {
        XSD_TIME@
    }

    fn xsd_type() -> (r: NamedNode) {
        NamedNode::new_unchecked(XSD_TIME)
    }
}

} // verus!
