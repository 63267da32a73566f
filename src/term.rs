use vstd::prelude::*;
use vstd::std_specs::cmp::PartialEqSpec;
use crate::blank_node::{blank_node_text, BlankNode};
use crate::literal::{literal_text, Literal, LiteralModel};
use crate::named_node::{named_node_text, NamedNode};

verus! {

/// What a term is, whatever position it stands in.
pub ghost enum TermModel {
    NamedNode(Seq<char>),
    BlankNode(Seq<char>),
    Literal(LiteralModel),
}

/// The canonical text of a term.
pub open spec fn term_text(t: TermModel) -> Seq<char> {
    match t {
        TermModel::NamedNode(iri) => named_node_text(iri),
        TermModel::BlankNode(name) => blank_node_text(name),
        TermModel::Literal(l) => literal_text(l),
    }
}

/// What can stand as the subject of a quad.
#[derive(Debug, Hash)]
pub enum Subject {
    NamedNode(NamedNode),
    BlankNode(BlankNode),
}

/// What can stand as the object of a quad: any term.
#[derive(Debug, Hash)]
pub enum Object {
    NamedNode(NamedNode),
    BlankNode(BlankNode),
    Literal(Literal),
}

impl View for Subject {
    type V = TermModel;

    open spec fn view(&self) -> TermModel {
        match self {
            Subject::NamedNode(n) => TermModel::NamedNode(n@),
            Subject::BlankNode(b) => TermModel::BlankNode(b@),
        }
    }
}

impl View for Object {
    type V = TermModel;

    open spec fn view(&self) -> TermModel {
        match self {
            Object::NamedNode(n) => TermModel::NamedNode(n@),
            Object::BlankNode(b) => TermModel::BlankNode(b@),
            Object::Literal(l) => TermModel::Literal(l@),
        }
    }
}

impl Subject {
    /// The canonical text of the subject.
    pub fn to_string(&self) -> (r: String)
        ensures
            r@ == term_text(self@),
    {
        match self {
            Subject::NamedNode(n) => n.to_string(),
            Subject::BlankNode(b) => b.to_string(),
        }
    }

    /// The same term, as an object.
    pub fn to_object(&self) -> (r: Object)
        ensures
            r@ == self@,
    {
        match self {
            Subject::NamedNode(n) => Object::NamedNode(n.clone()),
            Subject::BlankNode(b) => Object::BlankNode(b.clone()),
        }
    }
}

impl Object {
    /// The canonical text of the object.
    pub fn to_string(&self) -> (r: String)
        ensures
            r@ == term_text(self@),
    {
        match self {
            Object::NamedNode(n) => n.to_string(),
            Object::BlankNode(b) => b.to_string(),
            Object::Literal(l) => l.to_string(),
        }
    }
}

impl Clone for Subject {
    fn clone(&self) -> (r: Subject)
        ensures
            r == *self,
    {
        match self {
            Subject::NamedNode(n) => Subject::NamedNode(n.clone()),
            Subject::BlankNode(b) => Subject::BlankNode(b.clone()),
        }
    }
}

impl Clone for Object {
    fn clone(&self) -> (r: Object)
        ensures
            r == *self,
    {
        match self {
            Object::NamedNode(n) => Object::NamedNode(n.clone()),
            Object::BlankNode(b) => Object::BlankNode(b.clone()),
            Object::Literal(l) => Object::Literal(l.clone()),
        }
    }
}

impl PartialEq for Subject {
    fn eq(&self, other: &Subject) -> (r: bool)
        ensures
            r == (self@ == other@),
    {
        match (self, other) {
            (Subject::NamedNode(a), Subject::NamedNode(b)) => *a == *b,
            (Subject::BlankNode(a), Subject::BlankNode(b)) => *a == *b,
            _ => false,
        }
    }
}

impl vstd::std_specs::cmp::PartialEqSpecImpl for Subject {
    open spec fn obeys_eq_spec() -> bool {
        true
    }

    open spec fn eq_spec(&self, other: &Subject) -> bool {
        self@ == other@
    }
}

impl Eq for Subject {
}

impl PartialEq for Object {
    fn eq(&self, other: &Object) -> (r: bool)
        ensures
            r == (self@ == other@),
    {
        match (self, other) {
            (Object::NamedNode(a), Object::NamedNode(b)) => *a == *b,
            (Object::BlankNode(a), Object::BlankNode(b)) => *a == *b,
            (Object::Literal(a), Object::Literal(b)) => *a == *b,
            _ => false,
        }
    }
}

impl vstd::std_specs::cmp::PartialEqSpecImpl for Object {
    open spec fn obeys_eq_spec() -> bool {
        true
    }

    open spec fn eq_spec(&self, other: &Object) -> bool {
        self@ == other@
    }
}

impl Eq for Object {
}

impl From<NamedNode> for Subject {
    fn from(value: NamedNode) -> (r: Subject) {
        Subject::NamedNode(value)
    }
}

impl vstd::std_specs::convert::FromSpecImpl<NamedNode> for Subject {
    open spec fn obeys_from_spec() -> bool {
        true
    }

    open spec fn from_spec(v: NamedNode) -> Subject {
        Subject::NamedNode(v)
    }
}

impl From<BlankNode> for Subject {
    fn from(value: BlankNode) -> (r: Subject) {
        Subject::BlankNode(value)
    }
}

impl vstd::std_specs::convert::FromSpecImpl<BlankNode> for Subject {
    open spec fn obeys_from_spec() -> bool {
        true
    }

    open spec fn from_spec(v: BlankNode) -> Subject {
        Subject::BlankNode(v)
    }
}

impl From<NamedNode> for Object {
    fn from(value: NamedNode) -> (r: Object) {
        Object::NamedNode(value)
    }
}

impl vstd::std_specs::convert::FromSpecImpl<NamedNode> for Object {
    open spec fn obeys_from_spec() -> bool {
        true
    }

    open spec fn from_spec(v: NamedNode) -> Object {
        Object::NamedNode(v)
    }
}

impl From<BlankNode> for Object {
    fn from(value: BlankNode) -> (r: Object) {
        Object::BlankNode(value)
    }
}

impl vstd::std_specs::convert::FromSpecImpl<BlankNode> for Object {
    open spec fn obeys_from_spec() -> bool {
        true
    }

    open spec fn from_spec(v: BlankNode) -> Object {
        Object::BlankNode(v)
    }
}

impl From<Literal> for Object {
    fn from(value: Literal) -> (r: Object) {
        Object::Literal(value)
    }
}

impl vstd::std_specs::convert::FromSpecImpl<Literal> for Object {
    open spec fn obeys_from_spec() -> bool {
        true
    }

    open spec fn from_spec(v: Literal) -> Object {
        Object::Literal(v)
    }
}

/// Two objects are equal exactly when they are terms of the same kind that
/// agree on every attribute: the URI of named nodes, the name of blank nodes,
/// and the lexical value, datatype and language tag of literals. So a
/// language-tagged literal never equals one without a tag.
pub proof fn lemma_object_equality(a: Object, b: Object)
    ensures
        a.eq_spec(&b) <==> match (a, b) {
            (Object::NamedNode(x), Object::NamedNode(y)) => x@ == y@,
            (Object::BlankNode(x), Object::BlankNode(y)) => x@ == y@,
            (Object::Literal(x), Object::Literal(y)) => {
                &&& x@.value == y@.value
                &&& x@.datatype == y@.datatype
                &&& x@.language == y@.language
            },
            _ => false,
        },
        a matches Object::Literal(x) && b matches Object::Literal(y) && x@.language is Some
            && y@.language is None ==> !a.eq_spec(&b),
{
}

/// Two subjects are equal exactly when they are of the same kind with the same
/// URI or name.
pub proof fn lemma_subject_equality(a: Subject, b: Subject)
    ensures
        a.eq_spec(&b) <==> match (a, b) {
            (Subject::NamedNode(x), Subject::NamedNode(y)) => x@ == y@,
            (Subject::BlankNode(x), Subject::BlankNode(y)) => x@ == y@,
            _ => false,
        },
{
}

} // verus!
