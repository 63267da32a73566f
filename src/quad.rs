use vstd::prelude::*;
use vstd::string::*;
use crate::named_node::{named_node_text, NamedNode};
use crate::term::{term_text, Object, Subject, TermModel};

verus! {

/// What a quad is: four terms, the graph absent for the default graph.
pub ghost struct QuadModel {
    pub subject: TermModel,
    pub predicate: Seq<char>,
    pub object: TermModel,
    pub graph: Option<Seq<char>>,
}

/// The model of an optional named node.
pub open spec fn named_model(g: Option<NamedNode>) -> Option<Seq<char>> {
    match g {
        Some(n) => Some(n@),
        None => None,
    }
}

/// The canonical text of a quad: its terms separated by spaces, the graph
/// only when there is one, then ` .`.
pub open spec fn quad_text(q: QuadModel) -> Seq<char> {
    let head = term_text(q.subject) + seq![' '] + named_node_text(q.predicate) + seq![' ']
        + term_text(q.object);
    match q.graph {
        Some(g) => head + seq![' '] + named_node_text(g) + seq![' ', '.'],
        None => head + seq![' ', '.'],
    }
}

/// A statement: subject, predicate, object and, unless it belongs to the
/// default graph, the named graph it belongs to. A quad never changes once
/// built.
#[derive(Debug, Hash)]
pub struct Quad {
    subject: Subject,
    predicate: NamedNode,
    object: Object,
    graph: Option<NamedNode>,
}

impl View for Quad {
    type V = QuadModel;

    closed spec fn view(&self) -> QuadModel {
        QuadModel {
            subject: self.subject@,
            predicate: self.predicate@,
            object: self.object@,
            graph: named_model(self.graph),
        }
    }
}

impl Quad {
    /// The quad of the given terms; `None` as graph puts it in the default
    /// graph.
    pub fn new(subject: Subject, predicate: NamedNode, object: Object, graph: Option<NamedNode>) -> (r: Quad)
        ensures
            r@ == (QuadModel {
                subject: subject@,
                predicate: predicate@,
                object: object@,
                graph: named_model(graph),
            }),
    {
        Quad { subject, predicate, object, graph }
    }

    /// The subject.
    pub fn subject(&self) -> (r: &Subject)
        ensures
            r@ == self@.subject,
    {
        &self.subject
    }

    /// The predicate.
    pub fn predicate(&self) -> (r: &NamedNode)
        ensures
            r@ == self@.predicate,
    {
        &self.predicate
    }

    /// The object.
    pub fn object(&self) -> (r: &Object)
        ensures
            r@ == self@.object,
    {
        &self.object
    }

    /// The named graph, or `None` for the default graph.
    pub fn graph(&self) -> (r: &Option<NamedNode>)
        ensures
            named_model(*r) == self@.graph,
    {
        &self.graph
    }

    /// The canonical text of the quad (see `quad_text`).
    pub fn to_string(&self) -> (r: String)
        ensures
            r@ == quad_text(self@),
    {
        let mut r = self.subject.to_string();
        r.append(" ");
        r.append(self.predicate.to_string().as_str());
        r.append(" ");
        r.append(self.object.to_string().as_str());
        match &self.graph {
            Some(g) => {
                r.append(" ");
                r.append(g.to_string().as_str());
            },
            None => {},
        }
        r.append(" .");
        proof {
            reveal_strlit(" ");
            reveal_strlit(" .");
            assert(r@ =~= quad_text(self@));
        }
        r
    }
}

impl Clone for Quad {
    fn clone(&self) -> (r: Quad)
        ensures
            r == *self,
    {
        Quad {
            subject: self.subject.clone(),
            predicate: self.predicate.clone(),
            object: self.object.clone(),
            graph: match &self.graph {
                Some(g) => Some(g.clone()),
                None => None,
            },
        }
    }
}

impl PartialEq for Quad {
    fn eq(&self, other: &Quad) -> (r: bool)
        ensures
            r == (self@ == other@),
    {
        let same_graph = match (&self.graph, &other.graph) {
            (Some(a), Some(b)) => *a == *b,
            (None, None) => true,
            _ => false,
        };
        self.subject == other.subject && self.predicate == other.predicate && self.object
            == other.object && same_graph
    }
}

impl vstd::std_specs::cmp::PartialEqSpecImpl for Quad {
    open spec fn obeys_eq_spec() -> bool {
        true
    }

    open spec fn eq_spec(&self, other: &Quad) -> bool {
        self@ == other@
    }
}

impl Eq for Quad {
}

} // verus!
