use vstd::prelude::*;
use crate::index::{
    lemma_models_swap_remove, lemma_reflects_without_term, models, position_of, term_at, Position,
    TermIndex,
};
use crate::named_node::NamedNode;
use crate::quad::{named_model, Quad, QuadModel};
use crate::term::{Object, Subject, TermModel};

verus! {

/// The model of an optional subject constraint.
pub open spec fn subject_model(s: Option<Subject>) -> Option<TermModel> {
    match s {
        Some(t) => Some(t@),
        None => None,
    }
}

/// The model of an optional object constraint.
pub open spec fn object_model(o: Option<Object>) -> Option<TermModel> {
    match o {
        Some(t) => Some(t@),
        None => None,
    }
}

/// `q` meets every constraint that is given: an absent constraint imposes
/// nothing, and a graph constraint is met only by a quad of that named graph.
pub open spec fn quad_matches(
    q: QuadModel,
    subject: Option<TermModel>,
    predicate: Option<Seq<char>>,
    object: Option<TermModel>,
    graph: Option<Seq<char>>,
) -> bool {
    &&& subject matches Some(s) ==> q.subject == s
    &&& predicate matches Some(p) ==> q.predicate == p
    &&& object matches Some(o) ==> q.object == o
    &&& graph matches Some(g) ==> q.graph == Some(g)
}

/// The quads of `set` that meet every given constraint.
pub open spec fn matching(
    set: Set<QuadModel>,
    subject: Option<TermModel>,
    predicate: Option<Seq<char>>,
    object: Option<TermModel>,
    graph: Option<Seq<char>>,
) -> Set<QuadModel> {
    set.filter(|q: QuadModel| quad_matches(q, subject, predicate, object, graph))
}

/// The models of a sequence of borrowed quads.
pub open spec fn borrowed_models(v: Seq<&Quad>) -> Seq<QuadModel> {
    v.map_values(|q: &Quad| q@)
}

/// A set of quads without duplicates, indexed by the term at each of the four
/// positions (the graph index holds only quads of a named graph).
///
/// `insert` and `delete` take `&mut self` and bring the set and all four
/// indexes up to date before they return, so no reader ever sees them apart.
#[derive(Debug)]
pub struct Dataset {
    quads: Vec<Quad>,
    subject_index: TermIndex,
    predicate_index: TermIndex,
    object_index: TermIndex,
    graph_index: TermIndex,
}

impl View for Dataset {
    type V = Set<QuadModel>;

    closed spec fn view(&self) -> Set<QuadModel> {
        models(self.quads@).to_set()
    }
}

/// Whether `q` meets every given constraint.
fn matches_pattern(
    q: &Quad,
    subject: &Option<Subject>,
    predicate: &Option<NamedNode>,
    object: &Option<Object>,
    graph: &Option<NamedNode>,
) -> (r: bool)
    ensures
        r == quad_matches(
            q@,
            subject_model(*subject),
            named_model(*predicate),
            object_model(*object),
            named_model(*graph),
        ),
{
    let subject_ok = match subject {
        Some(s) => *q.subject() == *s,
        None => true,
    };
    let predicate_ok = match predicate {
        Some(p) => *q.predicate() == *p,
        None => true,
    };
    let object_ok = match object {
        Some(o) => *q.object() == *o,
        None => true,
    };
    let graph_ok = match graph {
        Some(g) => match q.graph() {
            Some(qg) => *qg == *g,
            None => false,
        },
        None => true,
    };
    subject_ok && predicate_ok && object_ok && graph_ok
}

/// `c` holds quads of `set`, each once, among them every quad of `set` that
/// meets the constraints.
spec fn covers(
    c: Seq<Quad>,
    set: Set<QuadModel>,
    s: Option<TermModel>,
    p: Option<Seq<char>>,
    o: Option<TermModel>,
    g: Option<Seq<char>>,
) -> bool {
    &&& models(c).no_duplicates()
    &&& forall|m: QuadModel| #[trigger] models(c).contains(m) ==> set.contains(m)
    &&& forall|m: QuadModel|
        set.contains(m) && quad_matches(m, s, p, o, g) ==> #[trigger] models(c).contains(m)
}

/// Narrows the candidates to the bucket of `key` at `pos` when it is
/// smaller; `None` when no quad of `set` has `key` there.
fn narrow<'a>(
    index: &'a TermIndex,
    key: &Object,
    narrowest: Option<&'a Vec<Quad>>,
    Ghost(set): Ghost<Set<QuadModel>>,
    Ghost(pos): Ghost<Position>,
    Ghost(s): Ghost<Option<TermModel>>,
    Ghost(p): Ghost<Option<Seq<char>>>,
    Ghost(o): Ghost<Option<TermModel>>,
    Ghost(g): Ghost<Option<Seq<char>>>,
) -> (r: Option<Option<&'a Vec<Quad>>>)
    requires
        index.reflects(set, pos),
        narrowest matches Some(c) ==> covers(c@, set, s, p, o, g),
        forall|m: QuadModel| quad_matches(m, s, p, o, g) ==> term_at(m, pos) == Some(key@),
    ensures
        match r {
            Some(n) => n matches Some(c) && covers(c@, set, s, p, o, g),
            None => matching(set, s, p, o, g) == Set::<QuadModel>::empty(),
        },
{
    match index.lookup(key, Ghost(set), Ghost(pos)) {
        Some(bucket) => {
            proof {
                assert(covers(bucket@, set, s, p, o, g));
            }
            match narrowest {
                Some(c) => {
                    if bucket.len() < c.len() {
                        Some(Some(bucket))
                    } else {
                        Some(Some(c))
                    }
                },
                None => Some(Some(bucket)),
            }
        },
        None => {
            proof {
                assert(matching(set, s, p, o, g) =~= Set::<QuadModel>::empty());
            }
            None
        },
    }
}

/// The answer when no quad meets the constraints.
fn empty_result<'a>(
    Ghost(set): Ghost<Set<QuadModel>>,
    Ghost(s): Ghost<Option<TermModel>>,
    Ghost(p): Ghost<Option<Seq<char>>>,
    Ghost(o): Ghost<Option<TermModel>>,
    Ghost(g): Ghost<Option<Seq<char>>>,
) -> (r: Vec<&'a Quad>)
    requires
        matching(set, s, p, o, g) == Set::<QuadModel>::empty(),
    ensures
        borrowed_models(r@).no_duplicates(),
        borrowed_models(r@).to_set() == matching(set, s, p, o, g),
        r@.len() == 0,
{
    let r: Vec<&Quad> = Vec::new();
    proof {
        assert(borrowed_models(r@).to_set() =~= Set::<QuadModel>::empty());
    }
    r
}

impl Dataset {
    /// Every quad is held once, and each index reflects exactly the quads
    /// held.
    pub closed spec fn wf(&self) -> bool {
        &&& models(self.quads@).no_duplicates()
        &&& self.subject_index.reflects(self@, Position::Subject)
        &&& self.predicate_index.reflects(self@, Position::Predicate)
        &&& self.object_index.reflects(self@, Position::Object)
        &&& self.graph_index.reflects(self@, Position::Graph)
    }

    /// An empty store.
    pub fn new() -> (r: Dataset)
        ensures
            r.wf(),
            r@ == Set::<QuadModel>::empty(),
    {
        let r = Dataset {
            quads: Vec::new(),
            subject_index: TermIndex::new(),
            predicate_index: TermIndex::new(),
            object_index: TermIndex::new(),
            graph_index: TermIndex::new(),
        };
        proof {
            assert(r@ =~= Set::<QuadModel>::empty());
        }
        r
    }

    /// The number of quads held.
    pub fn len(&self) -> (r: usize)
        requires
            self.wf(),
        ensures
            r == self@.len(),
    {
        proof {
            models(self.quads@).unique_seq_to_set();
        }
        self.quads.len()
    }

    /// Whether no quad is held.
    pub fn is_empty(&self) -> (r: bool)
        requires
            self.wf(),
        ensures
            r == (self@.len() == 0),
    {
        self.len() == 0
    }

    /// Whether a quad equal to `q` is held.
    pub fn has(&self, q: &Quad) -> (r: bool)
        requires
            self.wf(),
        ensures
            r == self@.contains(q@),
    {
        let key = q.subject().to_object();
        match self.subject_index.lookup(&key, Ghost(self@), Ghost(Position::Subject)) {
            Some(bucket) => {
                let found = position_of(bucket, q);
                proof {
                    if let Some(k) = found {
                        assert(models(bucket@)[k as int] == q@);
                        assert(models(bucket@).contains(q@));
                    }
                }
                found.is_some()
            },
            None => false,
        }
    }

    /// Adds `q` unless an equal quad is held; tells whether it was added.
    pub fn insert(&mut self, q: Quad) -> (r: bool)
        requires
            old(self).wf(),
        ensures
            final(self).wf(),
            final(self)@ == old(self)@.insert(q@),
            r == !old(self)@.contains(q@),
    {
        if self.has(&q) {
            return false;
        }
        let ghost set = self@;
        let ghost old_quads = self.quads@;
        self.subject_index.insert(q.subject().to_object(), &q, Ghost(set), Ghost(Position::Subject));
        self.predicate_index.insert(
            Object::NamedNode(q.predicate().clone()),
            &q,
            Ghost(set),
            Ghost(Position::Predicate),
        );
        self.object_index.insert(q.object().clone(), &q, Ghost(set), Ghost(Position::Object));
        match q.graph() {
            Some(g) => {
                self.graph_index.insert(
                    Object::NamedNode(g.clone()),
                    &q,
                    Ghost(set),
                    Ghost(Position::Graph),
                );
            },
            None => {
                proof {
                    lemma_reflects_without_term(&self.graph_index, set, q@, Position::Graph);
                }
            },
        }
        self.quads.push(q);
        proof {
            assert(models(self.quads@) =~= models(old_quads).push(q@));
            models(old_quads).lemma_push_to_set_commute(q@);
            assert forall|a: int, b: int|
                0 <= a < models(self.quads@).len() && 0 <= b < models(self.quads@).len() && a
                    != b implies models(self.quads@)[a] != models(self.quads@)[b] by {
                let n = old_quads.len() as int;
                if a == n {
                    assert(models(old_quads).contains(models(self.quads@)[b]));
                } else if b == n {
                    assert(models(old_quads).contains(models(self.quads@)[a]));
                }
            }
        }
        true
    }

    /// Removes the quad equal to `q`, if one is held; tells whether one was.
    pub fn delete(&mut self, q: &Quad) -> (r: bool)
        requires
            old(self).wf(),
        ensures
            final(self).wf(),
            final(self)@ == old(self)@.remove(q@),
            r == old(self)@.contains(q@),
    {
        if !self.has(q) {
            proof {
                assert(self@.remove(q@) =~= self@);
            }
            return false;
        }
        let ghost set = self@;
        let ghost old_quads = self.quads@;
        self.subject_index.remove(&q.subject().to_object(), q, Ghost(set), Ghost(Position::Subject));
        self.predicate_index.remove(
            &Object::NamedNode(q.predicate().clone()),
            q,
            Ghost(set),
            Ghost(Position::Predicate),
        );
        self.object_index.remove(q.object(), q, Ghost(set), Ghost(Position::Object));
        match q.graph() {
            Some(g) => {
                self.graph_index.remove(
                    &Object::NamedNode(g.clone()),
                    q,
                    Ghost(set),
                    Ghost(Position::Graph),
                );
            },
            None => {
                proof {
                    lemma_reflects_without_term(&self.graph_index, set, q@, Position::Graph);
                }
            },
        }
        let k = position_of(&self.quads, q).unwrap();
        let _ = self.quads.swap_remove(k);
        proof {
            lemma_models_swap_remove(old_quads, k as int);
            assert(self@ =~= set.remove(q@));
        }
        true
    }

    /// The quads that meet every given constraint, each once: a position
    /// given as `None` is unconstrained (for the graph, quads of the default
    /// graph included), one given as `Some(t)` is met only by quads with `t`
    /// there. With no constraint at all, every quad is returned.
    ///
    /// The quads are drawn from the smallest index bucket among the
    /// constrained positions, and the result is empty at once when some
    /// constrained term occurs nowhere at its position.
    pub fn match_term(
        &self,
        subject: Option<Subject>,
        predicate: Option<NamedNode>,
        object: Option<Object>,
        graph: Option<NamedNode>,
    ) -> (r: Vec<&Quad>)
        requires
            self.wf(),
        ensures
            borrowed_models(r@).no_duplicates(),
            borrowed_models(r@).to_set() == matching(
                self@,
                subject_model(subject),
                named_model(predicate),
                object_model(object),
                named_model(graph),
            ),
            subject is None && predicate is None && object is None && graph is None ==> r@.len()
                == self@.len(),
    {
        let ghost s = subject_model(subject);
        let ghost p = named_model(predicate);
        let ghost o = object_model(object);
        let ghost g = named_model(graph);
        let ghost set = self@;
        let mut narrowest: Option<&Vec<Quad>> = None;
        if let Some(t) = &subject {
            match narrow(&self.subject_index, &t.to_object(), narrowest, Ghost(set), Ghost(Position::Subject), Ghost(s), Ghost(p), Ghost(o), Ghost(g)) {
                Some(n) => {
                    narrowest = n;
                },
                None => {
                    return empty_result(Ghost(set), Ghost(s), Ghost(p), Ghost(o), Ghost(g));
                },
            }
        }
        if let Some(t) = &predicate {
            match narrow(&self.predicate_index, &Object::NamedNode(t.clone()), narrowest, Ghost(set), Ghost(Position::Predicate), Ghost(s), Ghost(p), Ghost(o), Ghost(g)) {
                Some(n) => {
                    narrowest = n;
                },
                None => {
                    return empty_result(Ghost(set), Ghost(s), Ghost(p), Ghost(o), Ghost(g));
                },
            }
        }
        if let Some(t) = &object {
            match narrow(&self.object_index, t, narrowest, Ghost(set), Ghost(Position::Object), Ghost(s), Ghost(p), Ghost(o), Ghost(g)) {
                Some(n) => {
                    narrowest = n;
                },
                None => {
                    return empty_result(Ghost(set), Ghost(s), Ghost(p), Ghost(o), Ghost(g));
                },
            }
        }
        if let Some(t) = &graph {
            match narrow(&self.graph_index, &Object::NamedNode(t.clone()), narrowest, Ghost(set), Ghost(Position::Graph), Ghost(s), Ghost(p), Ghost(o), Ghost(g)) {
                Some(n) => {
                    narrowest = n;
                },
                None => {
                    return empty_result(Ghost(set), Ghost(s), Ghost(p), Ghost(o), Ghost(g));
                },
            }
        }
        let source: &Vec<Quad> = match narrowest {
            Some(c) => c,
            None => &self.quads,
        };
        proof {
            if narrowest is None {
                assert forall|m: QuadModel| #[trigger] models(source@).contains(m) <==> set.contains(m) by {}
            }
            assert(covers(source@, set, s, p, o, g));
        }
        let mut r: Vec<&Quad> = Vec::new();
        let mut k: usize = 0;
        while k < source.len()
            invariant
                k <= source@.len(),
                s == subject_model(subject),
                p == named_model(predicate),
                o == object_model(object),
                g == named_model(graph),
                covers(source@, set, s, p, o, g),
                borrowed_models(r@).no_duplicates(),
                forall|m: QuadModel|
                    #[trigger] borrowed_models(r@).contains(m) <==> (models(source@).subrange(
                        0,
                        k as int,
                    ).contains(m) && quad_matches(m, s, p, o, g)),
            decreases source@.len() - k,
        {
            let q = &source[k];
            let ghost before = r@;
            let ghost prefix = models(source@).subrange(0, k as int);
            proof {
                assert(models(source@).subrange(0, k + 1) =~= prefix.push(q@));
            }
            let keep = matches_pattern(q, &subject, &predicate, &object, &graph);
            if keep {
                r.push(q);
                proof {
                    assert(borrowed_models(r@) =~= borrowed_models(before).push(q@));
                    assert(!borrowed_models(before).contains(q@)) by {
                        if borrowed_models(before).contains(q@) {
                            let j = choose|j: int| 0 <= j < k && prefix[j] == q@;
                            assert(models(source@)[j] == models(source@)[k as int]);
                        }
                    }
                    assert forall|a: int, b: int|
                        0 <= a < borrowed_models(r@).len() && 0 <= b < borrowed_models(r@).len()
                            && a != b implies borrowed_models(r@)[a] != borrowed_models(r@)[b] by {
                        let n = before.len() as int;
                        if a == n {
                            assert(borrowed_models(before).contains(borrowed_models(r@)[b]));
                        } else if b == n {
                            assert(borrowed_models(before).contains(borrowed_models(r@)[a]));
                        }
                    }
                }
            }
            proof {
                broadcast use vstd::seq_lib::lemma_seq_contains_after_push;

                assert forall|m: QuadModel|
                    #[trigger] borrowed_models(r@).contains(m) <==> (models(source@).subrange(
                        0,
                        k + 1,
                    ).contains(m) && quad_matches(m, s, p, o, g)) by {
                    assert(models(source@).subrange(0, k + 1) == prefix.push(q@));
                    assert(borrowed_models(before).contains(m) <==> (prefix.contains(m)
                        && quad_matches(m, s, p, o, g)));
                    if keep {
                        assert(borrowed_models(r@) == borrowed_models(before).push(q@));
                    } else {
                        assert(borrowed_models(r@) =~= borrowed_models(before));
                    }
                }
            }
            k = k + 1;
        }
        proof {
            assert(models(source@).subrange(0, source@.len() as int) =~= models(source@));
            assert(borrowed_models(r@).to_set() =~= matching(set, s, p, o, g));
            if subject is None && predicate is None && object is None && graph is None {
                assert(matching(set, s, p, o, g) =~= set);
                borrowed_models(r@).unique_seq_to_set();
            }
        }
        r
    }
}

impl PartialEq for Dataset {
    /// Two stores are equal when they hold the same quads, in whatever order.
    fn eq(&self, other: &Dataset) -> (r: bool)
        ensures
            self.wf() && other.wf() ==> r == (self@ == other@),
    {
        proof {
            if self.wf() && other.wf() {
                models(self.quads@).unique_seq_to_set();
                models(other.quads@).unique_seq_to_set();
            }
        }
        if self.quads.len() != other.quads.len() {
            return false;
        }
        let mut i: usize = 0;
        while i < self.quads.len()
            invariant
                i <= self.quads@.len(),
                forall|j: int| 0 <= j < i ==> #[trigger] models(other.quads@).contains(
                    models(self.quads@)[j],
                ),
            decreases self.quads@.len() - i,
        {
            if position_of(&other.quads, &self.quads[i]).is_none() {
                proof {
                    assert(models(self.quads@)[i as int] == self.quads@[i as int]@);
                    assert(self@.contains(self.quads@[i as int]@));
                }
                return false;
            }
            proof {
                let k = choose|k: int| 0 <= k < other.quads@.len() && other.quads@[k]@ == self.quads@[i as int]@;
                assert(models(other.quads@)[k] == models(self.quads@)[i as int]);
            }
            i = i + 1;
        }
        proof {
            if self.wf() && other.wf() {
                assert forall|m: QuadModel| #[trigger] self@.contains(m) implies other@.contains(m) by {
                    let j = choose|j: int| 0 <= j < models(self.quads@).len() && models(self.quads@)[j] == m;
                }
                vstd::set_lib::lemma_subset_equality(self@, other@);
            }
        }
        true
    }
}

impl vstd::std_specs::cmp::PartialEqSpecImpl for Dataset {
    open spec fn obeys_eq_spec() -> bool {
        false
    }

    open spec fn eq_spec(&self, other: &Dataset) -> bool {
        self@ == other@
    }
}

impl Default for Dataset {
    fn default() -> (r: Dataset)
        ensures
            r.wf(),
            r@ == Set::<QuadModel>::empty(),
    {
        Dataset::new()
    }
}

/// Inserting a quad twice: the first insertion reports whether it was new,
/// the second finds it held, reports `false` and changes nothing; from an
/// empty store this leaves exactly one quad.
pub proof fn lemma_insert_twice(before: Set<QuadModel>, q: QuadModel)
    requires
        before.finite(),
    ensures
        before.insert(q).contains(q),
        before.insert(q).insert(q) == before.insert(q),
        before.insert(q).len() == if before.contains(q) {
            before.len()
        } else {
            before.len() + 1
        },
        before == Set::<QuadModel>::empty() ==> !before.contains(q) && before.insert(q).insert(
            q,
        ).len() == 1,
{
    assert(before.insert(q).insert(q) =~= before.insert(q));
    if before.contains(q) {
        assert(before.insert(q) =~= before);
    }
}

/// Inserting a quad and then deleting it leaves it absent, and the deletion
/// takes exactly one quad away; deleting a quad that is not held changes
/// nothing.
pub proof fn lemma_insert_then_delete(before: Set<QuadModel>, q: QuadModel)
    requires
        before.finite(),
    ensures
        !before.insert(q).remove(q).contains(q),
        before.insert(q).remove(q).len() == before.insert(q).len() - 1,
        !before.contains(q) ==> before.remove(q) == before,
{
    if !before.contains(q) {
        assert(before.remove(q) =~= before);
    }
}

/// Whatever inserts and deletes led to a store, each quad it holds is found
/// by a match constrained by any one of its own terms alone (by its graph
/// name only when it has one; a quad of the default graph is found with the
/// graph left unconstrained).
pub proof fn lemma_each_term_finds_quad(d: &Dataset, q: QuadModel)
    requires
        d.wf(),
        d@.contains(q),
    ensures
        matching(d@, Some(q.subject), None, None, None).contains(q),
        matching(d@, None, Some(q.predicate), None, None).contains(q),
        matching(d@, None, None, Some(q.object), None).contains(q),
        matching(d@, None, None, None, q.graph).contains(q),
{
}

} // verus!
