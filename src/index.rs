//! Per-position indexes: for one position of a quad, a mapping from each term
//! that occurs there to the quads that carry it there.
//!
//! Terms are filed under a fingerprint, a hash of their main text; the few
//! terms that share a fingerprint are told apart by comparing them whole, so
//! what a lookup finds never depends on the hash.
use std::collections::hash_map::DefaultHasher;
use std::collections::HashMap;
use std::hash::Hasher;
use vstd::prelude::*;
use vstd::std_specs::hash::DefaultHasherAdditionalSpecFns;
use vstd::string::StringSliceAdditionalSpecFns;
use vstd::utf8::encode_utf8;
use crate::quad::{Quad, QuadModel};
use crate::term::{Object, TermModel};

verus! {

/// A position within a quad.
pub ghost enum Position {
    Subject,
    Predicate,
    Object,
    Graph,
}

/// The term of `q` at `pos`; `None` only at the graph position of a quad in
/// the default graph.
pub open spec fn term_at(q: QuadModel, pos: Position) -> Option<TermModel> {
    match pos {
        Position::Subject => Some(q.subject),
        Position::Predicate => Some(TermModel::NamedNode(q.predicate)),
        Position::Object => Some(q.object),
        Position::Graph => match q.graph {
            Some(g) => Some(TermModel::NamedNode(g)),
            None => None,
        },
    }
}

/// The models of a sequence of quads.
pub open spec fn models(v: Seq<Quad>) -> Seq<QuadModel> {
    v.map_values(|q: Quad| q@)
}

/// One index entry: a term and the quads that carry it.
#[derive(Debug)]
pub(crate) struct Bucket {
    pub(crate) key: Object,
    pub(crate) quads: Vec<Quad>,
}

/// The buckets of the terms at one position that share a fingerprint.
#[derive(Debug)]
pub(crate) struct BucketChain {
    pub(crate) buckets: Vec<Bucket>,
}

/// `b` holds exactly the quads of `set` whose term at `pos` is its key, each
/// once, and at least one.
pub(crate) open spec fn bucket_reflects(b: Bucket, set: Set<QuadModel>, pos: Position) -> bool {
    &&& b.quads@.len() > 0
    &&& models(b.quads@).no_duplicates()
    &&& forall|m: QuadModel|
        #![trigger models(b.quads@).contains(m)]
        #![trigger set.contains(m)]
        models(b.quads@).contains(m) <==> (set.contains(m) && term_at(m, pos) == Some(b.key@))
}

proof fn lemma_models_push(v: Seq<Quad>, q: Quad)
    ensures
        models(v.push(q)) == models(v).push(q@),
{
    assert(models(v.push(q)) =~= models(v).push(q@));
}

/// Taking out the quad at `k` by `swap_remove` leaves the others, each once.
pub(crate) proof fn lemma_models_swap_remove(v: Seq<Quad>, k: int)
    requires
        0 <= k < v.len(),
        models(v).no_duplicates(),
    ensures
        models(v.update(k, v.last()).drop_last()).no_duplicates(),
        forall|m: QuadModel|
            #[trigger] models(v.update(k, v.last()).drop_last()).contains(m) <==> (models(
                v,
            ).contains(m) && m != v[k]@),
{
    let w = v.update(k, v.last()).drop_last();
    let n = v.len() - 1;
    assert forall|m: QuadModel| #[trigger] models(w).contains(m) <==> (models(v).contains(m) && m
        != v[k]@) by {
        assert(models(v)[k] == v[k]@);
        if models(w).contains(m) {
            let j = choose|j: int| 0 <= j < w.len() && models(w)[j] == m;
            if j == k {
                assert(models(v)[n] == m);
                assert(models(v)[n] != models(v)[k]);
            } else {
                assert(models(v)[j] == m);
                assert(models(v)[j] != models(v)[k]);
            }
            assert(models(v).contains(m));
        }
        if models(v).contains(m) && m != v[k]@ {
            let j = choose|j: int| 0 <= j < v.len() && models(v)[j] == m;
            if j == n {
                assert(models(w)[k] == m);
            } else {
                assert(models(w)[j] == m);
            }
            assert(models(w).contains(m));
        }
    }
    assert forall|a: int, b: int| 0 <= a < w.len() && 0 <= b < w.len() && a != b implies models(
        w,
    )[a] != models(w)[b] by {
        let a0 = if a == k { n } else { a };
        let b0 = if b == k { n } else { b };
        assert(models(w)[a] == models(v)[a0]);
        assert(models(w)[b] == models(v)[b0]);
    }
}

/// The place of a quad equal to `q` in `v`, if there is one.
pub(crate) fn position_of(v: &Vec<Quad>, q: &Quad) -> (r: Option<usize>)
    ensures
        match r {
            Some(k) => k < v@.len() && v@[k as int]@ == q@,
            None => !models(v@).contains(q@),
        },
{
    let mut k: usize = 0;
    while k < v.len()
        invariant
            k <= v@.len(),
            forall|j: int| 0 <= j < k ==> (#[trigger] v@[j])@ != q@,
        decreases v@.len() - k,
    {
        if v[k] == *q {
            return Some(k);
        }
        k = k + 1;
    }
    proof {
        if models(v@).contains(q@) {
            let j = choose|j: int| 0 <= j < models(v@).len() && models(v@)[j] == q@;
            assert(v@[j]@ == q@);
        }
    }
    None
}

impl BucketChain {
    /// The chain holds, for each term that occurs at `pos` in the quads of
    /// `set`, one bucket with exactly those quads, and nothing else.
    pub(crate) open spec fn reflects(&self, set: Set<QuadModel>, pos: Position) -> bool {
        &&& forall|i: int, j: int|
            0 <= i < self.buckets@.len() && 0 <= j < self.buckets@.len() && i != j
                ==> #[trigger] self.buckets@[i].key@ != #[trigger] self.buckets@[j].key@
        &&& forall|i: int|
            0 <= i < self.buckets@.len() ==> bucket_reflects(#[trigger] self.buckets@[i], set, pos)
        &&& forall|m: QuadModel|
            #[trigger] set.contains(m) && term_at(m, pos) is Some ==> exists|i: int|
                0 <= i < self.buckets@.len() && #[trigger] self.buckets@[i].key@ == term_at(
                    m,
                    pos,
                )->0
    }

    pub(crate) fn new() -> (r: BucketChain)
        ensures
            forall|pos: Position| r.reflects(Set::empty(), pos),
    {
        BucketChain { buckets: Vec::new() }
    }

    /// The place of the bucket of `key`, if there is one.
    pub(crate) fn find(&self, key: &Object) -> (r: Option<usize>)
        ensures
            match r {
                Some(i) => i < self.buckets@.len() && self.buckets@[i as int].key@ == key@,
                None => forall|i: int|
                    0 <= i < self.buckets@.len() ==> #[trigger] self.buckets@[i].key@ != key@,
            },
    {
        let mut i: usize = 0;
        while i < self.buckets.len()
            invariant
                i <= self.buckets@.len(),
                forall|j: int| 0 <= j < i ==> #[trigger] self.buckets@[j].key@ != key@,
            decreases self.buckets@.len() - i,
        {
            if self.buckets[i].key == *key {
                return Some(i);
            }
            i = i + 1;
        }
        None
    }

    /// The quads of `set` whose term at `pos` is `key`, or `None` when there
    /// are none.
    pub(crate) fn lookup(&self, key: &Object, Ghost(set): Ghost<Set<QuadModel>>, Ghost(pos): Ghost<Position>) -> (r: Option<&Vec<Quad>>)
        requires
            self.reflects(set, pos),
        ensures
            match r {
                Some(v) => {
                    &&& models(v@).no_duplicates()
                    &&& forall|m: QuadModel|
                        #[trigger] models(v@).contains(m) <==> (set.contains(m) && term_at(m, pos)
                            == Some(key@))
                },
                None => forall|m: QuadModel|
                    #[trigger] set.contains(m) ==> term_at(m, pos) != Some(key@),
            },
    {
        match self.find(key) {
            Some(i) => {
                proof {
                    assert(bucket_reflects(self.buckets@[i as int], set, pos));
                }
                Some(&self.buckets[i].quads)
            },
            None => {
                proof {
                    assert forall|m: QuadModel| #[trigger] set.contains(m) implies term_at(m, pos)
                        != Some(key@) by {
                        if term_at(m, pos) == Some(key@) {
                            let i = choose|i: int|
                                0 <= i < self.buckets@.len() && #[trigger] self.buckets@[i].key@
                                    == term_at(m, pos)->0;
                            assert(self.buckets@[i].key@ != key@);
                        }
                    }
                }
                None
            },
        }
    }

    /// Files a quad that is new to `set` under `key`, its term at `pos`.
    pub(crate) fn insert(&mut self, key: Object, q: &Quad, Ghost(set): Ghost<Set<QuadModel>>, Ghost(pos): Ghost<Position>)
        requires
            old(self).reflects(set, pos),
            !set.contains(q@),
            term_at(q@, pos) == Some(key@),
        ensures
            final(self).reflects(set.insert(q@), pos),
    {
        let ghost set2 = set.insert(q@);
        let ghost old_buckets = self.buckets@;
        match self.find(&key) {
            Some(i) => {
                let ghost old_quads = self.buckets@[i as int].quads@;
                assert(bucket_reflects(self.buckets@[i as int], set, pos));
                self.buckets[i].quads.push(q.clone());
                proof {
                    lemma_models_push(old_quads, *q);
                    let nb = self.buckets@[i as int];
                    assert(nb.quads@ == old_quads.push(*q));
                    assert(!models(old_quads).contains(q@));
                    assert forall|a: int, b: int|
                        0 <= a < models(nb.quads@).len() && 0 <= b < models(nb.quads@).len() && a
                            != b implies models(nb.quads@)[a] != models(nb.quads@)[b] by {
                        if a < models(old_quads).len() && b < models(old_quads).len() {
                        } else if a < models(old_quads).len() {
                            assert(models(old_quads).contains(models(nb.quads@)[a]));
                        } else {
                            assert(models(old_quads).contains(models(nb.quads@)[b]));
                        }
                    }
                    assert forall|m: QuadModel|
                        #![trigger models(nb.quads@).contains(m)]
                        #![trigger set2.contains(m)]
                        models(nb.quads@).contains(m) <==> (set2.contains(m) && term_at(m, pos)
                            == Some(nb.key@)) by {
                        if models(nb.quads@).contains(m) && m != q@ {
                            let j = choose|j: int|
                                0 <= j < models(nb.quads@).len() && models(nb.quads@)[j] == m;
                            assert(models(old_quads)[j] == m);
                        }
                        if set2.contains(m) && term_at(m, pos) == Some(nb.key@) && m != q@ {
                            assert(models(old_quads).contains(m));
                            let j = choose|j: int|
                                0 <= j < models(old_quads).len() && models(old_quads)[j] == m;
                            assert(models(nb.quads@)[j] == m);
                        }
                        if m == q@ {
                            assert(models(nb.quads@)[models(old_quads).len() as int] == m);
                        }
                    }
                    assert(bucket_reflects(nb, set2, pos));
                    assert forall|j: int| 0 <= j < self.buckets@.len() implies bucket_reflects(
                        #[trigger] self.buckets@[j],
                        set2,
                        pos,
                    ) by {
                        if j != i {
                            assert(self.buckets@[j] == old_buckets[j]);
                            assert(bucket_reflects(old_buckets[j], set, pos));
                        }
                    }
                    assert forall|m: QuadModel| #[trigger]
                        set2.contains(m) && term_at(m, pos) is Some implies exists|j: int|
                        0 <= j < self.buckets@.len() && #[trigger] self.buckets@[j].key@
                            == term_at(m, pos)->0 by {
                        if m == q@ {
                            assert(self.buckets@[i as int].key@ == term_at(m, pos)->0);
                        } else {
                            assert(set.contains(m));
                            let j = choose|j: int|
                                0 <= j < old_buckets.len() && #[trigger] old_buckets[j].key@
                                    == term_at(m, pos)->0;
                            assert(self.buckets@[j].key@ == old_buckets[j].key@);
                        }
                    }
                }
            },
            None => {
                let mut quads: Vec<Quad> = Vec::new();
                quads.push(q.clone());
                let b = Bucket { key, quads };
                self.buckets.push(b);
                proof {
                    let n = old_buckets.len() as int;
                    assert(self.buckets@[n] == b);
                    assert(models(b.quads@) =~= seq![q@]);
                    assert forall|m: QuadModel|
                        #![trigger models(b.quads@).contains(m)]
                        #![trigger set2.contains(m)]
                        models(b.quads@).contains(m) <==> (set2.contains(m) && term_at(m, pos)
                            == Some(b.key@)) by {
                        if models(b.quads@).contains(m) {
                            assert(models(b.quads@)[0] == m);
                        }
                        if set2.contains(m) && term_at(m, pos) == Some(b.key@) && m != q@ {
                            assert(set.contains(m));
                            let j = choose|j: int|
                                0 <= j < old_buckets.len() && #[trigger] old_buckets[j].key@
                                    == term_at(m, pos)->0;
                            assert(old_buckets[j].key@ != key@);
                        }
                        if m == q@ {
                            assert(models(b.quads@)[0] == m);
                        }
                    }
                    assert(bucket_reflects(b, set2, pos));
                    assert forall|j: int| 0 <= j < self.buckets@.len() implies bucket_reflects(
                        #[trigger] self.buckets@[j],
                        set2,
                        pos,
                    ) by {
                        if j != n {
                            assert(self.buckets@[j] == old_buckets[j]);
                            assert(bucket_reflects(old_buckets[j], set, pos));
                        }
                    }
                    assert forall|a: int, c: int|
                        0 <= a < self.buckets@.len() && 0 <= c < self.buckets@.len() && a
                            != c implies #[trigger] self.buckets@[a].key@
                        != #[trigger] self.buckets@[c].key@ by {
                        if a != n && c != n {
                            assert(self.buckets@[a] == old_buckets[a]);
                            assert(self.buckets@[c] == old_buckets[c]);
                        } else if a == n {
                            assert(self.buckets@[c] == old_buckets[c]);
                            assert(old_buckets[c].key@ != key@);
                        } else {
                            assert(self.buckets@[a] == old_buckets[a]);
                            assert(old_buckets[a].key@ != key@);
                        }
                    }
                    assert forall|m: QuadModel| #[trigger]
                        set2.contains(m) && term_at(m, pos) is Some implies exists|j: int|
                        0 <= j < self.buckets@.len() && #[trigger] self.buckets@[j].key@
                            == term_at(m, pos)->0 by {
                        if m == q@ {
                            assert(self.buckets@[n].key@ == term_at(m, pos)->0);
                        } else {
                            assert(set.contains(m));
                            let j = choose|j: int|
                                0 <= j < old_buckets.len() && #[trigger] old_buckets[j].key@
                                    == term_at(m, pos)->0;
                            assert(self.buckets@[j] == old_buckets[j]);
                        }
                    }
                }
            },
        }
    }

    /// Takes a quad of `set` out of the bucket of `key`, its term at `pos`,
    /// and drops the bucket once it is empty.
    pub(crate) fn remove(&mut self, key: &Object, q: &Quad, Ghost(set): Ghost<Set<QuadModel>>, Ghost(pos): Ghost<Position>)
        requires
            old(self).reflects(set, pos),
            set.contains(q@),
            term_at(q@, pos) == Some(key@),
        ensures
            final(self).reflects(set.remove(q@), pos),
    {
        let ghost set2 = set.remove(q@);
        let ghost old_buckets = self.buckets@;
        let found = self.find(key);
        proof {
            if found is None {
                let j = choose|j: int|
                    0 <= j < old_buckets.len() && #[trigger] old_buckets[j].key@ == term_at(
                        q@,
                        pos,
                    )->0;
                assert(old_buckets[j].key@ != key@);
            }
        }
        let i = found.unwrap();
        let ghost old_quads = old_buckets[i as int].quads@;
        proof {
            assert(bucket_reflects(old_buckets[i as int], set, pos));
            assert(models(old_quads).contains(q@));
        }
        let k = position_of(&self.buckets[i].quads, q).unwrap();
        let _ = self.buckets[i].quads.swap_remove(k);
        proof {
            lemma_models_swap_remove(old_quads, k as int);
            assert(self.buckets@[i as int].quads@ == old_quads.update(k as int, old_quads.last()).drop_last());
            assert(self.buckets@[i as int].key == old_buckets[i as int].key);
            assert forall|j: int| 0 <= j < old_buckets.len() && j != i implies bucket_reflects(
                #[trigger] old_buckets[j],
                set2,
                pos,
            ) by {
                let b = old_buckets[j];
                assert(bucket_reflects(b, set, pos));
                assert(b.key@ != key@);
                assert forall|m: QuadModel|
                    #![trigger models(b.quads@).contains(m)]
                    #![trigger set2.contains(m)]
                    models(b.quads@).contains(m) <==> (set2.contains(m) && term_at(m, pos)
                        == Some(b.key@)) by {
                    if models(b.quads@).contains(m) {
                        assert(set.contains(m));
                    }
                }
            }
        }
        if self.buckets[i].quads.len() == 0 {
            let ghost mid = self.buckets@;
            let _ = self.buckets.swap_remove(i);
            proof {
                let n = old_buckets.len() - 1;
                assert(self.buckets@ == mid.update(i as int, mid.last()).drop_last());
                assert forall|a: int| 0 <= a < self.buckets@.len() implies #[trigger] self.buckets@[a]
                    == old_buckets[if a == i { n } else { a }] by {
                    if a == i {
                        assert(self.buckets@[a] == mid[n]);
                    } else {
                        assert(self.buckets@[a] == mid[a]);
                    }
                }
                assert forall|a: int, c: int|
                    0 <= a < self.buckets@.len() && 0 <= c < self.buckets@.len() && a
                        != c implies #[trigger] self.buckets@[a].key@
                    != #[trigger] self.buckets@[c].key@ by {
                    let a0 = if a == i { n } else { a };
                    let c0 = if c == i { n } else { c };
                    assert(self.buckets@[a] == old_buckets[a0]);
                    assert(self.buckets@[c] == old_buckets[c0]);
                }
                assert forall|a: int| 0 <= a < self.buckets@.len() implies bucket_reflects(
                    #[trigger] self.buckets@[a],
                    set2,
                    pos,
                ) by {
                    let a0 = if a == i { n } else { a };
                    assert(self.buckets@[a] == old_buckets[a0]);
                }
                assert forall|m: QuadModel| #[trigger]
                    set2.contains(m) && term_at(m, pos) is Some implies exists|j: int|
                    0 <= j < self.buckets@.len() && #[trigger] self.buckets@[j].key@ == term_at(
                        m,
                        pos,
                    )->0 by {
                    assert(set.contains(m));
                    let j = choose|j: int|
                        0 <= j < old_buckets.len() && #[trigger] old_buckets[j].key@ == term_at(
                            m,
                            pos,
                        )->0;
                    if j == i {
                        assert(models(old_quads).contains(m));
                        assert(models(mid[i as int].quads@).contains(m));
                        assert(false);
                    } else if j == n {
                        assert(self.buckets@[i as int] == old_buckets[j]);
                    } else {
                        assert(self.buckets@[j] == old_buckets[j]);
                    }
                }
            }
        } else {
            proof {
                let nb = self.buckets@[i as int];
                assert(bucket_reflects(nb, set2, pos));
                assert forall|a: int| 0 <= a < self.buckets@.len() implies bucket_reflects(
                    #[trigger] self.buckets@[a],
                    set2,
                    pos,
                ) by {
                    if a != i {
                        assert(self.buckets@[a] == old_buckets[a]);
                    }
                }
                assert forall|a: int, c: int|
                    0 <= a < self.buckets@.len() && 0 <= c < self.buckets@.len() && a
                        != c implies #[trigger] self.buckets@[a].key@
                    != #[trigger] self.buckets@[c].key@ by {
                    assert(self.buckets@[a].key == old_buckets[a].key);
                    assert(self.buckets@[c].key == old_buckets[c].key);
                }
                assert forall|m: QuadModel| #[trigger]
                    set2.contains(m) && term_at(m, pos) is Some implies exists|j: int|
                    0 <= j < self.buckets@.len() && #[trigger] self.buckets@[j].key@ == term_at(
                        m,
                        pos,
                    )->0 by {
                    assert(set.contains(m));
                    let j = choose|j: int|
                        0 <= j < old_buckets.len() && #[trigger] old_buckets[j].key@ == term_at(
                            m,
                            pos,
                        )->0;
                    assert(self.buckets@[j].key == old_buckets[j].key);
                }
            }
        }
    }
}

/// The text that a term's fingerprint is taken from.
pub open spec fn key_text(t: TermModel) -> Seq<char> {
    match t {
        TermModel::NamedNode(iri) => iri,
        TermModel::BlankNode(name) => name,
        TermModel::Literal(l) => l.value,
    }
}

/// The fingerprint of a term: the `DefaultHasher` hash of the UTF-8 bytes of
/// its main text.
pub open spec fn fingerprint(t: TermModel) -> u64 {
    DefaultHasher::spec_finish(seq![encode_utf8(key_text(t))])
}

/// The quads of `set` whose term at `pos` has fingerprint `h`.
pub open spec fn with_fingerprint(set: Set<QuadModel>, pos: Position, h: u64) -> Set<QuadModel> {
    set.filter(|m: QuadModel| term_at(m, pos) is Some && fingerprint(term_at(m, pos)->0) == h)
}

/// The fingerprint of `t`.
fn fingerprint_of(t: &Object) -> (r: u64)
    ensures
        r == fingerprint(t@),
{
    let text: &str = match t {
        Object::NamedNode(n) => n.as_str(),
        Object::BlankNode(b) => b.as_str(),
        Object::Literal(l) => l.value(),
    };
    let mut hasher = DefaultHasher::new();
    hasher.write(text.as_bytes());
    proof {
        assert(hasher@ =~= seq![encode_utf8(key_text(t@))]);
    }
    hasher.finish()
}

/// The index of one position: bucket chains by fingerprint.
#[derive(Debug)]
pub(crate) struct TermIndex {
    pub(crate) chains: HashMap<u64, BucketChain>,
}

impl TermIndex {
    /// Each chain reflects exactly the quads of `set` whose term at `pos` has
    /// its fingerprint and holds at least one bucket, and every such term has
    /// its chain.
    pub(crate) open spec fn reflects(&self, set: Set<QuadModel>, pos: Position) -> bool {
        &&& forall|h: u64|
            #[trigger] self.chains@.contains_key(h) ==> self.chains@[h].reflects(
                with_fingerprint(set, pos, h),
                pos,
            ) && self.chains@[h].buckets@.len() > 0
        &&& forall|m: QuadModel|
            #[trigger] set.contains(m) && term_at(m, pos) is Some ==> self.chains@.contains_key(
                fingerprint(term_at(m, pos)->0),
            )
    }

    pub(crate) fn new() -> (r: TermIndex)
        ensures
            forall|pos: Position| r.reflects(Set::empty(), pos),
    {
        TermIndex { chains: HashMap::new() }
    }

    /// The quads of `set` whose term at `pos` is `key`, or `None` when there
    /// are none.
    pub(crate) fn lookup(&self, key: &Object, Ghost(set): Ghost<Set<QuadModel>>, Ghost(pos): Ghost<Position>) -> (r: Option<&Vec<Quad>>)
        requires
            self.reflects(set, pos),
        ensures
            match r {
                Some(v) => {
                    &&& models(v@).no_duplicates()
                    &&& forall|m: QuadModel|
                        #[trigger] models(v@).contains(m) <==> (set.contains(m) && term_at(m, pos)
                            == Some(key@))
                },
                None => forall|m: QuadModel|
                    #[trigger] set.contains(m) ==> term_at(m, pos) != Some(key@),
            },
    {
        let h = fingerprint_of(key);
        let ghost sub = with_fingerprint(set, pos, h);
        match self.chains.get(&h) {
            Some(chain) => {
                let r = chain.lookup(key, Ghost(sub), Ghost(pos));
                proof {
                    assert forall|m: QuadModel| term_at(m, pos) == Some(key@) implies (#[trigger] set.contains(m) <==> sub.contains(m)) by {}
                }
                r
            },
            None => {
                proof {
                    assert forall|m: QuadModel| #[trigger] set.contains(m) implies term_at(m, pos)
                        != Some(key@) by {
                        if term_at(m, pos) == Some(key@) {
                            assert(self.chains@.contains_key(fingerprint(term_at(m, pos)->0)));
                        }
                    }
                }
                None
            },
        }
    }

    /// Files a quad that is new to `set` under `key`, its term at `pos`.
    pub(crate) fn insert(&mut self, key: Object, q: &Quad, Ghost(set): Ghost<Set<QuadModel>>, Ghost(pos): Ghost<Position>)
        requires
            old(self).reflects(set, pos),
            !set.contains(q@),
            term_at(q@, pos) == Some(key@),
        ensures
            final(self).reflects(set.insert(q@), pos),
    {
        let ghost old_chains = self.chains@;
        let h = fingerprint_of(&key);
        let ghost sub = with_fingerprint(set, pos, h);
        let mut chain = match self.chains.remove(&h) {
            Some(c) => c,
            None => {
                proof {
                    assert forall|m: QuadModel| #[trigger] sub.contains(m) implies false by {
                        assert(set.contains(m));
                    }
                    assert(sub =~= Set::<QuadModel>::empty());
                }
                BucketChain::new()
            },
        };
        proof {
            assert(!sub.contains(q@));
        }
        chain.insert(key, q, Ghost(sub), Ghost(pos));
        self.chains.insert(h, chain);
        proof {
            let set2 = set.insert(q@);
            assert(with_fingerprint(set2, pos, h) =~= sub.insert(q@));
            assert(set2.contains(q@) && term_at(q@, pos) is Some);
            assert(sub.insert(q@).contains(q@));
            let i = choose|i: int|
                0 <= i < self.chains@[h].buckets@.len() && #[trigger] self.chains@[h].buckets@[i].key@
                    == term_at(q@, pos)->0;
            assert(self.chains@[h].buckets@.len() > 0);
            assert forall|h2: u64| #[trigger] self.chains@.contains_key(h2) implies self.chains@[h2].reflects(
                with_fingerprint(set2, pos, h2),
                pos,
            ) && self.chains@[h2].buckets@.len() > 0 by {
                if h2 != h {
                    assert(old_chains.contains_key(h2));
                    assert(with_fingerprint(set2, pos, h2) =~= with_fingerprint(set, pos, h2));
                }
            }
            assert forall|m: QuadModel| #[trigger]
                set2.contains(m) && term_at(m, pos) is Some implies self.chains@.contains_key(
                fingerprint(term_at(m, pos)->0),
            ) by {
                if m != q@ {
                    assert(set.contains(m));
                }
            }
        }
    }

    /// Takes a quad of `set` out of the bucket of `key`, its term at `pos`,
    /// and drops the chain once it is empty.
    pub(crate) fn remove(&mut self, key: &Object, q: &Quad, Ghost(set): Ghost<Set<QuadModel>>, Ghost(pos): Ghost<Position>)
        requires
            old(self).reflects(set, pos),
            set.contains(q@),
            term_at(q@, pos) == Some(key@),
        ensures
            final(self).reflects(set.remove(q@), pos),
    {
        let ghost old_chains = self.chains@;
        let h = fingerprint_of(key);
        let ghost sub = with_fingerprint(set, pos, h);
        proof {
            assert(set.contains(q@) && term_at(q@, pos) is Some);
            assert(old_chains.contains_key(h));
        }
        let mut chain = self.chains.remove(&h).unwrap();
        proof {
            assert(sub.contains(q@));
        }
        chain.remove(key, q, Ghost(sub), Ghost(pos));
        let ghost set2 = set.remove(q@);
        proof {
            assert(with_fingerprint(set2, pos, h) =~= sub.remove(q@));
        }
        if chain.buckets.len() > 0 {
            self.chains.insert(h, chain);
            proof {
                assert forall|m: QuadModel| #[trigger]
                    set2.contains(m) && term_at(m, pos) is Some implies self.chains@.contains_key(
                    fingerprint(term_at(m, pos)->0),
                ) by {
                    assert(set.contains(m));
                }
            }
        } else {
            proof {
                assert forall|m: QuadModel| #[trigger]
                    set2.contains(m) && term_at(m, pos) is Some implies self.chains@.contains_key(
                    fingerprint(term_at(m, pos)->0),
                ) by {
                    assert(set.contains(m));
                    if fingerprint(term_at(m, pos)->0) == h {
                        assert(with_fingerprint(set2, pos, h).contains(m));
                        let i = choose|i: int|
                            0 <= i < chain.buckets@.len() && #[trigger] chain.buckets@[i].key@
                                == term_at(m, pos)->0;
                    }
                }
            }
        }
        proof {
            assert forall|h2: u64| #[trigger] self.chains@.contains_key(h2) implies self.chains@[h2].reflects(
                with_fingerprint(set2, pos, h2),
                pos,
            ) && self.chains@[h2].buckets@.len() > 0 by {
                if h2 != h {
                    assert(old_chains.contains_key(h2));
                    assert(with_fingerprint(set2, pos, h2) =~= with_fingerprint(set, pos, h2));
                }
            }
        }
    }
}

/// A quad without a term at `pos` leaves the index of `pos` as it is.
pub(crate) proof fn lemma_reflects_without_term(ix: &TermIndex, set: Set<QuadModel>, q: QuadModel, pos: Position)
    requires
        ix.reflects(set, pos),
        term_at(q, pos) is None,
    ensures
        ix.reflects(set.insert(q), pos),
        ix.reflects(set.remove(q), pos),
{
    assert forall|h: u64| #[trigger] ix.chains@.contains_key(h) implies ix.chains@[h].reflects(
        with_fingerprint(set.insert(q), pos, h),
        pos,
    ) && ix.chains@[h].reflects(with_fingerprint(set.remove(q), pos, h), pos) by {
        assert(with_fingerprint(set.insert(q), pos, h) =~= with_fingerprint(set, pos, h));
        assert(with_fingerprint(set.remove(q), pos, h) =~= with_fingerprint(set, pos, h));
    }
    assert forall|m: QuadModel| #[trigger]
        set.insert(q).contains(m) && term_at(m, pos) is Some implies ix.chains@.contains_key(
        fingerprint(term_at(m, pos)->0),
    ) by {
        assert(set.contains(m));
    }
    assert forall|m: QuadModel| #[trigger]
        set.remove(q).contains(m) && term_at(m, pos) is Some implies ix.chains@.contains_key(
        fingerprint(term_at(m, pos)->0),
    ) by {
        assert(set.contains(m));
    }
}

} // verus!
