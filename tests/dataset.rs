use rdf_data_model::{BlankNode, Dataset, Error, Literal, NamedNode, Object, Quad, Subject};

fn nn(s: &str) -> Result<NamedNode, Error> {
    NamedNode::try_from(s)
}

fn create_sample_dataset() -> Result<Dataset, Error> {
    let mut ds = Dataset::default();
    let jane = || -> Result<Subject, Error> { Ok(Subject::NamedNode(nn("https://acme.com/JaneDoe")?)) };

    ds.insert(Quad::new(jane()?, nn("https://schema.org/age")?, Object::Literal(Literal::from_i32(23)), None));
    ds.insert(Quad::new(jane()?, nn("https://schema.org/foo")?, Object::BlankNode(BlankNode::from("b0")), None));
    ds.insert(Quad::new(jane()?, nn("https://schema.org/is_alive")?, Object::Literal(Literal::from_bool(true)), None));
    ds.insert(Quad::new(jane()?, nn("https://schema.org/jobTitle")?, Object::Literal(Literal::from_str("Professor")), None));
    ds.insert(Quad::new(
        jane()?,
        nn("https://schema.org/modified")?,
        Object::Literal(Literal::from_str("Mon Jul 31 22:19:04 CDT 2023")),
        None,
    ));
    ds.insert(Quad::new(jane()?, nn("https://schema.org/name")?, Object::Literal(Literal::from_str("Jane Doe")), None));
    ds.insert(Quad::new(
        jane()?,
        nn("https://schema.org/telephone")?,
        Object::Literal(Literal::from_str("(425) 123-4567")),
        None,
    ));
    ds.insert(Quad::new(jane()?, nn("https://schema.org/url")?, Object::NamedNode(nn("https://www.janedoe.com")?), None));
    ds.insert(Quad::new(
        jane()?,
        nn("https://www.w3.org/1999/02/22-rdf-syntax-ns#type")?,
        Object::NamedNode(nn("https://schema.org/Person")?),
        None,
    ));
    ds.insert(Quad::new(
        Subject::BlankNode(BlankNode::from("b0")),
        nn("https://schema.org/bar")?,
        Object::Literal(Literal::from_i32(1)),
        None,
    ));

    Ok(ds)
}

#[test]
fn sample_dataset_length() -> Result<(), Error> {
    assert_eq!(10, create_sample_dataset()?.len());
    Ok(())
}

#[test]
fn sample_datasets_are_equivalent() -> Result<(), Error> {
    assert_eq!(create_sample_dataset()?, create_sample_dataset()?);
    Ok(())
}

#[test]
fn sample_dataset_has_quad() -> Result<(), Error> {
    let ds = create_sample_dataset()?;
    let q = Quad::new(
        NamedNode::try_from("https://acme.com/JaneDoe")?.into(),
        NamedNode::try_from("https://schema.org/is_alive")?,
        Literal::from_bool(true).into(),
        None,
    );
    let expected = true;
    let actual = ds.has(&q);

    assert_eq!(expected, actual);

    Ok(())
}

#[test]
fn sample_dataset_does_not_have_quad() -> Result<(), Error> {
    let ds = create_sample_dataset()?;
    let q = Quad::new(
        NamedNode::try_from("https://acme.com/JohnDoe")?.into(),
        NamedNode::try_from("https://schema.org/is_alive")?,
        Literal::from_bool(true).into(),
        None,
    );
    let expected = false;
    let actual = ds.has(&q);

    assert_eq!(expected, actual);

    Ok(())
}

#[test]
fn delete_from_sample_dataset() -> Result<(), Error> {
    let mut ds = create_sample_dataset()?;
    let q = Quad::new(
        NamedNode::try_from("https://acme.com/JaneDoe")?.into(),
        NamedNode::try_from("https://schema.org/is_alive")?,
        Literal::from_bool(true).into(),
        None,
    );

    ds.delete(&q);

    assert_eq!(9, ds.len());

    Ok(())
}

#[test]
fn match_subject() -> Result<(), Error> {
    let ds = create_sample_dataset()?;

    let term = NamedNode::try_from("https://acme.com/JaneDoe")?;

    let expected: usize = 9;
    let actual = ds
        .match_term(Some(Subject::NamedNode(term)), None, None, None)
        .len();

    assert_eq!(expected, actual);

    Ok(())
}

#[test]
fn match_predicate() -> Result<(), Error> {
    let ds = create_sample_dataset()?;

    let term = NamedNode::try_from("https://schema.org/name")?;

    let expected: usize = 1;
    let actual = ds.match_term(None, Some(term), None, None).len();

    assert_eq!(expected, actual);

    Ok(())
}

#[test]
fn match_object() -> Result<(), Error> {
    let ds = create_sample_dataset()?;

    let term = Literal::from_bool(true);

    let expected: usize = 1;
    let actual = ds
        .match_term(None, None, Some(Object::Literal(term)), None)
        .len();

    assert_eq!(expected, actual);

    Ok(())
}

#[test]
fn match_subject_and_predicate() -> Result<(), Error> {
    let ds = create_sample_dataset()?;

    let subj = NamedNode::try_from("https://acme.com/JaneDoe")?;
    let obj = Literal::from_bool(true);

    let expected: usize = 1;
    let actual = ds
        .match_term(
            Some(Subject::NamedNode(subj)),
            None,
            Some(Object::Literal(obj)),
            None,
        )
        .len();

    assert_eq!(expected, actual);

    Ok(())
}

fn quad(s: &str, p: &str, o: &str, g: Option<&str>) -> Quad {
    Quad::new(
        Subject::NamedNode(NamedNode::new(s).unwrap()),
        NamedNode::new(p).unwrap(),
        Object::NamedNode(NamedNode::new(o).unwrap()),
        g.map(|g| NamedNode::new(g).unwrap()),
    )
}

#[test]
fn inserting_twice_keeps_one() {
    let mut ds = Dataset::new();
    assert!(ds.is_empty());
    let q = quad("https://a.org/s", "https://a.org/p", "https://a.org/o", None);
    assert!(ds.insert(q.clone()));
    assert!(!ds.insert(q.clone()));
    assert_eq!(1, ds.len());
    assert!(!ds.is_empty());
}

#[test]
fn insert_then_delete_round_trip() {
    let mut ds = Dataset::new();
    let keep = quad("https://a.org/s", "https://a.org/p", "https://a.org/o", None);
    let q = quad("https://a.org/s", "https://a.org/p", "https://a.org/o2", Some("https://a.org/g"));
    ds.insert(keep.clone());
    ds.insert(q.clone());
    assert_eq!(2, ds.len());
    assert!(ds.delete(&q));
    assert!(!ds.has(&q));
    assert!(ds.has(&keep));
    assert_eq!(1, ds.len());

    let absent = quad("https://a.org/x", "https://a.org/p", "https://a.org/o", None);
    assert!(!ds.delete(&absent));
    assert_eq!(1, ds.len());
    assert!(ds.delete(&keep));
    assert!(ds.is_empty());
    assert_eq!(0, ds.match_term(None, None, None, None).len());
}

#[test]
fn match_uses_and_not_or() {
    let mut ds = Dataset::new();
    let first = quad("https://a.org/S1", "https://a.org/P1", "https://a.org/O1", Some("https://a.org/G1"));
    let second = quad("https://a.org/S1", "https://a.org/P2", "https://a.org/O2", None);
    ds.insert(first);
    ds.insert(second.clone());

    let found = ds.match_term(
        Some(Subject::NamedNode(NamedNode::new("https://a.org/S1").unwrap())),
        Some(NamedNode::new("https://a.org/P2").unwrap()),
        None,
        None,
    );
    assert_eq!(1, found.len());
    assert_eq!(&second, found[0]);
}

#[test]
fn match_all_returns_every_quad() -> Result<(), Error> {
    let ds = create_sample_dataset()?;
    let all = ds.match_term(None, None, None, None);
    assert_eq!(ds.len(), all.len());
    for q in &all {
        assert!(ds.has(q));
    }
    Ok(())
}

#[test]
fn graph_constraint_is_not_the_default_graph() {
    let mut ds = Dataset::new();
    let in_graph = quad("https://a.org/s", "https://a.org/p", "https://a.org/o", Some("https://a.org/g"));
    let in_default = quad("https://a.org/s", "https://a.org/p", "https://a.org/o", None);
    ds.insert(in_graph.clone());
    ds.insert(in_default);
    assert_eq!(2, ds.len());

    let by_graph = ds.match_term(None, None, None, Some(NamedNode::new("https://a.org/g").unwrap()));
    assert_eq!(1, by_graph.len());
    assert_eq!(&in_graph, by_graph[0]);

    let other_graph = ds.match_term(None, None, None, Some(NamedNode::new("https://a.org/h").unwrap()));
    assert_eq!(0, other_graph.len());

    let unconstrained = ds.match_term(
        Some(Subject::NamedNode(NamedNode::new("https://a.org/s").unwrap())),
        None,
        None,
        None,
    );
    assert_eq!(2, unconstrained.len());
}

#[test]
fn match_on_unknown_term_is_empty() -> Result<(), Error> {
    let ds = create_sample_dataset()?;
    let found = ds.match_term(
        Some(Subject::NamedNode(nn("https://acme.com/JaneDoe")?)),
        Some(nn("https://schema.org/nothing")?),
        None,
        None,
    );
    assert!(found.is_empty());
    let found = ds.match_term(
        Some(Subject::BlankNode(BlankNode::from("b0"))),
        Some(nn("https://schema.org/age")?),
        None,
        None,
    );
    assert!(found.is_empty());
    Ok(())
}

#[test]
fn each_term_finds_its_quad_after_changes() -> Result<(), Error> {
    let mut ds = create_sample_dataset()?;
    let gone = Quad::new(
        Subject::NamedNode(nn("https://acme.com/JaneDoe")?),
        nn("https://schema.org/name")?,
        Object::Literal(Literal::from_str("Jane Doe")),
        None,
    );
    ds.delete(&gone);
    let added = Quad::new(
        Subject::BlankNode(BlankNode::from("b1")),
        nn("https://schema.org/name")?,
        Object::Literal(Literal::new_language_tagged_literal("Juana", "es")),
        Some(nn("https://acme.com/names")?),
    );
    ds.insert(added.clone());
    assert_eq!(10, ds.len());

    for q in ds.match_term(None, None, None, None) {
        let by_subject = ds.match_term(Some(q.subject().clone()), None, None, None);
        assert!(by_subject.contains(&q));
        let by_predicate = ds.match_term(None, Some(q.predicate().clone()), None, None);
        assert!(by_predicate.contains(&q));
        let by_object = ds.match_term(None, None, Some(q.object().clone()), None);
        assert!(by_object.contains(&q));
        let by_graph = ds.match_term(None, None, None, q.graph().clone());
        assert!(by_graph.contains(&q));
    }
    let by_name = ds.match_term(None, Some(nn("https://schema.org/name")?), None, None);
    assert_eq!(1, by_name.len());
    assert_eq!(&added, by_name[0]);
    Ok(())
}

#[test]
fn datasets_compare_as_sets() {
    let a = quad("https://a.org/s", "https://a.org/p", "https://a.org/o", None);
    let b = quad("https://a.org/s", "https://a.org/p", "https://a.org/o2", None);
    let mut d1 = Dataset::new();
    d1.insert(a.clone());
    d1.insert(b.clone());
    let mut d2 = Dataset::new();
    d2.insert(b.clone());
    d2.insert(a.clone());
    assert_eq!(d1, d2);
    d2.delete(&a);
    assert_ne!(d1, d2);
    d2.insert(quad("https://a.org/x", "https://a.org/p", "https://a.org/o", None));
    assert_ne!(d1, d2);
}
