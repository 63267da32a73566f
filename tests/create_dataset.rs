use rdf_data_model::{BlankNode, Dataset, Error, Literal, NamedNode, Object, Quad, Subject};

#[test]
fn build_dataset_from_scratch() -> Result<(), Error> {
    let mut ds = Dataset::default();

    let jane_doe = NamedNode::try_from("https://acme.com/JaneDoe")?;
    let b0 = BlankNode::from("b0");

    ds.insert(Quad::new(
        Subject::NamedNode(jane_doe.clone()),
        NamedNode::try_from("https://schema.org/age")?,
        Object::Literal(Literal::from_i32(23)),
        None,
    ));

    ds.insert(Quad::new(
        Subject::NamedNode(jane_doe.clone()),
        NamedNode::try_from("https://schema.org/foo")?,
        Object::BlankNode(b0.clone()),
        None,
    ));

    ds.insert(Quad::new(
        Subject::NamedNode(jane_doe.clone()),
        NamedNode::try_from("https://schema.org/is_alive")?,
        Object::Literal(Literal::from_bool(true)),
        None,
    ));

    ds.insert(Quad::new(
        Subject::NamedNode(jane_doe),
        NamedNode::try_from("https://schema.org/jobTitle")?,
        Object::Literal(Literal::from_str("Professor")),
        None,
    ));

    ds.insert(Quad::new(
        Subject::BlankNode(b0),
        NamedNode::try_from("https://schema.org/bar")?,
        Object::Literal(Literal::from_i32(1)),
        None,
    ));

    assert_eq!(ds.len(), 5);

    let jane = Subject::NamedNode(NamedNode::try_from("https://acme.com/JaneDoe")?);
    assert_eq!(4, ds.match_term(Some(jane), None, None, None).len());
    let alive = NamedNode::try_from("https://schema.org/is_alive")?;
    assert_eq!(1, ds.match_term(None, Some(alive), None, None).len());

    Ok(())
}
