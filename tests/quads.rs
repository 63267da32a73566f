use rdf_data_model::{BlankNode, Error, Literal, NamedNode, Object, Quad, Subject};

fn sample_quad() -> Result<Quad, Error> {
    Ok(Quad::new(
        Subject::NamedNode(NamedNode::new("http://foo.com/bar")?),
        NamedNode::new("https://schema.org/name")?,
        Object::Literal(Literal::new_simple_literal("bar")),
        None,
    ))
}

#[test]
fn quad_new() -> Result<(), Error> {
    let expected = Quad::new(
        Subject::NamedNode(NamedNode::try_from("https://acme.org/")?),
        NamedNode::try_from("https://schema.org/name")?,
        Object::NamedNode(NamedNode::try_from("https://bar.com/")?),
        None,
    );

    let actual = Quad::new(
        NamedNode::try_from("https://acme.org")?.into(),
        NamedNode::try_from("https://schema.org/name")?,
        NamedNode::try_from("https://bar.com")?.into(),
        None,
    );

    assert_eq!(expected, actual);

    Ok(())
}

#[test]
fn quad_enums_quad_should_have_the_correct_terms() -> Result<(), Error> {
    let s = Subject::NamedNode(NamedNode::new("http://foo.com/bar")?);
    let p = NamedNode::new("https://schema.org/name")?;
    let o = Object::Literal(Literal::new_simple_literal("bar"));

    let q = Quad::new(s, p, o, None);

    assert_eq!(
        &Subject::NamedNode(NamedNode::new("http://foo.com/bar")?),
        q.subject()
    );
    assert_eq!(&NamedNode::new("https://schema.org/name")?, q.predicate());
    assert_eq!(
        &Object::Literal(Literal::new_simple_literal("bar")),
        q.object()
    );
    assert_eq!(&None, q.graph());

    Ok(())
}

#[test]
fn quad_enums_quads_should_be_equal_based_on_terms() -> Result<(), Error> {
    let q1 = sample_quad()?;
    let q2 = sample_quad()?;

    assert_eq!(q1, q2);

    Ok(())
}

#[test]
fn quad_enums_display_quad() -> Result<(), Error> {
    let expected = "<http://foo.com/bar> <https://schema.org/name> \"bar\" .".to_string();

    let q = sample_quad()?;

    assert_eq!(expected, q.to_string());

    Ok(())
}

#[test]
fn quad_generics_quad_should_have_the_correct_terms() -> Result<(), Error> {
    let q = sample_quad()?;

    assert_eq!(
        &Subject::NamedNode(NamedNode::new("http://foo.com/bar")?),
        q.subject()
    );
    assert_eq!(&NamedNode::new("https://schema.org/name")?, q.predicate());
    assert_eq!(
        &Object::Literal(Literal::new_simple_literal("bar")),
        q.object()
    );
    assert_eq!(&None, q.graph());

    Ok(())
}

#[test]
fn quad_generics_quads_should_be_equal_based_on_terms() -> Result<(), Error> {
    let q1 = sample_quad()?;
    let q2 = sample_quad()?;

    assert_eq!(q1, q2);

    Ok(())
}

#[test]
fn quad_generics_display_quad() -> Result<(), Error> {
    let expected = "<http://foo.com/bar> <https://schema.org/name> \"bar\" .".to_string();

    let q = sample_quad()?;

    assert_eq!(expected, q.to_string());

    Ok(())
}

#[test]
fn quad_trait_obj_quad_should_have_the_correct_terms() -> Result<(), Error> {
    let _q = sample_quad()?;

    Ok(())
}

#[test]
fn quad_trait_obj_quads_should_be_equal_based_on_terms() -> Result<(), Error> {
    let q1 = sample_quad()?;
    let q2 = sample_quad()?;

    assert_eq!(q1, q2);

    Ok(())
}

#[test]
fn quad_trait_obj_display_quad() -> Result<(), Error> {
    let expected = "<http://foo.com/bar> <https://schema.org/name> \"bar\" .".to_string();

    let q = sample_quad()?;

    assert_eq!(expected, q.to_string());

    Ok(())
}

#[test]
fn quad_in_named_graph_renders_graph() -> Result<(), Error> {
    let q = Quad::new(
        Subject::BlankNode(BlankNode::from("b0")),
        NamedNode::new("https://schema.org/bar")?,
        Object::Literal(Literal::from_i32(1)),
        Some(NamedNode::new("https://acme.com/graph")?),
    );
    assert_eq!(
        "_:b0 <https://schema.org/bar> \"1\"^^<http://www.w3.org/2001/XMLSchema#integer> <https://acme.com/graph> .",
        q.to_string()
    );
    assert_eq!(
        &Some(NamedNode::new("https://acme.com/graph")?),
        q.graph()
    );
    Ok(())
}

#[test]
fn quads_differ_by_graph() -> Result<(), Error> {
    let g = NamedNode::new("https://acme.com/graph")?;
    let q1 = sample_quad()?;
    let q2 = Quad::new(
        Subject::NamedNode(NamedNode::new("http://foo.com/bar")?),
        NamedNode::new("https://schema.org/name")?,
        Object::Literal(Literal::new_simple_literal("bar")),
        Some(g),
    );
    assert_ne!(q1, q2);
    assert_eq!(q2.clone(), q2);
    Ok(())
}
