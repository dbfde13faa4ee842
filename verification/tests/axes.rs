//! Location-step axes, and declarations in an internal subset.

use rusty_xml::{
    default_parse_options, parse_dtd_subset, xml_read_memory, xpath_axis_nodes, AttrDefault, NodeId, XmlDoc,
    XPathAxis, XPathNodeTest,
};

fn names(doc: &XmlDoc, ids: &[NodeId]) -> Vec<String> {
    ids.iter().map(|id| doc.name(*id).to_string()).collect()
}

fn step(doc: &XmlDoc, n: NodeId, axis: XPathAxis, test: XPathNodeTest) -> Vec<String> {
    names(doc, &xpath_axis_nodes(doc, n, axis, &test, &Vec::new()))
}

fn sample() -> (XmlDoc, NodeId) {
    let doc = xml_read_memory(b"<r><a><c/>t</a><b x='1' y='2'/></r>", None, None, default_parse_options()).unwrap();
    let r = doc.xml_doc_get_root_element().unwrap();
    (doc, r)
}

#[test]
fn child_axis_lists_children_in_order() {
    let (doc, r) = sample();
    assert_eq!(step(&doc, r, XPathAxis::Child, XPathNodeTest::Star), vec!["a", "b"]);
    let a = doc.first_child(r).unwrap();
    assert_eq!(xpath_axis_nodes(&doc, a, XPathAxis::Child, &XPathNodeTest::Node, &Vec::new()).len(), 2);
    assert_eq!(xpath_axis_nodes(&doc, a, XPathAxis::Child, &XPathNodeTest::Text, &Vec::new()).len(), 1);
}

#[test]
fn descendant_axis_is_in_document_order() {
    let (doc, r) = sample();
    assert_eq!(step(&doc, r, XPathAxis::Descendant, XPathNodeTest::Star), vec!["a", "c", "b"]);
    assert_eq!(step(&doc, r, XPathAxis::DescendantOrSelf, XPathNodeTest::Star), vec!["r", "a", "c", "b"]);
}

#[test]
fn ancestor_and_sibling_axes() {
    let (doc, r) = sample();
    let a = doc.first_child(r).unwrap();
    let c = doc.first_child(a).unwrap();
    let b = doc.next_sibling(a).unwrap();
    assert_eq!(step(&doc, c, XPathAxis::Ancestor, XPathNodeTest::Star), vec!["a", "r"]);
    assert_eq!(step(&doc, c, XPathAxis::AncestorOrSelf, XPathNodeTest::Star), vec!["c", "a", "r"]);
    assert_eq!(step(&doc, c, XPathAxis::Parent, XPathNodeTest::Star), vec!["a"]);
    assert_eq!(step(&doc, a, XPathAxis::FollowingSibling, XPathNodeTest::Star), vec!["b"]);
    assert_eq!(step(&doc, b, XPathAxis::PrecedingSibling, XPathNodeTest::Star), vec!["a"]);
    assert_eq!(step(&doc, c, XPathAxis::Following, XPathNodeTest::Star), vec!["b"]);
    assert_eq!(step(&doc, b, XPathAxis::Preceding, XPathNodeTest::Star), vec!["a", "c"]);
    assert_eq!(step(&doc, b, XPathAxis::SelfAxis, XPathNodeTest::Name("b".to_string(), None)), vec!["b"]);
    assert!(step(&doc, b, XPathAxis::SelfAxis, XPathNodeTest::Name("a".to_string(), None)).is_empty());
}

#[test]
fn attribute_axis_and_name_test() {
    let (doc, r) = sample();
    let b = doc.next_sibling(doc.first_child(r).unwrap()).unwrap();
    assert_eq!(step(&doc, b, XPathAxis::Attribute, XPathNodeTest::Star), vec!["x", "y"]);
    assert_eq!(step(&doc, b, XPathAxis::Attribute, XPathNodeTest::Name("y".to_string(), None)), vec!["y"]);
    assert!(step(&doc, b, XPathAxis::Child, XPathNodeTest::Star).is_empty());
}

#[test]
fn a_bare_ampersand_must_begin_a_reference_in_an_entity_value() {
    assert!(parse_dtd_subset("<!ENTITY e \"&49;\">", false).is_err());
    assert!(parse_dtd_subset("<!ENTITY e \"a&b\">", false).is_err());
    assert!(parse_dtd_subset("<!ENTITY e \"&#65;x\">", false).is_ok());
}

#[test]
fn attlist_records_an_enumeration_and_refuses_a_name_type() {
    let d = parse_dtd_subset("<!ATTLIST d a (foo|bar) #IMPLIED>", false).unwrap();
    assert_eq!(d.attributes.len(), 1);
    let (e, a, decl) = &d.attributes[0];
    assert_eq!((e.as_str(), a.as_str()), ("d", "a"));
    assert_eq!(decl.att_type, "ENUMERATION");
    assert_eq!(decl.enumerated, vec!["foo".to_string(), "bar".to_string()]);
    assert!(matches!(decl.default, AttrDefault::Implied));
    assert!(parse_dtd_subset("<!ATTLIST d a NAME #IMPLIED>", false).is_err());
    assert!(parse_dtd_subset("<!ATTLIST d a (foo,bar) #IMPLIED>", false).is_err());
}

#[test]
fn a_parameter_reference_inside_an_attribute_default_is_kept() {
    let d = parse_dtd_subset("<!ENTITY % e \"x\"><!ATTLIST d a CDATA \"%e;\">", false).unwrap();
    assert_eq!(d.attributes.len(), 1);
    assert_eq!(d.attributes[0].2.default_value.as_deref(), Some("%e;"));
    assert!(parse_dtd_subset("<!ENTITY % e \"x\"><!ENTITY f \"%e;\">", false).is_err());
}
