//! The library's laws on concrete values, and the edge cases of its helpers.

use rusty_xml::{
    decode_html_text, default_parse_options, is_name, is_nmtoken, match_children_model, parse_html_doctype,
    split_ws, str_before, trim, xml_c14n_1_0, xml_c14n_doc_dump_memory, xml_read_memory, xml_save_doc,
    xml_new_text_writer_memory, xml_xpath_cmp_nodes, xml_xpath_order_doc_elems, NodeId, NodeIter, Particle, XmlDoc,
    xml_reader_for_memory, parse_dtd_subset, ReaderType, XmlTextWriter, XmlXPathContext,
};

fn name(n: &str) -> Particle {
    Particle::Name(n.to_string())
}

fn kids(v: &[&str]) -> Vec<String> {
    v.iter().map(|s| s.to_string()).collect()
}

#[test]
fn a_sequence_matches_exactly_its_names_in_order() {
    let p = Particle::Cat(Box::new(name("a")), Box::new(name("b")));
    assert!(match_children_model(&p, &kids(&["a", "b"])));
    assert!(!match_children_model(&p, &kids(&["b", "a"])));
    assert!(!match_children_model(&p, &kids(&["a"])));
    assert!(!match_children_model(&p, &kids(&["a", "b", "b"])));
}

#[test]
fn repetition_and_options_follow_their_languages() {
    let star = Particle::Star(Box::new(Particle::Alt(Box::new(name("a")), Box::new(name("b")))));
    assert!(match_children_model(&star, &kids(&[])));
    assert!(match_children_model(&star, &kids(&["a", "b", "b", "a"])));
    assert!(!match_children_model(&star, &kids(&["a", "c"])));
    let plus = Particle::Plus(Box::new(name("a")));
    assert!(!match_children_model(&plus, &kids(&[])));
    assert!(match_children_model(&plus, &kids(&["a", "a", "a"])));
    let opt = Particle::Cat(Box::new(Particle::Opt(Box::new(name("a")))), Box::new(name("b")));
    assert!(match_children_model(&opt, &kids(&["b"])));
    assert!(match_children_model(&opt, &kids(&["a", "b"])));
    assert!(!match_children_model(&opt, &kids(&["a", "a", "b"])));
    // (a*)+ accepts the empty word: an iteration may match nothing.
    let nested = Particle::Plus(Box::new(Particle::Star(Box::new(name("a")))));
    assert!(match_children_model(&nested, &kids(&[])));
}

#[test]
fn setting_an_attribute_then_reading_it_gives_the_value() {
    let mut doc = xml_read_memory(b"<r a=\"old\"/>", None, None, default_parse_options()).unwrap();
    let root = doc.xml_doc_get_root_element().unwrap();
    doc.xml_set_prop(root, "a", "new");
    assert_eq!(doc.xml_get_prop(root, "a").as_deref(), Some("new"));
    doc.xml_set_prop(root, "b", "fresh");
    assert_eq!(doc.xml_get_prop(root, "b").as_deref(), Some("fresh"));
    assert_eq!(doc.xml_get_prop(root, "a").as_deref(), Some("new"));
}

#[test]
fn an_unlinked_node_is_detached_and_an_added_child_comes_last() {
    let mut doc = xml_read_memory(b"<r><a/><b/></r>", None, None, default_parse_options()).unwrap();
    let root = doc.xml_doc_get_root_element().unwrap();
    let a = doc.first_child(root).unwrap();
    doc.xml_unlink_node(a);
    assert_eq!(doc.parent(a), None);
    assert_eq!(doc.next_sibling(a), None);
    doc.xml_add_child(root, a);
    assert_eq!(doc.last_child(root), Some(a));
    assert_eq!(doc.parent(a), Some(root));
    let out = String::from_utf8(xml_save_doc(&doc, 0)).unwrap();
    assert!(out.contains("<r><b/><a/></r>"), "{out}");
}

#[test]
fn canonical_text_escapes_markup_and_carriage_returns() {
    let doc = xml_read_memory(b"<a k=\"1&#9;&lt;&quot;\">x&lt;y&gt;&#13;&amp;</a>", None, None, default_parse_options()).unwrap();
    let out = xml_c14n_1_0(&doc).unwrap();
    assert_eq!(String::from_utf8(out).unwrap(), "<a k=\"1&#x9;&lt;&quot;\">x&lt;y&gt;&#xD;&amp;</a>");
}

#[test]
fn canonical_attributes_and_namespaces_are_sorted() {
    let doc = xml_read_memory(
        b"<r xmlns:z=\"urn:z\" xmlns:a=\"urn:a\" b=\"2\" a=\"1\" z:c=\"3\" a:d=\"4\"/>",
        None,
        None,
        default_parse_options(),
    )
    .unwrap();
    let out = String::from_utf8(xml_c14n_doc_dump_memory(&doc, false, false).unwrap()).unwrap();
    assert_eq!(out, "<r xmlns:a=\"urn:a\" xmlns:z=\"urn:z\" a=\"1\" b=\"2\" a:d=\"4\" z:c=\"3\"></r>");
    let exc = String::from_utf8(xml_c14n_doc_dump_memory(&doc, true, false).unwrap()).unwrap();
    assert_eq!(exc, "<r xmlns:a=\"urn:a\" xmlns:z=\"urn:z\" a=\"1\" b=\"2\" a:d=\"4\" z:c=\"3\"></r>");
}

#[test]
fn exclusive_canonicalization_drops_unused_namespaces() {
    let doc = xml_read_memory(b"<r xmlns:u=\"urn:u\"><c/></r>", None, None, default_parse_options()).unwrap();
    let inc = String::from_utf8(xml_c14n_doc_dump_memory(&doc, false, false).unwrap()).unwrap();
    let exc = String::from_utf8(xml_c14n_doc_dump_memory(&doc, true, false).unwrap()).unwrap();
    assert_eq!(inc, "<r xmlns:u=\"urn:u\"><c></c></r>");
    assert_eq!(exc, "<r><c></c></r>");
}

#[test]
fn names_tokens_and_whitespace_splitting() {
    assert!(is_name("a:b.c-d_e"));
    assert!(!is_name("1abc"));
    assert!(!is_name(""));
    assert!(is_nmtoken("1abc"));
    assert!(!is_nmtoken("a b"));
    assert_eq!(split_ws("  a\tb\n\ncc  "), vec!["a".to_string(), "b".to_string(), "cc".to_string()]);
    assert!(split_ws(" \t ").is_empty());
}

#[test]
fn byte_order_of_strings() {
    assert!(str_before("a", "b"));
    assert!(str_before("", "a"));
    assert!(str_before("ab", "abc"));
    assert!(!str_before("abc", "ab"));
    assert!(!str_before("x", "x"));
    assert!(str_before("Z", "a"));
}

#[test]
fn trim_removes_unicode_whitespace_at_both_ends() {
    assert_eq!(trim("  a b \n"), "a b");
    assert_eq!(trim("\u{a0}x\u{3000}"), "x");
    assert_eq!(trim("   "), "");
}

#[test]
fn html_references_decode() {
    let cs: Vec<char> = "caf&eacute; &lt;&#65;&#x42;&amp AT&T &nope;".chars().collect();
    assert_eq!(decode_html_text(&cs), "caf\u{e9} <AB& AT&T &nope;");
}

#[test]
fn html_doctype_identifiers_split() {
    let d = parse_html_doctype(" html PUBLIC \"-//W3C//DTD HTML 4.01//EN\" 'http://www.w3.org/TR/html4/strict.dtd'");
    assert_eq!(d.name.as_deref(), Some("html"));
    assert_eq!(d.public_id.as_deref(), Some("-//W3C//DTD HTML 4.01//EN"));
    assert_eq!(d.system_id.as_deref(), Some("http://www.w3.org/TR/html4/strict.dtd"));
    let s = parse_html_doctype("html system \"x.dtd\"");
    assert_eq!(s.public_id, None);
    assert_eq!(s.system_id.as_deref(), Some("x.dtd"));
}

#[test]
fn document_order_and_node_comparison() {
    let doc = xml_read_memory(b"<r k=\"v\"><a/><b><c/></b></r>", None, None, default_parse_options()).unwrap();
    let order = xml_xpath_order_doc_elems(&doc);
    assert_eq!(order[0], NodeId::document());
    let root = doc.xml_doc_get_root_element().unwrap();
    assert_eq!(order[1], root);
    let names: Vec<String> = order.iter().skip(1).map(|n| doc.name(*n).to_string()).collect();
    assert_eq!(names, vec!["r", "k", "a", "b", "c"]);
    let a = doc.first_child(root).unwrap();
    let b = doc.next_sibling(a).unwrap();
    assert_eq!(xml_xpath_cmp_nodes(&doc, a, b), -1);
    assert_eq!(xml_xpath_cmp_nodes(&doc, b, a), 1);
    assert_eq!(xml_xpath_cmp_nodes(&doc, a, a), 0);
}

#[test]
fn an_xpath_context_starts_at_the_root() {
    let doc = xml_read_memory(b"<r><a/></r>", None, None, default_parse_options()).unwrap();
    let mut ctx = XmlXPathContext::xml_xpath_new_context(&doc);
    assert_eq!(ctx.node, doc.xml_doc_get_root_element().unwrap());
    assert_eq!((ctx.position, ctx.size), (1, 1));
    ctx.register_ns("p", "urn:one");
    ctx.register_ns("p", "urn:two");
    assert_eq!(ctx.lookup_ns("p").as_deref(), Some("urn:two"));
    assert_eq!(ctx.lookup_ns("q"), None);
    let a = doc.first_child(ctx.node).unwrap();
    ctx.xml_xpath_set_context_node(a);
    assert_eq!(ctx.node, a);
}

#[test]
fn a_node_cursor_hands_out_the_chain_in_order() {
    let doc = xml_read_memory(b"<r><a/>t<b/></r>", None, None, default_parse_options()).unwrap();
    let root = doc.xml_doc_get_root_element().unwrap();
    let mut it: NodeIter = doc.children_iter(root);
    let mut seen = Vec::new();
    while let Some(n) = it.next() {
        seen.push(doc.name(n).to_string());
    }
    assert_eq!(seen, vec!["a", "#text", "b"]);
    assert_eq!(it.next(), None);
}

#[test]
fn a_copied_document_serializes_the_same() {
    let doc: XmlDoc = xml_read_memory(b"<r x=\"1\"><a>t</a><!--c--></r>", None, None, default_parse_options()).unwrap();
    let copy = doc.xml_copy_doc();
    assert_eq!(xml_save_doc(&doc, 0), xml_save_doc(&copy, 0));
    assert_eq!(copy.len(), doc.len());
}

#[test]
fn the_text_writer_writes_exactly_what_it_is_told() {
    let mut w = XmlTextWriter::xml_new_text_writer_memory();
    w.start_document(None, Some("UTF-8"), Some("yes")).unwrap();
    w.start_element_ns(Some("p"), "a", Some("urn:x&y")).unwrap();
    w.write_attribute("k", "<\"v\">").unwrap();
    w.write_string("1 < 2 & 3").unwrap();
    assert!(w.write_attribute("late", "x").is_err());
    w.write_comment("c").unwrap();
    w.write_pi("t", Some("d")).unwrap();
    w.write_cdata("]]").unwrap();
    w.start_element("e").unwrap();
    w.end_document().unwrap();
    assert_eq!(
        w.as_str(),
        "<?xml version=\"1.0\" encoding=\"UTF-8\" standalone=\"yes\"?>\n\
         <p:a xmlns:p=\"urn:x&amp;y\" k=\"&lt;&quot;v&quot;&gt;\">1 &lt; 2 &amp; 3<!--c--><?t d?><![CDATA[]]]]><e/></p:a>\n"
    );
}

#[test]
fn the_text_writer_indents_nested_start_tags() {
    let mut w = xml_new_text_writer_memory();
    w.set_indent(true);
    w.start_element("a").unwrap();
    w.start_element("b").unwrap();
    w.end_element().unwrap();
    w.end_element().unwrap();
    assert_eq!(w.as_str(), "<a>\n  <b/></a>");
    assert!(w.end_element().is_err());
}

#[test]
fn ending_the_document_frame_is_refused() {
    let mut w = xml_new_text_writer_memory();
    w.start_document(Some("1.1"), None, None).unwrap();
    assert!(w.end_element().is_err());
    w.end_document().unwrap();
    assert_eq!(w.as_str(), "<?xml version=\"1.1\"?>\n");
}

#[test]
fn formatted_saving_indents_element_only_content() {
    let doc = xml_read_memory(b"<r><a><b/></a></r>", None, None, default_parse_options()).unwrap();
    let out = xml_save_doc(&doc, 1);
    assert_eq!(
        String::from_utf8(out).unwrap(),
        "<?xml version=\"1.0\"?>\n<r>\n  <a>\n    <b/>\n  </a>\n</r>\n"
    );
}

#[test]
fn mixed_content_is_saved_as_it_stands() {
    let doc = xml_read_memory(b"<r>t<a x='1&amp;2'/><!--c--><?p d?></r>", None, None, default_parse_options()).unwrap();
    let out = xml_save_doc(&doc, 1 | 2);
    assert_eq!(String::from_utf8(out).unwrap(), "<r>t<a x=\"1&amp;2\"/><!--c--><?p d?></r>\n");
}

#[test]
fn reader_depth_and_attributes_follow_the_cursor() {
    let mut r = xml_reader_for_memory(b"<a x='1' y='2'><b/></a>", None, None, default_parse_options()).unwrap();
    assert_eq!(r.read(), 1);
    assert_eq!(r.depth(), 0);
    assert_eq!(r.attribute_count(), 2);
    assert!(r.has_attributes());
    assert_eq!(r.get_attribute("y").as_deref(), Some("2"));
    assert_eq!(r.move_to_first_attribute(), 1);
    assert_eq!(r.value(), Some("1"));
    assert_eq!(r.move_to_next_attribute(), 1);
    assert_eq!(r.value(), Some("2"));
    assert_eq!(r.move_to_next_attribute(), 0);
    assert_eq!(r.read(), 1);
    assert_eq!(r.depth(), 1);
    assert_eq!(r.attribute_count(), 0);
    assert_eq!(r.read(), 1);
    assert_eq!(r.node_type(), ReaderType::EndElement);
    assert_eq!(r.read(), 0);
    assert_eq!(r.read(), 0);
}

#[test]
fn an_attribute_list_keeps_the_first_declaration_normalized() {
    let d = parse_dtd_subset("<!ATTLIST e a CDATA 'x\ty' a ID #IMPLIED b (p|q) #REQUIRED>", false).unwrap();
    assert_eq!(d.attributes.len(), 2);
    assert_eq!(d.attributes[0].1, "a");
    assert_eq!(d.attributes[0].2.att_type, "CDATA");
    assert_eq!(d.attributes[0].2.default_value.as_deref(), Some("x y"));
    assert_eq!(d.attributes[1].2.att_type, "ENUMERATION");
    assert_eq!(d.attributes[1].2.enumerated, vec!["p".to_string(), "q".to_string()]);
    assert!(d.attributes[1].2.default_value.is_none());
}
