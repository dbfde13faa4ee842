//! Canonical XML of parsed documents, at any depth.

use rusty_xml::{default_parse_options, xml_read_memory, xml_save_doc};

#[test]
fn m5_c14n_simple() {
    let doc = xml_read_memory(b"<a>x</a>", None, None, default_parse_options()).unwrap();
    let bytes = rusty_xml::xml_c14n_1_0(&doc).unwrap();
    assert_eq!(bytes, b"<a>x</a>");
}

#[test]
fn c14n_handles_any_depth_the_parser_accepts() {
    let deep = |n: usize| -> Vec<u8> {
        format!("<r>{}t{}</r>", "<a>".repeat(n), "</a>".repeat(n)).into_bytes()
    };
    for n in [1, 399, 400, 401, 4_000, 4_990] {
        let doc = xml_read_memory(&deep(n), None, None, default_parse_options()).unwrap();
        for exclusive in [false, true] {
            let out = rusty_xml::xml_c14n_doc_dump_memory(&doc, exclusive, true)
                .unwrap_or_else(|e| panic!("c14n failed at depth {n}: {e:?}"));
            // n nested <a> plus the root, opened and closed.
            assert_eq!(
                String::from_utf8_lossy(&out).matches("<a>").count(),
                n,
                "lost elements at depth {n}"
            );
        }
    }
}

#[test]
fn deep_tree_never_aborts_on_any_path() {
    let deep = |n: usize| -> Vec<u8> {
        format!("<r>{}t{}</r>", "<a x='1'>".repeat(n), "</a>".repeat(n)).into_bytes()
    };
    // Right under the parser's own limit: whatever it accepts, it must handle.
    let d = deep(4_990);
    let doc = xml_read_memory(&d, None, None, default_parse_options()).expect("parses");
    assert!(!xml_save_doc(&doc, 0).is_empty());
    assert!(!xml_save_doc(&doc, 1).is_empty(), "--format must not overflow either");
    // Canonicalization is iterative too now, so it simply works at depth.
    assert!(!rusty_xml::xml_c14n_doc_dump_memory(&doc, false, true).unwrap().is_empty());
    assert!(!rusty_xml::xml_c14n_doc_dump_memory(&doc, true, true).unwrap().is_empty());
    drop(doc); // recursive Drop would land here

    // HTML has no depth limit of its own; saving it must still be safe.
    let h = format!("<html><body>{}x{}</body></html>", "<div>".repeat(50_000), "</div>".repeat(50_000));
    let hdoc = rusty_xml::html_read_memory(h.as_bytes(), None, None, 0).expect("parses");
    assert!(!xml_save_doc(&hdoc, 0).is_empty());
}
