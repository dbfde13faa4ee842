# rusty_xml

An XML toolkit in the style of libxml2 — parsing (whole-buffer and push),
an arena document tree, serialization, DTD / RELAX NG / XSD validation,
canonical XML, XInclude, catalogs and a pull reader — whose logic is
written in Verus and verified.

## Layout

- `src/` — the library, every function of it verified:
  - `parse.rs`: the XML parser (prolog, start tags, content, references,
    entity expansion with depth and amplification bounds) and the push
    parser, which parses each chunk as it arrives;
  - `dtd.rs`: internal and external subsets, parameter entities, the
    entity graph; `valid.rs`: DTD validation;
  - `tree.rs`: the arena of nodes with its well-formedness invariant and
    the tree operations; `writer.rs`: serialization and the text writer;
  - `axes.rs`: XPath axes and node tests; `xpath.rs`: document order;
  - `c14n.rs`, `xinclude.rs`, `catalog.rs`, `rng.rs`, `xsd.rs`, `html.rs`,
    `reader.rs`, `encoding.rs`, `chvalid.rs`, `sax.rs`, `util.rs`, `error.rs`.
- `tests/` — tests of the library, run against the compiled crate.
- `app/` — the `xmllint`-like command line program: argument handling, file
  I/O, and the XPath evaluator and Schematron checks, whose values are
  floating-point numbers.

The trusted items are a handful of std wrappers (`String::push`,
`char::from_u32`, `str::from_utf8`, `String::from_utf8_lossy`, the text of
an `io::Error`); each states in its doc comment what it claims.
