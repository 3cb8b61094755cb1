# rlibxml

HTML/XML documents parsed by libxml2 (through the `libxml` crate), queried
with XPath 1.0 or with CSS selectors compiled to XPath.

Layout:

- `src/css/` — the CSS selector engine: tokenizer, parser and XPath
  compiler, each with a specification (`syntax.rs`, `xpath_spec.rs`) that
  the executable code is proved against, the fast path for simple selectors
  (`fast.rs`, proved to agree with the full pipeline) and the meaning of the
  XPath string literals it builds (`literal.rs`).
- `src/document.rs` — documents, selections and nodes; the calls into
  libxml2 stand behind small trusted wrappers.
- `src/error.rs` — libxml2 error records and their text.
- `app/` — reading libxml2's thread-local error state, which needs its C
  interface.
- `tests/` — the behaviour on concrete selectors and documents.
