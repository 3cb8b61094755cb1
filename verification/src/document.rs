//! Documents parsed by libxml2, queried with XPath or CSS selectors.
//!
//! Parsing, XPath evaluation and serialisation are libxml2's work, reached
//! through the `libxml` crate. This module decides what is handed to those
//! calls and what becomes of their results.
//!
//! libxml2 reads a document from its text alone, so everything it answers
//! about a document is a function of that text (and of which parser read
//! it): whether it parses, the nodes an XPath expression selects, and the
//! text, attributes and markup of each node. Those answers are named below,
//! over the text and over where a node stands in the document ([`NodeAt`]).
//! Where a node stands is recorded only by the calls that give out nodes.

use vstd::prelude::*;

use libxml::parser::{ParseFormat, Parser, ParserOptions, XmlParseError};
use libxml::tree::{Document, Node as TreeNode};
use libxml::xpath::{Context, Object};

use crate::css::ast::SpecParseError;
use crate::css::{spec_compile, CssSelector};

verus! {

/// A document tree held by libxml2.
#[verifier::external_type_specification]
#[verifier::external_body]
pub struct ExDocument(Document);

/// A node of a document tree held by libxml2.
#[verifier::external_type_specification]
#[verifier::external_body]
pub struct ExTreeNode(TreeNode);

/// An XPath evaluation context of libxml2.
#[verifier::external_type_specification]
#[verifier::external_body]
pub struct ExContext(Context);

/// The result object of an XPath evaluation by libxml2.
#[verifier::external_type_specification]
#[verifier::external_body]
pub struct ExObject(Object);

/// Why libxml2 gave no document.
#[verifier::external_type_specification]
#[verifier::external_body]
pub struct ExXmlParseError(XmlParseError);

/// Which of libxml2's parsers read a document.
pub enum DocKind {
    Html,
    Xml,
}

/// Where a node stands in a document: its root element, the `index`-th node
/// that an XPath expression selects, or the `index`-th child of a node.
pub enum Place {
    Root,
    Match(Seq<char>, nat),
    Child(Box<Place>, nat),
}

/// A node, as a plain value: the parser, the text the document was read
/// from, and where the node stands in it.
pub struct NodeAt {
    pub kind: DocKind,
    pub source: Seq<char>,
    pub place: Place,
}

/// The `index`-th child of the node at `at`.
pub open spec fn child_at(at: NodeAt, index: nat) -> NodeAt {
    NodeAt { kind: at.kind, source: at.source, place: Place::Child(Box::new(at.place), index) }
}

/// Whether libxml2's recovering HTML parser builds a document from the text.
pub uninterp spec fn html_read_succeeds(html: Seq<char>) -> bool;

/// Whether libxml2's strict XML parser builds a document from the text (it
/// does not for text that is not well formed).
pub uninterp spec fn xml_read_succeeds(xml: Seq<char>) -> bool;

/// Whether the document read from the text has a root element.
pub uninterp spec fn has_root(kind: DocKind, source: Seq<char>) -> bool;

/// Whether libxml2 makes an XPath context on the document read from the
/// text.
pub uninterp spec fn context_made(kind: DocKind, source: Seq<char>) -> bool;

/// Whether libxml2 evaluates the XPath expression on the document read from
/// the text (it does not, for instance, for text that is not an XPath
/// expression).
pub uninterp spec fn xpath_evaluates(kind: DocKind, source: Seq<char>, expr: Seq<char>) -> bool;

/// How many nodes libxml2's evaluation of the XPath expression on the
/// document read from the text selects.
pub uninterp spec fn xpath_count(kind: DocKind, source: Seq<char>, expr: Seq<char>) -> nat;

/// The text content of a node: its text and that of its descendants.
pub uninterp spec fn node_text(at: NodeAt) -> Seq<char>;

/// The value of a node's attribute, if it has one of that name.
pub uninterp spec fn node_attribute(at: NodeAt, name: Seq<char>) -> Option<Seq<char>>;

/// How many children a node has.
pub uninterp spec fn child_count(at: NodeAt) -> nat;

/// A node serialised as markup, without added formatting.
pub uninterp spec fn node_markup(at: NodeAt) -> Seq<char>;

/// A document read by libxml2, with the parser and the text it was read
/// from.
struct Parsed {
    doc: Document,
    kind: Ghost<DocKind>,
    source: Ghost<Seq<char>>,
}

/// Calls `Parser::default_html().parse_string`: libxml2's HTML parser in
/// recovering mode, with errors and warnings silenced. The claim: a document
/// comes back exactly when [`html_read_succeeds`] holds of the text.
#[verifier::external_body]
fn read_html(html: &str) -> (r: Result<Parsed, XmlParseError>)
    ensures
        r is Ok <==> html_read_succeeds(html@),
        r matches Ok(p) ==> p.kind@ == DocKind::Html && p.source@ == html@,
{
    match Parser::default_html().parse_string(html) {
        Ok(doc) => Ok(Parsed { doc, kind: Ghost(DocKind::Html), source: Ghost(html@) }),
        Err(e) => Err(e),
    }
}

/// Calls `Parser::parse_string_with_options` of an XML parser with every
/// option off: libxml2's strict XML parser. The claim: a document comes back
/// exactly when [`xml_read_succeeds`] holds of the text.
#[verifier::external_body]
fn read_xml(xml: &str) -> (r: Result<Parsed, XmlParseError>)
    ensures
        r is Ok <==> xml_read_succeeds(xml@),
        r matches Ok(p) ==> p.kind@ == DocKind::Xml && p.source@ == xml@,
{
    let parser = Parser { format: ParseFormat::XML };
    let options = ParserOptions { recover: false, no_error: false, no_warning: false, ..Default::default() };
    match parser.parse_string_with_options(xml, options) {
        Ok(doc) => Ok(Parsed { doc, kind: Ghost(DocKind::Xml), source: Ghost(xml@) }),
        Err(e) => Err(e),
    }
}

/// Calls `Document::get_root_element`, and keeps the document (`handle`, a
/// share of it) with the root. The claim: a root comes back exactly when
/// [`has_root`] holds, and it stands at the root of that document.
#[verifier::external_body]
fn root_element(p: &Parsed, handle: Document) -> (r: Option<Node>)
    requires
        handle == p.doc,
    ensures
        r is Some <==> has_root(p.kind@, p.source@),
        r matches Some(n) ==> n.doc == p.doc && n.at@ == (NodeAt {
            kind: p.kind@,
            source: p.source@,
            place: Place::Root,
        }),
{
    match p.doc.get_root_element() {
        Some(node) => Some(Node { node, doc: handle, at: Ghost(NodeAt { kind: p.kind@, source: p.source@, place: Place::Root }) }),
        None => None,
    }
}

/// An XPath context together with the document it was made on, which it
/// keeps alive.
struct QueryContext {
    doc: Document,
    ctx: Context,
    kind: Ghost<DocKind>,
    source: Ghost<Seq<char>>,
}

/// The result of an XPath evaluation, kept together with the context (and so
/// the document) it came from and the expression that was evaluated.
struct QueryResult {
    query: QueryContext,
    obj: Object,
    expr: Ghost<Seq<char>>,
}

/// The nodes of an XPath result, kept with the result that owns them.
struct Matches {
    result: QueryResult,
    nodes: Vec<TreeNode>,
}

/// Calls `Context::new` on the document and keeps the document (`handle`)
/// with the context. The claim: a context comes back exactly when
/// [`context_made`] holds, and it is on that document.
#[verifier::external_body]
fn new_context(p: &Parsed, handle: Document) -> (r: Result<QueryContext, ()>)
    requires
        handle == p.doc,
    ensures
        r is Ok <==> context_made(p.kind@, p.source@),
        r matches Ok(q) ==> q.doc == p.doc && q.kind == p.kind && q.source == p.source,
{
    match Context::new(&p.doc) {
        Ok(ctx) => Ok(QueryContext { doc: handle, ctx, kind: p.kind, source: p.source }),
        Err(()) => Err(()),
    }
}

/// Calls `Context::evaluate`, and keeps the result with the context. It
/// panics on an expression holding a NUL character, which `requires` leaves
/// out. The claim: a result comes back exactly when [`xpath_evaluates`]
/// holds, and it is the result of `expr` on the context's document.
#[verifier::external_body]
fn evaluate(query: QueryContext, expr: &str) -> (r: Result<QueryResult, ()>)
    requires
        !expr@.contains('\0'),
    ensures
        r is Ok <==> xpath_evaluates(query.kind@, query.source@, expr@),
        r matches Ok(res) ==> res.expr@ == expr@ && res.query.doc == query.doc && res.query.kind
            == query.kind && res.query.source == query.source,
{
    let outcome = query.ctx.evaluate(expr);
    match outcome {
        Ok(obj) => Ok(QueryResult { query, obj, expr: Ghost(expr@) }),
        Err(()) => Err(()),
    }
}

/// Calls `Object::get_nodes_as_vec` on a result whose document is held, and
/// keeps the nodes with the result. The claim: there are as many as
/// [`xpath_count`] gives.
#[verifier::external_body]
fn object_nodes(result: QueryResult) -> (r: Matches)
    ensures
        r.result == result,
        r.nodes.len() == xpath_count(result.query.kind@, result.query.source@, result.expr@),
{
    let nodes = result.obj.get_nodes_as_vec();
    Matches { result, nodes }
}

/// Calls `Clone::clone` of the `index`-th node of an XPath result (a shared
/// handle: the copy is the same node), with the document (`handle`). The
/// claim: it stands at that place among the matches of the result's
/// expression.
#[verifier::external_body]
fn match_node(m: &Matches, index: usize, handle: Document) -> (r: Node)
    requires
        index < m.nodes.len(),
        handle == m.result.query.doc,
    ensures
        r.node == m.nodes@[index as int],
        r.doc == handle,
        r.at@ == (NodeAt {
            kind: m.result.query.kind@,
            source: m.result.query.source@,
            place: Place::Match(m.result.expr@, index as nat),
        }),
{
    let node = m.nodes[index].clone();
    Node { node, doc: handle, at: Ghost(NodeAt { kind: m.result.query.kind@, source: m.result.query.source@, place: Place::Match(m.result.expr@, index as nat) }) }
}

/// The children of a node, kept with where the node stands.
struct Children {
    parent: Ghost<NodeAt>,
    doc: Ghost<Document>,
    nodes: Vec<TreeNode>,
}

/// Calls `Node::get_child_nodes` on a node whose document is held. The
/// claim: there are as many as [`child_count`] gives.
#[verifier::external_body]
fn child_nodes(n: &Node) -> (r: Children)
    ensures
        r.parent@ == n.at@,
        r.doc@ == n.doc,
        r.nodes.len() == child_count(n.at@),
{
    Children { parent: n.at, doc: Ghost(n.doc), nodes: n.node.get_child_nodes() }
}

/// Calls `Clone::clone` of the `index`-th child (a shared handle: the copy
/// is the same node), with the document (`handle`). The claim: it stands at
/// that place among the children of its parent.
#[verifier::external_body]
fn child_node(c: &Children, index: usize, handle: Document) -> (r: Node)
    requires
        index < c.nodes.len(),
        handle == c.doc@,
    ensures
        r.doc == handle,
        r.at@ == child_at(c.parent@, index as nat),
{
    let node = c.nodes[index].clone();
    Node { node, doc: handle, at: Ghost(child_at(c.parent@, index as nat)) }
}

/// Calls `Node::get_content` on a node whose document is held. The claim:
/// the text is [`node_text`] of the node.
#[verifier::external_body]
fn node_content(n: &Node) -> (r: String)
    ensures
        r@ == node_text(n.at@),
{
    n.node.get_content()
}

/// Calls `Node::get_property` on a node whose document is held. It panics on
/// a name holding a NUL character, which `requires` leaves out. The claim:
/// the value is [`node_attribute`] of the node.
#[verifier::external_body]
fn node_property(n: &Node, name: &str) -> (r: Option<String>)
    requires
        !name@.contains('\0'),
    ensures
        match r {
            Some(v) => node_attribute(n.at@, name@) == Some(v@),
            None => node_attribute(n.at@, name@) is None,
        },
{
    n.node.get_property(name)
}

/// Calls `Document::node_to_string` with the node's own document. The claim:
/// the text is [`node_markup`] of the node.
#[verifier::external_body]
fn markup_of(n: &Node) -> (r: String)
    ensures
        r@ == node_markup(n.at@),
{
    n.doc.node_to_string(&n.node)
}

/// Calls `Clone::clone` of `Document`, which shares the document (a
/// reference-counted handle): the copy is the same document.
#[verifier::external_body]
fn share_document(doc: &Document) -> (r: Document)
    ensures
        r == *doc,
{
    doc.clone()
}

/// Whether an XPath expression can be handed to libxml2 (it is passed as a C
/// string, so it holds no NUL character).
pub open spec fn passable(expr: Seq<char>) -> bool {
    !expr.contains('\0')
}

/// The XPath expression that selecting by CSS text evaluates.
pub open spec fn css_query(css: Seq<char>) -> Seq<char> {
    match spec_compile(css) {
        Ok(x) => x,
        Err(_) => Seq::empty(),
    }
}

/// Whether selecting by CSS text can go ahead: the text compiles to an XPath
/// expression that can be handed to libxml2.
pub open spec fn selectable(css: Seq<char>) -> bool {
    &&& spec_compile(css) is Ok
    &&& passable(css_query(css))
}

/// Selecting with a pre-compiled selector evaluates the XPath expression that
/// selecting with its CSS text evaluates, and either selection can go ahead
/// exactly when the other can.
pub proof fn lemma_compiled_selection_agrees(css: Seq<char>, xpath: Seq<char>)
    requires
        spec_compile(css) == Ok::<Seq<char>, SpecParseError>(xpath),
    ensures
        css_query(css) == xpath,
        selectable(css) <==> passable(xpath),
{
}

/// What a selection made by evaluating `expr` on the document read by `kind`
/// from `source` is: it was evaluated exactly when libxml2 makes a context and
/// evaluates the expression, and then it holds as many nodes as libxml2
/// selects (else none); its nodes stand at the matches of `expr` there.
pub open spec fn selection_of(sel: XPathSelection, kind: DocKind, source: Seq<char>, expr: Seq<char>) -> bool {
    &&& sel.query() == expr
    &&& sel.evaluated() <==> context_made(kind, source) && xpath_evaluates(kind, source, expr)
    &&& sel.matched().len() == if sel.evaluated() {
        xpath_count(kind, source, expr)
    } else {
        0
    }
    &&& sel.evaluated() ==> sel.kind() == kind && sel.source() == source
}

/// Two selections made by evaluating the same expression on documents read
/// from the same text by the same parser agree: both were evaluated or
/// neither, they hold as many nodes, and the node at each position stands at
/// the same place (so has the same text, attributes and markup).
pub proof fn lemma_same_query_same_selection(
    a: XPathSelection,
    b: XPathSelection,
    kind: DocKind,
    source: Seq<char>,
    expr: Seq<char>,
)
    requires
        selection_of(a, kind, source, expr),
        selection_of(b, kind, source, expr),
    ensures
        a.evaluated() == b.evaluated(),
        a.matched().len() == b.matched().len(),
        forall|i: nat| i < a.matched().len() ==> #[trigger] a.placed(i) == b.placed(i),
{
}

/// Evaluate `expr` on the document. The selection keeps libxml2's result
/// (and so the nodes it owns) alive; where libxml2 makes no context or does
/// not evaluate the expression, the selection is empty.
fn eval_xpath(p: &Parsed, expr: &str) -> (r: XPathSelection)
    requires
        passable(expr@),
    ensures
        selection_of(r, p.kind@, p.source@, expr@),
        r.document() == p.doc,
{
    match new_context(p, share_document(&p.doc)) {
        Ok(query) => match evaluate(query, expr) {
            Ok(result) => {
                let found = object_nodes(result);
                let doc = share_document(&found.result.query.doc);
                XPathSelection { found: Some(found), doc, query: Ghost(expr@) }
            },
            Err(_) => XPathSelection { found: None, doc: share_document(&p.doc), query: Ghost(expr@) },
        },
        Err(_) => XPathSelection { found: None, doc: share_document(&p.doc), query: Ghost(expr@) },
    }
}

/// Select by CSS text on the document.
fn select_css(p: &Parsed, css: &str) -> (r: XPathSelection)
    requires
        selectable(css@),
    ensures
        selection_of(r, p.kind@, p.source@, css_query(css@)),
        r.document() == p.doc,
{
    let sel = CssSelector::compile(css).unwrap();
    eval_xpath(p, sel.as_xpath())
}

/// Select by CSS text on the document, or give the error of CSS text that
/// does not compile; `None` where the text compiles to an expression that
/// cannot be handed to libxml2.
fn try_select_css(p: &Parsed, css: &str) -> (r: Option<Result<XPathSelection, crate::css::ParseError>>)
    ensures
        match r {
            Some(Ok(sel)) => selectable(css@) && selection_of(sel, p.kind@, p.source@, css_query(css@))
                && sel.document() == p.doc,
            Some(Err(e)) => spec_compile(css@) == Err::<Seq<char>, SpecParseError>(e@),
            None => spec_compile(css@) is Ok && !passable(css_query(css@)),
        },
{
    match CssSelector::compile(css) {
        Err(e) => Some(Err(e)),
        Ok(sel) => {
            if has_nul(sel.as_xpath()) {
                None
            } else {
                Some(Ok(eval_xpath(p, sel.as_xpath())))
            }
        },
    }
}

/// Whether the text holds a NUL character.
fn has_nul(s: &str) -> (r: bool)
    ensures
        r == s@.contains('\0'),
{
    let chars = crate::css::text::chars_of(s);
    crate::css::text::has_char(&chars, '\0')
}

/// An HTML document parsed by libxml2.
pub struct HtmlDocument {
    parsed: Parsed,
}

impl HtmlDocument {
    /// The document tree.
    pub closed spec fn document(&self) -> Document {
        self.parsed.doc
    }

    /// The text the document was parsed from.
    pub closed spec fn source(&self) -> Seq<char> {
        self.parsed.source@
    }

    /// The parser that read the document.
    pub closed spec fn kind(&self) -> DocKind {
        self.parsed.kind@
    }

    /// Parse HTML text with libxml2's recovering HTML parser; `None` where
    /// libxml2 gives no document.
    pub fn new(html: &str) -> (r: Option<Self>)
        ensures
            r is Some <==> html_read_succeeds(html@),
            r matches Some(d) ==> d.source() == html@ && d.kind() == DocKind::Html,
    {
        match read_html(html) {
            Ok(parsed) => Some(HtmlDocument { parsed }),
            Err(_) => None,
        }
    }

    /// The root element, if the document has one.
    pub fn root(&self) -> (r: Option<Node>)
        ensures
            r is Some <==> has_root(self.kind(), self.source()),
            r matches Some(n) ==> n.document() == self.document() && n@ == (NodeAt {
                kind: self.kind(),
                source: self.source(),
                place: Place::Root,
            }),
    {
        root_element(&self.parsed, share_document(&self.parsed.doc))
    }

    /// Select elements matching a CSS selector string.
    ///
    /// This compiles the CSS selector to XPath and evaluates it. For a
    /// selector run against several documents, compile it once with
    /// [`CssSelector::compile`] and use [`HtmlDocument::select_compiled`].
    /// The selector must be valid (see [`HtmlDocument::try_select`]).
    pub fn select(&self, css: &str) -> (r: XPathSelection)
        requires
            selectable(css@),
        ensures
            selection_of(r, self.kind(), self.source(), css_query(css@)),
            r.document() == self.document(),
    {
        select_css(&self.parsed, css)
    }

    /// Like [`HtmlDocument::select`], but gives the error of CSS text that does not
    /// compile, and `None` for text that compiles to an expression holding a
    /// NUL character.
    pub fn try_select(&self, css: &str) -> (r: Option<Result<XPathSelection, crate::css::ParseError>>)
        ensures
            match r {
                Some(Ok(sel)) => selectable(css@) && selection_of(
                    sel,
                    self.kind(),
                    self.source(),
                    css_query(css@),
                ) && sel.document() == self.document(),
                Some(Err(e)) => spec_compile(css@) == Err::<Seq<char>, SpecParseError>(e@),
                None => spec_compile(css@) is Ok && !passable(css_query(css@)),
            },
    {
        try_select_css(&self.parsed, css)
    }

    /// Select elements using a pre-compiled [`CssSelector`].
    pub fn select_compiled(&self, sel: &CssSelector) -> (r: XPathSelection)
        requires
            passable(sel@.1),
        ensures
            selection_of(r, self.kind(), self.source(), sel@.1),
            r.document() == self.document(),
    {
        eval_xpath(&self.parsed, sel.as_xpath())
    }

    /// Evaluate an XPath expression on the document. An expression that
    /// libxml2 does not evaluate gives an empty selection.
    pub fn xpath(&self, expr: &str) -> (r: XPathSelection)
        requires
            passable(expr@),
        ensures
            selection_of(r, self.kind(), self.source(), expr@),
            r.document() == self.document(),
    {
        eval_xpath(&self.parsed, expr)
    }
}

/// An XML document parsed by libxml2.
///
/// Like [`HtmlDocument`] but parsed by the strict XML parser, so the text
/// must be well-formed XML.
pub struct XmlDocument {
    parsed: Parsed,
}

impl XmlDocument {
    /// The document tree.
    pub closed spec fn document(&self) -> Document {
        self.parsed.doc
    }

    /// The text the document was parsed from.
    pub closed spec fn source(&self) -> Seq<char> {
        self.parsed.source@
    }

    /// The parser that read the document.
    pub closed spec fn kind(&self) -> DocKind {
        self.parsed.kind@
    }

    /// Parse XML text; `None` where libxml2 gives no document (for instance
    /// text that is not well-formed XML).
    pub fn from_string(xml: &str) -> (r: Option<Self>)
        ensures
            r is Some <==> xml_read_succeeds(xml@),
            r matches Some(d) ==> d.source() == xml@ && d.kind() == DocKind::Xml,
    {
        match read_xml(xml) {
            Ok(parsed) => Some(XmlDocument { parsed }),
            Err(_) => None,
        }
    }

    /// The root element, if the document has one.
    pub fn root(&self) -> (r: Option<Node>)
        ensures
            r is Some <==> has_root(self.kind(), self.source()),
            r matches Some(n) ==> n.document() == self.document() && n@ == (NodeAt {
                kind: self.kind(),
                source: self.source(),
                place: Place::Root,
            }),
    {
        root_element(&self.parsed, share_document(&self.parsed.doc))
    }

    /// Select elements matching a CSS selector string.
    ///
    /// This compiles the CSS selector to XPath and evaluates it. For a
    /// selector run against several documents, compile it once with
    /// [`CssSelector::compile`] and use [`XmlDocument::select_compiled`].
    /// The selector must be valid (see [`XmlDocument::try_select`]).
    pub fn select(&self, css: &str) -> (r: XPathSelection)
        requires
            selectable(css@),
        ensures
            selection_of(r, self.kind(), self.source(), css_query(css@)),
            r.document() == self.document(),
    {
        select_css(&self.parsed, css)
    }

    /// Like [`XmlDocument::select`], but gives the error of CSS text that does not
    /// compile, and `None` for text that compiles to an expression holding a
    /// NUL character.
    pub fn try_select(&self, css: &str) -> (r: Option<Result<XPathSelection, crate::css::ParseError>>)
        ensures
            match r {
                Some(Ok(sel)) => selectable(css@) && selection_of(
                    sel,
                    self.kind(),
                    self.source(),
                    css_query(css@),
                ) && sel.document() == self.document(),
                Some(Err(e)) => spec_compile(css@) == Err::<Seq<char>, SpecParseError>(e@),
                None => spec_compile(css@) is Ok && !passable(css_query(css@)),
            },
    {
        try_select_css(&self.parsed, css)
    }

    /// Select elements using a pre-compiled [`CssSelector`].
    pub fn select_compiled(&self, sel: &CssSelector) -> (r: XPathSelection)
        requires
            passable(sel@.1),
        ensures
            selection_of(r, self.kind(), self.source(), sel@.1),
            r.document() == self.document(),
    {
        eval_xpath(&self.parsed, sel.as_xpath())
    }

    /// Evaluate an XPath expression on the document. An expression that
    /// libxml2 does not evaluate gives an empty selection.
    pub fn xpath(&self, expr: &str) -> (r: XPathSelection)
        requires
            passable(expr@),
        ensures
            selection_of(r, self.kind(), self.source(), expr@),
            r.document() == self.document(),
    {
        eval_xpath(&self.parsed, expr)
    }
}

/// The nodes that an XPath expression selected in a document.
pub struct XPathSelection {
    found: Option<Matches>,
    doc: Document,
    query: Ghost<Seq<char>>,
}

impl XPathSelection {
    /// Whether libxml2 made a context and evaluated the expression.
    pub closed spec fn evaluated(&self) -> bool {
        self.found is Some
    }

    /// The selected nodes, in libxml2's order.
    pub closed spec fn matched(&self) -> Seq<TreeNode> {
        match self.found {
            Some(m) => m.nodes@,
            None => seq![],
        }
    }

    /// The document the selection was made in.
    pub closed spec fn document(&self) -> Document {
        match self.found {
            Some(m) => m.result.query.doc,
            None => self.doc,
        }
    }

    /// The XPath expression handed to libxml2.
    pub closed spec fn query(&self) -> Seq<char> {
        match self.found {
            Some(m) => m.result.expr@,
            None => self.query@,
        }
    }

    /// The parser that read the document evaluated on.
    pub closed spec fn kind(&self) -> DocKind {
        match self.found {
            Some(m) => m.result.query.kind@,
            None => DocKind::Html,
        }
    }

    /// The text of the document evaluated on.
    pub closed spec fn source(&self) -> Seq<char> {
        match self.found {
            Some(m) => m.result.query.source@,
            None => seq![],
        }
    }

    /// Where the node at position `i` of the selection stands: the `i`-th
    /// match of the query in the document.
    pub open spec fn placed(&self, i: nat) -> NodeAt {
        NodeAt { kind: self.kind(), source: self.source(), place: Place::Match(self.query(), i) }
    }

    /// The number of selected nodes.
    pub fn len(&self) -> (r: usize)
        ensures
            r == self.matched().len(),
    {
        match &self.found {
            Some(m) => m.nodes.len(),
            None => 0,
        }
    }

    /// Whether no node was selected.
    pub fn is_empty(&self) -> (r: bool)
        ensures
            r == (self.matched().len() == 0),
    {
        self.len() == 0
    }

    /// The selected nodes one by one, from the first.
    pub fn iter(&self) -> (r: NodeIter<'_>)
        ensures
            r.selection() == self,
            r.position() == 0,
    {
        NodeIter { sel: self, index: 0 }
    }
}

/// A node of a parsed document.
pub struct Node {
    node: TreeNode,
    doc: Document,
    at: Ghost<NodeAt>,
}

impl View for Node {
    /// Where the node stands, in which document.
    type V = NodeAt;

    closed spec fn view(&self) -> NodeAt {
        self.at@
    }
}

impl Node {
    /// The document the node belongs to.
    pub closed spec fn document(&self) -> Document {
        self.doc
    }

    /// The node of libxml2's tree that this is.
    pub closed spec fn tree_node(&self) -> TreeNode {
        self.node
    }

    /// The text of the node and of its descendants.
    pub fn text_content(&self) -> (r: Option<String>)
        ensures
            r matches Some(t) && t@ == node_text(self@),
    {
        Some(node_content(self))
    }

    /// The value of the named attribute, if the node has it; `None` for a
    /// name holding a NUL character.
    pub fn get_attribute(&self, name: &str) -> (r: Option<String>)
        ensures
            name@.contains('\0') ==> r is None,
            !name@.contains('\0') ==> match r {
                Some(v) => node_attribute(self@, name@) == Some(v@),
                None => node_attribute(self@, name@) is None,
            },
    {
        if has_nul(name) {
            None
        } else {
            node_property(self, name)
        }
    }

    /// The markup of the node's children, one after the other in document
    /// order.
    pub fn inner_html(&self) -> (r: String)
        ensures
            r@ == joined(children_markup(self@)),
    {
        let kids = child_nodes(self);
        let ghost want = children_markup(self@);
        let mut parts: Vec<String> = Vec::new();
        let mut i: usize = 0;
        while i < kids.nodes.len()
            invariant
                i <= kids.nodes.len(),
                kids.nodes.len() == child_count(self@),
                kids.parent@ == self@,
                kids.doc@ == self.doc,
                want == children_markup(self@),
                parts@.map_values(|p: String| p@) == want.take(i as int),
            decreases kids.nodes.len() - i,
        {
            let child = child_node(&kids, i, share_document(&self.doc));
            let text = markup_of(&child);
            let ghost before = parts@.map_values(|p: String| p@);
            parts.push(text);
            proof {
                assert(parts@.map_values(|p: String| p@) =~= before.push(text@));
                assert(want.take(i + 1) =~= want.take(i as int).push(want[i as int]));
            }
            i += 1;
        }
        assert(want.take(want.len() as int) =~= want);
        join_texts(&parts)
    }
}

/// The markup of each child of the node at `at`, in order.
pub open spec fn children_markup(at: NodeAt) -> Seq<Seq<char>> {
    Seq::new(child_count(at), |j: int| node_markup(child_at(at, j as nat)))
}

/// The texts one after the other.
pub open spec fn joined(texts: Seq<Seq<char>>) -> Seq<char>
    decreases texts.len(),
{
    if texts.len() == 0 {
        seq![]
    } else {
        joined(texts.drop_last()) + texts.last()
    }
}

/// The texts of `parts` one after the other.
pub fn join_texts(parts: &Vec<String>) -> (r: String)
    ensures
        r@ == joined(parts@.map_values(|p: String| p@)),
{
    let mut s = String::new();
    let mut i: usize = 0;
    while i < parts.len()
        invariant
            i <= parts.len(),
            s@ == joined(parts@.take(i as int).map_values(|p: String| p@)),
        decreases parts.len() - i,
    {
        let ghost before = parts@.take(i as int).map_values(|p: String| p@);
        s.append(parts[i].as_str());
        proof {
            let after = parts@.take(i + 1).map_values(|p: String| p@);
            assert(after.drop_last() =~= before);
            assert(after.last() == parts@[i as int]@);
        }
        i += 1;
    }
    assert(parts@.take(parts.len() as int) =~= parts@);
    s
}

/// One step of a walk: `after` walks the same selection as `before`; while
/// nodes are left, the step hands out the next matched node (of the
/// selection's document, standing at that match) and moves on by one; after
/// the last it hands out nothing and stays.
pub open spec fn walk_step<'a>(before: NodeIter<'a>, r: Option<Node>, after: NodeIter<'a>) -> bool {
    let sel = before.selection();
    &&& after.selection() == sel
    &&& before.position() < sel.matched().len() ==> {
        &&& r matches Some(n)
        &&& n.tree_node() == sel.matched()[before.position() as int]
        &&& n.document() == sel.document()
        &&& n@ == sel.placed(before.position())
        &&& after.position() == before.position() + 1
    }
    &&& before.position() >= sel.matched().len() ==> {
        &&& r is None
        &&& after.position() == before.position()
    }
}

proof fn lemma_walk_positions<'a>(its: Seq<NodeIter<'a>>, outs: Seq<Option<Node>>, k: int)
    requires
        its.len() == outs.len() + 1,
        its[0].position() == 0,
        forall|i: int| 0 <= i < outs.len() ==> walk_step(its[i], #[trigger] outs[i], its[i + 1]),
        0 <= k <= outs.len(),
    ensures
        its[k].selection() == its[0].selection(),
        its[k].position() == if k < its[0].selection().matched().len() {
            k
        } else {
            its[0].selection().matched().len() as int
        },
    decreases k,
{
    if k > 0 {
        lemma_walk_positions(its, outs, k - 1);
        assert(walk_step(its[k - 1], outs[k - 1], its[k]));
    }
}

/// A walk from the start hands out the matched nodes of its selection, in
/// order and each standing at its match, one per step, and then nothing on every later step: it yields
/// exactly as many nodes as the selection's `len()`.
pub proof fn lemma_walk_yields_matches<'a>(its: Seq<NodeIter<'a>>, outs: Seq<Option<Node>>)
    requires
        its.len() == outs.len() + 1,
        its[0].position() == 0,
        forall|i: int| 0 <= i < outs.len() ==> walk_step(its[i], #[trigger] outs[i], its[i + 1]),
    ensures
        forall|i: int|
            0 <= i < outs.len() ==> {
                let sel = its[0].selection();
                &&& i < sel.matched().len() ==> ((#[trigger] outs[i]) matches Some(n)
                    && n.tree_node() == sel.matched()[i] && n@ == sel.placed(i as nat))
                &&& i >= sel.matched().len() ==> outs[i] is None
            },
{
    assert forall|i: int| 0 <= i < outs.len() implies {
        let sel = its[0].selection();
        &&& i < sel.matched().len() ==> ((#[trigger] outs[i]) matches Some(n)
            && n.tree_node() == sel.matched()[i] && n@ == sel.placed(i as nat))
        &&& i >= sel.matched().len() ==> outs[i] is None
    } by {
        lemma_walk_positions(its, outs, i);
        assert(walk_step(its[i], outs[i], its[i + 1]));
    }
}

/// The nodes of a selection one by one.
pub struct NodeIter<'a> {
    sel: &'a XPathSelection,
    index: usize,
}

impl<'a> NodeIter<'a> {
    /// The selection walked.
    pub closed spec fn selection(&self) -> &'a XPathSelection {
        self.sel
    }

    /// How many nodes have been handed out.
    pub closed spec fn position(&self) -> nat {
        self.index as nat
    }

    /// The next node, or `None` once every node was handed out (see
    /// [`walk_step`]).
    pub fn next(&mut self) -> (r: Option<Node>)
        ensures
            walk_step(*old(self), r, *final(self)),
    {
        match &self.sel.found {
            Some(m) => {
                if self.index >= m.nodes.len() {
                    return None;
                }
                let handle = share_document(&m.result.query.doc);
                let n = match_node(m, self.index, handle);
                self.index = self.index + 1;
                Some(n)
            },
            None => None,
        }
    }

    /// How many nodes are still to come, as a lower and an exact upper bound.
    pub fn size_hint(&self) -> (r: (usize, Option<usize>))
        ensures
            r.0 == if self.position() < self.selection().matched().len() {
                self.selection().matched().len() - self.position()
            } else {
                0
            },
            r.1 == Some(r.0),
    {
        let total = self.sel.len();
        let left = if self.index >= total {
            0
        } else {
            total - self.index
        };
        (left, Some(left))
    }

    /// How many nodes are still to come; consumes the walk.
    pub fn count(self) -> (r: usize)
        ensures
            r == if self.position() < self.selection().matched().len() {
                self.selection().matched().len() - self.position()
            } else {
                0
            },
    {
        let total = self.sel.len();
        if self.index >= total {
            0
        } else {
            total - self.index
        }
    }
}

} // verus!
