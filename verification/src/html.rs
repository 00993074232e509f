//! Common helpers for the help pages: cutting a page into chapters, the text
//! of a fragment, and a fragment rendered as Markdown.
//!
//! Parsing HTML is `scraper`'s work. What the library reads of a parsed page
//! comes back from a few trusted calls as plain values (the children of the
//! body, the text nodes, the open/close edges of a walk over the tree, the
//! elements a selector matches); everything done with them is verified here.
use vstd::prelude::*;

use ego_tree::iter::Edge;
use scraper::{ElementRef, Html, Node, Selector};

use crate::expression::opt_view;
pub use crate::text::collapse_whitespace;
use crate::seqs::lemma_deep_view_push;
use crate::text::{
    ascii_lowercase_seq, collapse_chars, collapse_ws, push_chars, push_str_chars, str_eq,
    string_from_chars, to_ascii_lowercase, trim, trim_vec, chars_of,
};

verus! {

// ---------------------------------------------------------------------------
// What the parser hands back
// ---------------------------------------------------------------------------

/// A child node of an element, as the chapter splitter reads it.
#[derive(Debug, Clone)]
pub enum BodyNode {
    /// An element: its name, the value of the attribute asked for, the text
    /// of its descendants and its serialised html.
    Element { name: String, attr: Option<String>, text: String, html: String },
    /// A text node.
    Text(String),
    /// A comment, a doctype or another node without text.
    Other,
}

pub enum BodyNodeModel {
    Element { name: Seq<char>, attr: Option<Seq<char>>, text: Seq<char>, html: Seq<char> },
    Text(Seq<char>),
    Other,
}

impl DeepView for BodyNode {
    type V = BodyNodeModel;

    open spec fn deep_view(&self) -> BodyNodeModel {
        match self {
            BodyNode::Element { name, attr, text, html } => BodyNodeModel::Element {
                name: name@,
                attr: opt_view(*attr),
                text: text@,
                html: html@,
            },
            BodyNode::Text(t) => BodyNodeModel::Text(t@),
            BodyNode::Other => BodyNodeModel::Other,
        }
    }
}

/// One edge of a depth-first walk over a parsed fragment.
#[derive(Debug, Clone)]
pub enum HtmlEvent {
    /// An element is entered: its name and the value of the attribute asked for.
    Open { name: String, attr: Option<String> },
    /// An element is left.
    Close(String),
    /// A text node.
    Text(String),
    /// Any other edge (the document itself, comments, the end of a text node).
    Other,
}

pub enum HtmlEventModel {
    Open { name: Seq<char>, attr: Option<Seq<char>> },
    Close(Seq<char>),
    Text(Seq<char>),
    Other,
}

impl DeepView for HtmlEvent {
    type V = HtmlEventModel;

    open spec fn deep_view(&self) -> HtmlEventModel {
        match self {
            HtmlEvent::Open { name, attr } => HtmlEventModel::Open { name: name@, attr: opt_view(*attr) },
            HtmlEvent::Close(n) => HtmlEventModel::Close(n@),
            HtmlEvent::Text(t) => HtmlEventModel::Text(t@),
            HtmlEvent::Other => HtmlEventModel::Other,
        }
    }
}

/// The selectors the library hands to `scraper::Selector::parse`; each of them
/// parses.
pub open spec fn known_selector(s: Seq<char>) -> bool {
    s == "body"@ || s == "p.V8SH_heading"@ || s == "p.V8SH_title"@ || s == "div.V8SH_rubric"@
        || s == "a"@
}

/// The children of the first element that `selector` matches in `html`
/// parsed as a whole document (`None` when nothing matches), each with the
/// value of attribute `attr`.
pub uninterp spec fn document_children(html: Seq<char>, selector: Seq<char>, attr: Seq<char>) -> Option<Seq<BodyNodeModel>>;

/// The text of each node of `html` parsed as a fragment (`None` for a node
/// that is not text), in the order the tree stores its nodes.
pub uninterp spec fn fragment_node_texts(html: Seq<char>) -> Seq<Option<Seq<char>>>;

/// The edges of a depth-first walk over `html` parsed as a fragment, elements
/// with the value of attribute `attr`.
pub uninterp spec fn fragment_traversal(html: Seq<char>, attr: Seq<char>) -> Seq<HtmlEventModel>;

/// The elements that `selector` matches in `html` parsed as a fragment, in
/// document order: the text of each and the value of attribute `attr`.
pub uninterp spec fn fragment_selection(html: Seq<char>, selector: Seq<char>, attr: Seq<char>) -> Seq<(Seq<char>, Option<Seq<char>>)>;

/// Calls `Html::parse_document`, `Selector::parse`, `Html::select` and, on the
/// first match, `ElementRef::children`; an element child is read with
/// `Element::name`, `Element::attr`, `ElementRef::text` and `ElementRef::html`.
/// Trusted: the result is `document_children` of the arguments; a known
/// selector parses, so `unwrap` does not panic.
#[verifier::external_body]
fn select_children(html: &str, selector: &str, attr: &str) -> (r: Option<Vec<BodyNode>>)
    requires
        known_selector(selector@),
    ensures
        match document_children(html@, selector@, attr@) {
            Some(s) => r matches Some(v) && v.deep_view() == s,
            None => r is None,
        },
{
    let doc = Html::parse_document(html);
    let sel = Selector::parse(selector).unwrap();
    let first = doc.select(&sel).next()?;
    let mut out = Vec::new();
    for child in first.children() {
        out.push(match (ElementRef::wrap(child), child.value()) {
            (Some(e), _) => BodyNode::Element { name: e.value().name().to_string(), attr: e.value().attr(attr).map(String::from), text: e.text().collect(), html: e.html() },
            (None, Node::Text(t)) => BodyNode::Text(t.to_string()),
            _ => BodyNode::Other,
        });
    }
    Some(out)
}

/// Calls `Html::parse_fragment` and walks `Tree::nodes`, taking the text of
/// each text node. Trusted: the result is `fragment_node_texts` of the html.
#[verifier::external_body]
fn fragment_texts(html: &str) -> (r: Vec<Option<String>>)
    ensures
        r.deep_view() == fragment_node_texts(html@),
{
    let doc = Html::parse_fragment(html);
    let mut out = Vec::new();
    for node in doc.tree.nodes() {
        out.push(node.value().as_text().map(|t| t.to_string()));
    }
    out
}

/// Calls `Html::parse_fragment` and `NodeRef::traverse` from the root, reading
/// elements with `Element::name` and `Element::attr`. Trusted: the result is
/// `fragment_traversal` of the arguments.
#[verifier::external_body]
fn fragment_edges(html: &str, attr: &str) -> (r: Vec<HtmlEvent>)
    ensures
        r.deep_view() == fragment_traversal(html@, attr@),
{
    let doc = Html::parse_fragment(html);
    let mut out = Vec::new();
    for edge in doc.tree.root().traverse() {
        let (open, n) = match edge { Edge::Open(n) => (true, n), Edge::Close(n) => (false, n) };
        out.push(match (n.value(), open) {
            (Node::Element(e), true) => HtmlEvent::Open { name: e.name().to_string(), attr: e.attr(attr).map(String::from) },
            (Node::Element(e), false) => HtmlEvent::Close(e.name().to_string()),
            (Node::Text(t), true) => HtmlEvent::Text(t.to_string()),
            _ => HtmlEvent::Other,
        });
    }
    out
}

/// Calls `Html::parse_fragment`, `Selector::parse` and `Html::select`, reading
/// each match with `ElementRef::text` and `Element::attr`. Trusted: the result
/// is `fragment_selection` of the arguments; a known selector parses.
#[verifier::external_body]
pub(crate) fn select_in_fragment(html: &str, selector: &str, attr: &str) -> (r: Vec<(String, Option<String>)>)
    requires
        known_selector(selector@),
    ensures
        r.deep_view() == fragment_selection(html@, selector@, attr@),
{
    let doc = Html::parse_fragment(html);
    let sel = Selector::parse(selector).unwrap();
    let mut out = Vec::new();
    for e in doc.select(&sel) {
        out.push((e.text().collect(), e.value().attr(attr).map(String::from)));
    }
    out
}

// ---------------------------------------------------------------------------
// Chapters
// ---------------------------------------------------------------------------

/// A chapter of a help page: the title of its marker and the serialised html
/// of the nodes up to the next marker.
#[derive(Debug, Clone)]
pub struct Chapter {
    /// Text of the `<p class="V8SH_chapter">` marker; empty for the first
    /// chapter (the head of the page, before any marker) and for `<hr>`.
    pub title: String,
    /// Serialised html of the nodes of the chapter, the marker excluded.
    pub body_html: String,
}

impl DeepView for Chapter {
    type V = (Seq<char>, Seq<char>);

    open spec fn deep_view(&self) -> (Seq<char>, Seq<char>) {
        (self.title@, self.body_html@)
    }
}

/// `<hr>`, or `<p>` whose class is `V8SH_chapter` (names compared in ASCII lowercase).
pub open spec fn is_chapter_marker(n: BodyNodeModel) -> bool {
    match n {
        BodyNodeModel::Element { name, attr, .. } => ascii_lowercase_seq(name) == "hr"@ || (
        ascii_lowercase_seq(name) == "p"@ && attr == Some("V8SH_chapter"@)),
        _ => false,
    }
}

/// The title a marker gives its chapter: its text, trimmed and collapsed.
pub open spec fn marker_title(n: BodyNodeModel) -> Seq<char> {
    match n {
        BodyNodeModel::Element { text, .. } => collapse_ws(trim(text)),
        _ => Seq::empty(),
    }
}

/// What a node adds to the body of its chapter.
pub open spec fn node_html(n: BodyNodeModel) -> Option<Seq<char>> {
    match n {
        BodyNodeModel::Element { html, .. } => Some(html),
        BodyNodeModel::Text(t) => Some(t),
        BodyNodeModel::Other => None,
    }
}

/// The chapters of a sequence of body nodes: one to start with, one more at
/// each marker; every other node is appended to the body of the last one.
pub open spec fn chapters_of_nodes(ns: Seq<BodyNodeModel>) -> Seq<(Seq<char>, Seq<char>)>
    decreases ns.len(),
{
    if ns.len() == 0 {
        seq![(Seq::<char>::empty(), Seq::<char>::empty())]
    } else {
        let prev = chapters_of_nodes(ns.drop_last());
        let n = ns.last();
        if is_chapter_marker(n) {
            prev.push((marker_title(n), Seq::<char>::empty()))
        } else {
            match node_html(n) {
                Some(p) => prev.update(prev.len() - 1, (prev.last().0, prev.last().1 + p)),
                None => prev,
            }
        }
    }
}

pub proof fn lemma_chapters_nonempty(ns: Seq<BodyNodeModel>)
    ensures
        chapters_of_nodes(ns).len() >= 1,
    decreases ns.len(),
{
    if ns.len() > 0 {
        lemma_chapters_nonempty(ns.drop_last());
    }
}

/// The chapters of a page: those of the children of its `<body>`, none when
/// the parsed document has no body.
pub open spec fn page_chapters(html: Seq<char>) -> Seq<(Seq<char>, Seq<char>)> {
    match document_children(html, "body"@, "class"@) {
        Some(ns) => chapters_of_nodes(ns),
        None => Seq::empty(),
    }
}

fn is_marker_exec(n: &BodyNode) -> (r: bool)
    ensures
        r == is_chapter_marker(n.deep_view()),
{
    match n {
        BodyNode::Element { name, attr, .. } => {
            let lname = to_ascii_lowercase(name.as_str());
            if str_eq(lname.as_str(), "hr") {
                return true;
            }
            if str_eq(lname.as_str(), "p") {
                match attr {
                    Some(c) => str_eq(c.as_str(), "V8SH_chapter"),
                    None => false,
                }
            } else {
                false
            }
        },
        _ => false,
    }
}

/// Cuts a sequence of body nodes into chapters.
pub fn chapters_from_nodes(nodes: &Vec<BodyNode>) -> (r: Vec<Chapter>)
    ensures
        r.deep_view() == chapters_of_nodes(nodes.deep_view()),
{
    let mut chapters: Vec<Chapter> = Vec::new();
    chapters.push(Chapter { title: String::new(), body_html: String::new() });
    proof {
        assert(nodes.deep_view().take(0) =~= Seq::<BodyNodeModel>::empty());
        assert(chapters.deep_view() =~= chapters_of_nodes(nodes.deep_view().take(0)));
    }
    let mut i: usize = 0;
    while i < nodes.len()
        invariant
            i <= nodes.len(),
            chapters.len() >= 1,
            chapters.deep_view() == chapters_of_nodes(nodes.deep_view().take(i as int)),
        decreases nodes.len() - i,
    {
        let n = &nodes[i];
        let ghost before = chapters.deep_view();
        proof {
            let t = nodes.deep_view().take(i + 1);
            assert(t.drop_last() =~= nodes.deep_view().take(i as int));
            assert(t.last() == n.deep_view());
        }
        if is_marker_exec(n) {
            let title = match n {
                BodyNode::Element { text, .. } => {
                    let v = chars_of(text.as_str());
                    let t = trim_vec(v.as_slice());
                    let c = collapse_chars(t.as_slice());
                    string_from_chars(&c)
                },
                _ => String::new(),
            };
            let ch = Chapter { title, body_html: String::new() };
            let ghost old_ch = chapters;
            chapters.push(ch);
            proof {
                lemma_deep_view_push(old_ch, chapters, ch);
            }
        } else {
            let piece: Option<&String> = match n {
                BodyNode::Element { html, .. } => Some(html),
                BodyNode::Text(t) => Some(t),
                BodyNode::Other => None,
            };
            match piece {
                Some(p) => {
                    let ghost old_ch = chapters;
                    let mut last = chapters.pop().unwrap();
                    let mut body = chars_of(last.body_html.as_str());
                    push_str_chars(&mut body, p.as_str());
                    last.body_html = string_from_chars(&body);
                    let ghost mid = chapters;
                    chapters.push(last);
                    proof {
                        lemma_deep_view_push(mid, chapters, last);
                        assert(mid@ =~= old_ch@.drop_last());
                        assert(chapters.deep_view() =~= before.update(
                            before.len() - 1,
                            (before.last().0, before.last().1 + p@),
                        ));
                    }
                },
                None => {},
            }
        }
        i = i + 1;
    }
    proof {
        assert(nodes.deep_view().take(nodes.len() as int) =~= nodes.deep_view());
    }
    chapters
}

/// Cuts a help page into chapters.
///
/// Markers between chapters are `<p class="V8SH_chapter">` (its text becomes
/// the title of the next chapter) and `<hr>` (a chapter without title). The
/// first chapter, before any marker, holds the head of the page.
pub fn split_chapters(html: &str) -> (r: Vec<Chapter>)
    ensures
        r.deep_view() == page_chapters(html@),
{
    match select_children(html, "body", "class") {
        Some(nodes) => chapters_from_nodes(&nodes),
        None => Vec::new(),
    }
}

// ---------------------------------------------------------------------------
// Text
// ---------------------------------------------------------------------------

/// The text nodes concatenated.
pub open spec fn concat_texts(ns: Seq<Option<Seq<char>>>) -> Seq<char>
    decreases ns.len(),
{
    if ns.len() == 0 {
        Seq::empty()
    } else {
        concat_texts(ns.drop_last()) + match ns.last() {
            Some(t) => t,
            None => Seq::<char>::empty(),
        }
    }
}

/// The text of a fragment, as its text nodes give it.
pub open spec fn fragment_text(html: Seq<char>) -> Seq<char> {
    concat_texts(fragment_node_texts(html))
}

/// The text of a fragment, trimmed and with whitespace runs collapsed.
pub open spec fn plain_text(html: Seq<char>) -> Seq<char> {
    collapse_ws(trim(fragment_text(html)))
}

/// Concatenates the text nodes.
pub fn join_text_nodes(nodes: &Vec<Option<String>>) -> (r: Vec<char>)
    ensures
        r@ == concat_texts(nodes.deep_view()),
{
    let mut buf: Vec<char> = Vec::new();
    let mut i: usize = 0;
    while i < nodes.len()
        invariant
            i <= nodes.len(),
            buf@ == concat_texts(nodes.deep_view().take(i as int)),
        decreases nodes.len() - i,
    {
        proof {
            let t = nodes.deep_view().take(i + 1);
            assert(t.drop_last() =~= nodes.deep_view().take(i as int));
            assert(t.last() == nodes[i as int].deep_view());
        }
        match &nodes[i] {
            Some(t) => push_str_chars(&mut buf, t.as_str()),
            None => {},
        }
        i = i + 1;
    }
    proof {
        assert(nodes.deep_view().take(nodes.len() as int) =~= nodes.deep_view());
    }
    buf
}

/// The text of the nodes, trimmed and collapsed.
pub fn text_of_nodes(nodes: &Vec<Option<String>>) -> (r: String)
    ensures
        r@ == collapse_ws(trim(concat_texts(nodes.deep_view()))),
{
    let buf = join_text_nodes(nodes);
    let t = trim_vec(buf.as_slice());
    let c = collapse_chars(t.as_slice());
    string_from_chars(&c)
}

/// The text of an html fragment without its tags, trimmed and with runs of
/// whitespace collapsed into one space.
pub fn extract_text(html: &str) -> (r: String)
    ensures
        r@ == plain_text(html@),
{
    let nodes = fragment_texts(html);
    text_of_nodes(&nodes)
}

/// The text of an html fragment without its tags, as it stands.
pub fn raw_text(html: &str) -> (r: Vec<char>)
    ensures
        r@ == fragment_text(html@),
{
    let nodes = fragment_texts(html);
    join_text_nodes(&nodes)
}


// ---------------------------------------------------------------------------
// Markdown
// ---------------------------------------------------------------------------

/// `s` repeated `n` times.
pub open spec fn repeat(s: Seq<char>, n: nat) -> Seq<char>
    decreases n,
{
    if n == 0 {
        Seq::empty()
    } else {
        repeat(s, (n - 1) as nat) + s
    }
}

/// State of the Markdown renderer between two edges of the walk.
pub struct MdModel {
    pub output: Seq<char>,
    pub list_level: nat,
    pub in_pre: bool,
    /// The target of the link being read, if inside `<a>`.
    pub anchor: Option<Seq<char>>,
    pub anchor_text: Seq<char>,
}

pub open spec fn md_start() -> MdModel {
    MdModel {
        output: Seq::empty(),
        list_level: 0,
        in_pre: false,
        anchor: None,
        anchor_text: Seq::empty(),
    }
}

/// The level of a heading element (`h1` .. `h6`), 0 for any other name.
pub open spec fn heading_level(n: Seq<char>) -> nat {
    if n == "h1"@ {
        1
    } else if n == "h2"@ {
        2
    } else if n == "h3"@ {
        3
    } else if n == "h4"@ {
        4
    } else if n == "h5"@ {
        5
    } else if n == "h6"@ {
        6
    } else {
        0
    }
}

pub open spec fn fence() -> Seq<char> {
    seq!['\n', '`', '`', '`', '\n']
}

pub open spec fn with_output(st: MdModel, out: Seq<char>) -> MdModel {
    MdModel { output: out, ..st }
}

/// What entering an element (name in ASCII lowercase) does to the state.
pub open spec fn md_open(st: MdModel, n: Seq<char>, href: Option<Seq<char>>) -> MdModel {
    let out = st.output;
    if heading_level(n) > 0 {
        with_output(st, out + seq!['\n'] + repeat(seq!['#'], heading_level(n)) + seq![' '])
    } else if n == "p"@ {
        if out.len() > 0 {
            with_output(st, out.push('\n'))
        } else {
            st
        }
    } else if n == "br"@ {
        with_output(st, out.push('\n'))
    } else if n == "strong"@ || n == "b"@ {
        with_output(st, out + seq!['*', '*'])
    } else if n == "em"@ || n == "i"@ {
        with_output(st, out.push('*'))
    } else if n == "code"@ {
        if !st.in_pre {
            with_output(st, out.push('`'))
        } else {
            st
        }
    } else if n == "pre"@ {
        MdModel { output: out + fence(), in_pre: true, ..st }
    } else if n == "blockquote"@ {
        with_output(st, out + seq!['\n', '>', ' '])
    } else if n == "ul"@ || n == "ol"@ {
        MdModel { list_level: st.list_level + 1, ..st }
    } else if n == "li"@ {
        if st.list_level > 0 {
            with_output(
                st,
                out + seq!['\n'] + repeat(seq![' ', ' '], (st.list_level - 1) as nat) + seq!['*', ' '],
            )
        } else {
            st
        }
    } else if n == "a"@ {
        MdModel {
            anchor: Some(
                match href {
                    Some(h) => h,
                    None => Seq::empty(),
                },
            ),
            anchor_text: Seq::empty(),
            ..st
        }
    } else {
        st
    }
}

/// How a link is written: `` `text` `` for a `v8help://` target, `[text](href)`
/// otherwise, nothing when its text is empty.
pub open spec fn link_markdown(text: Seq<char>, href: Seq<char>) -> Seq<char> {
    if text.len() == 0 {
        Seq::empty()
    } else if "v8help://"@.is_prefix_of(href) {
        seq!['`'] + text + seq!['`']
    } else {
        seq!['['] + text + seq![']', '('] + href + seq![')']
    }
}

/// What leaving an element (name in ASCII lowercase) does to the state.
pub open spec fn md_close(st: MdModel, n: Seq<char>) -> MdModel {
    let out = st.output;
    if heading_level(n) > 0 || n == "p"@ {
        with_output(st, out.push('\n'))
    } else if n == "strong"@ || n == "b"@ {
        with_output(st, out + seq!['*', '*'])
    } else if n == "em"@ || n == "i"@ {
        with_output(st, out.push('*'))
    } else if n == "code"@ {
        if !st.in_pre {
            with_output(st, out.push('`'))
        } else {
            st
        }
    } else if n == "pre"@ {
        MdModel { output: out + fence(), in_pre: false, ..st }
    } else if n == "blockquote"@ {
        with_output(st, out.push('\n'))
    } else if n == "ul"@ || n == "ol"@ {
        if st.list_level > 0 {
            MdModel { list_level: (st.list_level - 1) as nat, ..st }
        } else {
            st
        }
    } else if n == "a"@ {
        let href = match st.anchor {
            Some(h) => h,
            None => Seq::empty(),
        };
        MdModel {
            output: out + link_markdown(collapse_ws(trim(st.anchor_text)), href),
            anchor: None,
            anchor_text: Seq::empty(),
            ..st
        }
    } else {
        st
    }
}

/// What one edge of the walk does to the state.
pub open spec fn md_event(st: MdModel, e: HtmlEventModel) -> MdModel {
    match e {
        HtmlEventModel::Open { name, attr } => md_open(st, ascii_lowercase_seq(name), attr),
        HtmlEventModel::Close(name) => md_close(st, ascii_lowercase_seq(name)),
        HtmlEventModel::Text(t) => if st.anchor is Some {
            MdModel { anchor_text: st.anchor_text + t, ..st }
        } else {
            with_output(st, st.output + t)
        },
        HtmlEventModel::Other => st,
    }
}

/// The state after the walk.
pub open spec fn md_run(es: Seq<HtmlEventModel>) -> MdModel
    decreases es.len(),
{
    if es.len() == 0 {
        md_start()
    } else {
        md_event(md_run(es.drop_last()), es.last())
    }
}

/// The Markdown of a fragment.
pub open spec fn markdown(html: Seq<char>) -> Seq<char> {
    trim(md_run(fragment_traversal(html, "href"@)).output)
}

struct MdState {
    output: Vec<char>,
    list_level: usize,
    in_pre: bool,
    anchor: Option<String>,
    anchor_text: Vec<char>,
}

impl MdState {
    closed spec fn model(&self) -> MdModel {
        MdModel {
            output: self.output@,
            list_level: self.list_level as nat,
            in_pre: self.in_pre,
            anchor: opt_view(self.anchor),
            anchor_text: self.anchor_text@,
        }
    }
}

fn push_repeat(buf: &mut Vec<char>, s: &[char], n: usize)
    ensures
        final(buf)@ == old(buf)@ + repeat(s@, n as nat),
{
    let mut k: usize = 0;
    while k < n
        invariant
            k <= n,
            buf@ == old(buf)@ + repeat(s@, k as nat),
        decreases n - k,
    {
        push_chars(buf, s);
        k = k + 1;
        proof {
            crate::seqs::lemma_add_assoc(old(buf)@, repeat(s@, (k - 1) as nat), s@);
        }
    }
}

fn heading_level_exec(n: &str) -> (r: usize)
    ensures
        r == heading_level(n@),
{
    if str_eq(n, "h1") {
        1
    } else if str_eq(n, "h2") {
        2
    } else if str_eq(n, "h3") {
        3
    } else if str_eq(n, "h4") {
        4
    } else if str_eq(n, "h5") {
        5
    } else if str_eq(n, "h6") {
        6
    } else {
        0
    }
}

fn md_open_exec(st: &mut MdState, n: &str, href: &Option<String>)
    requires
        old(st).list_level < usize::MAX,
    ensures
        final(st).model() == md_open(old(st).model(), n@, opt_view(*href)),
{
    let lvl = heading_level_exec(n);
    if lvl > 0 {
        st.output.push('\n');
        push_repeat(&mut st.output, &['#'], lvl);
        st.output.push(' ');
        proof {
            assert(seq!['#'] =~= ['#']@);
        }
    } else if str_eq(n, "p") {
        if st.output.len() > 0 {
            st.output.push('\n');
        }
    } else if str_eq(n, "br") {
        st.output.push('\n');
    } else if str_eq(n, "strong") || str_eq(n, "b") {
        st.output.push('*');
        st.output.push('*');
    } else if str_eq(n, "em") || str_eq(n, "i") {
        st.output.push('*');
    } else if str_eq(n, "code") {
        if !st.in_pre {
            st.output.push('`');
        }
    } else if str_eq(n, "pre") {
        push_chars(&mut st.output, &['\n', '`', '`', '`', '\n']);
        st.in_pre = true;
    } else if str_eq(n, "blockquote") {
        push_chars(&mut st.output, &['\n', '>', ' ']);
    } else if str_eq(n, "ul") || str_eq(n, "ol") {
        st.list_level = st.list_level + 1;
    } else if str_eq(n, "li") {
        if st.list_level > 0 {
            st.output.push('\n');
            push_repeat(&mut st.output, &[' ', ' '], st.list_level - 1);
            st.output.push('*');
            st.output.push(' ');
        }
    } else if str_eq(n, "a") {
        let h = match href {
            Some(h) => h.clone(),
            None => String::new(),
        };
        st.anchor = Some(h);
        st.anchor_text = Vec::new();
    }
    proof {
        let o = old(st).model();
        let m = md_open(o, n@, opt_view(*href));
        assert(st.output@ =~= m.output);
    }
}

fn md_close_exec(st: &mut MdState, n: &str)
    ensures
        final(st).model() == md_close(old(st).model(), n@),
{
    let lvl = heading_level_exec(n);
    if lvl > 0 || str_eq(n, "p") {
        st.output.push('\n');
    } else if str_eq(n, "strong") || str_eq(n, "b") {
        st.output.push('*');
        st.output.push('*');
    } else if str_eq(n, "em") || str_eq(n, "i") {
        st.output.push('*');
    } else if str_eq(n, "code") {
        if !st.in_pre {
            st.output.push('`');
        }
    } else if str_eq(n, "pre") {
        push_chars(&mut st.output, &['\n', '`', '`', '`', '\n']);
        st.in_pre = false;
    } else if str_eq(n, "blockquote") {
        st.output.push('\n');
    } else if str_eq(n, "ul") || str_eq(n, "ol") {
        if st.list_level > 0 {
            st.list_level = st.list_level - 1;
        }
    } else if str_eq(n, "a") {
        let href = match &st.anchor {
            Some(h) => h.clone(),
            None => String::new(),
        };
        let t = trim_vec(st.anchor_text.as_slice());
        let text = collapse_chars(t.as_slice());
        if text.len() > 0 {
            if crate::text::starts_with_str(href.as_str(), "v8help://") {
                st.output.push('`');
                push_chars(&mut st.output, text.as_slice());
                st.output.push('`');
            } else {
                st.output.push('[');
                push_chars(&mut st.output, text.as_slice());
                st.output.push(']');
                st.output.push('(');
                push_str_chars(&mut st.output, href.as_str());
                st.output.push(')');
            }
        }
        st.anchor = None;
        st.anchor_text = Vec::new();
    }
    proof {
        let o = old(st).model();
        let m = md_close(o, n@);
        assert(st.output@ =~= m.output);
    }
}

fn md_event_exec(st: &mut MdState, e: &HtmlEvent)
    requires
        old(st).list_level < usize::MAX,
    ensures
        final(st).model() == md_event(old(st).model(), e.deep_view()),
{
    match e {
        HtmlEvent::Open { name, attr } => {
            let n = to_ascii_lowercase(name.as_str());
            md_open_exec(st, n.as_str(), attr);
        },
        HtmlEvent::Close(name) => {
            let n = to_ascii_lowercase(name.as_str());
            md_close_exec(st, n.as_str());
        },
        HtmlEvent::Text(t) => {
            if st.anchor.is_some() {
                push_str_chars(&mut st.anchor_text, t.as_str());
            } else {
                push_str_chars(&mut st.output, t.as_str());
            }
        },
        HtmlEvent::Other => {},
    }
}

/// Renders the edges of a walk over a fragment as Markdown.
pub fn markdown_of_events(events: &Vec<HtmlEvent>) -> (r: String)
    ensures
        r@ == trim(md_run(events.deep_view()).output),
{
    let mut st = MdState {
        output: Vec::new(),
        list_level: 0,
        in_pre: false,
        anchor: None,
        anchor_text: Vec::new(),
    };
    proof {
        assert(events.deep_view().take(0) =~= Seq::<HtmlEventModel>::empty());
        assert(st.model() == md_start());
    }
    let mut i: usize = 0;
    while i < events.len()
        invariant
            i <= events.len(),
            st.list_level <= i,
            st.model() == md_run(events.deep_view().take(i as int)),
        decreases events.len() - i,
    {
        proof {
            let t = events.deep_view().take(i + 1);
            assert(t.drop_last() =~= events.deep_view().take(i as int));
            assert(t.last() == events[i as int].deep_view());
        }
        md_event_exec(&mut st, &events[i]);
        i = i + 1;
    }
    proof {
        assert(events.deep_view().take(events.len() as int) =~= events.deep_view());
    }
    let t = trim_vec(st.output.as_slice());
    string_from_chars(&t)
}

/// Converts an html fragment to Markdown: headings, paragraphs, line breaks,
/// bold and italic, code, preformatted blocks, quotes, lists and links (a
/// `v8help://` link becomes its text in backquotes, any other `[text](href)`).
pub fn to_markdown(html: &str) -> (r: String)
    ensures
        r@ == markdown(html@),
{
    let events = fragment_edges(html, "href");
    markdown_of_events(&events)
}

} // verus!
