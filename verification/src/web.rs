//! What the crates that read URLs and HTML pages have to say, as plain values.

use ego_tree::iter::Edge;
use scraper::{Html, Node, Selector};
use vstd::prelude::*;

use crate::text::{self, chars_of, has_text, lowered};

verus! {

/// The largest page, in bytes, that is handed to the HTML parser. The parser counts the bytes of a text
/// in 32 bits and rounds their number up to a power of two, and of one byte of a page it may make three.
pub const PAGE_LIMIT: usize = 0x2AAA_AAAA;

/// In how many others a node of a page may stand for a selector with `:has` to be tried on the page: it
/// is tried by a recursion that goes down level by level, on a stack that is bounded.
pub const NEST_LIMIT: usize = 512;

/// The longest selector, in bytes, that is tried on pages: a recursion goes through its parts.
pub const SELECTOR_LIMIT: usize = 300;

/// Whether a page is small enough for the HTML parser.
pub open spec fn page_fits(html: Seq<char>) -> bool {
    vstd::utf8::encode_utf8(html).len() <= PAGE_LIMIT
}

// ---------------------------------------------------------------------------
// URLs
// ---------------------------------------------------------------------------

/// The parts of a URL that the library looks at.
pub struct UrlParts {
    pub scheme: String,
    pub host: Option<String>,
    /// The names and values of the query, decoded, in their order.
    pub pairs: Vec<(String, String)>,
}

pub struct UrlView {
    pub scheme: Seq<char>,
    pub host: Option<Seq<char>>,
    pub pairs: Seq<(Seq<char>, Seq<char>)>,
}

pub open spec fn pair_texts(v: Seq<(String, String)>) -> Seq<(Seq<char>, Seq<char>)> {
    v.map_values(|p: (String, String)| (p.0@, p.1@))
}

impl View for UrlParts {
    type V = UrlView;

    open spec fn view(&self) -> UrlView {
        UrlView {
            scheme: self.scheme@,
            host: match self.host {
                Some(h) => Some(h@),
                None => None,
            },
            pairs: pair_texts(self.pairs@),
        }
    }
}

pub open spec fn url_result(r: Result<UrlParts, String>) -> Result<UrlView, Seq<char>> {
    match r {
        Ok(u) => Ok(u@),
        Err(e) => Err(e@),
    }
}

/// What `Url::parse` makes of a text: the parts of the URL, or the words of its error.
pub uninterp spec fn url_parts(url: Seq<char>) -> Result<UrlView, Seq<char>>;

/// `Url::parse` of the crate `url` (which `reqwest` offers as `reqwest::Url`), followed by `scheme`,
/// `host_str` and `query_pairs` of the URL that it gives. The contract says only that the outcome
/// depends on the text alone.
#[verifier::external_body]
pub(crate) fn parse_url(url: &str) -> (r: Result<UrlParts, String>)
    ensures
        url_result(r) == url_parts(url@),
{
    let u = reqwest::Url::parse(url).map_err(|e| e.to_string())?;
    Ok(
        UrlParts {
            scheme: u.scheme().to_string(),
            host: u.host_str().map(str::to_string),
            pairs: u.query_pairs().map(|(k, v)| (k.into_owned(), v.into_owned())).collect(),
        },
    )
}

// ---------------------------------------------------------------------------
// CSS selectors
// ---------------------------------------------------------------------------

pub open spec fn opt_text(x: Option<String>) -> Option<Seq<char>> {
    match x {
        Some(s) => Some(s@),
        None => None,
    }
}

/// What `Selector::parse` finds wrong with a CSS selector, in the words of its error; `None` where
/// the selector is a good one.
pub uninterp spec fn selector_fault(selector: Seq<char>) -> Option<Seq<char>>;

/// `Selector::parse` of the crate `scraper`. The contract says only that the outcome depends on the
/// selector alone.
#[verifier::external_body]
pub(crate) fn selector_error(selector: &str) -> (r: Option<String>)
    ensures
        opt_text(r) == selector_fault(selector@),
{
    Selector::parse(selector).err().map(|e| format!("{e:?}"))
}

/// Whether a selector is short enough to be tried on pages.
pub open spec fn selector_fits(selector: Seq<char>) -> bool {
    vstd::utf8::encode_utf8(selector).len() <= SELECTOR_LIMIT
}

/// Whether a selector is short enough to be tried on pages.
pub fn is_short(selector: &str) -> (r: bool)
    ensures
        r == selector_fits(selector@),
{
    selector.as_bytes().len() <= SELECTOR_LIMIT
}

/// Whether a selector may hold a `:has`: it names one, in upper or lower case, or something in it is
/// escaped.
pub open spec fn may_hold_has(selector: Seq<char>) -> bool {
    text::contains_text(text::lower(selector), "has("@) || text::contains_text(selector, "\\"@)
}

/// Whether a selector may hold a `:has`.
pub fn may_use_has(selector: &str) -> (r: bool)
    ensures
        r == may_hold_has(selector@),
{
    let chars = chars_of(selector);
    has_text(&lowered(&chars), "has(") || has_text(&chars, "\\")
}

pub open spec fn counts(v: Seq<usize>) -> Seq<nat> {
    v.map_values(|n: usize| n as nat)
}

/// For each node that the parser has made of a page, in how many others it stands.
pub uninterp spec fn node_depths(html: Seq<char>) -> Seq<nat>;

/// `Html::parse_document` of the crate `scraper`, and for each node that `Tree::nodes` of the crate
/// `ego_tree` gives, also for those that the parser has taken out of the document again, the number of
/// nodes that `NodeRef::ancestors` gives. The contract says only that these numbers depend on the page
/// alone.
#[verifier::external_body]
pub(crate) fn depths(html: &str) -> (r: Vec<usize>)
    requires
        page_fits(html@),
    ensures
        counts(r@) == node_depths(html@),
{
    Html::parse_document(html).tree.nodes().map(|n| n.ancestors().count()).collect()
}

/// Whether no node of a page stands in too many others.
pub open spec fn page_shallow(html: Seq<char>) -> bool {
    forall|i: int| 0 <= i < node_depths(html).len() ==> #[trigger] node_depths(html)[i] <= NEST_LIMIT
}

/// Whether none of these counts of nesting is too large.
pub fn all_shallow(v: &Vec<usize>) -> (r: bool)
    ensures
        r == (forall|i: int| 0 <= i < v@.len() ==> #[trigger] counts(v@)[i] <= NEST_LIMIT),
{
    for i in 0..v.len()
        invariant
            forall|k: int| 0 <= k < i ==> #[trigger] counts(v@)[k] <= NEST_LIMIT,
    {
        if v[i] > NEST_LIMIT {
            assert(counts(v@)[i as int] > NEST_LIMIT);
            return false;
        }
    }
    true
}

/// Whether no node of a page stands in too many others.
pub fn is_shallow(html: &str) -> (r: bool)
    requires
        page_fits(html@),
    ensures
        r == page_shallow(html@),
{
    all_shallow(&depths(html))
}

/// Whether a page is small enough for the HTML parser.
pub fn is_small(html: &str) -> (r: bool)
    ensures
        r == page_fits(html@),
{
    html.as_bytes().len() <= PAGE_LIMIT
}

/// Whether a selector can be tried on a page: both are small enough, and where the selector may hold a
/// `:has` the page is not nested too deep.
pub open spec fn can_try(selector: Seq<char>, html: Seq<char>) -> bool {
    &&& page_fits(html)
    &&& selector_fits(selector)
    &&& may_hold_has(selector) ==> page_shallow(html)
}

pub open spec fn opt_texts(v: Seq<Option<String>>) -> Seq<Option<Seq<char>>> {
    v.map_values(|x: Option<String>| opt_text(x))
}

pub open spec fn opt_pieces(x: Option<Vec<String>>) -> Option<Seq<Seq<char>>> {
    match x {
        Some(v) => Some(text::texts(v@)),
        None => None,
    }
}

pub open spec fn all_pieces(v: Seq<Option<Vec<String>>>) -> Seq<Option<Seq<Seq<char>>>> {
    v.map_values(|x: Option<Vec<String>>| opt_pieces(x))
}

/// How many elements of a page `Html::select` gives for a selector.
pub uninterp spec fn match_count(html: Seq<char>, outer: Seq<char>) -> nat;

/// For each element that `outer` selects, in the order of `Html::select`, its own attribute `name`.
pub uninterp spec fn own_attributes(html: Seq<char>, outer: Seq<char>, name: Seq<char>) -> Seq<
    Option<Seq<char>>,
>;

/// For each element that `outer` selects, the attribute `name` of the first element within it that
/// `inner` selects.
pub uninterp spec fn inner_attributes(
    html: Seq<char>,
    outer: Seq<char>,
    inner: Seq<char>,
    name: Seq<char>,
) -> Seq<Option<Seq<char>>>;

/// For each element that `outer` selects, the pieces of text in the first element within it that
/// `inner` selects.
pub uninterp spec fn inner_texts(html: Seq<char>, outer: Seq<char>, inner: Seq<char>) -> Seq<
    Option<Seq<Seq<char>>>,
>;

/// `Html::parse_document` and `Html::select` of the crate `scraper`, with `Element::attr` of each
/// element selected: one entry for each, in order. The contract says that the entries depend on the
/// page, the selector and the name alone, and how many there are.
#[verifier::external_body]
pub(crate) fn own_attrs(html: &str, outer: &str, name: &str) -> (r: Vec<Option<String>>)
    requires
        can_try(outer@, html@),
        selector_fault(outer@) is None,
    ensures
        opt_texts(r@) == own_attributes(html@, outer@, name@),
        r@.len() == match_count(html@, outer@),
{
    let page = Html::parse_document(html);
    let outer = Selector::parse(outer).unwrap();
    page.select(&outer).map(|e| e.value().attr(name).map(str::to_string)).collect()
}

/// `Html::parse_document` and `Html::select` of the crate `scraper`, with the first element that
/// `ElementRef::select` gives within each element selected, and `Element::attr` of that one: one
/// entry for each element selected, in order. The contract says that the entries depend on the page,
/// the selectors and the name alone, and how many there are.
#[verifier::external_body]
pub(crate) fn inner_attrs(html: &str, outer: &str, inner: &str, name: &str) -> (r: Vec<
    Option<String>,
>)
    requires
        can_try(outer@, html@),
        selector_fault(outer@) is None,
        can_try(inner@, html@),
        selector_fault(inner@) is None,
    ensures
        opt_texts(r@) == inner_attributes(html@, outer@, inner@, name@),
        r@.len() == match_count(html@, outer@),
{
    let page = Html::parse_document(html);
    let outer = Selector::parse(outer).unwrap();
    let inner = Selector::parse(inner).unwrap();
    page.select(&outer).map(
        |e| e.select(&inner).next().and_then(|a| a.value().attr(name)).map(str::to_string),
    ).collect()
}

/// `Html::parse_document` and `Html::select` of the crate `scraper`, with the first element that
/// `ElementRef::select` gives within each element selected, and the pieces that `ElementRef::text`
/// gives of that one: one entry for each element selected, in order. The contract says that the
/// entries depend on the page and the selectors alone, and how many there are.
#[verifier::external_body]
pub(crate) fn inner_text_pieces(html: &str, outer: &str, inner: &str) -> (r: Vec<
    Option<Vec<String>>,
>)
    requires
        can_try(outer@, html@),
        selector_fault(outer@) is None,
        can_try(inner@, html@),
        selector_fault(inner@) is None,
    ensures
        all_pieces(r@) == inner_texts(html@, outer@, inner@),
        r@.len() == match_count(html@, outer@),
{
    let page = Html::parse_document(html);
    let outer = Selector::parse(outer).unwrap();
    let inner = Selector::parse(inner).unwrap();
    page.select(&outer).map(
        |e| e.select(&inner).next().map(|t| t.text().map(str::to_string).collect()),
    ).collect()
}

// ---------------------------------------------------------------------------
// The whole page, node by node
// ---------------------------------------------------------------------------

/// A node of a page: an element, a text, a fragment, or, with nothing of these, another one such as a
/// comment.
pub struct PageNode {
    /// Of an element, its name and attributes.
    pub element: Option<(String, Vec<(String, String)>)>,
    /// Of a text, what it says.
    pub text: Option<String>,
    /// Whether it is a fragment: what a `template` holds, which is no part of what the page shows.
    pub fragment: bool,
}

pub struct NodeView {
    pub element: Option<(Seq<char>, Seq<(Seq<char>, Seq<char>)>)>,
    pub text: Option<Seq<char>>,
    pub fragment: bool,
}

impl View for PageNode {
    type V = NodeView;

    open spec fn view(&self) -> NodeView {
        NodeView {
            element: match self.element {
                Some(e) => Some((e.0@, pair_texts(e.1@))),
                None => None,
            },
            text: opt_text(self.text),
            fragment: self.fragment,
        }
    }
}

/// One step of a walk through a page: a node begins or ends.
pub enum PageEdge {
    Open(PageNode),
    Close(PageNode),
}

pub enum EdgeView {
    Open(NodeView),
    Close(NodeView),
}

impl View for PageEdge {
    type V = EdgeView;

    open spec fn view(&self) -> EdgeView {
        match *self {
            PageEdge::Open(n) => EdgeView::Open(n@),
            PageEdge::Close(n) => EdgeView::Close(n@),
        }
    }
}

pub open spec fn edge_views(v: Seq<PageEdge>) -> Seq<EdgeView> {
    v.map_values(|e: PageEdge| e@)
}

/// The walk through the first element of a page that `selector` selects; nothing where there is
/// none.
pub uninterp spec fn page_walk(html: Seq<char>, selector: Seq<char>) -> Seq<EdgeView>;

/// `Html::parse_document` and `Html::select` of the crate `scraper`, with `NodeRef::traverse` of the
/// crate `ego_tree` on the first element selected: that element and every node below it, in document
/// order, with the place where it begins and the place where it ends, and of each node what
/// `Node::as_element`, `Node::as_text` and `Node::is_fragment` give. The contract says only that the walk
/// depends on the page and the selector alone.
#[verifier::external_body]
pub(crate) fn walk_page(html: &str, selector: &str) -> (r: Vec<PageEdge>)
    requires
        page_fits(html@),
        selector@ == "body"@,
        selector_fault(selector@) is None,
    ensures
        edge_views(r@) == page_walk(html@, selector@),
{
    let sel = Selector::parse(selector).unwrap();
    let node = |n: &Node| PageNode {
        element: n.as_element().map(|e| (
            e.name().to_string(),
            e.attrs().map(|(k, v)| (k.to_string(), v.to_string())).collect())),
        text: n.as_text().map(|t| t.to_string()),
        fragment: n.is_fragment() };
    Html::parse_document(html).select(&sel).take(1).flat_map(|e| e.traverse()).map(|edge| match edge {
        Edge::Open(n) => PageEdge::Open(node(n.value())),
        Edge::Close(n) => PageEdge::Close(node(n.value())) }).collect()
}

/// Contracts speak of the whole of what is read from URLs and pages.
pub proof fn law_readings_are_seen_whole(
    u: UrlParts,
    pairs: Seq<(String, String)>,
    s: Option<String>,
    v: Seq<Option<String>>,
    p: Option<Vec<String>>,
    w: Seq<Option<Vec<String>>>,
)
    ensures
        u@.scheme == u.scheme@,
        u@.host == opt_text(u.host),
        u@.pairs == pair_texts(u.pairs@),
        pair_texts(pairs).len() == pairs.len(),
        forall|i: int|
            0 <= i < pairs.len() ==> #[trigger] pair_texts(pairs)[i] == (pairs[i].0@, pairs[i].1@),
        s is None <==> opt_text(s) is None,
        s matches Some(t) ==> opt_text(s) == Some(t@),
        opt_texts(v).len() == v.len(),
        forall|i: int| 0 <= i < v.len() ==> #[trigger] opt_texts(v)[i] == opt_text(v[i]),
        p is None <==> opt_pieces(p) is None,
        p matches Some(t) ==> opt_pieces(p) == Some(text::texts(t@)),
        all_pieces(w).len() == w.len(),
        forall|i: int| 0 <= i < w.len() ==> #[trigger] all_pieces(w)[i] == opt_pieces(w[i]),
{
}

/// Contracts speak of every node of a walk, and of the whole of it.
pub proof fn law_walks_are_seen_whole(n: PageNode, e: PageEdge, v: Seq<PageEdge>)
    ensures
        n@.fragment == n.fragment,
        n@.text == opt_text(n.text),
        n.element is None <==> n@.element is None,
        n.element matches Some(x) ==> n@.element == Some((x.0@, pair_texts(x.1@))),
        e matches PageEdge::Open(x) ==> e@ == EdgeView::Open(x@),
        e matches PageEdge::Close(x) ==> e@ == EdgeView::Close(x@),
        edge_views(v).len() == v.len(),
        forall|i: int| 0 <= i < v.len() ==> #[trigger] edge_views(v)[i] == v[i]@,
{
}

} // verus!
