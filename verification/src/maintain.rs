//! Looking after the engines: every morning each is tried, and where nothing can be read from its page
//! any more, an AI is shown the structure of the page and asked for new selectors.
//!
//! What the AI proposes is never taken as it is. It is adopted only where it changes nothing but the
//! selectors and the name of the redirect parameter (never the address that is fetched, the weight, or
//! whether the engine is used), where the definition is a valid one, and where at least three results
//! can be read with it from the page that was actually fetched.

use vstd::prelude::*;
use vstd::utf8;

use crate::engine::{self, parse, EngineDef, EngineError, EngineFault, EngineView, Hit, HitView, Part};
use crate::json::{self, parse_json, quote, Json, JsonValue};
use crate::text::{
    self, alphanumeric, append_chars, append_str, chars_of, decimal_of, same, slice_of,
    squeezed, string_of, trimmed, trimmed_end_text,
};
use crate::web::{self, selector_error, walk_page, EdgeView, NodeView, PageEdge};

verus! {

/// The searches that each engine is tried with: the query, the language and the region.
pub const CANARIES: [(&'static str, &'static str, &'static str); 2] = [
    ("open source software", "en", "US"),
    ("山梨県 温泉", "ja", "JP"),
];

/// How many results must be read for an engine to count as working.
pub const MIN_HITS: usize = 3;

/// How many characters of a page's structure the AI is shown.
pub const HTML_BUDGET: usize = 14_000;

/// How many bytes are collected before no further element is entered.
pub const COLLECT_LIMIT: usize = 56_000;

/// How deep elements may be nested to be entered.
pub const DEPTH_LIMIT: usize = 40;

// ---------------------------------------------------------------------------
// The structure of a page
// ---------------------------------------------------------------------------

/// The elements that say nothing about where the results are.
pub open spec fn is_dropped(name: Seq<char>) -> bool {
    ||| name == "script"@
    ||| name == "style"@
    ||| name == "svg"@
    ||| name == "noscript"@
    ||| name == "head"@
    ||| name == "link"@
    ||| name == "meta"@
    ||| name == "path"@
    ||| name == "img"@
    ||| name == "iframe"@
}

fn drops(name: &str) -> (r: bool)
    ensures
        r == is_dropped(name@),
{
    same(name, "script") || same(name, "style") || same(name, "svg") || same(name, "noscript")
        || same(name, "head") || same(name, "link") || same(name, "meta") || same(name, "path")
        || same(name, "img") || same(name, "iframe")
}

/// The first `n` characters of a text.
pub open spec fn first_chars(s: Seq<char>, n: int) -> Seq<char> {
    if s.len() <= n {
        s
    } else {
        s.take(n)
    }
}

fn first_of(s: &Vec<char>, n: usize) -> (r: Vec<char>)
    ensures
        r@ == first_chars(s@, n as int),
{
    let k: usize = if s.len() <= n {
        s.len()
    } else {
        n
    };
    let r = slice_of(s, 0, k);
    assert(r@ =~= first_chars(s@, n as int));
    r
}

/// An attribute as it is shown: only classes, ids and links are.
pub open spec fn attr_text(name: Seq<char>, value: Seq<char>) -> Seq<char> {
    if name == "href"@ {
        " "@ + name + "=\""@ + first_chars(value, 90) + "\""@
    } else if name == "class"@ || name == "id"@ {
        " "@ + name + "=\""@ + first_chars(value, 80) + "\""@
    } else {
        Seq::empty()
    }
}

pub open spec fn attrs_text(attrs: Seq<(Seq<char>, Seq<char>)>) -> Seq<char>
    decreases attrs.len(),
{
    if attrs.len() == 0 {
        Seq::empty()
    } else {
        attrs_text(attrs.drop_last()) + attr_text(attrs.last().0, attrs.last().1)
    }
}

fn show_attr(name: &str, value: &str) -> (r: Vec<char>)
    ensures
        r@ == attr_text(name@, value@),
{
    let link: bool = same(name, "href");
    if !(link || same(name, "class") || same(name, "id")) {
        return Vec::new();
    }
    let mut out = chars_of(" ");
    append_str(&mut out, name);
    append_str(&mut out, "=\"");
    let limit: usize = if link {
        90
    } else {
        80
    };
    append_chars(&mut out, &first_of(&chars_of(value), limit));
    append_str(&mut out, "\"");
    out
}

fn show_attrs(attrs: &Vec<(String, String)>) -> (r: Vec<char>)
    ensures
        r@ == attrs_text(web::pair_texts(attrs@)),
{
    let mut out: Vec<char> = Vec::new();
    let ghost all = web::pair_texts(attrs@);
    assert(all.take(0) =~= Seq::empty());
    for i in 0..attrs.len()
        invariant
            all == web::pair_texts(attrs@),
            out@ == attrs_text(all.take(i as int)),
    {
        assert(all.take(i + 1).drop_last() == all.take(i as int));
        assert(all.take(i + 1).last() == (attrs@[i as int].0@, attrs@[i as int].1@));
        let shown = show_attr(attrs[i].0.as_str(), attrs[i].1.as_str());
        append_chars(&mut out, &shown);
    }
    assert(all.take(attrs@.len() as int) == all);
    out
}

/// A walk through a page, up to some point of it: what has been written, how many elements are open
/// that were entered, and how many elements and fragments that are passed over.
pub struct WalkView {
    pub out: Seq<char>,
    pub depth: nat,
    pub skip: nat,
}

/// Whether an element is passed over, with all that is in it.
pub open spec fn passes_over(w: WalkView, name: Seq<char>) -> bool {
    utf8::encode_utf8(w.out).len() > COLLECT_LIMIT || w.depth > DEPTH_LIMIT || is_dropped(name)
}

/// Whether a node can have others in it.
pub open spec fn holds_nodes(n: NodeView) -> bool {
    n.element is Some || n.fragment
}

/// One step of a walk: an element is written as it begins and as it ends, a text as it begins; what is
/// in an element that is passed over, or in a fragment, is not written.
pub open spec fn walk_step(w: WalkView, e: EdgeView) -> WalkView {
    match e {
        EdgeView::Open(node) => if w.skip > 0 {
            if holds_nodes(node) {
                WalkView { skip: w.skip + 1, ..w }
            } else {
                w
            }
        } else {
            match (node.element, node.text) {
                (Some((name, attrs)), _) => if passes_over(w, name) {
                    WalkView { skip: 1, ..w }
                } else {
                    WalkView {
                        out: w.out + "<"@ + name + attrs_text(attrs) + ">"@,
                        depth: w.depth + 1,
                        skip: 0,
                    }
                },
                (None, _) if node.fragment => WalkView { skip: 1, ..w },
                (None, Some(t)) => WalkView {
                    out: w.out + first_chars(text::squeeze(t), 80),
                    ..w
                },
                (None, None) => w,
            }
        },
        EdgeView::Close(node) => if !holds_nodes(node) {
            w
        } else if w.skip > 0 {
            WalkView { skip: (w.skip - 1) as nat, ..w }
        } else {
            match node.element {
                Some((name, _)) => WalkView {
                    out: w.out + "</"@ + name + ">"@,
                    depth: if w.depth > 0 {
                        (w.depth - 1) as nat
                    } else {
                        0
                    },
                    skip: 0,
                },
                None => w,
            }
        },
    }
}

/// A walk after some steps more.
pub open spec fn walk_on(w: WalkView, edges: Seq<EdgeView>) -> WalkView
    decreases edges.len(),
{
    if edges.len() == 0 {
        w
    } else {
        walk_step(walk_on(w, edges.drop_last()), edges.last())
    }
}

pub open spec fn walk_start() -> WalkView {
    WalkView { out: Seq::empty(), depth: 0, skip: 0 }
}

/// The middle of a text that is too long to be shown: a third of what is too much goes from its start,
/// the rest from its end.
pub open spec fn middle(s: Seq<char>) -> Seq<char> {
    if s.len() > HTML_BUDGET {
        let from = (s.len() - HTML_BUDGET) / 3;
        s.subrange(from, from + HTML_BUDGET)
    } else {
        s
    }
}

/// The structure of a page, as a walk through it shows it.
pub open spec fn structure_of(edges: Seq<EdgeView>) -> Seq<char> {
    middle(walk_on(walk_start(), edges).out)
}

struct Walk {
    out: String,
    depth: usize,
    skip: usize,
}

impl Walk {
    spec fn state(self) -> WalkView {
        WalkView { out: self.out@, depth: self.depth as nat, skip: self.skip as nat }
    }

    fn step(&mut self, e: &PageEdge)
        requires
            old(self).depth <= DEPTH_LIMIT + 1,
            old(self).skip < usize::MAX,
        ensures
            final(self).state() == walk_step(old(self).state(), e@),
            final(self).depth <= DEPTH_LIMIT + 1,
            final(self).skip <= old(self).skip + 1,
    {
        match e {
            PageEdge::Open(node) => {
                if self.skip > 0 {
                    if node.element.is_some() || node.fragment {
                        self.skip += 1;
                    }
                } else if let Some(x) = &node.element {
                    if self.out.as_str().as_bytes().len() > COLLECT_LIMIT || self.depth
                        > DEPTH_LIMIT || drops(x.0.as_str()) {
                        self.skip = 1;
                    } else {
                        let shown = show_attrs(&x.1);
                        self.out.append("<");
                        self.out.append(x.0.as_str());
                        self.out.append(string_of(&shown).as_str());
                        self.out.append(">");
                        self.depth += 1;
                    }
                } else if node.fragment {
                    self.skip = 1;
                } else if let Some(t) = &node.text {
                    let s = first_of(&squeezed(&chars_of(t.as_str())), 80);
                    self.out.append(string_of(&s).as_str());
                }
            },
            PageEdge::Close(node) => {
                if node.element.is_some() || node.fragment {
                    if self.skip > 0 {
                        self.skip -= 1;
                    } else if let Some(x) = &node.element {
                        self.out.append("</");
                        self.out.append(x.0.as_str());
                        self.out.append(">");
                        if self.depth > 0 {
                            self.depth -= 1;
                        }
                    }
                }
            },
        }
    }
}

/// The structure of a page, from a walk through it: its elements with their classes, ids and links, and
/// the beginnings of its texts.
pub fn condense_edges(edges: &Vec<PageEdge>) -> (r: String)
    ensures
        r@ == structure_of(web::edge_views(edges@)),
{
    let mut w = Walk { out: String::new(), depth: 0, skip: 0 };
    let ghost all = web::edge_views(edges@);
    assert(w.state().out =~= walk_start().out);
    assert(all.take(0).len() == 0);
    for i in 0..edges.len()
        invariant
            all == web::edge_views(edges@),
            w.state() == walk_on(walk_start(), all.take(i as int)),
            w.depth <= DEPTH_LIMIT + 1,
            w.skip <= i,
    {
        assert(all.take(i + 1).drop_last() == all.take(i as int));
        assert(all.take(i + 1).last() == edges@[i as int]@);
        w.step(&edges[i]);
    }
    assert(all.take(edges@.len() as int) == all);
    let chars = chars_of(w.out.as_str());
    if chars.len() > HTML_BUDGET {
        let from: usize = (chars.len() - HTML_BUDGET) / 3;
        string_of(&slice_of(&chars, from, from + HTML_BUDGET))
    } else {
        w.out
    }
}

/// The structure of a page.
pub open spec fn condensed(html: Seq<char>) -> Seq<char> {
    if web::selector_fault("body"@) is None {
        structure_of(web::page_walk(html, "body"@))
    } else {
        structure_of(Seq::empty())
    }
}

/// The structure of a page, small enough to be shown to an AI.
pub fn condense(html: &str) -> (r: String)
    requires
        web::page_fits(html@),
    ensures
        r@ == condensed(html@),
{
    if selector_error("body").is_some() {
        let none: Vec<PageEdge> = Vec::new();
        assert(web::edge_views(none@) =~= Seq::<EdgeView>::empty());
        return condense_edges(&none);
    }
    condense_edges(&walk_page(html, "body"))
}

/// The structure that is shown has no more characters than the budget allows.
pub proof fn law_structure_is_small(html: Seq<char>)
    ensures
        condensed(html).len() <= HTML_BUDGET,
{
}

/// How the openings and closings of elements and fragments balance in a part of a walk: how many more
/// open than close; `None` where one closes that did not open in it.
pub open spec fn balance(edges: Seq<EdgeView>) -> Option<nat>
    decreases edges.len(),
{
    if edges.len() == 0 {
        Some(0)
    } else {
        match (balance(edges.drop_last()), edges.last()) {
            (None, _) => None,
            (Some(n), EdgeView::Open(node)) => if holds_nodes(node) {
                Some(n + 1)
            } else {
                Some(n)
            },
            (Some(n), EdgeView::Close(node)) => if !holds_nodes(node) {
                Some(n)
            } else if n == 0 {
                None
            } else {
                Some((n - 1) as nat)
            },
        }
    }
}

proof fn lemma_passed_over(w: WalkView, edges: Seq<EdgeView>)
    requires
        w.skip > 0,
        balance(edges) is Some,
    ensures
        walk_on(w, edges) == (WalkView { skip: w.skip + balance(edges)->Some_0, ..w }),
    decreases edges.len(),
{
    if edges.len() > 0 {
        lemma_passed_over(w, edges.drop_last());
    }
}

/// Scripts, styles and the like leave no trace: whatever stands in such an element, the walk is after
/// it where it was before it.
pub proof fn law_dropped_elements_leave_no_trace(
    w: WalkView,
    node: NodeView,
    inside: Seq<EdgeView>,
)
    requires
        node.element matches Some((name, _)) && is_dropped(name),
        balance(inside) == Some(0nat),
    ensures
        walk_on(w, seq![EdgeView::Open(node)] + inside + seq![EdgeView::Close(node)]) == w,
{
    lemma_node_passed_over(w, node, inside);
}

/// What a `template` holds leaves no trace either.
pub proof fn law_fragments_leave_no_trace(w: WalkView, node: NodeView, inside: Seq<EdgeView>)
    requires
        node.element is None,
        node.fragment,
        balance(inside) == Some(0nat),
    ensures
        walk_on(w, seq![EdgeView::Open(node)] + inside + seq![EdgeView::Close(node)]) == w,
{
    lemma_node_passed_over(w, node, inside);
}

proof fn lemma_node_passed_over(w: WalkView, node: NodeView, inside: Seq<EdgeView>)
    requires
        match node.element {
            Some((name, _)) => is_dropped(name),
            None => node.fragment,
        },
        balance(inside) == Some(0nat),
    ensures
        walk_on(w, seq![EdgeView::Open(node)] + inside + seq![EdgeView::Close(node)]) == w,
{
    let open = seq![EdgeView::Open(node)];
    let all = open + inside + seq![EdgeView::Close(node)];
    assert(all.drop_last() =~= open + inside);
    assert(open.drop_last() =~= Seq::empty());
    assert(walk_on(w, open.drop_last()) == w);
    let opened = WalkView { skip: w.skip + 1, ..w };
    assert(walk_on(w, open) == opened);
    lemma_walk_on_parts(w, open, inside);
    lemma_passed_over(opened, inside);
    assert(all.last() == EdgeView::Close(node));
}

/// Of an element's attributes only classes, ids and links are shown.
pub proof fn law_other_attributes_are_not_shown(name: Seq<char>, value: Seq<char>)
    requires
        name != "class"@,
        name != "id"@,
        name != "href"@,
    ensures
        attr_text(name, value).len() == 0,
{
}

proof fn lemma_walk_on_parts(w: WalkView, a: Seq<EdgeView>, b: Seq<EdgeView>)
    ensures
        walk_on(w, a + b) == walk_on(walk_on(w, a), b),
    decreases b.len(),
{
    if b.len() == 0 {
        assert(a + b =~= a);
    } else {
        lemma_walk_on_parts(w, a, b.drop_last());
        assert((a + b).drop_last() =~= a + b.drop_last());
    }
}

// ---------------------------------------------------------------------------
// Asking the AI
// ---------------------------------------------------------------------------

/// The words with which the AI is asked, around what it is told of the engine and its page.
pub const ASK_ROLE: &'static str = "あなたは検索エンジンの結果ページ(HTML)を読み取る CSS セレクタを直す保守担当です。\n検索元「";

pub const ASK_QUERY: &'static str = "」の結果ページで、今のセレクタでは結果を1件も読み取れなくなりました。\n検索語は「";

pub const ASK_SETTINGS: &'static str = "」です。次のページ構造(script/style を除き簡略化)を見て、新しいセレクタを返してください。\n\n今の設定: container=";

pub const ASK_RULES: &'static str = "\n\n条件:\n- container: 検索結果1件ぶんを囲む要素(広告・関連検索・「もっと見る」は含めない)\n- title / link: container の中のタイトルとリンク(link は href を持つ a 要素)\n- snippet: container の中の要約(無ければ空文字)\n- unwrap: link の href が転送URLのとき、本来のURLが入っているクエリ名(例 uddg)。不要なら空文字\n- セレクタは標準的な CSS(:has や :not は使ってよい)。JavaScript が必要でページに結果が無いときは {\"give_up\":true} だけ返す\n出力は JSON オブジェクト1つだけ(説明・コードブロック不要):\n{\"container\":\"...\",\"title\":\"...\",\"link\":\"...\",\"snippet\":\"...\",\"unwrap\":\"\"}\n\nページ構造:\n";

/// What the AI is asked: for new selectors for an engine from whose page, fetched for `query`, nothing
/// can be read, given the structure of that page.
pub open spec fn prompt_text(def: EngineView, query: Seq<char>, structure: Seq<char>) -> Seq<char> {
    ASK_ROLE@ + def.name + ASK_QUERY@ + query + ASK_SETTINGS@ + def.container + " / title="@
        + def.title + " / link="@ + def.link + " / snippet="@ + def.snippet + " / unwrap="@
        + def.unwrap + ASK_RULES@ + structure
}

pub fn prompt(def: &EngineDef, query: &str, structure: &str) -> (r: String)
    ensures
        r@ == prompt_text(def@, query@, structure@),
{
    let mut out = chars_of(ASK_ROLE);
    append_str(&mut out, def.name.as_str());
    append_str(&mut out, ASK_QUERY);
    append_str(&mut out, query);
    append_str(&mut out, ASK_SETTINGS);
    append_str(&mut out, def.container.as_str());
    append_str(&mut out, " / title=");
    append_str(&mut out, def.title.as_str());
    append_str(&mut out, " / link=");
    append_str(&mut out, def.link.as_str());
    append_str(&mut out, " / snippet=");
    append_str(&mut out, def.snippet.as_str());
    append_str(&mut out, " / unwrap=");
    append_str(&mut out, def.unwrap.as_str());
    append_str(&mut out, ASK_RULES);
    append_str(&mut out, structure);
    string_of(&out)
}

/// Where the AI is asked, given the address of its server.
pub open spec fn ask_address(base: Seq<char>) -> Seq<char> {
    text::trim_end_text(base, "/"@) + "/v1/chat-providers/complete-priority"@
}

pub fn ask_url(base: &str) -> (r: String)
    ensures
        r@ == ask_address(base@),
{
    let mut out = trimmed_end_text(&chars_of(base), "/");
    append_str(&mut out, "/v1/chat-providers/complete-priority");
    string_of(&out)
}

/// The body of the call that asks the AI.
pub open spec fn ask_json(prompt: Seq<char>) -> Seq<char> {
    "{\"prompt\":"@ + json::quoted(prompt) + "}"@
}

pub fn ask_body(prompt: &str) -> (r: String)
    ensures
        r@ == ask_json(prompt@),
{
    let s = "{\"prompt\":".to_string();
    s.concat(quote(prompt).as_str()).concat("}")
}

/// Why an answer of the AI is none.
#[derive(Clone, Debug, PartialEq, Eq)]
pub enum AnswerError {
    /// It is no JSON, for the reason given.
    Unreadable(String),
    /// It holds no text.
    Empty,
}

pub enum AnswerFault {
    Unreadable(Seq<char>),
    Empty,
}

impl View for AnswerError {
    type V = AnswerFault;

    open spec fn view(&self) -> AnswerFault {
        match *self {
            AnswerError::Unreadable(e) => AnswerFault::Unreadable(e@),
            AnswerError::Empty => AnswerFault::Empty,
        }
    }
}

pub open spec fn answer_fault_text(f: AnswerFault) -> Seq<char> {
    match f {
        AnswerFault::Unreadable(e) =>
            "aruaru-llm の応答を読めません: error decoding response body: "@ + e,
        AnswerFault::Empty => "AI から回答を得られませんでした"@,
    }
}

impl AnswerError {
    /// The error in words.
    pub fn message(&self) -> (r: String)
        ensures
            r@ == answer_fault_text(self@),
    {
        match self {
            AnswerError::Unreadable(e) => {
                let s =
                    "aruaru-llm の応答を読めません: error decoding response body: ".to_string();
                s.concat(e.as_str())
            },
            AnswerError::Empty => "AI から回答を得られませんでした".to_string(),
        }
    }
}

/// The text that the field `text` of the object in the field `reply` holds.
pub open spec fn reply_of(j: json::FieldsView) -> Option<Seq<char>> {
    match json::field(j, "reply"@) {
        Some(json::JsonView::Nested(s)) => match json::json_fields(utf8::encode_utf8(s)) {
            Ok(r) => json::text_field(r, "text"@),
            Err(_) => None,
        },
        _ => None,
    }
}

/// What the AI says, according to the body of its server's answer.
pub open spec fn answer_of(body: Seq<u8>) -> Result<Seq<char>, AnswerFault> {
    match json::json_fields(body) {
        Err(e) => Err(AnswerFault::Unreadable(e)),
        Ok(j) => match reply_of(j) {
            Some(t) => Ok(t),
            None => Err(AnswerFault::Empty),
        },
    }
}

/// What the AI says, in an answer that has been read.
pub fn reply_text(j: &Json) -> (r: Option<String>)
    ensures
        web::opt_text(r) == reply_of(j@),
{
    match j.get("reply") {
        Some(JsonValue::Nested(s)) => match parse_json(s.as_str().as_bytes()) {
            Ok(r) => match r.text("text") {
                Some(t) => Some(t.to_string()),
                None => None,
            },
            Err(_) => None,
        },
        _ => None,
    }
}

/// What the AI says, according to the body of its server's answer.
pub fn answer_text(body: &[u8]) -> (r: Result<String, AnswerError>)
    ensures
        (match r {
            Ok(s) => Ok(s@),
            Err(e) => Err(e@),
        }) == answer_of(body@),
{
    match parse_json(body) {
        Err(e) => Err(AnswerError::Unreadable(e)),
        Ok(j) => match reply_text(&j) {
            Some(t) => Ok(t),
            None => Err(AnswerError::Empty),
        },
    }
}

/// The JSON object that a text holds from place `i` up to place `j`, if that is one.
pub open spec fn object_at(s: Seq<char>, i: int, j: int) -> Option<json::FieldsView> {
    if 0 <= i < j <= s.len() && s[i] == '{' && s[j - 1] == '}' {
        match json::json_fields(utf8::encode_utf8(s.subrange(i, j))) {
            Ok(f) => Some(f),
            Err(_) => None,
        }
    } else {
        None
    }
}

/// The shortest JSON object that a text holds from place `i` up to place `j` or a later one.
pub open spec fn object_from(s: Seq<char>, i: int, j: int) -> Option<json::FieldsView>
    decreases s.len() + 1 - j,
{
    if j > s.len() {
        None
    } else if object_at(s, i, j) is Some {
        object_at(s, i, j)
    } else {
        object_from(s, i, j + 1)
    }
}

/// The first JSON object that a text holds from place `i` or a later one on.
pub open spec fn first_object(s: Seq<char>, i: int) -> Option<json::FieldsView>
    decreases s.len() - i,
{
    if i >= s.len() {
        None
    } else if object_from(s, i, i + 1) is Some {
        object_from(s, i, i + 1)
    } else {
        first_object(s, i + 1)
    }
}

/// The first JSON object in an answer.
pub open spec fn object_of(s: Seq<char>) -> Option<json::FieldsView> {
    first_object(s, 0)
}

fn object_starting(chars: &Vec<char>, i: usize) -> (r: Option<Json>)
    requires
        i < chars@.len(),
    ensures
        (match r {
            Some(j) => Some(j@),
            None => None,
        }) == object_from(chars@, i as int, i + 1),
{
    let n: usize = chars.len();
    if chars[i] != '{' {
        proof {
            lemma_no_object_from(chars@, i as int, i + 1);
        }
        return None;
    }
    for j in i..n
        invariant
            n == chars@.len(),
            i < n,
            chars@[i as int] == '{',
            object_from(chars@, i as int, i + 1) == object_from(chars@, i as int, j + 1),
    {
        if chars[j] == '}' {
            let object = string_of(&slice_of(chars, i, j + 1));
            if let Ok(f) = parse_json(object.as_str().as_bytes()) {
                return Some(f);
            }
        }
    }
    None
}

/// The first JSON object in an answer, whatever words stand around it.
pub fn extract_json(answer: &str) -> (r: Option<Json>)
    ensures
        (match r {
            Some(j) => Some(j@),
            None => None,
        }) == object_of(answer@),
{
    let chars = chars_of(answer);
    for i in 0..chars.len()
        invariant
            chars@ == answer@,
            object_of(answer@) == first_object(answer@, i as int),
    {
        if let Some(f) = object_starting(&chars, i) {
            return Some(f);
        }
    }
    None
}

proof fn lemma_no_object_from(s: Seq<char>, i: int, j: int)
    requires
        forall|k: int| j <= k <= s.len() ==> #[trigger] object_at(s, i, k) is None,
    ensures
        object_from(s, i, j) is None,
    decreases s.len() + 1 - j,
{
    if j <= s.len() {
        lemma_no_object_from(s, i, j + 1);
    }
}

proof fn lemma_object_from(s: Seq<char>, i: int, k: int, j: int)
    requires
        k <= j <= s.len(),
        object_at(s, i, j) is Some,
        forall|e: int| k <= e < j ==> #[trigger] object_at(s, i, e) is None,
    ensures
        object_from(s, i, k) == object_at(s, i, j),
    decreases j - k,
{
    if k < j {
        lemma_object_from(s, i, k + 1, j);
    }
}

proof fn lemma_first_object(s: Seq<char>, k: int, i: int, j: int)
    requires
        0 <= k <= i,
        object_at(s, i, j) is Some,
        forall|e: int| e < j ==> #[trigger] object_at(s, i, e) is None,
        forall|b: int, e: int| b < i ==> #[trigger] object_at(s, b, e) is None,
    ensures
        first_object(s, k) == object_at(s, i, j),
    decreases i - k,
{
    if k < i {
        lemma_no_object_from(s, k, k + 1);
        lemma_first_object(s, k + 1, i, j);
    } else {
        lemma_object_from(s, i, i + 1, j);
    }
}

/// What is taken from an answer is the JSON object that starts first in it: where one stands from place
/// `i` to place `j`, with none that starts earlier and none that starts there and ends earlier, it is
/// that one, whatever follows.
pub proof fn law_the_first_object_is_taken(s: Seq<char>, i: int, j: int)
    requires
        object_at(s, i, j) is Some,
        forall|e: int| e < j ==> #[trigger] object_at(s, i, e) is None,
        forall|b: int, e: int| b < i ==> #[trigger] object_at(s, b, e) is None,
    ensures
        object_of(s) == object_at(s, i, j),
{
    lemma_first_object(s, 0, i, j);
}

/// Something is taken from every answer that holds a JSON object, and from no other.
pub proof fn law_an_object_is_taken_where_there_is_one(s: Seq<char>)
    ensures
        object_of(s) is Some <==> exists|i: int, j: int| #[trigger] object_at(s, i, j) is Some,
{
    lemma_some_object(s, 0);
}

proof fn lemma_some_object_from(s: Seq<char>, i: int, j: int)
    ensures
        object_from(s, i, j) is Some <==> exists|e: int|
            j <= e && #[trigger] object_at(s, i, e) is Some,
    decreases s.len() + 1 - j,
{
    if j <= s.len() {
        lemma_some_object_from(s, i, j + 1);
    }
}

proof fn lemma_some_object(s: Seq<char>, i: int)
    requires
        0 <= i,
    ensures
        first_object(s, i) is Some <==> exists|b: int, e: int|
            i <= b && #[trigger] object_at(s, b, e) is Some,
    decreases s.len() - i,
{
    if i < s.len() {
        lemma_some_object_from(s, i, i + 1);
        lemma_some_object(s, i + 1);
    }
}

// ---------------------------------------------------------------------------
// Taking over a proposal
// ---------------------------------------------------------------------------

/// Why a proposal is not taken over.
#[derive(Clone, Debug, PartialEq, Eq)]
pub enum ProposalError {
    /// The AI says that nothing can be read from the page.
    GivenUp,
    /// A selector is missing.
    Missing(Part),
    /// The name of the redirect parameter is none.
    BadUnwrap,
    /// The definition that it makes cannot be used.
    Invalid(EngineError),
}

pub enum ProposalFault {
    GivenUp,
    Missing(Part),
    BadUnwrap,
    Invalid(EngineFault),
}

impl View for ProposalError {
    type V = ProposalFault;

    open spec fn view(&self) -> ProposalFault {
        match *self {
            ProposalError::GivenUp => ProposalFault::GivenUp,
            ProposalError::Missing(p) => ProposalFault::Missing(p),
            ProposalError::BadUnwrap => ProposalFault::BadUnwrap,
            ProposalError::Invalid(e) => ProposalFault::Invalid(e@),
        }
    }
}

pub open spec fn proposal_fault_text(f: ProposalFault) -> Seq<char> {
    match f {
        ProposalFault::GivenUp => "AI は読み取れないと判断しました(JavaScript が必要なページ、または利用を断られている可能性)"@,
        ProposalFault::Missing(p) => "提案に "@ + engine::part_text(p) + " がありません"@,
        ProposalFault::BadUnwrap => "unwrap の指定が正しくありません"@,
        ProposalFault::Invalid(e) => engine::fault_text(e),
    }
}

impl ProposalError {
    /// The error in words.
    pub fn message(&self) -> (r: String)
        ensures
            r@ == proposal_fault_text(self@),
    {
        match self {
            ProposalError::GivenUp => "AI は読み取れないと判断しました(JavaScript が必要なページ、または利用を断られている可能性)".to_string(),
            ProposalError::Missing(p) => {
                let s = "提案に ".to_string();
                s.concat(engine::part_name(*p)).concat(" がありません")
            },
            ProposalError::BadUnwrap => "unwrap の指定が正しくありません".to_string(),
            ProposalError::Invalid(e) => e.message(),
        }
    }
}

/// The text of a field, without the white space around it.
pub open spec fn proposed(p: json::FieldsView, name: Seq<char>) -> Option<Seq<char>> {
    match json::text_field(p, name) {
        Some(s) => Some(text::trim(s)),
        None => None,
    }
}

/// The selector that is proposed for a part: only that of the summary may be empty.
pub open spec fn proposed_part(p: json::FieldsView, part: Part) -> Option<Seq<char>> {
    match proposed(p, engine::part_text(part)) {
        Some(s) => if s.len() > 0 || part == Part::Snippet {
            Some(s)
        } else {
            None
        },
        None => None,
    }
}

pub open spec fn is_unwrap_char(c: char) -> bool {
    text::is_alphanumeric(c) || c == '_' || c == '-'
}

pub open spec fn good_unwrap(s: Seq<char>) -> bool {
    forall|i: int| 0 <= i < s.len() ==> is_unwrap_char(#[trigger] s[i])
}

/// What a proposal makes of a definition: the selectors and the redirect parameter may change, and
/// nothing else; what comes out must be a definition that can be used.
pub open spec fn proposal_outcome(current: EngineView, p: json::FieldsView) -> Result<
    EngineView,
    ProposalFault,
> {
    if json::field(p, "give_up"@) == Some(json::JsonView::Bool(true)) {
        Err(ProposalFault::GivenUp)
    } else {
        match (
            proposed_part(p, Part::Container),
            proposed_part(p, Part::Title),
            proposed_part(p, Part::Link),
            proposed_part(p, Part::Snippet),
        ) {
            (None, _, _, _) => Err(ProposalFault::Missing(Part::Container)),
            (_, None, _, _) => Err(ProposalFault::Missing(Part::Title)),
            (_, _, None, _) => Err(ProposalFault::Missing(Part::Link)),
            (_, _, _, None) => Err(ProposalFault::Missing(Part::Snippet)),
            (Some(container), Some(title), Some(link), Some(snippet)) => {
                let unwrap = proposed(p, "unwrap"@);
                let made = EngineView {
                    container,
                    title,
                    link,
                    snippet,
                    unwrap: match unwrap {
                        Some(u) => u,
                        None => current.unwrap,
                    },
                    ..current
                };
                if unwrap matches Some(u) && !good_unwrap(u) {
                    Err(ProposalFault::BadUnwrap)
                } else {
                    match engine::engine_fault(made) {
                        Some(e) => Err(ProposalFault::Invalid(e)),
                        None => Ok(made),
                    }
                }
            },
        }
    }
}

fn trimmed_field(p: &Json, name: &str) -> (r: Option<String>)
    ensures
        web::opt_text(r) == proposed(p@, name@),
{
    match p.text(name) {
        Some(s) => Some(string_of(&trimmed(&chars_of(s)))),
        None => None,
    }
}

fn part_field(p: &Json, part: Part) -> (r: Option<String>)
    ensures
        web::opt_text(r) == proposed_part(p@, part),
{
    match trimmed_field(p, engine::part_name(part)) {
        Some(s) => if !s.as_str().is_empty() || part == Part::Snippet {
            Some(s)
        } else {
            None
        },
        None => None,
    }
}

fn unwrap_is_good(s: &str) -> (r: bool)
    ensures
        r == good_unwrap(s@),
{
    let v = chars_of(s);
    for i in 0..v.len()
        invariant
            v@ == s@,
            forall|k: int| 0 <= k < i ==> is_unwrap_char(#[trigger] s@[k]),
    {
        if !(alphanumeric(v[i]) || v[i] == '_' || v[i] == '-') {
            assert(!is_unwrap_char(s@[i as int]));
            return false;
        }
    }
    true
}

/// The definition with what a proposal may change of it.
pub fn apply_proposal(current: &EngineDef, proposal: &Json) -> (r: Result<EngineDef, ProposalError>)
    ensures
        (match r {
            Ok(e) => Ok(e@),
            Err(e) => Err(e@),
        }) == proposal_outcome(current@, proposal@),
{
    if let Some(JsonValue::Bool(b)) = proposal.get("give_up") {
        if *b {
            return Err(ProposalError::GivenUp);
        }
    }
    let container: String = match part_field(proposal, Part::Container) {
        Some(s) => s,
        None => {
            return Err(ProposalError::Missing(Part::Container));
        },
    };
    let title: String = match part_field(proposal, Part::Title) {
        Some(s) => s,
        None => {
            return Err(ProposalError::Missing(Part::Title));
        },
    };
    let link: String = match part_field(proposal, Part::Link) {
        Some(s) => s,
        None => {
            return Err(ProposalError::Missing(Part::Link));
        },
    };
    let snippet: String = match part_field(proposal, Part::Snippet) {
        Some(s) => s,
        None => {
            return Err(ProposalError::Missing(Part::Snippet));
        },
    };
    let mut made = current.copy();
    made.container = container;
    made.title = title;
    made.link = link;
    made.snippet = snippet;
    if let Some(u) = trimmed_field(proposal, "unwrap") {
        if !unwrap_is_good(u.as_str()) {
            return Err(ProposalError::BadUnwrap);
        }
        made.unwrap = u;
    }
    match made.validate() {
        Ok(_) => Ok(made),
        Err(e) => Err(ProposalError::Invalid(e)),
    }
}

/// Why a definition does not prove itself on a page.
#[derive(Clone, Copy, Debug, PartialEq, Eq, Structural)]
pub enum VerifyError {
    /// Only so many results were read.
    TooFew(usize),
    /// There is a selector for summaries, and no summary was read.
    NoSnippets,
    /// A title is longer than 300 characters.
    LongTitle,
}

pub open spec fn verify_error_text(e: VerifyError) -> Seq<char> {
    match e {
        VerifyError::TooFew(n) => "実際のページで "@ + text::decimal(n as nat)
            + " 件しか読み取れませんでした(必要 3 件)"@,
        VerifyError::NoSnippets => "要約が1件も読み取れません"@,
        VerifyError::LongTitle => "タイトルが長すぎます(かたまりの指定が広すぎる可能性)"@,
    }
}

impl VerifyError {
    /// The error in words.
    pub fn message(&self) -> (r: String)
        ensures
            r@ == verify_error_text(*self),
    {
        match self {
            VerifyError::TooFew(n) => {
                let mut out = chars_of("実際のページで ");
                append_chars(&mut out, &decimal_of(*n as u64));
                append_str(&mut out, " 件しか読み取れませんでした(必要 3 件)");
                string_of(&out)
            },
            VerifyError::NoSnippets => "要約が1件も読み取れません".to_string(),
            VerifyError::LongTitle => "タイトルが長すぎます(かたまりの指定が広すぎる可能性)".to_string(),
        }
    }
}

/// Whether results, read by a definition with this selector for summaries, show that it works.
pub open spec fn hits_outcome(snippet: Seq<char>, hits: Seq<HitView>) -> Result<nat, VerifyError> {
    if hits.len() < MIN_HITS {
        Err(VerifyError::TooFew(hits.len() as usize))
    } else if snippet.len() > 0 && forall|i: int|
        0 <= i < hits.len() ==> (#[trigger] hits[i]).snippet.len() == 0 {
        Err(VerifyError::NoSnippets)
    } else if exists|i: int| 0 <= i < hits.len() && (#[trigger] hits[i]).title.len() > 300 {
        Err(VerifyError::LongTitle)
    } else {
        Ok(hits.len())
    }
}

/// Whether results show that the definition they were read by works.
pub fn check_hits(snippet: &str, hits: &Vec<Hit>) -> (r: Result<usize, VerifyError>)
    ensures
        (match r {
            Ok(n) => Ok(n as nat),
            Err(e) => Err(e),
        }) == hits_outcome(snippet@, engine::hit_views(hits@)),
{
    if hits.len() < MIN_HITS {
        return Err(VerifyError::TooFew(hits.len()));
    }
    let ghost all = engine::hit_views(hits@);
    let mut with_snippet: bool = false;
    let mut long_title: bool = false;
    for i in 0..hits.len()
        invariant
            all == engine::hit_views(hits@),
            !with_snippet ==> forall|k: int| 0 <= k < i ==> (#[trigger] all[k]).snippet.len() == 0,
            with_snippet ==> exists|k: int| 0 <= k < i && (#[trigger] all[k]).snippet.len() > 0,
            !long_title ==> forall|k: int| 0 <= k < i ==> (#[trigger] all[k]).title.len() <= 300,
            long_title ==> exists|k: int| 0 <= k < i && (#[trigger] all[k]).title.len() > 300,
    {
        assert(all[i as int] == hits@[i as int]@);
        if !hits[i].snippet.as_str().is_empty() {
            with_snippet = true;
        }
        if chars_of(hits[i].title.as_str()).len() > 300 {
            long_title = true;
        }
    }
    if !snippet.is_empty() && !with_snippet {
        return Err(VerifyError::NoSnippets);
    }
    if long_title {
        return Err(VerifyError::LongTitle);
    }
    Ok(hits.len())
}

/// Whether a definition works on a page that was actually fetched: how many results it reads there.
pub fn verify(cand: &EngineDef, html: &str) -> (r: Result<usize, VerifyError>)
    requires
        engine::can_read(cand@, html@),
    ensures
        (match r {
            Ok(n) => Ok(n as nat),
            Err(e) => Err(e),
        }) == hits_outcome(cand@.snippet, engine::page_hits(cand@, html@)),
{
    let hits = parse(cand, html);
    check_hits(cand.snippet.as_str(), &hits)
}

// ---------------------------------------------------------------------------
// Mending an engine
// ---------------------------------------------------------------------------

/// How a broken engine is to be mended.
pub enum Plan {
    /// Not at all: there is next to nothing on the page.
    Skip,
    /// By asking the AI this.
    Ask(String),
}

pub enum PlanView {
    Skip,
    Ask(Seq<char>),
}

impl View for Plan {
    type V = PlanView;

    open spec fn view(&self) -> PlanView {
        match *self {
            Plan::Skip => PlanView::Skip,
            Plan::Ask(p) => PlanView::Ask(p@),
        }
    }
}

/// How an engine is mended, given the structure of the page that nothing was read from.
pub open spec fn plan_for(def: EngineView, query: Seq<char>, structure: Seq<char>) -> PlanView {
    if utf8::encode_utf8(structure).len() < 200 {
        PlanView::Skip
    } else {
        PlanView::Ask(prompt_text(def, query, structure))
    }
}

pub fn plan_with(def: &EngineDef, query: &str, structure: &str) -> (r: Plan)
    ensures
        r@ == plan_for(def@, query@, structure@),
{
    if structure.as_bytes().len() < 200 {
        Plan::Skip
    } else {
        Plan::Ask(prompt(def, query, structure))
    }
}

/// How an engine is mended from whose page, fetched for `query`, nothing was read.
pub fn plan_repair(def: &EngineDef, html: &str, query: &str) -> (r: Plan)
    requires
        web::page_fits(html@),
    ensures
        r@ == plan_for(def@, query@, condensed(html@)),
{
    let structure = condense(html);
    plan_with(def, query, structure.as_str())
}

/// The definition that an answer of the AI makes of the present one, or why it makes none.
pub open spec fn candidate_of(def: EngineView, answer: Result<Seq<char>, Seq<char>>) -> Result<
    EngineView,
    Seq<char>,
> {
    match answer {
        Err(e) => Err(e),
        Ok(s) => match object_of(s) {
            None => Err("AI の回答から設定を読み取れません"@),
            Some(p) => match proposal_outcome(def, p) {
                Err(e) => Err(proposal_fault_text(e)),
                Ok(made) => Ok(made),
            },
        },
    }
}

/// What comes of an answer of the AI, or of the failure to get one: the definition and how many results
/// it reads from the page, or why it is not adopted.
pub open spec fn judged(
    def: EngineView,
    html: Seq<char>,
    answer: Result<Seq<char>, Seq<char>>,
) -> Result<(EngineView, nat), Seq<char>> {
    match candidate_of(def, answer) {
        Err(e) => Err(e),
        Ok(made) => match hits_outcome(made.snippet, engine::page_hits(made, html)) {
            Err(e) => Err(verify_error_text(e)),
            Ok(n) => Ok((made, n)),
        },
    }
}

pub open spec fn judgement(r: Result<(EngineDef, usize), String>) -> Result<
    (EngineView, nat),
    Seq<char>,
> {
    match r {
        Ok(x) => Ok((x.0@, x.1 as nat)),
        Err(e) => Err(e@),
    }
}

pub open spec fn answer_view(answer: Result<String, String>) -> Result<Seq<char>, Seq<char>> {
    match answer {
        Ok(s) => Ok(s@),
        Err(e) => Err(e@),
    }
}

pub open spec fn candidate_view(r: Result<EngineDef, String>) -> Result<EngineView, Seq<char>> {
    match r {
        Ok(e) => Ok(e@),
        Err(e) => Err(e@),
    }
}

/// The definition that a proposal, read from an answer if there is one in it, makes of the present one.
pub fn candidate_from(def: &EngineDef, proposal: &Option<Json>) -> (r: Result<EngineDef, String>)
    ensures
        candidate_view(r) == (match proposal {
            None => Err("AI の回答から設定を読み取れません"@),
            Some(p) => match proposal_outcome(def@, p@) {
                Err(e) => Err(proposal_fault_text(e)),
                Ok(made) => Ok(made),
            },
        }),
{
    match proposal {
        None => Err("AI の回答から設定を読み取れません".to_string()),
        Some(p) => match apply_proposal(def, p) {
            Err(e) => Err(e.message()),
            Ok(made) => Ok(made),
        },
    }
}

/// The definition that an answer of the AI makes of the present one, or why it makes none.
pub fn candidate(def: &EngineDef, answer: &Result<String, String>) -> (r: Result<EngineDef, String>)
    ensures
        candidate_view(r) == candidate_of(def@, answer_view(*answer)),
        r matches Ok(made) ==> engine::usable(made@),
{
    match answer {
        Err(e) => Err(e.clone()),
        Ok(s) => candidate_from(def, &extract_json(s.as_str())),
    }
}

/// What comes of an answer of the AI, or of the failure to get one, given in words.
pub fn judge(def: &EngineDef, html: &str, answer: Result<String, String>) -> (r: Result<
    (EngineDef, usize),
    String,
>)
    requires
        candidate_of(def@, answer_view(answer)) matches Ok(made) ==> engine::can_read(made, html@),
    ensures
        judgement(r) == judged(def@, html@, answer_view(answer)),
{
    match candidate(def, &answer) {
        Err(e) => Err(e),
        Ok(made) => match verify(&made, html) {
            Err(e) => Err(e.message()),
            Ok(n) => Ok((made, n)),
        },
    }
}

/// The definitions with the first of that id replaced.
pub open spec fn adopted(engines: Seq<EngineView>, id: Seq<char>, made: EngineView) -> Seq<
    EngineView,
> {
    let i = engine::engine_place(engines, id);
    if i < engines.len() {
        engines.update(i, made)
    } else {
        engines
    }
}

/// Puts a definition in the place of the one with that id.
pub fn adopt(engines: &mut Vec<EngineDef>, id: &str, made: &EngineDef)
    ensures
        engine::engine_views(final(engines)@) == adopted(
            engine::engine_views(old(engines)@),
            id@,
            made@,
        ),
{
    let i: usize = engine::find_engine(engines, id);
    let ghost before = engine::engine_views(engines@);
    if i < engines.len() {
        let copy = made.copy();
        engines.set(i, copy);
        assert(engine::engine_views(engines@) =~= before.update(i as int, made@));
    }
}

/// The engines that are used, given those that were saved, if any could be read: these where there is
/// at least one and all of them are valid, else the ones to begin with.
pub open spec fn engines_used(saved: Option<Seq<EngineView>>) -> Seq<EngineView> {
    match saved {
        Some(v) => if v.len() > 0 && forall|i: int|
            0 <= i < v.len() ==> engine::usable(#[trigger] v[i]) {
            v
        } else {
            engine::default_engines()
        },
        None => engine::default_engines(),
    }
}

/// The engines that are used, given those that were saved.
pub fn choose_engines(saved: Option<Vec<EngineDef>>) -> (r: Vec<EngineDef>)
    ensures
        engine::engine_views(r@) == engines_used(
            match saved {
                Some(v) => Some(engine::engine_views(v@)),
                None => None,
            },
        ),
{
    match saved {
        Some(v) => {
            let ghost all = engine::engine_views(v@);
            for i in 0..v.len()
                invariant
                    all == engine::engine_views(v@),
                    saved == Some(v),
                    forall|k: int| 0 <= k < i ==> engine::usable(#[trigger] all[k]),
            {
                assert(all[i as int] == v@[i as int]@);
                if v[i].validate().is_err() {
                    assert(!engine::usable(all[i as int]));
                    return engine::defaults();
                }
            }
            if v.len() > 0 {
                v
            } else {
                engine::defaults()
            }
        },
        None => engine::defaults(),
    }
}

// ---------------------------------------------------------------------------
// The log
// ---------------------------------------------------------------------------

/// A line of the log: a JSON object with what happened to which engine, and when.
pub open spec fn log_text(
    unix: nat,
    engine: Seq<char>,
    outcome: Seq<char>,
    detail: Seq<char>,
) -> Seq<char> {
    "{\"detail\":"@ + json::quoted(detail) + ",\"engine\":"@ + json::quoted(engine)
        + ",\"outcome\":"@ + json::quoted(outcome) + ",\"unix\":"@ + text::decimal(unix) + "}"@
        + "\n"@
}

/// A line of the log.
pub fn log_entry(unix: u64, engine: &str, outcome: &str, detail: &str) -> (r: String)
    ensures
        r@ == log_text(unix as nat, engine@, outcome@, detail@),
{
    let mut out = chars_of("{\"detail\":");
    append_str(&mut out, quote(detail).as_str());
    append_str(&mut out, ",\"engine\":");
    append_str(&mut out, quote(engine).as_str());
    append_str(&mut out, ",\"outcome\":");
    append_str(&mut out, quote(outcome).as_str());
    append_str(&mut out, ",\"unix\":");
    append_chars(&mut out, &decimal_of(unix));
    append_str(&mut out, "}");
    append_str(&mut out, "\n");
    string_of(&out)
}

/// What is logged when an engine is not mended because there is next to nothing on its page.
pub const SKIPPED_DETAIL: &'static str = "ページの内容が空に近く、AI に見せられません(利用を断られている可能性)";

/// What is logged when no page of an engine could be fetched.
pub const UNREACHABLE_DETAIL: &'static str = "ページを取得できませんでした(接続失敗・拒否)";

/// What is logged when a definition is adopted.
pub open spec fn applied_text(n: nat, e: EngineView) -> Seq<char> {
    text::decimal(n) + "件を読み取れる設定に更新: container="@ + e.container + " title="@ + e.title
        + " link="@ + e.link + " snippet="@ + e.snippet + " unwrap="@ + e.unwrap
}

pub fn applied_detail(n: usize, e: &EngineDef) -> (r: String)
    ensures
        r@ == applied_text(n as nat, e@),
{
    let mut out = decimal_of(n as u64);
    append_str(&mut out, "件を読み取れる設定に更新: container=");
    append_str(&mut out, e.container.as_str());
    append_str(&mut out, " title=");
    append_str(&mut out, e.title.as_str());
    append_str(&mut out, " link=");
    append_str(&mut out, e.link.as_str());
    append_str(&mut out, " snippet=");
    append_str(&mut out, e.snippet.as_str());
    append_str(&mut out, " unwrap=");
    append_str(&mut out, e.unwrap.as_str());
    string_of(&out)
}

// ---------------------------------------------------------------------------
// The daily checkup of an engine
// ---------------------------------------------------------------------------

/// The checkup of one engine, as far as it has gone.
pub struct Checkup {
    /// How many of its searches went well.
    pub ok_count: usize,
    /// The page and the query of the first that did not.
    pub broken: Option<(String, String)>,
}

pub struct CheckupView {
    pub ok_count: nat,
    pub broken: Option<(Seq<char>, Seq<char>)>,
}

impl View for Checkup {
    type V = CheckupView;

    open spec fn view(&self) -> CheckupView {
        CheckupView {
            ok_count: self.ok_count as nat,
            broken: match self.broken {
                Some(x) => Some((x.0@, x.1@)),
                None => None,
            },
        }
    }
}

/// The checkup after one search more: it went well where at least three results were read. `sample` is
/// the last page that was fetched from the engine.
pub open spec fn checkup_noted(
    c: CheckupView,
    hits: Option<usize>,
    sample: Seq<char>,
    query: Seq<char>,
) -> CheckupView {
    if hits matches Some(n) && n >= MIN_HITS {
        CheckupView { ok_count: c.ok_count + 1, ..c }
    } else if c.broken is None {
        CheckupView { broken: Some((sample, query)), ..c }
    } else {
        c
    }
}

/// What a checkup leads to.
#[derive(Clone, Copy, Debug, PartialEq, Eq, Structural)]
pub enum Finding {
    /// Every search went well.
    Fine,
    /// One did not, and there is a page to mend the engine by.
    Broken,
    /// One did not, and there is no page.
    Unreachable,
}

pub open spec fn finding_of(c: CheckupView) -> Finding {
    match c.broken {
        None => Finding::Fine,
        Some((html, _)) => if html.len() > 0 {
            Finding::Broken
        } else {
            Finding::Unreachable
        },
    }
}

impl Checkup {
    pub fn new() -> (r: Checkup)
        ensures
            r@ == (CheckupView { ok_count: 0, broken: None }),
    {
        Checkup { ok_count: 0, broken: None }
    }

    /// Takes note of one search: how many results were read, if any search page was.
    pub fn note(&mut self, hits: Option<usize>, sample: &str, query: &str)
        requires
            old(self)@.ok_count < usize::MAX,
        ensures
            final(self)@ == checkup_noted(old(self)@, hits, sample@, query@),
    {
        let well: bool = match hits {
            Some(n) => n >= MIN_HITS,
            None => false,
        };
        if well {
            self.ok_count += 1;
        } else if self.broken.is_none() {
            self.broken = Some((sample.to_string(), query.to_string()));
        }
    }

    /// What the checkup leads to.
    pub fn finding(&self) -> (r: Finding)
        ensures
            r == finding_of(self@),
    {
        match &self.broken {
            None => Finding::Fine,
            Some(x) => if !x.0.as_str().is_empty() {
                Finding::Broken
            } else {
                Finding::Unreachable
            },
        }
    }
}

/// A line of the report on a checkup.
#[derive(Clone, Copy, Debug, PartialEq, Eq, Structural)]
pub enum Report {
    /// So many searches went well.
    Fine(usize),
    /// The engine was broken, and is mended or not.
    Broken(bool),
    /// After it was mended, a search went well or not.
    Again(bool),
    Unreachable,
}

pub open spec fn report_text(id: Seq<char>, report: Report) -> Seq<char> {
    id + match report {
        Report::Fine(n) => ": 正常("@ + text::decimal(n as nat) + "/2)"@,
        Report::Broken(fixed) => ": 読み取れず → "@ + if fixed {
            "AI が設定を修正"@
        } else {
            "修正できず(maintenance.log を確認)"@
        },
        Report::Again(ok) => ": 修正後の確認 "@ + if ok {
            "OK"@
        } else {
            "NG"@
        },
        Report::Unreachable => ": 取得できず(接続失敗または拒否)"@,
    }
}

/// A line of the report on a checkup, in words.
pub fn report_line(id: &str, report: Report) -> (r: String)
    ensures
        r@ == report_text(id@, report),
{
    let tail: Vec<char> = match report {
        Report::Fine(n) => {
            let mut t = chars_of(": 正常(");
            append_chars(&mut t, &decimal_of(n as u64));
            append_str(&mut t, "/2)");
            t
        },
        Report::Broken(fixed) => {
            let mut t = chars_of(": 読み取れず → ");
            append_str(
                &mut t,
                if fixed {
                    "AI が設定を修正"
                } else {
                    "修正できず(maintenance.log を確認)"
                },
            );
            t
        },
        Report::Again(ok) => {
            let mut t = chars_of(": 修正後の確認 ");
            append_str(
                &mut t,
                if ok {
                    "OK"
                } else {
                    "NG"
                },
            );
            t
        },
        Report::Unreachable => chars_of(": 取得できず(接続失敗または拒否)"),
    };
    let mut out = chars_of(id);
    append_chars(&mut out, &tail);
    string_of(&out)
}

// ---------------------------------------------------------------------------
// Laws
// ---------------------------------------------------------------------------

/// Whatever an AI proposes, what is fetched and from where, under which id and name, with which weight
/// and for which languages, stays as it was: only the selectors and the redirect parameter can change.
pub proof fn law_proposals_change_only_selectors(current: EngineView, p: json::FieldsView)
    ensures
        proposal_outcome(current, p) matches Ok(made) ==> {
            &&& made.id == current.id
            &&& made.name == current.name
            &&& made.url == current.url
            &&& made.link_attr == current.link_attr
            &&& made.weight == current.weight
            &&& made.enabled == current.enabled
            &&& made.langs == current.langs
            &&& made.only_langs == current.only_langs
            &&& engine::usable(made)
        },
{
}

/// Nothing that an AI says is adopted unless it makes a valid definition that fetches from the same
/// address as before, and that reads at least three results, each with a title and a link to the web,
/// from the page that was fetched.
pub proof fn law_adopted_definitions_are_proven(
    def: EngineView,
    html: Seq<char>,
    answer: Result<Seq<char>, Seq<char>>,
)
    ensures
        judged(def, html, answer) matches Ok(x) ==> {
            &&& x.0.url == def.url
            &&& x.0.id == def.id
            &&& x.0.weight == def.weight
            &&& x.0.enabled == def.enabled
            &&& engine::usable(x.0)
            &&& x.1 == engine::page_hits(x.0, html).len()
            &&& x.1 >= MIN_HITS
            &&& forall|i: int|
                0 <= i < x.1 ==> engine::presentable(#[trigger] engine::page_hits(x.0, html)[i])
        },
{
    if let Ok(x) = judged(def, html, answer) {
        engine::law_hits_are_presentable(x.0, html);
    }
}

/// An answer of the AI that says it gives up changes nothing.
pub proof fn law_giving_up_changes_nothing(def: EngineView, html: Seq<char>, answer: Seq<char>)
    requires
        object_of(answer) matches Some(p) && json::field(p, "give_up"@) == Some(
            json::JsonView::Bool(true),
        ),
    ensures
        judged(def, html, Ok(answer)) is Err,
{
}

/// Adopting a definition leaves every engine with another id as it was, and their number and order.
pub proof fn law_adopting_leaves_others_alone(
    engines: Seq<EngineView>,
    id: Seq<char>,
    made: EngineView,
    i: int,
)
    requires
        0 <= i < engines.len(),
        engines[i].id != id,
    ensures
        adopted(engines, id, made).len() == engines.len(),
        adopted(engines, id, made)[i] == engines[i],
{
    engine::lemma_engine_place(engines, id);
}

/// Settings that were saved are used as they are where they are valid, and never where one of them is
/// not: the engines that are used are valid ones, as long as those to begin with are.
pub proof fn law_used_engines_are_valid(saved: Option<Seq<EngineView>>, i: int)
    requires
        forall|k: int|
            0 <= k < engine::default_engines().len() ==> engine::usable(
                #[trigger] engine::default_engines()[k],
            ),
        0 <= i < engines_used(saved).len(),
    ensures
        engine::usable(engines_used(saved)[i]),
        engines_used(saved).len() > 0,
{
}

/// Whatever is logged stands in one line: the only line break is at its end.
pub proof fn law_log_entries_are_one_line(
    unix: nat,
    engine: Seq<char>,
    outcome: Seq<char>,
    detail: Seq<char>,
)
    ensures
        ({
            let line = log_text(unix, engine, outcome, detail);
            &&& line.len() > 0
            &&& line.last() == '\n'
            &&& forall|i: int| 0 <= i < line.len() - 1 ==> #[trigger] line[i] != '\n'
        }),
{
    reveal_strlit("{\"detail\":");
    reveal_strlit(",\"engine\":");
    reveal_strlit(",\"outcome\":");
    reveal_strlit(",\"unix\":");
    reveal_strlit("}");
    reveal_strlit("\n");
    json::law_quoted_texts_are_printable(detail);
    json::law_quoted_texts_are_printable(engine);
    json::law_quoted_texts_are_printable(outcome);
    text::lemma_decimal_digits(unix);
    let s1 = "{\"detail\":"@ + json::quoted(detail);
    let s2 = s1 + ",\"engine\":"@ + json::quoted(engine);
    let s3 = s2 + ",\"outcome\":"@ + json::quoted(outcome);
    let s4 = s3 + ",\"unix\":"@ + text::decimal(unix);
    assert(one_line(s1));
    assert(one_line(s2));
    assert(one_line(s3));
    assert(one_line(s4));
    assert(one_line(s4 + "}"@));
    let line = log_text(unix, engine, outcome, detail);
    assert(line == s4 + "}"@ + "\n"@);
    assert forall|i: int| 0 <= i < line.len() - 1 implies #[trigger] line[i] != '\n' by {
        assert(line[i] == (s4 + "}"@)[i]);
    }
}

spec fn one_line(s: Seq<char>) -> bool {
    forall|i: int| 0 <= i < s.len() ==> #[trigger] s[i] >= ' '
}

/// A definition that works is accepted, and why one is not is said rightly. It works where it reads three
/// results or more, none with a title of more than 300 characters, and at least one summary, unless it
/// has no selector for summaries. One result without a summary does not matter.
pub proof fn law_working_definitions_are_accepted(snippet: Seq<char>, hits: Seq<HitView>)
    requires
        hits.len() <= usize::MAX,
    ensures
        ({
            let enough = hits.len() >= 3;
            let summed_up = snippet.len() == 0 || exists|i: int|
                0 <= i < hits.len() && (#[trigger] hits[i]).snippet.len() > 0;
            let long = exists|i: int| 0 <= i < hits.len() && (#[trigger] hits[i]).title.len() > 300;
            let r = hits_outcome(snippet, hits);
            &&& enough && summed_up && !long ==> r == Ok::<nat, VerifyError>(hits.len())
            &&& !enough ==> r == Err::<nat, VerifyError>(VerifyError::TooFew(hits.len() as usize))
            &&& enough && !summed_up ==> r == Err::<nat, VerifyError>(VerifyError::NoSnippets)
            &&& enough && summed_up && long ==> r == Err::<nat, VerifyError>(VerifyError::LongTitle)
        }),
{
    if snippet.len() > 0 {
        if exists|i: int| 0 <= i < hits.len() && (#[trigger] hits[i]).snippet.len() > 0 {
            let i = choose|i: int| 0 <= i < hits.len() && (#[trigger] hits[i]).snippet.len() > 0;
            assert(hits[i].snippet.len() != 0);
        } else {
            assert forall|i: int| 0 <= i < hits.len() implies (#[trigger] hits[i]).snippet.len()
                == 0 by {}
        }
    }
}

/// Whether a proposal names a selector for a part, and which: what its field says without the white space
/// around it.
pub open spec fn names_selector(p: json::FieldsView, name: Seq<char>, selector: Seq<char>) -> bool {
    json::field(p, name) matches Some(json::JsonView::Text(s)) && text::trim(s) == selector
}

/// A good proposal is taken over as it is: where it names selectors for the results, the titles, the links
/// and, if only an empty one, the summaries, the definition that comes of it has just these selectors, and
/// the redirect parameter that is named or else the present one; provided that it can be used.
pub proof fn law_good_proposals_are_taken_over(
    current: EngineView,
    p: json::FieldsView,
    made: EngineView,
)
    requires
        json::field(p, "give_up"@) != Some(json::JsonView::Bool(true)),
        names_selector(p, "container"@, made.container) && made.container.len() > 0,
        names_selector(p, "title"@, made.title) && made.title.len() > 0,
        names_selector(p, "link"@, made.link) && made.link.len() > 0,
        names_selector(p, "snippet"@, made.snippet),
        match json::field(p, "unwrap"@) {
            Some(json::JsonView::Text(s)) => made.unwrap == text::trim(s) && forall|i: int|
                0 <= i < made.unwrap.len() ==> text::is_alphanumeric(#[trigger] made.unwrap[i])
                    || made.unwrap[i] == '_' || made.unwrap[i] == '-',
            _ => made.unwrap == current.unwrap,
        },
        made.id == current.id && made.name == current.name && made.url == current.url,
        made.link_attr == current.link_attr && made.weight == current.weight,
        made.enabled == current.enabled && made.langs == current.langs,
        made.only_langs == current.only_langs,
    ensures
        engine::usable(made) ==> proposal_outcome(current, p) == Ok::<EngineView, ProposalFault>(made),
        !engine::usable(made) ==> proposal_outcome(current, p) is Err,
{
    if let Some(json::JsonView::Text(s)) = json::field(p, "unwrap"@) {
        assert forall|i: int| 0 <= i < made.unwrap.len() implies is_unwrap_char(
            #[trigger] made.unwrap[i],
        ) by {
            assert(text::is_alphanumeric(made.unwrap[i]) || made.unwrap[i] == '_' || made.unwrap[i]
                == '-');
        }
    }
    let c = EngineView {
        container: made.container,
        title: made.title,
        link: made.link,
        snippet: made.snippet,
        unwrap: made.unwrap,
        ..current
    };
    assert(c == made);
}

/// What a proposal makes has the selectors that it names and no others.
pub proof fn law_proposals_are_taken_at_their_word(current: EngineView, p: json::FieldsView)
    ensures
        proposal_outcome(current, p) matches Ok(made) ==> {
            &&& names_selector(p, "container"@, made.container) && made.container.len() > 0
            &&& names_selector(p, "title"@, made.title) && made.title.len() > 0
            &&& names_selector(p, "link"@, made.link) && made.link.len() > 0
            &&& names_selector(p, "snippet"@, made.snippet)
            &&& json::field(p, "give_up"@) != Some(json::JsonView::Bool(true))
        },
{
}

/// An engine is mended exactly where the first JSON object in the answer makes a definition that can be
/// used and that works on the page; it is then mended with that definition, and else the reason is given.
pub proof fn law_engines_are_mended_where_they_can_be(
    def: EngineView,
    html: Seq<char>,
    answer: Seq<char>,
    made: EngineView,
    n: nat,
)
    requires
        engine::page_hits(made, html).len() <= usize::MAX,
    ensures
        judged(def, html, Ok(answer)) == Ok::<(EngineView, nat), Seq<char>>((made, n)) <==> {
            let hits = engine::page_hits(made, html);
            &&& object_of(answer) matches Some(p) && proposal_outcome(def, p) == Ok::<
                EngineView,
                ProposalFault,
            >(made)
            &&& n == hits.len()
            &&& hits.len() >= 3
            &&& made.snippet.len() == 0 || exists|i: int|
                0 <= i < hits.len() && (#[trigger] hits[i]).snippet.len() > 0
            &&& forall|i: int| 0 <= i < hits.len() ==> (#[trigger] hits[i]).title.len() <= 300
        },
        forall|e: Seq<char>|
            #[trigger] judged(def, html, Err(e)) == Err::<(EngineView, nat), Seq<char>>(e),
{
    law_working_definitions_are_accepted(made.snippet, engine::page_hits(made, html));
}

/// A definition that is adopted stands where the first one with the id stood, and every other place is as
/// it was; without such a one nothing changes.
pub proof fn law_adopted_definitions_take_their_place(
    engines: Seq<EngineView>,
    id: Seq<char>,
    made: EngineView,
    i: int,
)
    requires
        0 <= i < engines.len(),
    ensures
        adopted(engines, id, made).len() == engines.len(),
        engines[i].id == id && (forall|k: int| 0 <= k < i ==> (#[trigger] engines[k]).id != id)
            ==> adopted(engines, id, made)[i] == made,
        !(engines[i].id == id && (forall|k: int| 0 <= k < i ==> (#[trigger] engines[k]).id != id))
            ==> adopted(engines, id, made)[i] == engines[i],
{
    engine::law_engines_are_found_by_id(engines, id);
    let at = engine::engine_place(engines, id);
    if engines[i].id == id && (forall|k: int| 0 <= k < i ==> (#[trigger] engines[k]).id != id) {
        assert(at == i) by {
            if at < i {
                assert(engines[at].id != id);
            }
        }
    } else if at == i {
        assert(forall|k: int| 0 <= k < i ==> (#[trigger] engines[k]).id != id);
    }
}

/// Settings that were saved are used as they are where there are some and each can be used; in every other
/// case the ones to begin with are.
pub proof fn law_saved_engines_are_used(saved: Seq<EngineView>)
    ensures
        saved.len() > 0 && (forall|i: int| 0 <= i < saved.len() ==> engine::usable(#[trigger] saved[i]))
            ==> engines_used(Some(saved)) == saved,
        saved.len() == 0 ==> engines_used(Some(saved)) == engine::default_engines(),
        (exists|i: int| 0 <= i < saved.len() && !engine::usable(#[trigger] saved[i])) ==> engines_used(
            Some(saved),
        ) == engine::default_engines(),
        engines_used(None) == engine::default_engines(),
{
}

/// An element that is entered is shown with its name, and with what is in it between its begin and its
/// end; a text is shown with its white space evened out, whole where it has 80 characters at most, else
/// its first 80.
pub proof fn law_elements_and_texts_are_shown(
    w: WalkView,
    node: NodeView,
    name: Seq<char>,
    attrs: Seq<(Seq<char>, Seq<char>)>,
    words: NodeView,
    said: Seq<char>,
)
    requires
        w.skip == 0,
        w.depth <= 40,
        utf8::encode_utf8(w.out).len() <= 56_000,
        node.element == Some((name, attrs)),
        !is_dropped(name),
        words.element is None && !words.fragment && words.text == Some(said),
    ensures
        ({
            let inside = walk_step(w, EdgeView::Open(node));
            let told = walk_step(inside, EdgeView::Open(words));
            let done = walk_step(walk_step(told, EdgeView::Close(words)), EdgeView::Close(node));
            let shown = told.out.skip(inside.out.len() as int);
            &&& inside.out == w.out + "<"@ + name + attrs_text(attrs) + ">"@
            &&& inside.depth == w.depth + 1
            &&& told.out == inside.out + shown
            &&& text::squeeze(said).len() <= 80 ==> shown == text::squeeze(said)
            &&& text::squeeze(said).len() > 80 ==> shown == text::squeeze(said).take(80)
            &&& done.out == told.out + "</"@ + name + ">"@
            &&& done.depth == w.depth && done.skip == 0
        }),
{
    let inside = walk_step(w, EdgeView::Open(node));
    let told = walk_step(inside, EdgeView::Open(words));
    let shown = first_chars(text::squeeze(said), 80);
    assert(told.out == inside.out + shown);
    assert(told.out.skip(inside.out.len() as int) =~= shown);
}

/// Of the attributes of an element its classes, its id and its link are shown, each with its name and its
/// value: whole where that is short, else its first 80 characters, of a link its first 90. Attributes in a
/// row are shown one after the other.
pub proof fn law_classes_ids_and_links_are_shown(
    name: Seq<char>,
    value: Seq<char>,
    a: Seq<(Seq<char>, Seq<char>)>,
    b: Seq<(Seq<char>, Seq<char>)>,
)
    ensures
        (name == "class"@ || name == "id"@) && value.len() <= 80 ==> attr_text(name, value) == " "@
            + name + "=\""@ + value + "\""@,
        (name == "class"@ || name == "id"@) && value.len() > 80 ==> attr_text(name, value) == " "@
            + name + "=\""@ + value.take(80) + "\""@,
        name == "href"@ && value.len() <= 90 ==> attr_text(name, value) == " "@ + name + "=\""@ + value
            + "\""@,
        name == "href"@ && value.len() > 90 ==> attr_text(name, value) == " "@ + name + "=\""@
            + value.take(90) + "\""@,
        attrs_text(a + b) == attrs_text(a) + attrs_text(b),
        attrs_text(seq![(name, value)]) == attr_text(name, value),
    decreases b.len(),
{
    reveal_strlit("class");
    reveal_strlit("id");
    reveal_strlit("href");
    let one = seq![(name, value)];
    let none = Seq::<(Seq<char>, Seq<char>)>::empty();
    assert(one.drop_last() =~= none);
    assert(one.last() == (name, value));
    assert(attrs_text(none) =~= Seq::<char>::empty());
    assert(attrs_text(one) == attrs_text(none) + attr_text(name, value));
    assert(attrs_text(one) =~= attr_text(name, value));
    if name == "class"@ || name == "id"@ {
        assert(name != "href"@) by {
            assert("class"@.len() == 5 && "id"@.len() == 2 && "href"@.len() == 4);
        }
    }
    if b.len() == 0 {
        assert(a + b =~= a);
        assert(attrs_text(a) + attrs_text(b) =~= attrs_text(a));
    } else {
        law_classes_ids_and_links_are_shown(name, value, a, b.drop_last());
        assert((a + b).drop_last() =~= a + b.drop_last());
        assert((a + b).last() == b.last());
        assert(attrs_text(a + b) =~= attrs_text(a) + attrs_text(b));
    }
}

/// The elements that are left out.
pub proof fn law_elements_that_are_left_out(name: Seq<char>)
    ensures
        is_dropped(name) <==> seq![
            "script"@,
            "style"@,
            "svg"@,
            "noscript"@,
            "head"@,
            "link"@,
            "meta"@,
            "path"@,
            "img"@,
            "iframe"@,
        ].contains(name),
{
    let v = seq![
        "script"@,
        "style"@,
        "svg"@,
        "noscript"@,
        "head"@,
        "link"@,
        "meta"@,
        "path"@,
        "img"@,
        "iframe"@,
    ];
    if is_dropped(name) {
        assert(v[0] == "script"@ && v[1] == "style"@ && v[2] == "svg"@ && v[3] == "noscript"@);
        assert(v[4] == "head"@ && v[5] == "link"@ && v[6] == "meta"@ && v[7] == "path"@);
        assert(v[8] == "img"@ && v[9] == "iframe"@);
        assert(exists|i: int| 0 <= i < v.len() && v[i] == name);
    }
}

/// A structure of 14,000 characters or fewer is shown whole; of a longer one 14,000 characters in a row,
/// from behind a third of those that are too many.
pub proof fn law_the_middle_is_shown(edges: Seq<EdgeView>)
    ensures
        ({
            let all = walk_on(walk_start(), edges).out;
            let shown = structure_of(edges);
            &&& all.len() <= 14_000 ==> shown == all
            &&& all.len() > 14_000 ==> shown.len() == 14_000 && forall|i: int|
                0 <= i < 14_000 ==> #[trigger] shown[i] == all[(all.len() - 14_000) / 3 + i]
        }),
        walk_start().out.len() == 0 && walk_start().depth == 0 && walk_start().skip == 0,
{
}

/// A walk in two parts is the one and then the other.
pub proof fn law_walks_go_on(w: WalkView, a: Seq<EdgeView>, b: Seq<EdgeView>, e: EdgeView)
    ensures
        walk_on(w, a + b) == walk_on(walk_on(w, a), b),
        walk_on(w, seq![e]) == walk_step(w, e),
        walk_on(w, Seq::empty()) == w,
{
    lemma_walk_on_parts(w, a, b);
    let one = seq![e];
    assert(one.drop_last() =~= Seq::<EdgeView>::empty());
    assert(one.last() == e);
    assert(walk_on(w, one.drop_last()) == w);
}

proof fn lemma_in_a_row(a: Seq<char>, b: Seq<char>, c: Seq<char>)
    ensures
        a + b + c == a + (b + c),
{
    assert(a + b + c =~= a + (b + c));
}

/// The AI is told the name of the engine, the whole query, the selectors as they stand, and, at the end,
/// the whole structure of the page.
pub proof fn law_the_ai_is_told_everything(def: EngineView, query: Seq<char>, structure: Seq<char>)
    ensures
        text::ends_with(prompt_text(def, query, structure), structure),
        text::contains_text(prompt_text(def, query, structure), def.name + ASK_QUERY@ + query),
        text::contains_text(
            prompt_text(def, query, structure),
            def.container + " / title="@ + def.title + " / link="@ + def.link + " / snippet="@
                + def.snippet + " / unwrap="@ + def.unwrap,
        ),
{
    let p = prompt_text(def, query, structure);
    let s1 = def.container + " / title="@;
    let s2 = s1 + def.title;
    let s3 = s2 + " / link="@;
    let s4 = s3 + def.link;
    let s5 = s4 + " / snippet="@;
    let s6 = s5 + def.snippet;
    let s7 = s6 + " / unwrap="@;
    let selectors = s7 + def.unwrap;
    let asked = def.name + ASK_QUERY@ + query;
    let head = ASK_ROLE@ + def.name + ASK_QUERY@ + query;
    lemma_in_a_row(ASK_ROLE@, def.name, ASK_QUERY@);
    lemma_in_a_row(ASK_ROLE@, def.name + ASK_QUERY@, query);
    assert(head == ASK_ROLE@ + asked);
    let pre = head + ASK_SETTINGS@;
    lemma_in_a_row(pre, def.container, " / title="@);
    lemma_in_a_row(pre, s1, def.title);
    lemma_in_a_row(pre, s2, " / link="@);
    lemma_in_a_row(pre, s3, def.link);
    lemma_in_a_row(pre, s4, " / snippet="@);
    lemma_in_a_row(pre, s5, def.snippet);
    lemma_in_a_row(pre, s6, " / unwrap="@);
    lemma_in_a_row(pre, s7, def.unwrap);
    let most = pre + selectors;
    assert(p == most + ASK_RULES@ + structure);
    text::law_occurring(most + ASK_RULES@, structure, Seq::empty());
    lemma_in_a_row(most, ASK_RULES@, structure);
    let behind = ASK_RULES@ + structure;
    assert(p == pre + selectors + behind);
    text::law_occurring(pre, selectors, behind);
    lemma_in_a_row(head, ASK_SETTINGS@, selectors);
    lemma_in_a_row(head, ASK_SETTINGS@ + selectors, behind);
    let tail = ASK_SETTINGS@ + selectors + behind;
    assert(p == ASK_ROLE@ + asked + tail);
    text::law_occurring(ASK_ROLE@, asked, tail);
}

/// The AI is asked with the whole prompt, at the address that its server is given by.
pub proof fn law_the_ai_is_asked_with_the_whole_prompt(prompt: Seq<char>, base: Seq<char>)
    ensures
        ask_json(prompt) == "{\"prompt\":"@ + json::quoted(prompt) + "}"@,
        base.len() > 0 && base.last() != '/' ==> ask_address(base) == base
            + "/v1/chat-providers/complete-priority"@,
        ask_address(base + "/"@) == ask_address(base),
{
    reveal_strlit("/");
    if base.len() > 0 && base.last() != '/' {
        if text::ends_with(base, "/"@) {
            assert(base.subrange(base.len() - 1, base.len() as int)[0] == base.last());
        }
    }
    text::law_occurring(base, "/"@, Seq::empty());
    assert((base + "/"@).take(base.len() as int) =~= base);
}

/// What the AI says is the whole text in the field `text` of the object in the field `reply`.
pub proof fn law_the_whole_reply_is_taken(
    body: Seq<u8>,
    j: json::FieldsView,
    nested: Seq<char>,
    r: json::FieldsView,
    said: Seq<char>,
)
    requires
        json::json_fields(body) == Ok::<json::FieldsView, Seq<char>>(j),
        json::field(j, "reply"@) == Some(json::JsonView::Nested(nested)),
        json::json_fields(utf8::encode_utf8(nested)) == Ok::<json::FieldsView, Seq<char>>(r),
    ensures
        json::field(r, "text"@) == Some(json::JsonView::Text(said)) ==> answer_of(body) == Ok::<
            Seq<char>,
            AnswerFault,
        >(said),
        !(json::field(r, "text"@) matches Some(json::JsonView::Text(_))) ==> answer_of(body) == Err::<
            Seq<char>,
            AnswerFault,
        >(AnswerFault::Empty),
{
}

/// A line of the log holds, as JSON, all that is logged.
pub proof fn law_log_entries_hold_everything(
    unix: nat,
    engine: Seq<char>,
    outcome: Seq<char>,
    detail: Seq<char>,
)
    ensures
        ({
            let line = log_text(unix, engine, outcome, detail);
            &&& text::contains_text(line, "\"detail\":"@ + json::quoted(detail) + ","@)
            &&& text::contains_text(line, ",\"engine\":"@ + json::quoted(engine) + ","@)
            &&& text::contains_text(line, ",\"outcome\":"@ + json::quoted(outcome) + ","@)
            &&& text::ends_with(line, ",\"unix\":"@ + text::decimal(unix) + "}\n"@)
        }),
{
    reveal_strlit("{\"detail\":");
    reveal_strlit("\"detail\":");
    reveal_strlit(",\"engine\":");
    reveal_strlit("\"engine\":");
    reveal_strlit(",\"outcome\":");
    reveal_strlit("\"outcome\":");
    reveal_strlit(",\"unix\":");
    reveal_strlit("\"unix\":");
    reveal_strlit(",");
    reveal_strlit("{");
    reveal_strlit("}");
    reveal_strlit("\n");
    reveal_strlit("}\n");
    let line = log_text(unix, engine, outcome, detail);
    let d = "\"detail\":"@ + json::quoted(detail) + ","@;
    let e = ",\"engine\":"@ + json::quoted(engine) + ","@;
    let o = ",\"outcome\":"@ + json::quoted(outcome) + ","@;
    let u = ",\"unix\":"@ + text::decimal(unix) + "}\n"@;
    assert("{\"detail\":"@ =~= "{"@ + "\"detail\":"@);
    assert(",\"engine\":"@ =~= ","@ + "\"engine\":"@);
    assert(",\"outcome\":"@ =~= ","@ + "\"outcome\":"@);
    assert(",\"unix\":"@ =~= ","@ + "\"unix\":"@);
    assert("}\n"@ =~= "}"@ + "\n"@);
    let before_e = "{\"detail\":"@ + json::quoted(detail);
    let before_o = before_e + ",\"engine\":"@ + json::quoted(engine);
    let before_u = before_o + ",\"outcome\":"@ + json::quoted(outcome);
    let after_o = "\"unix\":"@ + text::decimal(unix) + "}\n"@;
    let after_e = "\"outcome\":"@ + json::quoted(outcome) + u;
    let after_d = "\"engine\":"@ + json::quoted(engine) + ",\"outcome\":"@ + json::quoted(outcome) + u;
    assert(line =~= before_u + u);
    assert(line =~= before_o + o + after_o);
    assert(line =~= before_e + e + after_e);
    assert(line =~= "{"@ + d + after_d);
    text::law_occurring("{"@, d, after_d);
    text::law_occurring(before_e, e, after_e);
    text::law_occurring(before_o, o, after_o);
    text::law_occurring(before_u, u, Seq::empty());
}

/// A search with an engine went well where three results or more were read. Of those that did not the
/// first counts, with its page; and that page decides whether the engine can be mended.
pub proof fn law_checkups_take_note(
    c: CheckupView,
    hits: Option<usize>,
    sample: Seq<char>,
    query: Seq<char>,
)
    ensures
        ({
            let after = checkup_noted(c, hits, sample, query);
            let well = hits matches Some(n) && n >= 3;
            &&& well ==> after.ok_count == c.ok_count + 1 && after.broken == c.broken
            &&& !well ==> after.ok_count == c.ok_count
            &&& !well && c.broken is None ==> after.broken == Some((sample, query))
            &&& !well && c.broken is Some ==> after.broken == c.broken
        }),
        finding_of(c) == Finding::Fine <==> c.broken is None,
        finding_of(c) == Finding::Unreachable <==> (c.broken matches Some((html, _)) && html.len() == 0),
        finding_of(c) == Finding::Broken <==> (c.broken matches Some((html, _)) && html.len() > 0),
{
}

/// The AI is asked exactly where the structure of the page has 200 bytes or more.
pub proof fn law_the_ai_is_asked_about_pages_that_say_something(
    def: EngineView,
    query: Seq<char>,
    structure: Seq<char>,
)
    ensures
        utf8::encode_utf8(structure).len() < 200 ==> plan_for(def, query, structure) is Skip,
        utf8::encode_utf8(structure).len() >= 200 ==> plan_for(def, query, structure) == PlanView::Ask(
            prompt_text(def, query, structure),
        ),
{
}

/// Elements that are nested more than 40 deep, and those that come when more than 56,000 bytes are
/// written, are passed over with all that is in them; and a node that is neither element, text nor
/// fragment leaves no trace.
pub proof fn law_what_is_too_much_is_passed_over(
    w: WalkView,
    node: NodeView,
    other: NodeView,
    inside: Seq<EdgeView>,
)
    requires
        w.skip == 0,
        w.depth > 40 || utf8::encode_utf8(w.out).len() > 56_000,
        node.element is Some,
        balance(inside) == Some(0nat),
        other.element is None && other.text is None && !other.fragment,
    ensures
        walk_on(w, seq![EdgeView::Open(node)] + inside + seq![EdgeView::Close(node)]) == w,
        walk_step(w, EdgeView::Open(other)) == w,
        walk_step(w, EdgeView::Close(other)) == w,
{
    let open = seq![EdgeView::Open(node)];
    let all = open + inside + seq![EdgeView::Close(node)];
    assert(all.drop_last() =~= open + inside);
    assert(open.drop_last() =~= Seq::empty());
    assert(walk_on(w, open.drop_last()) == w);
    let opened = WalkView { skip: 1, ..w };
    assert(walk_on(w, open) == opened);
    lemma_walk_on_parts(w, open, inside);
    lemma_passed_over(opened, inside);
    assert(all.last() == EdgeView::Close(node));
}

/// The structure of a page is that of the walk through its body.
pub proof fn law_the_body_is_shown(html: Seq<char>)
    ensures
        web::selector_fault("body"@) is None ==> condensed(html) == structure_of(
            web::page_walk(html, "body"@),
        ),
        MIN_HITS == 3,
        HTML_BUDGET == 14_000,
        COLLECT_LIMIT == 56_000,
        DEPTH_LIMIT == 40,
{
}

/// What is logged of an adopted definition, and what is said of a fault, holds all there is to say of it.
pub proof fn law_messages_hold_everything(n: nat, e: EngineView, why: Seq<char>)
    ensures
        applied_text(n, e) == text::decimal(n) + "件を読み取れる設定に更新: container="@ + e.container
            + " title="@ + e.title + " link="@ + e.link + " snippet="@ + e.snippet + " unwrap="@
            + e.unwrap,
        text::ends_with(answer_fault_text(AnswerFault::Unreadable(why)), why),
        text::contains_text(
            verify_error_text(VerifyError::TooFew(n as usize)),
            text::decimal((n as usize) as nat),
        ),
{
    text::law_occurring(
        "aruaru-llm の応答を読めません: error decoding response body: "@,
        why,
        Seq::empty(),
    );
    text::law_occurring(
        "実際のページで "@,
        text::decimal((n as usize) as nat),
        " 件しか読み取れませんでした(必要 3 件)"@,
    );
}

/// Contracts speak of the whole of a checkup, of a plan and of a judgement.
pub proof fn law_judgements_are_seen_whole(
    c: Checkup,
    plan: Plan,
    r: Result<(EngineDef, usize), String>,
    answer: Result<String, String>,
    made: Result<EngineDef, String>,
)
    ensures
        c@.ok_count == c.ok_count,
        c.broken is None <==> c@.broken is None,
        c.broken matches Some(x) ==> c@.broken == Some((x.0@, x.1@)),
        plan matches Plan::Ask(p) ==> plan@ == PlanView::Ask(p@),
        plan is Skip <==> plan@ is Skip,
        r matches Ok(x) ==> judgement(r) == Ok::<(EngineView, nat), Seq<char>>((x.0@, x.1 as nat)),
        r matches Err(e) ==> judgement(r) == Err::<(EngineView, nat), Seq<char>>(e@),
        answer matches Ok(s) ==> answer_view(answer) == Ok::<Seq<char>, Seq<char>>(s@),
        answer matches Err(e) ==> answer_view(answer) == Err::<Seq<char>, Seq<char>>(e@),
        made matches Ok(x) ==> candidate_view(made) == Ok::<EngineView, Seq<char>>(x@),
        made matches Err(e) ==> candidate_view(made) == Err::<EngineView, Seq<char>>(e@),
{
}

/// Contracts speak of the whole of an error.
pub proof fn law_errors_are_seen_whole(a: AnswerError, p: ProposalError)
    ensures
        a matches AnswerError::Unreadable(e) ==> a@ == AnswerFault::Unreadable(e@),
        a is Empty <==> a@ is Empty,
        p is GivenUp <==> p@ is GivenUp,
        p is BadUnwrap <==> p@ is BadUnwrap,
        p matches ProposalError::Missing(x) ==> p@ == ProposalFault::Missing(x),
        p matches ProposalError::Invalid(e) ==> p@ == ProposalFault::Invalid(e@),
{
}

/// Of a proposal in which selectors are missing the first of them is named; and why an answer is not
/// adopted is told in the words of what is wrong with it.
pub proof fn law_what_is_wrong_with_a_proposal_is_told(
    def: EngineView,
    html: Seq<char>,
    answer: Seq<char>,
    p: json::FieldsView,
)
    ensures
        ({
            let given = |name: Seq<char>|
                json::field(p, name) matches Some(json::JsonView::Text(s)) && text::trim(s).len() > 0;
            let asked = json::field(p, "give_up"@) != Some(json::JsonView::Bool(true));
            let r = proposal_outcome(def, p);
            &&& !asked ==> r == Err::<EngineView, ProposalFault>(ProposalFault::GivenUp)
            &&& asked && !given("container"@) ==> r == Err::<EngineView, ProposalFault>(
                ProposalFault::Missing(Part::Container),
            )
            &&& asked && given("container"@) && !given("title"@) ==> r == Err::<
                EngineView,
                ProposalFault,
            >(ProposalFault::Missing(Part::Title))
            &&& asked && given("container"@) && given("title"@) && !given("link"@) ==> r == Err::<
                EngineView,
                ProposalFault,
            >(ProposalFault::Missing(Part::Link))
            &&& asked && given("container"@) && given("title"@) && given("link"@) && !(json::field(
                p,
                "snippet"@,
            ) matches Some(json::JsonView::Text(_))) ==> r == Err::<EngineView, ProposalFault>(
                ProposalFault::Missing(Part::Snippet),
            )
        }),
        object_of(answer) is None ==> judged(def, html, Ok(answer)) == Err::<
            (EngineView, nat),
            Seq<char>,
        >("AI の回答から設定を読み取れません"@),
        object_of(answer) == Some(p) ==> (proposal_outcome(def, p) matches Err(f) ==> judged(
            def,
            html,
            Ok(answer),
        ) == Err::<(EngineView, nat), Seq<char>>(proposal_fault_text(f))),
        object_of(answer) == Some(p) ==> (proposal_outcome(def, p) matches Ok(made) ==> (hits_outcome(
            made.snippet,
            engine::page_hits(made, html),
        ) matches Err(f) ==> judged(def, html, Ok(answer)) == Err::<(EngineView, nat), Seq<char>>(
            verify_error_text(f),
        ))),
        forall|f: EngineFault| #[trigger]
            proposal_fault_text(ProposalFault::Invalid(f)) == engine::fault_text(f),
{
}

/// The searches that engines are tried with: one in English and one in Japanese.
pub proof fn law_searches_that_engines_are_tried_with()
    ensures
        CANARIES@.len() == 2,
        CANARIES@[0].0@ == "open source software"@,
        CANARIES@[0].1@ == "en"@ && CANARIES@[0].2@ == "US"@,
        CANARIES@[1].0@ == "山梨県 温泉"@,
        CANARIES@[1].1@ == "ja"@ && CANARIES@[1].2@ == "JP"@,
{
}

} // verus!
