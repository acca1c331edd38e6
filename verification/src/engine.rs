//! The search engines that are asked, and the reading of their result pages.
//!
//! What differs from one engine to the next is not code but a definition: the shape of its search
//! URL, and the CSS selectors that point at one result, its title, its link and its summary. When an
//! engine changes its page, mending the selectors is enough.

use vstd::prelude::*;
use vstd::utf8;

use crate::double::Double;
use crate::text::{
    self, alphanumeric, append_chars, append_str, begins, chars_of, copy_strings, cut_before,
    ends, has_string, has_text, joined_strings, lowered, replaced, same, slice_of, squeezed,
    string_of, trimmed_end_text, utf8_text,
};
use crate::web::{
    self, inner_attrs, inner_text_pieces, own_attrs, parse_url, selector_error, UrlParts, UrlView,
};

verus! {

/// How one search engine is asked and read.
#[derive(Clone, Debug, PartialEq)]
pub struct EngineDef {
    pub id: String,
    pub name: String,
    /// The shape of the search URL: `{q}` stands for the query, `{hl}` for the language, `{gl}` for
    /// the region, `{kl}` for both of these in the form that DuckDuckGo takes.
    pub url: String,
    /// The selector of one result.
    pub container: String,
    pub title: String,
    pub link: String,
    pub snippet: String,
    /// The attribute that holds the URL of the link: `href` where this is empty; another one of the
    /// link where it is a name; one of the result itself where it is a name after `@`.
    pub link_attr: String,
    /// The name of the query parameter that holds the real URL of a redirecting link, if any.
    pub unwrap: String,
    /// The weight of the engine when results are merged.
    pub weight: Double,
    pub enabled: bool,
    /// The languages that the engine is good at; none means all of them.
    pub langs: Vec<String>,
    /// Whether the engine is asked for those languages only.
    pub only_langs: bool,
}

pub struct EngineView {
    pub id: Seq<char>,
    pub name: Seq<char>,
    pub url: Seq<char>,
    pub container: Seq<char>,
    pub title: Seq<char>,
    pub link: Seq<char>,
    pub snippet: Seq<char>,
    pub link_attr: Seq<char>,
    pub unwrap: Seq<char>,
    pub weight: Double,
    pub enabled: bool,
    pub langs: Seq<Seq<char>>,
    pub only_langs: bool,
}

impl View for EngineDef {
    type V = EngineView;

    open spec fn view(&self) -> EngineView {
        EngineView {
            id: self.id@,
            name: self.name@,
            url: self.url@,
            container: self.container@,
            title: self.title@,
            link: self.link@,
            snippet: self.snippet@,
            link_attr: self.link_attr@,
            unwrap: self.unwrap@,
            weight: self.weight,
            enabled: self.enabled,
            langs: text::texts(self.langs@),
            only_langs: self.only_langs,
        }
    }
}

pub open spec fn engine_views(v: Seq<EngineDef>) -> Seq<EngineView> {
    v.map_values(|e: EngineDef| e@)
}

/// The place of the first definition with that id; the number of them where there is none.
pub open spec fn engine_place(v: Seq<EngineView>, id: Seq<char>) -> int
    decreases v.len(),
{
    if v.len() == 0 {
        0
    } else if v[0].id == id {
        0
    } else {
        1 + engine_place(v.skip(1), id)
    }
}

pub proof fn lemma_engine_place(v: Seq<EngineView>, id: Seq<char>)
    ensures
        0 <= engine_place(v, id) <= v.len(),
        engine_place(v, id) < v.len() ==> v[engine_place(v, id)].id == id,
    decreases v.len(),
{
    if v.len() > 0 {
        lemma_engine_place(v.skip(1), id);
    }
}

/// The place of the first definition with that id.
pub fn find_engine(v: &Vec<EngineDef>, id: &str) -> (r: usize)
    ensures
        r == engine_place(engine_views(v@), id@),
        r <= v@.len(),
{
    let ghost all = engine_views(v@);
    assert(all.skip(0) == all);
    for i in 0..v.len()
        invariant
            all == engine_views(v@),
            engine_place(all, id@) == i + engine_place(all.skip(i as int), id@),
    {
        let ghost rest = all.skip(i as int);
        assert(rest[0] == v@[i as int]@);
        assert(rest.skip(1) == all.skip(i + 1));
        if same(v[i].id.as_str(), id) {
            return i;
        }
    }
    v.len()
}

/// One search result as an engine gives it.
#[derive(Clone, Debug, PartialEq, Eq)]
pub struct Hit {
    pub title: String,
    pub link: String,
    pub snippet: String,
}

pub struct HitView {
    pub title: Seq<char>,
    pub link: Seq<char>,
    pub snippet: Seq<char>,
}

impl View for Hit {
    type V = HitView;

    open spec fn view(&self) -> HitView {
        HitView { title: self.title@, link: self.link@, snippet: self.snippet@ }
    }
}

pub open spec fn hit_views(v: Seq<Hit>) -> Seq<HitView> {
    v.map_values(|h: Hit| h@)
}

// ---------------------------------------------------------------------------
// The search URL
// ---------------------------------------------------------------------------

/// The bytes that stand for themselves in a URL.
pub open spec fn is_plain_byte(b: u8) -> bool {
    ||| 0x41 <= b <= 0x5A
    ||| 0x61 <= b <= 0x7A
    ||| 0x30 <= b <= 0x39
    ||| b == 0x2D
    ||| b == 0x5F
    ||| b == 0x2E
    ||| b == 0x7E
}

/// The upper-case hexadecimal digit of a number below sixteen.
pub open spec fn hex_upper(n: int) -> char {
    if n < 10 {
        (48 + n) as char
    } else {
        (55 + n) as char
    }
}

/// A byte as it is written in a query.
pub open spec fn encode_byte(b: u8) -> Seq<char> {
    if is_plain_byte(b) {
        seq![b as char]
    } else if b == 0x20 {
        seq!['+']
    } else {
        seq!['%', hex_upper(b as int / 16), hex_upper(b as int % 16)]
    }
}

pub open spec fn encode_bytes(bytes: Seq<u8>) -> Seq<char>
    decreases bytes.len(),
{
    if bytes.len() == 0 {
        Seq::empty()
    } else {
        encode_byte(bytes[0]) + encode_bytes(bytes.skip(1))
    }
}

/// A text as it is written in a query: percent-encoded, a blank as `+`.
pub open spec fn encoded(s: Seq<char>) -> Seq<char> {
    encode_bytes(utf8::encode_utf8(s))
}

fn hex_digit_upper(n: u8) -> (r: char)
    requires
        n < 16,
    ensures
        r == hex_upper(n as int),
{
    if n < 10 {
        (48 + n) as char
    } else {
        (55 + n) as char
    }
}

/// A text as it is written in a query: percent-encoded, a blank as `+`.
pub fn encode(s: &str) -> (r: String)
    ensures
        r@ == encoded(s@),
{
    let bytes = s.as_bytes();
    let mut out = String::new();
    assert(bytes@.skip(0) == bytes@);
    for i in 0..bytes.len()
        invariant
            bytes@ == utf8::encode_utf8(s@),
            encoded(s@) == out@ + encode_bytes(bytes@.skip(i as int)),
    {
        let b: u8 = bytes[i];
        let ghost rest = bytes@.skip(i as int);
        let ghost prev = out@;
        assert(rest[0] == b);
        assert(rest.skip(1) == bytes@.skip(i + 1));
        if (0x41 <= b && b <= 0x5A) || (0x61 <= b && b <= 0x7A) || (0x30 <= b && b <= 0x39) || b
            == 0x2D || b == 0x5F || b == 0x2E || b == 0x7E {
            out.push(b as char);
        } else if b == 0x20 {
            out.push('+');
        } else {
            out.push('%');
            out.push(hex_digit_upper(b / 16));
            out.push(hex_digit_upper(b % 16));
        }
        assert(out@ == prev + encode_byte(b));
        assert(prev + (encode_byte(b) + encode_bytes(bytes@.skip(i + 1))) == out@ + encode_bytes(
            bytes@.skip(i + 1),
        ));
    }
    assert(bytes@.skip(bytes@.len() as int).len() == 0);
    assert(out@ + Seq::<char>::empty() == out@);
    out
}

/// The language and region in the form that DuckDuckGo takes; `wt-wt` for no region.
pub open spec fn ddg_region(hl: Seq<char>, gl: Seq<char>) -> Seq<char> {
    if gl.len() == 0 {
        "wt-wt"@
    } else {
        text::lower(gl) + "-"@ + text::lower(text::before(hl, '-'))
    }
}

/// The URL of a search: the shape with its places filled in, then without a region parameter that
/// nothing was put into.
pub open spec fn search_url_of(
    shape: Seq<char>,
    q: Seq<char>,
    hl: Seq<char>,
    gl: Seq<char>,
) -> Seq<char> {
    let lang = if hl.len() == 0 {
        "en"@
    } else {
        hl
    };
    let u1 = text::replace(shape, "{q}"@, encoded(q));
    let u2 = text::replace(u1, "{hl}"@, encoded(lang));
    let u3 = text::replace(u2, "{gl}"@, encoded(gl));
    let u4 = text::replace(u3, "{kl}"@, encoded(ddg_region(lang, gl)));
    text::trim_end_text(text::replace(u4, "&cc=&"@, "&"@), "&cc="@)
}

/// Whether an engine with these languages is good at a language: it lists the code or the part of it
/// before the first `-`.
pub open spec fn lists_language(langs: Seq<Seq<char>>, code: Seq<char>) -> bool {
    langs.contains(text::before(code, '-')) || langs.contains(code)
}

impl EngineDef {
    /// A copy of the definition.
    pub fn copy(&self) -> (r: EngineDef)
        ensures
            r@ == self@,
    {
        EngineDef {
            id: self.id.clone(),
            name: self.name.clone(),
            url: self.url.clone(),
            container: self.container.clone(),
            title: self.title.clone(),
            link: self.link.clone(),
            snippet: self.snippet.clone(),
            link_attr: self.link_attr.clone(),
            unwrap: self.unwrap.clone(),
            weight: self.weight,
            enabled: self.enabled,
            langs: copy_strings(&self.langs),
            only_langs: self.only_langs,
        }
    }

    /// The URL that asks this engine for `q`, in the language `hl` (`en` where it is empty) and the
    /// region `gl` (none where it is empty).
    pub fn search_url(&self, q: &str, hl: &str, gl: &str) -> (r: String)
        ensures
            r@ == search_url_of(self.url@, q@, hl@, gl@),
    {
        proof {
            reveal_strlit("{q}");
            reveal_strlit("{hl}");
            reveal_strlit("{gl}");
            reveal_strlit("{kl}");
            reveal_strlit("&cc=&");
        }
        let lang: &str = if hl.is_empty() {
            "en"
        } else {
            hl
        };
        let kl: String = if gl.is_empty() {
            "wt-wt".to_string()
        } else {
            let lang_chars = chars_of(lang);
            let base = cut_before(&lang_chars, '-');
            let region = chars_of(gl);
            let mut out = lowered(&region);
            append_str(&mut out, "-");
            let base_lower = lowered(&base);
            append_chars(&mut out, &base_lower);
            string_of(&out)
        };
        let shape = chars_of(self.url.as_str());
        let eq = chars_of(encode(q).as_str());
        let u1 = replaced(&shape, "{q}", &eq);
        let el = chars_of(encode(lang).as_str());
        let u2 = replaced(&u1, "{hl}", &el);
        let eg = chars_of(encode(gl).as_str());
        let u3 = replaced(&u2, "{gl}", &eg);
        let ek = chars_of(encode(kl.as_str()).as_str());
        let u4 = replaced(&u3, "{kl}", &ek);
        let amp = chars_of("&");
        let u5 = replaced(&u4, "&cc=&", &amp);
        let u6 = trimmed_end_text(&u5, "&cc=");
        string_of(&u6)
    }

    /// Whether this engine is asked in searches for the language.
    pub fn serves(&self, lang_code: &str) -> (r: bool)
        ensures
            r == (!self.only_langs || lists_language(text::texts(self.langs@), lang_code@)),
    {
        !self.only_langs || self.favours(lang_code)
    }

    /// Whether this engine is good at the language (its results then weigh more).
    pub fn favours(&self, lang_code: &str) -> (r: bool)
        ensures
            r == lists_language(text::texts(self.langs@), lang_code@),
    {
        let code = chars_of(lang_code);
        let base = string_of(&cut_before(&code, '-'));
        has_string(&self.langs, base.as_str()) || has_string(&self.langs, lang_code)
    }
}

// ---------------------------------------------------------------------------
// Checking a definition
// ---------------------------------------------------------------------------

/// The parts of a definition that are selectors.
#[derive(Clone, Copy, Debug, PartialEq, Eq, Structural)]
pub enum Part {
    Container,
    Title,
    Link,
    Snippet,
}

pub open spec fn part_text(part: Part) -> Seq<char> {
    match part {
        Part::Container => "container"@,
        Part::Title => "title"@,
        Part::Link => "link"@,
        Part::Snippet => "snippet"@,
    }
}

pub fn part_name(part: Part) -> (r: &'static str)
    ensures
        r@ == part_text(part),
{
    match part {
        Part::Container => "container",
        Part::Title => "title",
        Part::Link => "link",
        Part::Snippet => "snippet",
    }
}

/// Why a definition is not used.
#[derive(Clone, Debug, PartialEq, Eq)]
pub enum EngineError {
    /// The id is empty, or holds something else than ASCII letters, digits and `-`.
    Id,
    /// The search URL is none, for the reason given.
    Url(String),
    /// The search URL is not an `https` one.
    Scheme,
    /// A selector is longer than 300 bytes.
    LongSelector(Part),
    /// A selector is none, for the reason given.
    Selector(Part, String),
    LinkAttr,
    /// The weight is not within 0 and 2.
    Weight,
}

pub enum EngineFault {
    Id,
    Url(Seq<char>),
    Scheme,
    LongSelector(Part),
    Selector(Part, Seq<char>),
    LinkAttr,
    Weight,
}

impl View for EngineError {
    type V = EngineFault;

    open spec fn view(&self) -> EngineFault {
        match *self {
            EngineError::Id => EngineFault::Id,
            EngineError::Url(s) => EngineFault::Url(s@),
            EngineError::Scheme => EngineFault::Scheme,
            EngineError::LongSelector(p) => EngineFault::LongSelector(p),
            EngineError::Selector(p, s) => EngineFault::Selector(p, s@),
            EngineError::LinkAttr => EngineFault::LinkAttr,
            EngineError::Weight => EngineFault::Weight,
        }
    }
}

/// The words in which a fault is reported.
pub open spec fn fault_text(f: EngineFault) -> Seq<char> {
    match f {
        EngineFault::Id => "id が正しくありません"@,
        EngineFault::Url(e) => "URL の型が正しくありません: "@ + e,
        EngineFault::Scheme => "URL は https のみです"@,
        EngineFault::LongSelector(p) => part_text(p) + " のセレクタが長すぎます"@,
        EngineFault::Selector(p, e) => part_text(p) + " のセレクタが正しくありません: "@ + e,
        EngineFault::LinkAttr => "link_attr が正しくありません"@,
        EngineFault::Weight => "weight は 0〜2 です"@,
    }
}

impl EngineError {
    /// The error in words.
    pub fn message(&self) -> (r: String)
        ensures
            r@ == fault_text(self@),
    {
        match self {
            EngineError::Id => "id が正しくありません".to_string(),
            EngineError::Url(e) => {
                let s = "URL の型が正しくありません: ".to_string();
                s.concat(e.as_str())
            },
            EngineError::Scheme => "URL は https のみです".to_string(),
            EngineError::LongSelector(p) => {
                let s = part_name(*p).to_string();
                s.concat(" のセレクタが長すぎます")
            },
            EngineError::Selector(p, e) => {
                let s = part_name(*p).to_string();
                s.concat(" のセレクタが正しくありません: ").concat(e.as_str())
            },
            EngineError::LinkAttr => "link_attr が正しくありません".to_string(),
            EngineError::Weight => "weight は 0〜2 です".to_string(),
        }
    }
}

pub open spec fn is_id_char(c: char) -> bool {
    text::is_alphanumeric(c) || c == '-'
}

pub open spec fn good_id(id: Seq<char>) -> bool {
    id.len() > 0 && forall|i: int| 0 <= i < id.len() ==> is_id_char(#[trigger] id[i])
}

pub open spec fn is_attr_char(c: char) -> bool {
    text::is_alphanumeric(c) || c == '-' || c == '_' || c == '@'
}

pub open spec fn good_link_attr(a: Seq<char>) -> bool {
    utf8::encode_utf8(a).len() <= 40 && forall|i: int|
        0 <= i < a.len() ==> is_attr_char(#[trigger] a[i])
}

/// What is wrong with the search URL that a shape makes.
pub open spec fn url_fault(shape: Seq<char>) -> Option<EngineFault> {
    match web::url_parts(search_url_of(shape, "test"@, "en"@, "US"@)) {
        Err(e) => Some(EngineFault::Url(e)),
        Ok(u) => if u.scheme == "https"@ {
            None
        } else {
            Some(EngineFault::Scheme)
        },
    }
}

/// What is wrong with one selector. That of the summary may be empty.
pub open spec fn part_fault(part: Part, sel: Seq<char>) -> Option<EngineFault> {
    if !web::selector_fits(sel) {
        Some(EngineFault::LongSelector(part))
    } else if sel.len() == 0 && part == Part::Snippet {
        None
    } else {
        match web::selector_fault(sel) {
            Some(e) => Some(EngineFault::Selector(part, e)),
            None => None,
        }
    }
}

pub open spec fn first_fault(a: Option<EngineFault>, b: Option<EngineFault>) -> Option<
    EngineFault,
> {
    if a is Some {
        a
    } else {
        b
    }
}

/// What is wrong with the selectors of a definition: the first fault of the container, the title,
/// the link and the summary.
pub open spec fn selectors_fault(e: EngineView) -> Option<EngineFault> {
    first_fault(
        part_fault(Part::Container, e.container),
        first_fault(
            part_fault(Part::Title, e.title),
            first_fault(part_fault(Part::Link, e.link), part_fault(Part::Snippet, e.snippet)),
        ),
    )
}

/// What is wrong with a definition; `None` where it can be used.
pub open spec fn engine_fault(e: EngineView) -> Option<EngineFault> {
    if !good_id(e.id) {
        Some(EngineFault::Id)
    } else {
        first_fault(
            url_fault(e.url),
            first_fault(
                selectors_fault(e),
                if !good_link_attr(e.link_attr) {
                    Some(EngineFault::LinkAttr)
                } else if !e.weight.within_zero_and_two() {
                    Some(EngineFault::Weight)
                } else {
                    None
                },
            ),
        )
    }
}

pub open spec fn usable(e: EngineView) -> bool {
    engine_fault(e) is None
}

pub open spec fn outcome(r: Result<(), EngineError>) -> Option<EngineFault> {
    match r {
        Ok(_) => None,
        Err(e) => Some(e@),
    }
}

/// Whether a URL, as read, may be fetched from.
pub fn check_scheme(parts: Result<UrlParts, String>) -> (r: Result<(), EngineError>)
    ensures
        outcome(r) == (match parts {
            Err(e) => Some(EngineFault::Url(e@)),
            Ok(u) => if u.scheme@ == "https"@ {
                None
            } else {
                Some(EngineFault::Scheme)
            },
        }),
{
    match parts {
        Err(e) => Err(EngineError::Url(e)),
        Ok(u) => if same(u.scheme.as_str(), "https") {
            Ok(())
        } else {
            Err(EngineError::Scheme)
        },
    }
}

/// Whether a selector may be used, given what is wrong with it, if anything.
pub fn check_selector(part: Part, fault: Option<String>) -> (r: Result<(), EngineError>)
    ensures
        outcome(r) == (match fault {
            Some(e) => Some(EngineFault::Selector(part, e@)),
            None => None,
        }),
{
    match fault {
        Some(e) => Err(EngineError::Selector(part, e)),
        None => Ok(()),
    }
}

fn check_part(part: Part, sel: &str) -> (r: Result<(), EngineError>)
    ensures
        outcome(r) == part_fault(part, sel@),
{
    if !web::is_short(sel) {
        return Err(EngineError::LongSelector(part));
    }
    if sel.is_empty() && part == Part::Snippet {
        return Ok(());
    }
    check_selector(part, selector_error(sel))
}

fn id_is_good(id: &str) -> (r: bool)
    ensures
        r == good_id(id@),
{
    let v = chars_of(id);
    for i in 0..v.len()
        invariant
            v@ == id@,
            forall|k: int| 0 <= k < i ==> is_id_char(#[trigger] id@[k]),
    {
        if !(alphanumeric(v[i]) || v[i] == '-') {
            assert(!is_id_char(id@[i as int]));
            return false;
        }
    }
    v.len() > 0
}

fn link_attr_is_good(a: &str) -> (r: bool)
    ensures
        r == good_link_attr(a@),
{
    if a.as_bytes().len() > 40 {
        return false;
    }
    let v = chars_of(a);
    for i in 0..v.len()
        invariant
            v@ == a@,
            forall|k: int| 0 <= k < i ==> is_attr_char(#[trigger] a@[k]),
    {
        if !(alphanumeric(v[i]) || v[i] == '-' || v[i] == '_' || v[i] == '@') {
            assert(!is_attr_char(a@[i as int]));
            return false;
        }
    }
    true
}

impl EngineDef {
    /// Whether the definition is safe and can be used; else the first thing that is wrong with it.
    pub fn validate(&self) -> (r: Result<(), EngineError>)
        ensures
            outcome(r) == engine_fault(self@),
            r is Ok <==> usable(self@),
    {
        if !id_is_good(self.id.as_str()) {
            return Err(EngineError::Id);
        }
        let url = self.search_url("test", "en", "US");
        let checked = check_scheme(parse_url(url.as_str()));
        if checked.is_err() {
            return checked;
        }
        let c = check_part(Part::Container, self.container.as_str());
        if c.is_err() {
            return c;
        }
        let t = check_part(Part::Title, self.title.as_str());
        if t.is_err() {
            return t;
        }
        let l = check_part(Part::Link, self.link.as_str());
        if l.is_err() {
            return l;
        }
        let s = check_part(Part::Snippet, self.snippet.as_str());
        if s.is_err() {
            return s;
        }
        if !link_attr_is_good(self.link_attr.as_str()) {
            return Err(EngineError::LinkAttr);
        }
        if !self.weight.is_within_zero_and_two() {
            return Err(EngineError::Weight);
        }
        Ok(())
    }
}

// ---------------------------------------------------------------------------
// Redirecting links
// ---------------------------------------------------------------------------

/// Whether a text begins like a web address.
pub open spec fn is_web(s: Seq<char>) -> bool {
    text::starts_with(s, "http://"@) || text::starts_with(s, "https://"@)
}

fn web_address(s: &Vec<char>) -> (r: bool)
    ensures
        r == is_web(s@),
{
    begins(s, "http://") || begins(s, "https://")
}

/// The value of the first pair with that name.
pub open spec fn pair_value(pairs: Seq<(Seq<char>, Seq<char>)>, name: Seq<char>) -> Option<
    Seq<char>,
>
    decreases pairs.len(),
{
    if pairs.len() == 0 {
        None
    } else if pairs[0].0 == name {
        Some(pairs[0].1)
    } else {
        pair_value(pairs.skip(1), name)
    }
}

/// The value of the first parameter with that name in the query of a URL.
pub fn parameter(u: &UrlParts, name: &str) -> (r: Option<String>)
    ensures
        web::opt_text(r) == pair_value(u@.pairs, name@),
{
    let ghost pairs = u@.pairs;
    assert(pairs.skip(0) == pairs);
    for i in 0..u.pairs.len()
        invariant
            pairs == web::pair_texts(u.pairs@),
            pair_value(pairs, name@) == pair_value(pairs.skip(i as int), name@),
    {
        let ghost rest = pairs.skip(i as int);
        assert(rest[0] == (u.pairs@[i as int].0@, u.pairs@[i as int].1@));
        assert(rest.skip(1) == pairs.skip(i + 1));
        if same(u.pairs[i].0.as_str(), name) {
            return Some(u.pairs[i].1.clone());
        }
    }
    None
}

/// The six bits that a character of base64 stands for, in either of its alphabets.
pub open spec fn six_bits(c: char) -> Option<u8> {
    if 'A' <= c <= 'Z' {
        Some((c as u32 - 65) as u8)
    } else if 'a' <= c <= 'z' {
        Some((c as u32 - 71) as u8)
    } else if '0' <= c <= '9' {
        Some((c as u32 + 4) as u8)
    } else if c == '-' || c == '+' {
        Some(62)
    } else if c == '_' || c == '/' {
        Some(63)
    } else {
        None
    }
}

pub open spec fn all_six_bits(s: Seq<char>) -> bool {
    forall|i: int| 0 <= i < s.len() ==> six_bits(#[trigger] s[i]) is Some
}

pub open spec fn bits_at(s: Seq<char>, i: int) -> int {
    six_bits(s[i])->Some_0 as int
}

/// Byte `k` of those that the characters write: four characters of six bits make three bytes.
pub open spec fn packed_byte(s: Seq<char>, k: int) -> u8 {
    let j = k / 3 * 4;
    (if k % 3 == 0 {
        bits_at(s, j) * 4 + bits_at(s, j + 1) / 16
    } else if k % 3 == 1 {
        bits_at(s, j + 1) % 16 * 16 + bits_at(s, j + 2) / 4
    } else {
        bits_at(s, j + 2) % 4 * 64 + bits_at(s, j + 3)
    }) as u8
}

/// The bytes that the characters write; bits that fill no byte are dropped.
pub open spec fn packed_bytes(s: Seq<char>) -> Seq<u8> {
    Seq::new((s.len() * 3 / 4) as nat, |k: int| packed_byte(s, k))
}

fn six_bits_of(c: char) -> (r: Option<u8>)
    ensures
        r == six_bits(c),
        r matches Some(v) ==> v < 64,
{
    if 'A' <= c && c <= 'Z' {
        Some(c as u8 - 65)
    } else if 'a' <= c && c <= 'z' {
        Some(c as u8 - 71)
    } else if '0' <= c && c <= '9' {
        Some(c as u8 + 4)
    } else if c == '-' || c == '+' {
        Some(62)
    } else if c == '_' || c == '/' {
        Some(63)
    } else {
        None
    }
}

fn unpacked(s: &Vec<char>) -> (r: Option<Vec<u8>>)
    ensures
        r is Some <==> all_six_bits(s@),
        r matches Some(b) ==> b@ == packed_bytes(s@),
{
    let mut six: Vec<u8> = Vec::new();
    for i in 0..s.len()
        invariant
            six@.len() == i,
            forall|k: int| 0 <= k < i ==> six_bits(#[trigger] s@[k]) is Some,
            forall|k: int| 0 <= k < i ==> #[trigger] six@[k] == bits_at(s@, k),
            forall|k: int| 0 <= k < i ==> #[trigger] six@[k] < 64,
    {
        match six_bits_of(s[i]) {
            Some(v) => {
                six.push(v);
            },
            None => {
                assert(six_bits(s@[i as int]) is None);
                return None;
            },
        }
    }
    let n: usize = s.len();
    let total: usize = n / 4 * 3 + n % 4 * 3 / 4;
    assert(total == n * 3 / 4);
    let mut out: Vec<u8> = Vec::new();
    for k in 0..total
        invariant
            n == s@.len(),
            six@.len() == n,
            total == n * 3 / 4,
            forall|i: int| 0 <= i < n ==> #[trigger] six@[i] == bits_at(s@, i),
            forall|i: int| 0 <= i < n ==> #[trigger] six@[i] < 64,
            out@.len() == k,
            forall|i: int| 0 <= i < k ==> #[trigger] out@[i] == packed_byte(s@, i),
    {
        let j: usize = k / 3 * 4;
        if k % 3 == 0 {
            out.push(six[j] * 4 + six[j + 1] / 16);
        } else if k % 3 == 1 {
            out.push(six[j + 1] % 16 * 16 + six[j + 2] / 4);
        } else {
            out.push(six[j + 2] % 4 * 64 + six[j + 3]);
        }
    }
    assert(out@ =~= packed_bytes(s@));
    Some(out)
}

/// The address that a redirecting link of Bing leads to: the parameter `u` of a URL at a host that
/// ends in `bing.com`, which holds `a1` and then the address in base64 (up to a `=`, if any).
pub open spec fn bing_target_of(u: UrlView) -> Option<Seq<char>> {
    match (u.host, pair_value(u.pairs, "u"@)) {
        (Some(host), Some(v)) => {
            let packed = text::before(v.skip(2), '=');
            let bytes = packed_bytes(packed);
            if text::ends_with(host, "bing.com"@) && text::starts_with(v, "a1"@) && all_six_bits(
                packed,
            ) && utf8::valid_utf8(bytes) && is_web(utf8::decode_utf8(bytes)) {
                Some(utf8::decode_utf8(bytes))
            } else {
                None
            }
        },
        _ => None,
    }
}

pub fn bing_target(u: &UrlParts) -> (r: Option<String>)
    ensures
        web::opt_text(r) == bing_target_of(u@),
{
    let host: Vec<char> = match &u.host {
        Some(h) => chars_of(h.as_str()),
        None => {
            return None;
        },
    };
    let v: Vec<char> = match parameter(u, "u") {
        Some(v) => chars_of(v.as_str()),
        None => {
            return None;
        },
    };
    if !ends(&host, "bing.com") || !begins(&v, "a1") {
        return None;
    }
    proof {
        reveal_strlit("a1");
    }
    let rest = slice_of(&v, 2, v.len());
    assert(rest@ == v@.skip(2));
    let packed = cut_before(&rest, '=');
    match unpacked(&packed) {
        Some(bytes) => match utf8_text(bytes) {
            Ok(s) => {
                let chars = chars_of(s.as_str());
                if web_address(&chars) {
                    Some(s)
                } else {
                    None
                }
            },
            Err(_) => None,
        },
        None => None,
    }
}

/// The address that a link leads to when it is a redirecting link of Bing.
pub open spec fn bing_address(href: Seq<char>) -> Option<Seq<char>> {
    match web::url_parts(href) {
        Ok(u) => bing_target_of(u),
        Err(_) => None,
    }
}

/// The link as a URL: with a scheme where it begins with `//`.
pub open spec fn with_scheme(href: Seq<char>) -> Seq<char> {
    if text::starts_with(href, "//"@) {
        "https://"@ + href.skip(2)
    } else {
        href
    }
}

/// The address that a link leads to: that of a redirecting link of Bing; else the value of the
/// parameter `param` of its URL, where it has one; else the link itself.
pub open spec fn real_address(href: Seq<char>, param: Seq<char>) -> Seq<char> {
    match bing_address(href) {
        Some(a) => a,
        None => if param.len() == 0 {
            href
        } else {
            match web::url_parts(with_scheme(href)) {
                Ok(u) => match pair_value(u.pairs, param) {
                    Some(v) => v,
                    None => href,
                },
                Err(_) => href,
            }
        },
    }
}

fn decode_bing(href: &str) -> (r: Option<String>)
    ensures
        web::opt_text(r) == bing_address(href@),
{
    match parse_url(href) {
        Ok(u) => bing_target(&u),
        Err(_) => None,
    }
}

/// The address that a link leads to.
pub fn unwrap_redirect(href: &str, param: &str) -> (r: String)
    ensures
        r@ == real_address(href@, param@),
{
    if let Some(target) = decode_bing(href) {
        return target;
    }
    if param.is_empty() {
        return href.to_string();
    }
    let chars = chars_of(href);
    let full: String = if begins(&chars, "//") {
        proof {
            reveal_strlit("//");
        }
        let mut out = chars_of("https://");
        let rest = slice_of(&chars, 2, chars.len());
        assert(rest@ == href@.skip(2));
        append_chars(&mut out, &rest);
        string_of(&out)
    } else {
        href.to_string()
    };
    if let Ok(u) = parse_url(full.as_str()) {
        if let Some(v) = parameter(&u, param) {
            return v;
        }
    }
    href.to_string()
}

// ---------------------------------------------------------------------------
// Reading a result page
// ---------------------------------------------------------------------------

/// The text of an element: its pieces with white space evened out.
pub open spec fn element_text(parts: Seq<Seq<char>>) -> Seq<char> {
    text::squeeze(text::join(parts, " "@))
}

/// The text of an element, from the pieces of text in it.
pub fn text_of(parts: &Vec<String>) -> (r: String)
    ensures
        r@ == element_text(text::texts(parts@)),
{
    let all = joined_strings(parts, " ");
    let chars = chars_of(all.as_str());
    let out = squeezed(&chars);
    string_of(&out)
}

/// Links that an engine places for itself.
pub open spec fn is_advert(url: Seq<char>) -> bool {
    text::contains_text(url, "duckduckgo.com/y.js"@) || text::contains_text(
        url,
        "bing.com/aclick"@,
    )
}

/// What one result of a page says: the text of its title, its link, the text of its summary. It is no
/// result without a title and without a link to somewhere on the web that is no advert.
pub open spec fn row_hit(
    title: Option<Seq<Seq<char>>>,
    href: Option<Seq<char>>,
    snippet: Option<Seq<Seq<char>>>,
    param: Seq<char>,
) -> Option<HitView> {
    match (title, href) {
        (Some(t), Some(h)) => {
            let url = real_address(h, param);
            if element_text(t).len() > 0 && is_web(url) && !is_advert(url) {
                Some(
                    HitView {
                        title: element_text(t),
                        link: url,
                        snippet: match snippet {
                            Some(s) => element_text(s),
                            None => Seq::empty(),
                        },
                    },
                )
            } else {
                None
            }
        },
        _ => None,
    }
}

pub open spec fn links(v: Seq<HitView>) -> Seq<Seq<char>> {
    v.map_values(|h: HitView| h.link)
}

/// The results of the first `n` rows: of those with the same link only the first.
pub open spec fn rows_hits(
    titles: Seq<Option<Seq<Seq<char>>>>,
    hrefs: Seq<Option<Seq<char>>>,
    snippets: Seq<Option<Seq<Seq<char>>>>,
    param: Seq<char>,
    n: int,
) -> Seq<HitView>
    decreases n,
{
    if n <= 0 {
        Seq::empty()
    } else {
        let prev = rows_hits(titles, hrefs, snippets, param, n - 1);
        match row_hit(titles[n - 1], hrefs[n - 1], snippets[n - 1], param) {
            Some(h) => if links(prev).contains(h.link) {
                prev
            } else {
                prev.push(h)
            },
            None => prev,
        }
    }
}

fn read_row(
    title: &Option<Vec<String>>,
    href: &Option<String>,
    snippet: &Option<Vec<String>>,
    param: &str,
) -> (r: Option<Hit>)
    ensures
        (match r {
            Some(h) => Some(h@),
            None => None,
        }) == row_hit(
            web::opt_pieces(*title),
            web::opt_text(*href),
            web::opt_pieces(*snippet),
            param@,
        ),
{
    let t: String = match title {
        Some(parts) => text_of(parts),
        None => {
            return None;
        },
    };
    let h: &String = match href {
        Some(h) => h,
        None => {
            return None;
        },
    };
    if t.as_str().is_empty() {
        return None;
    }
    let url = unwrap_redirect(h.as_str(), param);
    let chars = chars_of(url.as_str());
    if !web_address(&chars) {
        return None;
    }
    if has_text(&chars, "duckduckgo.com/y.js") || has_text(&chars, "bing.com/aclick") {
        return None;
    }
    let s: String = match snippet {
        Some(parts) => text_of(parts),
        None => String::new(),
    };
    Some(Hit { title: t, link: url, snippet: s })
}

fn has_link(hits: &Vec<Hit>, link: &str) -> (r: bool)
    ensures
        r == links(hit_views(hits@)).contains(link@),
{
    let ghost all = links(hit_views(hits@));
    for i in 0..hits.len()
        invariant
            all == links(hit_views(hits@)),
            forall|k: int| 0 <= k < i ==> all[k] != link@,
    {
        if same(hits[i].link.as_str(), link) {
            assert(all[i as int] == link@);
            return true;
        }
    }
    false
}

/// The results of a page, from what its rows hold: the pieces of the title, the link, and the pieces
/// of the summary of each.
pub fn read_rows(
    titles: &Vec<Option<Vec<String>>>,
    hrefs: &Vec<Option<String>>,
    snippets: &Vec<Option<Vec<String>>>,
    param: &str,
) -> (r: Vec<Hit>)
    requires
        titles@.len() == hrefs@.len(),
        titles@.len() == snippets@.len(),
    ensures
        hit_views(r@) == rows_hits(
            web::all_pieces(titles@),
            web::opt_texts(hrefs@),
            web::all_pieces(snippets@),
            param@,
            titles@.len() as int,
        ),
{
    let mut out: Vec<Hit> = Vec::new();
    for i in 0..titles.len()
        invariant
            titles@.len() == hrefs@.len(),
            titles@.len() == snippets@.len(),
            hit_views(out@) == rows_hits(
                web::all_pieces(titles@),
                web::opt_texts(hrefs@),
                web::all_pieces(snippets@),
                param@,
                i as int,
            ),
    {
        match read_row(&titles[i], &hrefs[i], &snippets[i], param) {
            Some(h) => {
                if !has_link(&out, h.link.as_str()) {
                    let ghost prev = out@;
                    out.push(h);
                    assert(hit_views(out@) == hit_views(prev).push(h@));
                }
            },
            None => {},
        }
    }
    out
}

/// The links of the rows of a page, as a definition says where to find them.
pub open spec fn row_links(def: EngineView, html: Seq<char>) -> Seq<Option<Seq<char>>> {
    if def.link_attr.len() > 0 && def.link_attr[0] == '@' {
        web::own_attributes(html, def.container, def.link_attr.skip(1))
    } else if def.link_attr.len() == 0 {
        web::inner_attributes(html, def.container, def.link, "href"@)
    } else {
        web::inner_attributes(html, def.container, def.link, def.link_attr)
    }
}

/// The summaries of the rows of a page; none where the selector of the summary is no selector.
pub open spec fn row_snippets(def: EngineView, html: Seq<char>) -> Seq<Option<Seq<Seq<char>>>> {
    if web::selector_fault(def.snippet) is None {
        web::inner_texts(html, def.container, def.snippet)
    } else {
        Seq::new(web::match_count(html, def.container), |i: int| None)
    }
}

/// The results that a definition finds on a page; none where one of the other selectors is no
/// selector.
pub open spec fn page_hits(def: EngineView, html: Seq<char>) -> Seq<HitView> {
    if web::selector_fault(def.container) is None && web::selector_fault(def.title) is None
        && web::selector_fault(def.link) is None {
        rows_hits(
            web::inner_texts(html, def.container, def.title),
            row_links(def, html),
            row_snippets(def, html),
            def.unwrap,
            web::match_count(html, def.container) as int,
        )
    } else {
        Seq::empty()
    }
}

/// Whether a definition has a selector that may hold a `:has`.
pub open spec fn uses_has(e: EngineView) -> bool {
    web::may_hold_has(e.container) || web::may_hold_has(e.title) || web::may_hold_has(e.link)
        || web::may_hold_has(e.snippet)
}

/// Whether the selectors of a definition are short enough to be tried on pages.
pub open spec fn selectors_fit(e: EngineView) -> bool {
    web::selector_fits(e.container) && web::selector_fits(e.title) && web::selector_fits(e.link)
        && web::selector_fits(e.snippet)
}

impl EngineDef {
    /// Whether the selectors are short enough to be tried on pages.
    pub fn has_short_selectors(&self) -> (r: bool)
        ensures
            r == selectors_fit(self@),
    {
        web::is_short(self.container.as_str()) && web::is_short(self.title.as_str())
            && web::is_short(self.link.as_str()) && web::is_short(self.snippet.as_str())
    }

    /// Whether the definition can be tried on a page.
    pub fn can_read_page(&self, html: &str) -> (r: bool)
        ensures
            r == can_read(self@, html@),
    {
        if !web::is_small(html) || !self.has_short_selectors() {
            return false;
        }
        let recurses: bool = web::may_use_has(self.container.as_str()) || web::may_use_has(
            self.title.as_str(),
        ) || web::may_use_has(self.link.as_str()) || web::may_use_has(self.snippet.as_str());
        !recurses || web::is_shallow(html)
    }
}

/// Whether a definition can be tried on a page: the page and the selectors are small enough, and where
/// one of these may hold a `:has` the page is not nested too deep.
pub open spec fn can_read(e: EngineView, html: Seq<char>) -> bool {
    &&& web::page_fits(html)
    &&& selectors_fit(e)
    &&& uses_has(e) ==> web::page_shallow(html)
}

fn no_snippets(n: usize) -> (r: Vec<Option<Vec<String>>>)
    ensures
        web::all_pieces(r@) == Seq::new(n as nat, |i: int| None::<Seq<Seq<char>>>),
        r@.len() == n,
{
    let mut out: Vec<Option<Vec<String>>> = Vec::new();
    for i in 0..n
        invariant
            out@.len() == i,
            forall|k: int| 0 <= k < i ==> #[trigger] out@[k] is None,
    {
        out.push(None);
    }
    assert(web::all_pieces(out@) =~= Seq::new(n as nat, |i: int| None::<Seq<Seq<char>>>));
    out
}

/// The results on the result page of an engine, without its adverts.
pub fn parse(def: &EngineDef, html: &str) -> (r: Vec<Hit>)
    requires
        can_read(def@, html@),
    ensures
        hit_views(r@) == page_hits(def@, html@),
{
    if selector_error(def.container.as_str()).is_some() || selector_error(
        def.title.as_str(),
    ).is_some() || selector_error(def.link.as_str()).is_some() {
        assert(hit_views(Seq::<Hit>::empty()) =~= Seq::<HitView>::empty());
        return Vec::new();
    }
    let titles = inner_text_pieces(html, def.container.as_str(), def.title.as_str());
    let attr = chars_of(def.link_attr.as_str());
    let hrefs: Vec<Option<String>> = if attr.len() > 0 && attr[0] == '@' {
        let name = slice_of(&attr, 1, attr.len());
        assert(name@ == def@.link_attr.skip(1));
        own_attrs(html, def.container.as_str(), string_of(&name).as_str())
    } else if attr.len() == 0 {
        inner_attrs(html, def.container.as_str(), def.link.as_str(), "href")
    } else {
        inner_attrs(html, def.container.as_str(), def.link.as_str(), def.link_attr.as_str())
    };
    let snippets: Vec<Option<Vec<String>>> = if selector_error(def.snippet.as_str()).is_some() {
        no_snippets(titles.len())
    } else {
        inner_text_pieces(html, def.container.as_str(), def.snippet.as_str())
    };
    read_rows(&titles, &hrefs, &snippets, def.unwrap.as_str())
}

// ---------------------------------------------------------------------------
// The engines to begin with
// ---------------------------------------------------------------------------

/// The bits of 1.0.
pub const ONE_BITS: u64 = 0x3FF0_0000_0000_0000;

pub open spec fn duckduckgo_view() -> EngineView {
    EngineView {
        id: "duckduckgo"@,
        name: "DuckDuckGo"@,
        url: "https://html.duckduckgo.com/html/?q={q}&kl={kl}"@,
        container: "div.result:not(.result--ad)"@,
        title: "a.result__a"@,
        link: "a.result__a"@,
        snippet: ".result__snippet"@,
        link_attr: Seq::empty(),
        unwrap: "uddg"@,
        weight: Double { bits: ONE_BITS },
        enabled: true,
        langs: Seq::empty(),
        only_langs: false,
    }
}

pub open spec fn bing_view() -> EngineView {
    EngineView {
        id: "bing"@,
        name: "Bing"@,
        url: "https://www.bing.com/search?q={q}&setlang={hl}&cc={gl}"@,
        container: "li.b_algo"@,
        title: "h2 a"@,
        link: "h2 a"@,
        snippet: ".b_caption p"@,
        link_attr: Seq::empty(),
        unwrap: Seq::empty(),
        weight: Double { bits: ONE_BITS },
        enabled: true,
        langs: Seq::empty(),
        only_langs: false,
    }
}

pub open spec fn brave_view() -> EngineView {
    EngineView {
        id: "brave"@,
        name: "Brave Search"@,
        url: "https://search.brave.com/search?q={q}&source=web"@,
        container: "div.snippet[data-type=web]"@,
        title: ".title"@,
        link: "a[href]"@,
        snippet: ".snippet-description"@,
        link_attr: Seq::empty(),
        unwrap: Seq::empty(),
        weight: Double { bits: ONE_BITS },
        enabled: true,
        langs: Seq::empty(),
        only_langs: false,
    }
}

pub open spec fn yahoo_jp_view() -> EngineView {
    EngineView {
        id: "yahoo-jp"@,
        name: "Yahoo! JAPAN"@,
        url: "https://search.yahoo.co.jp/search?p={q}&ei=UTF-8"@,
        container: "div.sw-CardBase"@,
        title: "h3"@,
        link: "a[href]"@,
        snippet: ".sw-Card__summary"@,
        link_attr: Seq::empty(),
        unwrap: Seq::empty(),
        weight: Double { bits: ONE_BITS },
        enabled: true,
        langs: seq!["ja"@],
        only_langs: true,
    }
}

/// The engines that are asked as long as no others are set.
pub open spec fn default_engines() -> Seq<EngineView> {
    seq![duckduckgo_view(), bing_view(), brave_view(), yahoo_jp_view()]
}

fn engine_for_all(
    id: &str,
    name: &str,
    url: &str,
    container: &str,
    title: &str,
    link: &str,
    snippet: &str,
    unwrap: &str,
) -> (r: EngineDef)
    ensures
        r@ == (EngineView {
            id: id@,
            name: name@,
            url: url@,
            container: container@,
            title: title@,
            link: link@,
            snippet: snippet@,
            link_attr: Seq::empty(),
            unwrap: unwrap@,
            weight: Double { bits: ONE_BITS },
            enabled: true,
            langs: Seq::empty(),
            only_langs: false,
        }),
{
    let r = EngineDef {
        id: id.to_string(),
        name: name.to_string(),
        url: url.to_string(),
        container: container.to_string(),
        title: title.to_string(),
        link: link.to_string(),
        snippet: snippet.to_string(),
        link_attr: String::new(),
        unwrap: unwrap.to_string(),
        weight: Double { bits: ONE_BITS },
        enabled: true,
        langs: Vec::new(),
        only_langs: false,
    };
    assert(text::texts(r.langs@) =~= Seq::<Seq<char>>::empty());
    r
}

/// The engines that are asked as long as no others are set.
pub fn defaults() -> (r: Vec<EngineDef>)
    ensures
        engine_views(r@) == default_engines(),
{
    proof {
        reveal_strlit("");
    }
    assert(""@ =~= Seq::<char>::empty());
    let ddg = engine_for_all(
        "duckduckgo",
        "DuckDuckGo",
        "https://html.duckduckgo.com/html/?q={q}&kl={kl}",
        "div.result:not(.result--ad)",
        "a.result__a",
        "a.result__a",
        ".result__snippet",
        "uddg",
    );
    let bing = engine_for_all(
        "bing",
        "Bing",
        "https://www.bing.com/search?q={q}&setlang={hl}&cc={gl}",
        "li.b_algo",
        "h2 a",
        "h2 a",
        ".b_caption p",
        "",
    );
    let brave = engine_for_all(
        "brave",
        "Brave Search",
        "https://search.brave.com/search?q={q}&source=web",
        "div.snippet[data-type=web]",
        ".title",
        "a[href]",
        ".snippet-description",
        "",
    );
    let mut yahoo = engine_for_all(
        "yahoo-jp",
        "Yahoo! JAPAN",
        "https://search.yahoo.co.jp/search?p={q}&ei=UTF-8",
        "div.sw-CardBase",
        "h3",
        "a[href]",
        ".sw-Card__summary",
        "",
    );
    let mut langs: Vec<String> = Vec::new();
    langs.push("ja".to_string());
    assert(text::texts(langs@) =~= seq!["ja"@]);
    yahoo.langs = langs;
    yahoo.only_langs = true;
    let mut out: Vec<EngineDef> = Vec::new();
    out.push(ddg);
    out.push(bing);
    out.push(brave);
    out.push(yahoo);
    assert(engine_views(out@) =~= default_engines());
    out
}

// ---------------------------------------------------------------------------
// Laws
// ---------------------------------------------------------------------------

/// A hit that may be shown: it has a title, and its link leads to the web and is no advert.
pub open spec fn presentable(h: HitView) -> bool {
    h.title.len() > 0 && is_web(h.link) && !is_advert(h.link)
}

pub open spec fn distinct_links(v: Seq<HitView>) -> bool {
    forall|i: int, j: int| 0 <= i < j < v.len() ==> #[trigger] v[i].link != #[trigger] v[j].link
}

proof fn lemma_rows_hits(
    titles: Seq<Option<Seq<Seq<char>>>>,
    hrefs: Seq<Option<Seq<char>>>,
    snippets: Seq<Option<Seq<Seq<char>>>>,
    param: Seq<char>,
    n: int,
)
    ensures
        ({
            let hits = rows_hits(titles, hrefs, snippets, param, n);
            &&& forall|i: int| 0 <= i < hits.len() ==> presentable(#[trigger] hits[i])
            &&& distinct_links(hits)
            &&& n >= 0 ==> hits.len() <= n
        }),
    decreases n,
{
    if n > 0 {
        lemma_rows_hits(titles, hrefs, snippets, param, n - 1);
        let prev = rows_hits(titles, hrefs, snippets, param, n - 1);
        let hits = rows_hits(titles, hrefs, snippets, param, n);
        if hits.len() > prev.len() {
            let last = hits[prev.len() as int];
            assert forall|i: int, j: int| 0 <= i < j < hits.len() implies #[trigger] hits[i].link
                != #[trigger] hits[j].link by {
                if j == prev.len() {
                    assert(links(prev)[i] == prev[i].link);
                }
            }
        }
    }
}

/// Whatever a page holds, every hit read from it has a title and a link to the web that is no
/// advert, and no two hits have the same link.
pub proof fn law_hits_are_presentable(def: EngineView, html: Seq<char>)
    ensures
        forall|i: int|
            0 <= i < page_hits(def, html).len() ==> presentable(
                #[trigger] page_hits(def, html)[i],
            ),
        distinct_links(page_hits(def, html)),
{
    lemma_rows_hits(
        web::inner_texts(html, def.container, def.title),
        row_links(def, html),
        row_snippets(def, html),
        def.unwrap,
        web::match_count(html, def.container) as int,
    );
}

proof fn lemma_trimmed_end(s: Seq<char>, p: Seq<char>)
    requires
        p.len() > 0,
    ensures
        !text::ends_with(text::trim_end_text(s, p), p),
    decreases s.len(),
{
    if text::ends_with(s, p) {
        lemma_trimmed_end(s.take(s.len() - p.len()), p);
    }
}

/// Whatever is searched for, the URL never ends in a region parameter that nothing was put into.
pub proof fn law_no_empty_region_at_the_end(
    shape: Seq<char>,
    q: Seq<char>,
    hl: Seq<char>,
    gl: Seq<char>,
)
    ensures
        !text::ends_with(search_url_of(shape, q, hl, gl), "&cc="@),
{
    reveal_strlit("&cc=");
    let lang = if hl.len() == 0 {
        "en"@
    } else {
        hl
    };
    let u1 = text::replace(shape, "{q}"@, encoded(q));
    let u2 = text::replace(u1, "{hl}"@, encoded(lang));
    let u3 = text::replace(u2, "{gl}"@, encoded(gl));
    let u4 = text::replace(u3, "{kl}"@, encoded(ddg_region(lang, gl)));
    lemma_trimmed_end(text::replace(u4, "&cc=&"@, "&"@), "&cc="@);
}

/// A link that is no redirecting one is left as it is: where its host is not that of Bing, and no
/// parameter is named.
pub proof fn law_other_links_are_left_alone(href: Seq<char>)
    ensures
        (match web::url_parts(href) {
            Ok(u) => match u.host {
                Some(h) => !text::ends_with(h, "bing.com"@),
                None => true,
            },
            Err(_) => true,
        }) ==> real_address(href, Seq::empty()) == href,
{
}

/// A definition that can be used has an id, good and short selectors, and a URL that is fetched by
/// `https` for the search that it is checked with.
pub proof fn law_usable_engines_are_fetched_safely(e: EngineView)
    ensures
        usable(e) ==> (web::url_parts(search_url_of(e.url, "test"@, "en"@, "US"@)) matches Ok(u)
            && u.scheme == "https"@),
        usable(e) ==> good_id(e.id) && web::selector_fault(e.container) is None
            && web::selector_fault(e.title) is None && web::selector_fault(e.link) is None,
        usable(e) ==> selectors_fit(e),
{
}

/// The characters that an encoded text is made of.
pub open spec fn is_query_char(c: char) -> bool {
    text::is_alphanumeric(c) || c == '-' || c == '_' || c == '.' || c == '~' || c == '+' || c == '%'
}

proof fn lemma_encode_byte(b: u8)
    ensures
        1 <= encode_byte(b).len() <= 3,
        forall|i: int| 0 <= i < encode_byte(b).len() ==> is_query_char(#[trigger] encode_byte(b)[i]),
{
    let hi = b as int / 16;
    let lo = b as int % 16;
    assert(0 <= hi < 16 && 0 <= lo < 16);
    assert(text::is_alphanumeric(hex_upper(hi)));
    assert(text::is_alphanumeric(hex_upper(lo)));
}

proof fn lemma_encode_bytes(bytes: Seq<u8>)
    ensures
        forall|i: int|
            0 <= i < encode_bytes(bytes).len() ==> is_query_char(
                #[trigger] encode_bytes(bytes)[i],
            ),
    decreases bytes.len(),
{
    if bytes.len() > 0 {
        lemma_encode_byte(bytes[0]);
        lemma_encode_bytes(bytes.skip(1));
        let first = encode_byte(bytes[0]);
        let rest = encode_bytes(bytes.skip(1));
        assert forall|i: int| 0 <= i < encode_bytes(bytes).len() implies is_query_char(
            #[trigger] encode_bytes(bytes)[i],
        ) by {
            if i < first.len() {
                assert(encode_bytes(bytes)[i] == first[i]);
            } else {
                assert(encode_bytes(bytes)[i] == rest[i - first.len()]);
            }
        }
    }
}

/// Whatever is searched for, its encoded form holds nothing that has a meaning of its own in a URL or
/// in the shape of one: no `&`, `=`, `#`, `/`, `{` or blank, and no character outside ASCII.
pub proof fn law_encoded_text_is_harmless(s: Seq<char>)
    ensures
        forall|i: int| 0 <= i < encoded(s).len() ==> is_query_char(#[trigger] encoded(s)[i]),
{
    lemma_encode_bytes(utf8::encode_utf8(s));
}

/// A piece of the shape of a search URL: a text, or one of the places.
pub enum UrlPiece {
    Text(Seq<char>),
    Query,
    Language,
    Region,
    Both,
}

/// How a piece is written in the shape.
pub open spec fn piece_shape(p: UrlPiece) -> Seq<char> {
    match p {
        UrlPiece::Text(t) => t,
        UrlPiece::Query => "{q}"@,
        UrlPiece::Language => "{hl}"@,
        UrlPiece::Region => "{gl}"@,
        UrlPiece::Both => "{kl}"@,
    }
}

/// What a piece says in the URL of a search.
pub open spec fn piece_text(p: UrlPiece, q: Seq<char>, hl: Seq<char>, gl: Seq<char>) -> Seq<char> {
    let lang = if hl.len() == 0 {
        "en"@
    } else {
        hl
    };
    match p {
        UrlPiece::Text(t) => t,
        UrlPiece::Query => encoded(q),
        UrlPiece::Language => encoded(lang),
        UrlPiece::Region => encoded(gl),
        UrlPiece::Both => if gl.len() == 0 {
            encoded("wt-wt"@)
        } else {
            encoded(text::lower(gl) + "-"@ + text::lower(text::before(lang, '-')))
        },
    }
}

/// The shape that pieces in a row make.
pub open spec fn shape_of(parts: Seq<UrlPiece>) -> Seq<char>
    decreases parts.len(),
{
    if parts.len() == 0 {
        Seq::empty()
    } else {
        piece_shape(parts[0]) + shape_of(parts.skip(1))
    }
}

/// What pieces in a row say in the URL of a search.
pub open spec fn filled(parts: Seq<UrlPiece>, q: Seq<char>, hl: Seq<char>, gl: Seq<char>) -> Seq<char>
    decreases parts.len(),
{
    if parts.len() == 0 {
        Seq::empty()
    } else {
        piece_text(parts[0], q, hl, gl) + filled(parts.skip(1), q, hl, gl)
    }
}

/// Whether no text among the pieces looks like a place.
pub open spec fn plain_pieces(parts: Seq<UrlPiece>) -> bool {
    forall|i: int|
        0 <= i < parts.len() ==> ((#[trigger] parts[i]) matches UrlPiece::Text(t) ==> !t.contains('{'))
}

/// A piece when the first `k` of the places have been filled in.
spec fn piece_at(p: UrlPiece, k: int, q: Seq<char>, hl: Seq<char>, gl: Seq<char>) -> Seq<char> {
    let order = match p {
        UrlPiece::Text(_) => 0int,
        UrlPiece::Query => 1,
        UrlPiece::Language => 2,
        UrlPiece::Region => 3,
        UrlPiece::Both => 4,
    };
    if order <= k {
        piece_text(p, q, hl, gl)
    } else {
        piece_shape(p)
    }
}

spec fn pieces_at(parts: Seq<UrlPiece>, k: int, q: Seq<char>, hl: Seq<char>, gl: Seq<char>) -> Seq<
    char,
>
    decreases parts.len(),
{
    if parts.len() == 0 {
        Seq::empty()
    } else {
        piece_at(parts[0], k, q, hl, gl) + pieces_at(parts.skip(1), k, q, hl, gl)
    }
}

/// The place that is filled in after `k` others.
spec fn place_after(k: int) -> UrlPiece {
    if k == 0 {
        UrlPiece::Query
    } else if k == 1 {
        UrlPiece::Language
    } else if k == 2 {
        UrlPiece::Region
    } else {
        UrlPiece::Both
    }
}

proof fn lemma_encoded_holds_no_brace(s: Seq<char>)
    ensures
        !encoded(s).contains('{'),
{
    law_encoded_text_is_harmless(s);
    let e = encoded(s);
    if e.contains('{') {
        let k = choose|k: int| 0 <= k < e.len() && e[k] == '{';
        assert(is_query_char(e[k]));
    }
}

proof fn lemma_piece_filled(
    p: UrlPiece,
    rest: Seq<char>,
    k: int,
    q: Seq<char>,
    hl: Seq<char>,
    gl: Seq<char>,
)
    requires
        0 <= k < 4,
        p matches UrlPiece::Text(t) ==> !t.contains('{'),
    ensures
        ({
            let from = piece_shape(place_after(k));
            let to = piece_text(place_after(k), q, hl, gl);
            text::replace(piece_at(p, k, q, hl, gl) + rest, from, to) == piece_at(
                p,
                k + 1,
                q,
                hl,
                gl,
            ) + text::replace(rest, from, to)
        }),
{
    reveal_strlit("{q}");
    reveal_strlit("{hl}");
    reveal_strlit("{gl}");
    reveal_strlit("{kl}");
    let from = piece_shape(place_after(k));
    let to = piece_text(place_after(k), q, hl, gl);
    let here = piece_at(p, k, q, hl, gl);
    let lang = if hl.len() == 0 {
        "en"@
    } else {
        hl
    };
    lemma_encoded_holds_no_brace(q);
    lemma_encoded_holds_no_brace(lang);
    lemma_encoded_holds_no_brace(gl);
    lemma_encoded_holds_no_brace("wt-wt"@);
    lemma_encoded_holds_no_brace(
        text::lower(gl) + "-"@ + text::lower(text::before(lang, '-')),
    );
    assert(from[0] == '{');
    if !here.contains('{') {
        text::law_replacing_starts_at_the_first(here, rest, from, to);
        assert(piece_at(p, k + 1, q, hl, gl) == here) by {
            if p == place_after(k) {
                assert(here == from);
                assert(from.contains(from[0]));
            }
        }
    } else if p == place_after(k) {
        text::law_replacing_starts_at_the_first(Seq::empty(), rest, from, to);
    } else {
        assert(here == piece_shape(p));
        assert(!(p is Text));
        let s = here + rest;
        let tail = here.skip(1);
        assert(s[0] == '{');
        assert(s[1] == here[1]);
        assert(here[1] != from[1]);
        if text::occurs_at(s, from, 0) {
            assert(s.subrange(0, from.len() as int)[1] == s[1]);
        }
        assert(!tail.contains('{'));
        text::law_replacing_starts_at_the_first(tail, rest, from, to);
        assert(s.skip(1) =~= tail + rest);
        assert(here =~= seq!['{'] + tail);
        assert(seq!['{'] + (tail + text::replace(rest, from, to)) =~= here + text::replace(
            rest,
            from,
            to,
        ));
    }
}

proof fn lemma_pieces_filled(
    parts: Seq<UrlPiece>,
    k: int,
    q: Seq<char>,
    hl: Seq<char>,
    gl: Seq<char>,
)
    requires
        0 <= k < 4,
        plain_pieces(parts),
    ensures
        text::replace(
            pieces_at(parts, k, q, hl, gl),
            piece_shape(place_after(k)),
            piece_text(place_after(k), q, hl, gl),
        ) == pieces_at(parts, k + 1, q, hl, gl),
    decreases parts.len(),
{
    if parts.len() > 0 {
        let rest = parts.skip(1);
        assert forall|i: int| 0 <= i < rest.len() implies ((#[trigger] rest[i]) matches UrlPiece::Text(
            t,
        ) ==> !t.contains('{')) by {
            assert(rest[i] == parts[i + 1]);
        }
        lemma_pieces_filled(rest, k, q, hl, gl);
        assert(parts[0] matches UrlPiece::Text(t) ==> !t.contains('{'));
        lemma_piece_filled(parts[0], pieces_at(rest, k, q, hl, gl), k, q, hl, gl);
    }
}

proof fn lemma_pieces_ends(parts: Seq<UrlPiece>, q: Seq<char>, hl: Seq<char>, gl: Seq<char>)
    ensures
        pieces_at(parts, 0, q, hl, gl) == shape_of(parts),
        pieces_at(parts, 4, q, hl, gl) == filled(parts, q, hl, gl),
    decreases parts.len(),
{
    if parts.len() > 0 {
        lemma_pieces_ends(parts.skip(1), q, hl, gl);
    }
}

/// An engine is asked for the whole query, in the language and the region: in the URL of a search each
/// text of the shape stands as it is, and each place holds what it stands for, encoded, from its first
/// character to its last. Only a region parameter `cc` that nothing was put into is left out: one
/// between others, and one at the end.
pub proof fn law_search_url_holds_the_whole_query(
    parts: Seq<UrlPiece>,
    q: Seq<char>,
    hl: Seq<char>,
    gl: Seq<char>,
    a: Seq<char>,
    b: Seq<char>,
)
    requires
        plain_pieces(parts),
    ensures
        ({
            let all = filled(parts, q, hl, gl);
            let url = search_url_of(shape_of(parts), q, hl, gl);
            &&& !text::contains_text(all, "&cc=&"@) && !text::ends_with(all, "&cc="@) ==> url == all
            &&& all == a + "&cc=&"@ + b && !text::contains_text(a + "&cc="@, "&cc=&"@)
                && !text::contains_text(b, "&cc=&"@) && !text::ends_with(a + "&"@ + b, "&cc="@)
                ==> url == a + "&"@ + b
            &&& all == a + "&cc="@ && !text::contains_text(all, "&cc=&"@) && !text::ends_with(
                a,
                "&cc="@,
            ) ==> url == a
        }),
{
    reveal_strlit("&cc=&");
    reveal_strlit("&cc=");
    reveal_strlit("&");
    let all = filled(parts, q, hl, gl);
    lemma_pieces_ends(parts, q, hl, gl);
    lemma_pieces_filled(parts, 0, q, hl, gl);
    lemma_pieces_filled(parts, 1, q, hl, gl);
    lemma_pieces_filled(parts, 2, q, hl, gl);
    lemma_pieces_filled(parts, 3, q, hl, gl);
    let lang = if hl.len() == 0 {
        "en"@
    } else {
        hl
    };
    let u1 = text::replace(shape_of(parts), "{q}"@, encoded(q));
    let u2 = text::replace(u1, "{hl}"@, encoded(lang));
    let u3 = text::replace(u2, "{gl}"@, encoded(gl));
    let u4 = text::replace(u3, "{kl}"@, encoded(ddg_region(lang, gl)));
    assert(piece_text(UrlPiece::Both, q, hl, gl) == encoded(ddg_region(lang, gl)));
    assert(u1 == pieces_at(parts, 1, q, hl, gl));
    assert(u2 == pieces_at(parts, 2, q, hl, gl));
    assert(u3 == pieces_at(parts, 3, q, hl, gl));
    assert(u4 == all);
    let u5 = text::replace(all, "&cc=&"@, "&"@);
    if !text::contains_text(all, "&cc=&"@) {
        text::law_nothing_to_replace(all, "&cc=&"@, "&"@);
        if all == a + "&cc="@ && !text::ends_with(a, "&cc="@) {
            text::law_occurring(a, "&cc="@, Seq::empty());
            assert(all.take(all.len() - 4) =~= a);
            assert(text::trim_end_text(a, "&cc="@) == a);
            assert(text::ends_with(all, "&cc="@));
            assert(text::trim_end_text(all, "&cc="@) == text::trim_end_text(a, "&cc="@));
        }
    }
    if all == a + "&cc=&"@ + b && !text::contains_text(a + "&cc="@, "&cc=&"@)
        && !text::contains_text(b, "&cc=&"@) {
        assert("&cc=&"@.drop_last() =~= "&cc="@);
        text::law_first_occurrence_is_replaced(a, b, "&cc=&"@, "&"@);
        text::law_nothing_to_replace(b, "&cc=&"@, "&"@);
        assert(u5 == a + "&"@ + b);
    }
}

/// The results of a page are complete and in the order of its rows: each is what one row says, the rows
/// come one after the other, and whatever row says something, the first row with its link is among them.
pub proof fn law_every_result_is_read(def: EngineView, html: Seq<char>) -> (rows: Seq<int>)
    requires
        web::selector_fault(def.container) is None,
        web::selector_fault(def.title) is None,
        web::selector_fault(def.link) is None,
    ensures
        ({
            let hits = page_hits(def, html);
            let says = |k: int|
                row_hit(
                    web::inner_texts(html, def.container, def.title)[k],
                    row_links(def, html)[k],
                    row_snippets(def, html)[k],
                    def.unwrap,
                );
            &&& rows.len() == hits.len()
            &&& forall|i: int|
                0 <= i < hits.len() ==> 0 <= #[trigger] rows[i] < web::match_count(
                    html,
                    def.container,
                ) && says(rows[i]) == Some(hits[i])
            &&& forall|i: int, j: int| 0 <= i < j < rows.len() ==> rows[i] < rows[j]
            &&& forall|k: int|
                0 <= k < web::match_count(html, def.container) && #[trigger] says(k) is Some
                    ==> exists|i: int|
                    0 <= i < hits.len() && rows[i] <= k && #[trigger] hits[i].link == says(
                        k,
                    )->Some_0.link
        }),
{
    lemma_rows_read(
        web::inner_texts(html, def.container, def.title),
        row_links(def, html),
        row_snippets(def, html),
        def.unwrap,
        web::match_count(html, def.container) as int,
    )
}

proof fn lemma_rows_read(
    titles: Seq<Option<Seq<Seq<char>>>>,
    hrefs: Seq<Option<Seq<char>>>,
    snippets: Seq<Option<Seq<Seq<char>>>>,
    param: Seq<char>,
    n: int,
) -> (rows: Seq<int>)
    ensures
        ({
            let hits = rows_hits(titles, hrefs, snippets, param, n);
            let says = |k: int| row_hit(titles[k], hrefs[k], snippets[k], param);
            &&& rows.len() == hits.len()
            &&& forall|i: int|
                0 <= i < hits.len() ==> 0 <= #[trigger] rows[i] < n && says(rows[i]) == Some(
                    hits[i],
                )
            &&& forall|i: int, j: int| 0 <= i < j < rows.len() ==> rows[i] < rows[j]
            &&& forall|k: int|
                0 <= k < n && #[trigger] says(k) is Some ==> exists|i: int|
                    0 <= i < hits.len() && rows[i] <= k && #[trigger] hits[i].link == says(
                        k,
                    )->Some_0.link
        }),
    decreases n,
{
    if n <= 0 {
        Seq::empty()
    } else {
        let prev = lemma_rows_read(titles, hrefs, snippets, param, n - 1);
        let before = rows_hits(titles, hrefs, snippets, param, n - 1);
        let hits = rows_hits(titles, hrefs, snippets, param, n);
        let says = |k: int| row_hit(titles[k], hrefs[k], snippets[k], param);
        let here = row_hit(titles[n - 1], hrefs[n - 1], snippets[n - 1], param);
        assert(says(n - 1) == here);
        let rows = if hits.len() > before.len() {
            prev.push(n - 1)
        } else {
            prev
        };
        assert forall|k: int| 0 <= k < n && #[trigger] says(k) is Some implies exists|i: int|
            0 <= i < hits.len() && rows[i] <= k && #[trigger] hits[i].link == says(
                k,
            )->Some_0.link by {
            if k < n - 1 {
                let i = choose|i: int|
                    0 <= i < before.len() && prev[i] <= k && #[trigger] before[i].link == says(
                        k,
                    )->Some_0.link;
                assert(hits[i].link == says(k)->Some_0.link && rows[i] == prev[i]);
            } else {
                let h = here->Some_0;
                if links(before).contains(h.link) {
                    let i = choose|i: int| 0 <= i < links(before).len() && links(before)[i] == h.link;
                    assert(before[i].link == h.link);
                    assert(hits[i].link == h.link && rows[i] == prev[i]);
                } else {
                    assert(hits == before.push(h));
                    let i = before.len() as int;
                    assert(hits[i].link == h.link && rows[i] == n - 1);
                }
            }
        }
        rows
    }
}

/// A row is a result exactly where it has a title that says something and a link that leads somewhere on
/// the web and to no advert; the result then holds all of the title and of the summary, with white space
/// evened out, and the address that the link leads to.
pub proof fn law_rows_are_read_whole(
    title: Option<Seq<Seq<char>>>,
    href: Option<Seq<char>>,
    snippet: Option<Seq<Seq<char>>>,
    param: Seq<char>,
)
    ensures
        row_hit(title, href, snippet, param) is Some <==> {
            &&& title matches Some(t) && text::says_something(text::join(t, seq![' ']))
            &&& href matches Some(h) && {
                let url = real_address(h, param);
                &&& text::starts_with(url, "http://"@) || text::starts_with(url, "https://"@)
                &&& !text::contains_text(url, "duckduckgo.com/y.js"@)
                &&& !text::contains_text(url, "bing.com/aclick"@)
            }
        },
        row_hit(title, href, snippet, param) matches Some(hit) ==> {
            &&& hit.link == real_address(href->Some_0, param)
            &&& hit.title == text::squeeze(text::join(title->Some_0, seq![' ']))
            &&& snippet matches Some(s) ==> hit.snippet == text::squeeze(text::join(s, seq![' ']))
            &&& snippet is None ==> hit.snippet.len() == 0
        },
{
    reveal_strlit(" ");
    assert(" "@ =~= seq![' ']);
    if let Some(t) = title {
        text::law_squeezing_keeps_every_word(text::join(t, seq![' ']), ' ', Seq::empty());
    }
}

/// Where the link of a row is read: from the attribute `href` of the link, from another one that is
/// named, or, after an `@`, from one of the row itself.
pub proof fn law_links_are_read_where_the_definition_says(def: EngineView, html: Seq<char>)
    ensures
        def.link_attr.len() == 0 ==> row_links(def, html) == web::inner_attributes(
            html,
            def.container,
            def.link,
            "href"@,
        ),
        def.link_attr.len() > 0 && def.link_attr[0] != '@' ==> row_links(def, html)
            == web::inner_attributes(html, def.container, def.link, def.link_attr),
        forall|name: Seq<char>|
            def.link_attr == #[trigger] (seq!['@'] + name) ==> row_links(def, html)
                == web::own_attributes(html, def.container, name),
        web::selector_fault(def.snippet) is None ==> row_snippets(def, html) == web::inner_texts(
            html,
            def.container,
            def.snippet,
        ),
        web::selector_fault(def.snippet) is Some ==> row_snippets(def, html).len()
            == web::match_count(html, def.container) && forall|i: int|
            0 <= i < row_snippets(def, html).len() ==> #[trigger] row_snippets(def, html)[i] is None,
        web::selector_fault(def.container) is Some || web::selector_fault(def.title) is Some
            || web::selector_fault(def.link) is Some ==> page_hits(def, html).len() == 0,
{
    assert forall|name: Seq<char>| def.link_attr == #[trigger] (seq!['@'] + name) implies row_links(
        def,
        html,
    ) == web::own_attributes(html, def.container, name) by {
        assert((seq!['@'] + name).skip(1) =~= name);
    }
}

/// Of the pairs of a query the first with the name counts, with the whole of its value.
pub proof fn law_first_pair_counts(pairs: Seq<(Seq<char>, Seq<char>)>, name: Seq<char>)
    ensures
        pair_value(pairs, name) is None <==> forall|i: int|
            0 <= i < pairs.len() ==> (#[trigger] pairs[i]).0 != name,
        pair_value(pairs, name) matches Some(v) ==> exists|i: int|
            0 <= i < pairs.len() && (#[trigger] pairs[i]) == (name, v) && forall|j: int|
                0 <= j < i ==> (#[trigger] pairs[j]).0 != name,
    decreases pairs.len(),
{
    if pairs.len() > 0 {
        let rest = pairs.skip(1);
        law_first_pair_counts(rest, name);
        if pairs[0].0 == name {
            assert(pairs[0] == (name, pairs[0].1));
        } else {
            match pair_value(rest, name) {
                Some(v) => {
                    let i = choose|i: int|
                        0 <= i < rest.len() && (#[trigger] rest[i]) == (name, v) && forall|j: int|
                            0 <= j < i ==> (#[trigger] rest[j]).0 != name;
                    assert(pairs[i + 1] == (name, v));
                    assert forall|j: int| 0 <= j < i + 1 implies (#[trigger] pairs[j]).0 != name by {
                        if j > 0 {
                            assert(rest[j - 1].0 != name);
                        }
                    }
                },
                None => {
                    assert forall|i: int| 0 <= i < pairs.len() implies (#[trigger] pairs[i]).0
                        != name by {
                        if i > 0 {
                            assert(rest[i - 1].0 != name);
                        }
                    }
                },
            }
            if forall|i: int| 0 <= i < pairs.len() ==> (#[trigger] pairs[i]).0 != name {
                assert forall|i: int| 0 <= i < rest.len() implies (#[trigger] rest[i]).0 != name by {
                    assert(pairs[i + 1].0 != name);
                }
            }
        }
    }
}

/// A link that is no redirecting one of Bing leads to the value of the parameter that is named, where its
/// URL has it, be it written with a scheme or with `//` alone; else it is left as it is.
pub proof fn law_redirecting_links_are_followed(href: Seq<char>, param: Seq<char>)
    requires
        param.len() > 0,
        bing_address(href) is None,
    ensures
        ({
            let url = if href.len() >= 2 && href[0] == '/' && href[1] == '/' {
                "https:"@ + href
            } else {
                href
            };
            real_address(href, param) == match web::url_parts(url) {
                Ok(u) => match pair_value(u.pairs, param) {
                    Some(v) => v,
                    None => href,
                },
                Err(_) => href,
            }
        }),
        bing_address(href) is None ==> real_address(href, Seq::empty()) == href,
{
    reveal_strlit("//");
    reveal_strlit("https:");
    reveal_strlit("https://");
    if href.len() >= 2 {
        if href[0] == '/' && href[1] == '/' {
            assert(href.subrange(0, 2) =~= "//"@);
            assert("https://"@ + href.skip(2) =~= "https:"@ + href);
        } else if text::starts_with(href, "//"@) {
            assert(href.subrange(0, 2)[0] == href[0] && href.subrange(0, 2)[1] == href[1]);
        }
    }
}

/// A redirecting link of Bing leads to the web address that its parameter `u` holds: `a1`, then the
/// bytes of the address in base64, with padding or without.
pub proof fn law_bing_links_are_followed(
    href: Seq<char>,
    u: UrlView,
    host: Seq<char>,
    packed: Seq<char>,
    padding: Seq<char>,
    address: Seq<char>,
)
    requires
        web::url_parts(href) == Ok::<UrlView, Seq<char>>(u),
        u.host == Some(host + "bing.com"@),
        pair_value(u.pairs, "u"@) == Some("a1"@ + packed + padding),
        all_six_bits(packed),
        padding.len() > 0 ==> padding[0] == '=',
        packed_bytes(packed) == utf8::encode_utf8(address),
        text::starts_with(address, "http://"@) || text::starts_with(address, "https://"@),
    ensures
        real_address(href, Seq::empty()) == address,
        forall|param: Seq<char>| #[trigger] real_address(href, param) == address,
{
    reveal_strlit("a1");
    let v = "a1"@ + packed + padding;
    let rest = v.skip(2);
    assert(rest =~= packed + padding);
    assert forall|k: int| 0 <= k < packed.len() implies rest[k] != '=' by {
        assert(six_bits(packed[k]) is Some);
        assert(rest[k] == packed[k]);
    }
    text::lemma_find_is(rest, '=', packed.len() as int);
    assert(text::before(rest, '=') =~= packed);
    text::law_occurring(host, "bing.com"@, Seq::empty());
    assert(v.subrange(0, 2) =~= "a1"@);
    utf8::encode_utf8_valid_utf8(address);
    utf8::encode_utf8_decode_utf8(address);
}

/// What a redirecting link of Bing leads to is never anything but a web address.
pub proof fn law_bing_links_lead_to_the_web(u: UrlView)
    ensures
        bing_target_of(u) matches Some(a) ==> text::starts_with(a, "http://"@) || text::starts_with(
            a,
            "https://"@,
        ),
        bing_target_of(u) is Some ==> (u.host matches Some(h) && text::ends_with(h, "bing.com"@)),
{
}

/// Base64: the letters, the digits and two signs more stand for the numbers from 0 to 63; four of them
/// write the same number as the three bytes that they make, and two or three at the end one byte or two.
pub proof fn law_base64_is_unpacked_bit_by_bit(s: Seq<char>, j: int)
    requires
        all_six_bits(s),
        0 <= j,
    ensures
        packed_bytes(s).len() == s.len() * 3 / 4,
        4 * j + 3 < s.len() ==> packed_bytes(s)[3 * j] * 65536 + packed_bytes(s)[3 * j + 1] * 256
            + packed_bytes(s)[3 * j + 2] == bits_at(s, 4 * j) * 262144 + bits_at(s, 4 * j + 1) * 4096
            + bits_at(s, 4 * j + 2) * 64 + bits_at(s, 4 * j + 3),
        4 * j + 2 < s.len() ==> packed_bytes(s)[3 * j] * 256 + packed_bytes(s)[3 * j + 1] == (bits_at(
            s,
            4 * j,
        ) * 4096 + bits_at(s, 4 * j + 1) * 64 + bits_at(s, 4 * j + 2)) / 4,
        4 * j + 1 < s.len() ==> packed_bytes(s)[3 * j] == (bits_at(s, 4 * j) * 64 + bits_at(
            s,
            4 * j + 1,
        )) / 16,
{
    if 4 * j + 1 < s.len() {
        assert(six_bits(s[4 * j]) is Some && six_bits(s[4 * j + 1]) is Some);
        lemma_six_bits(s[4 * j]);
        lemma_six_bits(s[4 * j + 1]);
        assert(3 * j / 3 * 4 == 4 * j);
        assert(3 * j < s.len() * 3 / 4);
    }
    if 4 * j + 2 < s.len() {
        assert(six_bits(s[4 * j + 2]) is Some);
        lemma_six_bits(s[4 * j + 2]);
        assert((3 * j + 1) / 3 * 4 == 4 * j && (3 * j + 1) % 3 == 1);
    }
    if 4 * j + 3 < s.len() {
        assert(six_bits(s[4 * j + 3]) is Some);
        lemma_six_bits(s[4 * j + 3]);
        assert((3 * j + 2) / 3 * 4 == 4 * j && (3 * j + 2) % 3 == 2);
    }
}

proof fn lemma_six_bits(c: char)
    ensures
        six_bits(c) matches Some(n) ==> n < 64,
{
}

/// The numbers that the characters of base64 stand for.
pub proof fn law_base64_digits(c: char)
    ensures
        'A' <= c <= 'Z' ==> six_bits(c) == Some((c as u32 - 'A' as u32) as u8),
        'a' <= c <= 'z' ==> six_bits(c) == Some((c as u32 - 'a' as u32 + 26) as u8),
        '0' <= c <= '9' ==> six_bits(c) == Some((c as u32 - '0' as u32 + 52) as u8),
        c == '-' || c == '+' ==> six_bits(c) == Some(62u8),
        c == '_' || c == '/' ==> six_bits(c) == Some(63u8),
        six_bits(c) is Some ==> text::is_alphanumeric(c) || c == '-' || c == '+' || c == '_' || c == '/',
{
}

/// A definition can be used exactly where its id is a plain word, its search URL is one by `https`, its
/// selectors are short and good ones (that of the summary may be empty), and the attribute of the link
/// and the weight are within their bounds.
pub proof fn law_usable_definitions(e: EngineView)
    ensures
        usable(e) <==> {
            &&& e.id.len() > 0
            &&& forall|i: int|
                0 <= i < e.id.len() ==> text::is_alphanumeric(#[trigger] e.id[i]) || e.id[i] == '-'
            &&& web::url_parts(search_url_of(e.url, "test"@, "en"@, "US"@)) matches Ok(u) && u.scheme
                == "https"@
            &&& utf8::encode_utf8(e.container).len() <= 300 && web::selector_fault(e.container) is None
            &&& utf8::encode_utf8(e.title).len() <= 300 && web::selector_fault(e.title) is None
            &&& utf8::encode_utf8(e.link).len() <= 300 && web::selector_fault(e.link) is None
            &&& utf8::encode_utf8(e.snippet).len() <= 300 && (e.snippet.len() == 0
                || web::selector_fault(e.snippet) is None)
            &&& utf8::encode_utf8(e.link_attr).len() <= 40
            &&& forall|i: int|
                0 <= i < e.link_attr.len() ==> text::is_alphanumeric(#[trigger] e.link_attr[i])
                    || e.link_attr[i] == '-' || e.link_attr[i] == '_' || e.link_attr[i] == '@'
            &&& e.weight.within_zero_and_two()
        },
        engine_fault(e) == Some(EngineFault::Id) <==> !(e.id.len() > 0 && forall|i: int|
            0 <= i < e.id.len() ==> text::is_alphanumeric(#[trigger] e.id[i]) || e.id[i] == '-'),
        forall|part: Part|
            #[trigger] engine_fault(e) == Some(EngineFault::LongSelector(part)) ==> utf8::encode_utf8(
                match part {
                    Part::Container => e.container,
                    Part::Title => e.title,
                    Part::Link => e.link,
                    Part::Snippet => e.snippet,
                },
            ).len() > 300,
        forall|part: Part, why: Seq<char>|
            #[trigger] engine_fault(e) == Some(EngineFault::Selector(part, why))
                ==> web::selector_fault(
                match part {
                    Part::Container => e.container,
                    Part::Title => e.title,
                    Part::Link => e.link,
                    Part::Snippet => e.snippet,
                },
            ) == Some(why),
        engine_fault(e) == Some(EngineFault::Weight) ==> !e.weight.within_zero_and_two(),
{
    assert(good_id(e.id) == (e.id.len() > 0 && forall|i: int|
        0 <= i < e.id.len() ==> text::is_alphanumeric(#[trigger] e.id[i]) || e.id[i] == '-')) by {
        if good_id(e.id) {
            assert forall|i: int| 0 <= i < e.id.len() implies text::is_alphanumeric(
                #[trigger] e.id[i],
            ) || e.id[i] == '-' by {
                assert(is_id_char(e.id[i]));
            }
        }
    }
    if forall|i: int| 0 <= i < e.link_attr.len() ==> is_attr_char(#[trigger] e.link_attr[i]) {
        assert forall|i: int| 0 <= i < e.link_attr.len() implies text::is_alphanumeric(
            #[trigger] e.link_attr[i],
        ) || e.link_attr[i] == '-' || e.link_attr[i] == '_' || e.link_attr[i] == '@' by {
            assert(is_attr_char(e.link_attr[i]));
        }
    }
}

/// An engine is good at a language exactly where it lists its code, or the part of it before a `-`.
pub proof fn law_languages_are_listed_by_code_or_base(
    langs: Seq<Seq<char>>,
    base: Seq<char>,
    rest: Seq<char>,
)
    requires
        !base.contains('-'),
    ensures
        lists_language(langs, base) <==> langs.contains(base),
        lists_language(langs, base + seq!['-'] + rest) <==> langs.contains(base) || langs.contains(
            base + seq!['-'] + rest,
        ),
{
    let code = base + seq!['-'] + rest;
    assert forall|k: int| 0 <= k < base.len() implies code[k] != '-' by {
        assert(base.contains(base[k]));
        assert(code[k] == base[k]);
    }
    text::lemma_find_is(code, '-', base.len() as int);
    assert(text::before(code, '-') =~= base);
    text::law_before_the_first(base, '-');
}

/// An engine is found at the first place that has its id.
pub proof fn law_engines_are_found_by_id(v: Seq<EngineView>, id: Seq<char>)
    ensures
        0 <= engine_place(v, id) <= v.len(),
        engine_place(v, id) < v.len() ==> v[engine_place(v, id)].id == id,
        forall|i: int| 0 <= i < engine_place(v, id) ==> (#[trigger] v[i]).id != id,
    decreases v.len(),
{
    if v.len() > 0 {
        law_engines_are_found_by_id(v.skip(1), id);
        assert forall|i: int| 0 <= i < engine_place(v, id) implies (#[trigger] v[i]).id != id by {
            if i > 0 {
                assert(v[i] == v.skip(1)[i - 1]);
            }
        }
    }
}

/// What is said of a fault holds the whole reason.
pub proof fn law_faults_are_told_whole(why: Seq<char>, part: Part)
    ensures
        text::ends_with(fault_text(EngineFault::Url(why)), why),
        text::ends_with(fault_text(EngineFault::Selector(part, why)), why),
        text::starts_with(fault_text(EngineFault::Selector(part, why)), part_text(part)),
        text::starts_with(fault_text(EngineFault::LongSelector(part)), part_text(part)),
{
    text::law_occurring("URL の型が正しくありません: "@, why, Seq::empty());
    let head = part_text(part) + " のセレクタが正しくありません: "@;
    text::law_occurring(head, why, Seq::empty());
    let tail = " のセレクタが正しくありません: "@ + why;
    assert(head + why =~= part_text(part) + tail);
    text::law_occurring(Seq::empty(), part_text(part), tail);
    text::law_occurring(Seq::empty(), part_text(part), " のセレクタが長すぎます"@);
}

/// A definition with selectors of at most 300 bytes can be tried on any page that the parser takes, however
/// deep it is nested, unless one of them may hold a `:has`; and then on any page of which no node stands in
/// more than 512 others.
pub proof fn law_pages_can_be_read(e: EngineView, html: Seq<char>)
    requires
        utf8::encode_utf8(html).len() <= 0x2AAA_AAAA,
        utf8::encode_utf8(e.container).len() <= 300,
        utf8::encode_utf8(e.title).len() <= 300,
        utf8::encode_utf8(e.link).len() <= 300,
        utf8::encode_utf8(e.snippet).len() <= 300,
    ensures
        (forall|i: int| 0 <= i < web::node_depths(html).len() ==> #[trigger] web::node_depths(html)[i]
            <= 512) ==> can_read(e, html),
        !(text::contains_text(text::lower(e.container), "has("@) || e.container.contains('\\')
            || text::contains_text(text::lower(e.title), "has("@) || e.title.contains('\\')
            || text::contains_text(text::lower(e.link), "has("@) || e.link.contains('\\')
            || text::contains_text(text::lower(e.snippet), "has("@) || e.snippet.contains('\\'))
            ==> can_read(e, html),
{
    lemma_holds_backslash(e.container);
    lemma_holds_backslash(e.title);
    lemma_holds_backslash(e.link);
    lemma_holds_backslash(e.snippet);
}

proof fn lemma_holds_backslash(s: Seq<char>)
    ensures
        text::contains_text(s, "\\"@) ==> s.contains('\\'),
{
    reveal_strlit("\\");
    if text::contains_text(s, "\\"@) {
        let i = choose|i: int| #[trigger] text::occurs_at(s, "\\"@, i);
        assert(s.subrange(i, i + 1)[0] == '\\');
        assert(s[i] == '\\');
    }
}

/// Contracts speak of every definition and every result of a list, and of the whole of each.
pub proof fn law_definitions_and_results_are_seen_whole(
    e: EngineDef,
    h: Hit,
    v: Seq<EngineDef>,
    w: Seq<Hit>,
    r: Result<(), EngineError>,
)
    ensures
        e@.id == e.id@ && e@.name == e.name@ && e@.url == e.url@,
        e@.container == e.container@ && e@.title == e.title@ && e@.link == e.link@,
        e@.snippet == e.snippet@ && e@.link_attr == e.link_attr@ && e@.unwrap == e.unwrap@,
        e@.weight == e.weight && e@.enabled == e.enabled && e@.only_langs == e.only_langs,
        e@.langs == text::texts(e.langs@),
        h@.title == h.title@ && h@.link == h.link@ && h@.snippet == h.snippet@,
        engine_views(v).len() == v.len(),
        forall|i: int| 0 <= i < v.len() ==> #[trigger] engine_views(v)[i] == v[i]@,
        hit_views(w).len() == w.len(),
        forall|i: int| 0 <= i < w.len() ==> #[trigger] hit_views(w)[i] == w[i]@,
        outcome(r) is None <==> r is Ok,
        r matches Err(EngineError::Url(s)) ==> outcome(r) == Some(EngineFault::Url(s@)),
        r matches Err(EngineError::Selector(p, s)) ==> outcome(r) == Some(
            EngineFault::Selector(p, s@),
        ),
        r matches Err(EngineError::LongSelector(p)) ==> outcome(r) == Some(
            EngineFault::LongSelector(p),
        ),
        r == Err::<(), EngineError>(EngineError::Id) <==> outcome(r) == Some(EngineFault::Id),
        r == Err::<(), EngineError>(EngineError::Scheme) <==> outcome(r) == Some(EngineFault::Scheme),
        r == Err::<(), EngineError>(EngineError::LinkAttr) <==> outcome(r) == Some(
            EngineFault::LinkAttr,
        ),
        r == Err::<(), EngineError>(EngineError::Weight) <==> outcome(r) == Some(EngineFault::Weight),
{
}

/// The engines to begin with: four, with different ids, each switched on, asked by `https` for the query,
/// and of weight 1; one of them for Japanese alone.
pub proof fn law_engines_to_begin_with()
    ensures
        ({
            let v = default_engines();
            &&& v.len() == 4
            &&& v[0].id == "duckduckgo"@ && v[1].id == "bing"@ && v[2].id == "brave"@ && v[3].id
                == "yahoo-jp"@
            &&& forall|i: int|
                0 <= i < 4 ==> (#[trigger] v[i]).enabled && v[i].weight.bits == 0x3FF0_0000_0000_0000
                    && text::starts_with(v[i].url, "https://"@) && text::contains_text(
                    v[i].url,
                    "{q}"@,
                )
            &&& forall|i: int| 0 <= i < 3 ==> !(#[trigger] v[i]).only_langs && v[i].langs.len() == 0
            &&& v[3].only_langs && v[3].langs == seq!["ja"@]
        }),
{
    reveal_strlit("https://");
    reveal_strlit("{q}");
    reveal_strlit("https://html.duckduckgo.com/html/?q={q}&kl={kl}");
    reveal_strlit("https://www.bing.com/search?q={q}&setlang={hl}&cc={gl}");
    reveal_strlit("https://search.brave.com/search?q={q}&source=web");
    reveal_strlit("https://search.yahoo.co.jp/search?p={q}&ei=UTF-8");
    let v = default_engines();
    lemma_asks_for_query(v[0].url, 36);
    lemma_asks_for_query(v[1].url, 30);
    lemma_asks_for_query(v[2].url, 34);
    lemma_asks_for_query(v[3].url, 36);
}

proof fn lemma_asks_for_query(url: Seq<char>, i: int)
    requires
        8 <= i,
        i + 3 <= url.len(),
        url[i] == '{' && url[i + 1] == 'q' && url[i + 2] == '}',
        url[0] == 'h' && url[1] == 't' && url[2] == 't' && url[3] == 'p' && url[4] == 's',
        url[5] == ':' && url[6] == '/' && url[7] == '/',
    ensures
        text::starts_with(url, "https://"@),
        text::contains_text(url, "{q}"@),
{
    reveal_strlit("https://");
    reveal_strlit("{q}");
    assert(url.subrange(0, 8) =~= "https://"@);
    assert(url.subrange(i, i + 3) =~= "{q}"@);
    assert(text::occurs_at(url, "{q}"@, i));
}

/// Of what is wrong with a definition the first is told: its id, its search URL, its selectors from that of
/// the results to that of the summaries, the attribute of the link, the weight.
pub proof fn law_the_first_fault_is_told(e: EngineView, why: Seq<char>)
    ensures
        ({
            let id = engine_fault(e) == Some(EngineFault::Id);
            let url = web::url_parts(search_url_of(e.url, "test"@, "en"@, "US"@));
            let https = url matches Ok(u) && u.scheme == "https"@;
            let well = |s: Seq<char>|
                utf8::encode_utf8(s).len() <= 300 && web::selector_fault(s) is None;
            let before_selectors = !id && https;
            &&& engine_fault(e) == Some(EngineFault::Url(why)) <==> !id && url == Err::<
                UrlView,
                Seq<char>,
            >(why)
            &&& engine_fault(e) == Some(EngineFault::Scheme) <==> !id && url is Ok && !https
            &&& before_selectors && utf8::encode_utf8(e.container).len() > 300 ==> engine_fault(e)
                == Some(EngineFault::LongSelector(Part::Container))
            &&& before_selectors && utf8::encode_utf8(e.container).len() <= 300
                && web::selector_fault(e.container) == Some(why) ==> engine_fault(e) == Some(
                EngineFault::Selector(Part::Container, why),
            )
            &&& before_selectors && well(e.container) && utf8::encode_utf8(e.title).len() <= 300
                && web::selector_fault(e.title) == Some(why) ==> engine_fault(e) == Some(
                EngineFault::Selector(Part::Title, why),
            )
            &&& before_selectors && well(e.container) && well(e.title) && utf8::encode_utf8(
                e.link,
            ).len() <= 300 && web::selector_fault(e.link) == Some(why) ==> engine_fault(e) == Some(
                EngineFault::Selector(Part::Link, why),
            )
            &&& before_selectors && well(e.container) && well(e.title) && well(e.link)
                && e.snippet.len() > 0 && utf8::encode_utf8(e.snippet).len() <= 300
                && web::selector_fault(e.snippet) == Some(why) ==> engine_fault(e) == Some(
                EngineFault::Selector(Part::Snippet, why),
            )
            &&& engine_fault(e) == Some(EngineFault::LinkAttr) ==> utf8::encode_utf8(e.link_attr).len()
                > 40 || exists|i: int|
                0 <= i < e.link_attr.len() && !text::is_alphanumeric(#[trigger] e.link_attr[i])
                    && e.link_attr[i] != '-' && e.link_attr[i] != '_' && e.link_attr[i] != '@'
        }),
{
    if engine_fault(e) == Some(EngineFault::LinkAttr) && utf8::encode_utf8(e.link_attr).len() <= 40 {
        let i = choose|i: int| 0 <= i < e.link_attr.len() && !is_attr_char(#[trigger] e.link_attr[i]);
        assert(!text::is_alphanumeric(e.link_attr[i]));
    }
}

} // verus!
