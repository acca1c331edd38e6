//! What comes in and what is answered: the parameters of a search, who may ask for what, and when the
//! engines are looked after.

use vstd::prelude::*;
use vstd::utf8;

use crate::json::{self, parse_json, Json, JsonValue};
use crate::limit::{self, Limiter};
use crate::text::{
    self, alphanumeric, append_chars, append_str, chars_of, decimal_of, parsed_u64, position, same,
    same_chars, slice_of, split_on, string_of,
};
use crate::web;

verus! {

// ---------------------------------------------------------------------------
// Query strings
// ---------------------------------------------------------------------------

/// The value of a hexadecimal digit.
pub open spec fn hex_value(b: u8) -> Option<u8> {
    if 0x30 <= b <= 0x39 {
        Some((b - 0x30) as u8)
    } else if 0x41 <= b <= 0x46 {
        Some((b - 0x37) as u8)
    } else if 0x61 <= b <= 0x66 {
        Some((b - 0x57) as u8)
    } else {
        None
    }
}

/// The byte that two characters after a `%` write: two hexadecimal digits, or a `+` and one.
pub open spec fn hex_pair(a: u8, b: u8) -> Option<u8> {
    match (hex_value(a), hex_value(b)) {
        (Some(x), Some(y)) => Some((x * 16 + y) as u8),
        (None, Some(y)) => if a == 0x2B {
            Some(y)
        } else {
            None
        },
        _ => None,
    }
}

/// The bytes that an encoded text stands for: a `+` for a blank, a `%` with two digits for the byte
/// that they write, and everything else for itself.
pub open spec fn decode_bytes(b: Seq<u8>) -> Seq<u8>
    decreases b.len(),
{
    if b.len() == 0 {
        Seq::empty()
    } else if b[0] == 0x2B {
        seq![0x20u8] + decode_bytes(b.skip(1))
    } else if b[0] == 0x25 && b.len() > 2 && hex_pair(b[1], b[2]) is Some {
        seq![hex_pair(b[1], b[2])->Some_0] + decode_bytes(b.skip(3))
    } else {
        seq![b[0]] + decode_bytes(b.skip(1))
    }
}

/// Whether no `%` of an encoded text is followed by half a character: the two bytes after it end
/// where a character ends.
pub open spec fn decodable(s: Seq<char>) -> bool {
    let b = utf8::encode_utf8(s);
    forall|i: int|
        0 <= i && i + 2 < b.len() && #[trigger] b[i] == 0x25 ==> utf8::is_char_boundary(b, i + 3)
}

/// Whether a text can be decoded.
pub fn is_decodable(s: &str) -> (r: bool)
    ensures
        r == decodable(s@),
{
    let b = s.as_bytes();
    proof {
        utf8::encode_utf8_valid_utf8(s@);
        utf8::is_char_boundary_start_end_of_seq(b@);
    }
    let n: usize = b.len();
    for i in 0..n
        invariant
            n == b@.len(),
            b@ == utf8::encode_utf8(s@),
            utf8::valid_utf8(b@),
            utf8::is_char_boundary(b@, b@.len() as int),
            forall|k: int|
                0 <= k < i && k + 2 < b@.len() && #[trigger] b@[k] == 0x25
                    ==> utf8::is_char_boundary(b@, k + 3),
    {
        if b[i] == 0x25 && n - i > 3 {
            let c: u8 = b[i + 3];
            proof {
                utf8::is_char_boundary_iff_not_is_continuation_byte(b@, i + 3);
            }
            if 0x80 <= c && c <= 0xBF {
                assert(!utf8::is_char_boundary(b@, i + 3));
                assert(b@[i as int] == 0x25);
                return false;
            }
        }
    }
    true
}

/// What `String::from_utf8_lossy` makes of bytes.
pub uninterp spec fn lossy_text(bytes: Seq<u8>) -> Seq<char>;

/// `String::from_utf8_lossy` of the standard library: the text that the bytes encode, with a
/// replacement character for what is no valid UTF-8. The contract says that the text depends on the
/// bytes alone, and what it is where they are valid.
#[verifier::external_body]
fn text_lossy(bytes: &Vec<u8>) -> (r: String)
    ensures
        r@ == lossy_text(bytes@),
        utf8::valid_utf8(bytes@) ==> r@ == utf8::decode_utf8(bytes@),
{
    String::from_utf8_lossy(bytes).into_owned()
}

/// The text that an encoded one stands for.
pub open spec fn decoded(s: Seq<char>) -> Seq<char> {
    lossy_text(decode_bytes(utf8::encode_utf8(s)))
}

fn hex_digit_value(b: u8) -> (r: Option<u8>)
    ensures
        r == hex_value(b),
        r matches Some(v) ==> v < 16,
{
    if 0x30 <= b && b <= 0x39 {
        Some(b - 0x30)
    } else if 0x41 <= b && b <= 0x46 {
        Some(b - 0x37)
    } else if 0x61 <= b && b <= 0x66 {
        Some(b - 0x57)
    } else {
        None
    }
}

fn hex_byte(a: u8, b: u8) -> (r: Option<u8>)
    ensures
        r == hex_pair(a, b),
{
    match (hex_digit_value(a), hex_digit_value(b)) {
        (Some(x), Some(y)) => Some(x * 16 + y),
        (None, Some(y)) => if a == 0x2B {
            Some(y)
        } else {
            None
        },
        _ => None,
    }
}

/// The bytes that an encoded text stands for.
pub fn decoded_bytes(b: &[u8]) -> (r: Vec<u8>)
    ensures
        r@ == decode_bytes(b@),
{
    let mut out: Vec<u8> = Vec::new();
    let n: usize = b.len();
    let mut i: usize = 0;
    assert(b@.skip(0) == b@);
    while i < n
        invariant
            n == b@.len(),
            i <= n,
            decode_bytes(b@) == out@ + decode_bytes(b@.skip(i as int)),
        decreases n - i,
    {
        let ghost rest = b@.skip(i as int);
        let ghost prev = out@;
        assert(rest[0] == b@[i as int]);
        assert(rest.skip(1) == b@.skip(i + 1));
        if b[i] == 0x2B {
            out.push(0x20);
            assert(prev + (seq![0x20u8] + decode_bytes(b@.skip(i + 1))) == out@ + decode_bytes(
                b@.skip(i + 1),
            ));
            i += 1;
        } else {
            let byte: Option<u8> = if b[i] == 0x25 && n - i > 2 {
                assert(rest[1] == b@[i + 1]);
                assert(rest[2] == b@[i + 2]);
                hex_byte(b[i + 1], b[i + 2])
            } else {
                None
            };
            match byte {
                Some(v) => {
                    assert(rest.skip(3) == b@.skip(i + 3));
                    out.push(v);
                    assert(prev + (seq![v] + decode_bytes(b@.skip(i + 3))) == out@ + decode_bytes(
                        b@.skip(i + 3),
                    ));
                    i += 3;
                },
                None => {
                    out.push(b[i]);
                    assert(prev + (seq![rest[0]] + decode_bytes(b@.skip(i + 1))) == out@
                        + decode_bytes(b@.skip(i + 1)));
                    i += 1;
                },
            }
        }
    }
    assert(b@.skip(n as int).len() == 0);
    assert(out@ + Seq::<u8>::empty() == out@);
    out
}

/// The text that an encoded one stands for.
pub fn pct_decode(s: &str) -> (r: String)
    requires
        decodable(s@),
    ensures
        r@ == decoded(s@),
        utf8::valid_utf8(decode_bytes(utf8::encode_utf8(s@))) ==> r@ == utf8::decode_utf8(
            decode_bytes(utf8::encode_utf8(s@)),
        ),
{
    let bytes = decoded_bytes(s.as_bytes());
    text_lossy(&bytes)
}

/// The name and the value of a part of a query, on either side of its first `=`.
pub open spec fn named(part: Seq<char>) -> Option<(Seq<char>, Seq<char>)> {
    let i = text::find(part, '=');
    if i < part.len() {
        Some((part.take(i), part.skip(i + 1)))
    } else {
        None
    }
}

/// The value, still encoded, of the first part with that name.
pub open spec fn part_value(parts: Seq<Seq<char>>, key: Seq<char>) -> Option<Seq<char>>
    decreases parts.len(),
{
    if parts.len() == 0 {
        None
    } else {
        match named(parts[0]) {
            Some((k, v)) => if k == key {
                Some(v)
            } else {
                part_value(parts.skip(1), key)
            },
            None => part_value(parts.skip(1), key),
        }
    }
}

/// The value, still encoded, of a parameter of a query.
pub open spec fn raw_param(query: Seq<char>, key: Seq<char>) -> Option<Seq<char>> {
    part_value(text::split(query, '&'), key)
}

/// The value, still encoded, of a parameter of a query.
pub fn raw_query_param(query: &str, key: &str) -> (r: Option<String>)
    ensures
        web::opt_text(r) == raw_param(query@, key@),
{
    let parts = split_on(&chars_of(query), '&');
    let name = chars_of(key);
    let ghost all = text::pieces(parts@);
    assert(all.skip(0) == all);
    for i in 0..parts.len()
        invariant
            name@ == key@,
            all == text::split(query@, '&'),
            all == text::pieces(parts@),
            part_value(all, key@) == part_value(all.skip(i as int), key@),
    {
        let part: &Vec<char> = &parts[i];
        let ghost rest = all.skip(i as int);
        assert(rest[0] == part@);
        assert(rest.skip(1) == all.skip(i + 1));
        let at: usize = position(part, '=');
        proof {
            text::lemma_find(part@, '=');
        }
        if at < part.len() {
            let k = slice_of(part, 0, at);
            assert(k@ == part@.take(at as int));
            if same_chars(&k, &name) {
                let v = slice_of(part, at + 1, part.len());
                assert(v@ == part@.skip(at + 1));
                return Some(string_of(&v));
            }
        }
    }
    None
}

/// The value of a parameter of a query.
pub open spec fn param(query: Seq<char>, key: Seq<char>) -> Option<Seq<char>> {
    match raw_param(query, key) {
        Some(v) => Some(decoded(v)),
        None => None,
    }
}

pub open spec fn param_decodable(query: Seq<char>, key: Seq<char>) -> bool {
    raw_param(query, key) matches Some(v) ==> decodable(v)
}

/// The value of a parameter of a query: that of the first part with its name.
pub fn query_param(query: &str, key: &str) -> (r: Option<String>)
    requires
        param_decodable(query@, key@),
    ensures
        web::opt_text(r) == param(query@, key@),
{
    match raw_query_param(query, key) {
        Some(v) => Some(pct_decode(v.as_str())),
        None => None,
    }
}

// ---------------------------------------------------------------------------
// A search that is asked for
// ---------------------------------------------------------------------------

/// What is searched for, in which language and region, and how many results are wanted.
#[derive(Clone, Debug, PartialEq, Eq)]
pub struct SearchRequest {
    pub q: String,
    pub hl: String,
    pub gl: String,
    pub n: usize,
}

pub struct RequestView {
    pub q: Seq<char>,
    pub hl: Seq<char>,
    pub gl: Seq<char>,
    pub n: usize,
}

impl View for SearchRequest {
    type V = RequestView;

    open spec fn view(&self) -> RequestView {
        RequestView { q: self.q@, hl: self.hl@, gl: self.gl@, n: self.n }
    }
}

/// How many results are given where nothing is said of it.
pub const DEFAULT_RESULTS: usize = 10;

pub open spec fn or_empty(x: Option<Seq<char>>) -> Seq<char> {
    match x {
        Some(s) => s,
        None => Seq::empty(),
    }
}

/// How many results a parameter asks for.
pub open spec fn results_wanted(x: Option<Seq<char>>) -> usize {
    match x {
        Some(s) => match text::parse_u64(s) {
            Some(n) => if n <= usize::MAX {
                n as usize
            } else {
                DEFAULT_RESULTS
            },
            None => DEFAULT_RESULTS,
        },
        None => DEFAULT_RESULTS,
    }
}

/// Whether the parameters of a search can be decoded.
pub open spec fn query_decodable(query: Seq<char>) -> bool {
    &&& param_decodable(query, "q"@)
    &&& param_decodable(query, "hl"@)
    &&& param_decodable(query, "gl"@)
    &&& param_decodable(query, "n"@)
}

/// The search that a query string asks for.
pub open spec fn query_request(query: Seq<char>) -> RequestView {
    RequestView {
        q: or_empty(param(query, "q"@)),
        hl: or_empty(param(query, "hl"@)),
        gl: or_empty(param(query, "gl"@)),
        n: results_wanted(param(query, "n"@)),
    }
}

pub open spec fn text_or_empty(j: json::FieldsView, name: Seq<char>) -> Seq<char> {
    or_empty(json::text_field(j, name))
}

/// The search that a JSON object asks for: `query` stands in for `q`, and `max_results` goes before
/// `n`.
pub open spec fn json_request(j: json::FieldsView) -> RequestView {
    let wanted = match json::field(j, "max_results"@) {
        Some(v) => Some(v),
        None => json::field(j, "n"@),
    };
    RequestView {
        q: if text_or_empty(j, "q"@).len() == 0 {
            text_or_empty(j, "query"@)
        } else {
            text_or_empty(j, "q"@)
        },
        hl: text_or_empty(j, "hl"@),
        gl: text_or_empty(j, "gl"@),
        n: match wanted {
            Some(json::JsonView::Number(Some(n))) => n as usize,
            _ => DEFAULT_RESULTS,
        },
    }
}

fn can_decode(query: &str, key: &str) -> (r: bool)
    ensures
        r == param_decodable(query@, key@),
{
    match raw_query_param(query, key) {
        Some(v) => is_decodable(v.as_str()),
        None => true,
    }
}

/// Whether the parameters of a search can be decoded.
pub fn is_query_decodable(query: &str) -> (r: bool)
    ensures
        r == query_decodable(query@),
{
    can_decode(query, "q") && can_decode(query, "hl") && can_decode(query, "gl") && can_decode(
        query,
        "n",
    )
}

fn given(x: Option<String>) -> (r: String)
    ensures
        r@ == or_empty(web::opt_text(x)),
{
    match x {
        Some(s) => s,
        None => String::new(),
    }
}

fn text_or_none(j: &Json, name: &str) -> (r: String)
    ensures
        r@ == text_or_empty(j@, name@),
{
    match j.text(name) {
        Some(s) => s.to_string(),
        None => String::new(),
    }
}

fn wanted_results(x: Option<String>) -> (r: usize)
    ensures
        r == results_wanted(web::opt_text(x)),
{
    match x {
        Some(s) => match parsed_u64(&chars_of(s.as_str())) {
            Some(n) => if n <= usize::MAX as u64 {
                n as usize
            } else {
                DEFAULT_RESULTS
            },
            None => DEFAULT_RESULTS,
        },
        None => DEFAULT_RESULTS,
    }
}

impl SearchRequest {
    /// The search that a query string asks for.
    pub fn from_query(query: &str) -> (r: SearchRequest)
        requires
            query_decodable(query@),
        ensures
            r@ == query_request(query@),
    {
        SearchRequest {
            q: given(query_param(query, "q")),
            hl: given(query_param(query, "hl")),
            gl: given(query_param(query, "gl")),
            n: wanted_results(query_param(query, "n")),
        }
    }

    /// The search that a JSON object asks for.
    pub fn from_json(j: &Json) -> (r: SearchRequest)
        ensures
            r@ == json_request(j@),
    {
        let q = text_or_none(j, "q");
        let q: String = if q.as_str().is_empty() {
            text_or_none(j, "query")
        } else {
            q
        };
        let wanted: Option<&JsonValue> = match j.get("max_results") {
            Some(v) => Some(v),
            None => j.get("n"),
        };
        let n: usize = match wanted {
            Some(JsonValue::Number(Some(n))) => *n as usize,
            _ => DEFAULT_RESULTS,
        };
        SearchRequest { q, hl: text_or_none(j, "hl"), gl: text_or_none(j, "gl"), n }
    }

    /// The search that the body of a call asks for; `None` where the body is no JSON.
    pub fn from_body(body: &[u8]) -> (r: Option<SearchRequest>)
        ensures
            match r {
                Some(q) => json::json_fields(body@) matches Ok(j) && q@ == json_request(j),
                None => json::json_fields(body@) is Err,
            },
    {
        match parse_json(body) {
            Ok(j) => Some(SearchRequest::from_json(&j)),
            Err(_) => None,
        }
    }
}

// ---------------------------------------------------------------------------
// What is refused
// ---------------------------------------------------------------------------

/// The answer to a call that is refused.
#[derive(Clone, Debug, PartialEq, Eq)]
pub struct Refusal {
    /// The HTTP status.
    pub status: u16,
    pub message: String,
    /// After how many seconds the call may be made again, where that is known.
    pub retry_after: Option<u64>,
}

pub struct RefusalView {
    pub status: u16,
    pub message: Seq<char>,
    pub retry_after: Option<int>,
}

impl View for Refusal {
    type V = RefusalView;

    open spec fn view(&self) -> RefusalView {
        RefusalView {
            status: self.status,
            message: self.message@,
            retry_after: match self.retry_after {
                Some(n) => Some(n as int),
                None => None,
            },
        }
    }
}

/// The most bytes that the body of a call may have.
pub const BODY_LIMIT: usize = 65_536;

/// The reasons for which a call is refused before anything is searched.
pub enum Reason {
    /// The client has to wait for so many seconds.
    TooMany(u64),
    /// The language or the region has not the form of one.
    BadTags,
    /// The body is too large.
    TooLarge,
    /// The body is no JSON.
    BadJson,
    /// The token of the administrator is missing.
    NotAdmin,
}

/// The answer for a reason.
pub open spec fn refusal_for(reason: Reason) -> RefusalView {
    match reason {
        Reason::TooMany(wait) => RefusalView {
            status: 429,
            message: "利用回数の上限に達しました。"@ + text::decimal(wait as nat)
                + "秒後にもう一度お試しください"@,
            retry_after: Some(wait as int),
        },
        Reason::BadTags => RefusalView {
            status: 400,
            message: "hl / gl が正しくありません"@,
            retry_after: None,
        },
        Reason::TooLarge => RefusalView {
            status: 413,
            message: "リクエストが大きすぎます"@,
            retry_after: None,
        },
        Reason::BadJson => RefusalView {
            status: 400,
            message: "JSON が正しくありません"@,
            retry_after: None,
        },
        Reason::NotAdmin => RefusalView {
            status: 403,
            message: "管理トークンが必要です"@,
            retry_after: None,
        },
    }
}

impl Refusal {
    /// The answer for a reason.
    pub fn because(reason: Reason) -> (r: Refusal)
        ensures
            r@ == refusal_for(reason),
    {
        match reason {
            Reason::TooMany(wait) => {
                let mut out = chars_of("利用回数の上限に達しました。");
                append_chars(&mut out, &decimal_of(wait));
                append_str(&mut out, "秒後にもう一度お試しください");
                Refusal { status: 429, message: string_of(&out), retry_after: Some(wait) }
            },
            Reason::BadTags => Refusal {
                status: 400,
                message: "hl / gl が正しくありません".to_string(),
                retry_after: None,
            },
            Reason::TooLarge => Refusal {
                status: 413,
                message: "リクエストが大きすぎます".to_string(),
                retry_after: None,
            },
            Reason::BadJson => Refusal {
                status: 400,
                message: "JSON が正しくありません".to_string(),
                retry_after: None,
            },
            Reason::NotAdmin => Refusal {
                status: 403,
                message: "管理トークンが必要です".to_string(),
                retry_after: None,
            },
        }
    }
}

pub open spec fn is_tag_char(c: char) -> bool {
    text::is_alphanumeric(c) || c == '-'
}

/// Whether a text has the form of a language or a region: ASCII letters, digits and `-`, at most
/// `max` of them.
pub open spec fn good_tag(s: Seq<char>, max: int) -> bool {
    &&& s.len() <= max
    &&& forall|i: int| 0 <= i < s.len() ==> is_tag_char(#[trigger] s[i])
}

fn tag_is_good(s: &str, max: usize) -> (r: bool)
    ensures
        r == good_tag(s@, max as int),
{
    let v = chars_of(s);
    if v.len() > max {
        return false;
    }
    for i in 0..v.len()
        invariant
            v@ == s@,
            forall|k: int| 0 <= k < i ==> is_tag_char(#[trigger] s@[k]),
    {
        if !(alphanumeric(v[i]) || v[i] == '-') {
            assert(!is_tag_char(s@[i as int]));
            return false;
        }
    }
    true
}

/// The most characters of a language and of a region.
pub const HL_MAX: usize = 12;

pub const GL_MAX: usize = 6;

/// Whether a search may be made: why not, if it may not. The search is counted either way, and the
/// client's limit goes before the form of the language and the region.
pub open spec fn admission(
    l: limit::LimiterView,
    client: Option<Seq<char>>,
    now: int,
    hl: Seq<char>,
    gl: Seq<char>,
) -> Option<Reason> {
    match limit::call_answer(l, client, now) {
        Err(wait) => Some(Reason::TooMany(wait as u64)),
        Ok(_) => if good_tag(hl, HL_MAX as int) && good_tag(gl, GL_MAX as int) {
            None
        } else {
            Some(Reason::BadTags)
        },
    }
}

/// Whether a search may be made; else what is answered instead.
pub fn may_search(
    limiter: &mut Limiter,
    client: Option<&str>,
    now_unix: u64,
    hl: &str,
    gl: &str,
) -> (r: Result<(), Refusal>)
    requires
        now_unix <= u64::MAX - limit::JST_OFFSET,
    ensures
        final(limiter)@ == limit::call_counted(
            old(limiter)@,
            limit::opt_str_view(client),
            now_unix as int,
        ),
        match r {
            Ok(_) => admission(
                old(limiter)@,
                limit::opt_str_view(client),
                now_unix as int,
                hl@,
                gl@,
            ) is None,
            Err(e) => admission(
                old(limiter)@,
                limit::opt_str_view(client),
                now_unix as int,
                hl@,
                gl@,
            ) matches Some(reason) && e@ == refusal_for(reason),
        },
{
    if let Err(wait) = limiter.check(client, now_unix) {
        return Err(Refusal::because(Reason::TooMany(wait)));
    }
    if !tag_is_good(hl, HL_MAX) || !tag_is_good(gl, GL_MAX) {
        return Err(Refusal::because(Reason::BadTags));
    }
    Ok(())
}

/// Whether a call comes from the administrator: a token is set, it is not empty, and it is the one
/// that is given.
pub open spec fn is_admin(token: Option<Seq<char>>, given: Seq<char>) -> bool {
    token matches Some(t) && t.len() > 0 && t == given
}

/// Whether a call with this token may do what only the administrator may.
pub fn admin_allowed(token: Option<&str>, given: &str) -> (r: bool)
    ensures
        r == is_admin(limit::opt_str_view(token), given@),
{
    match token {
        Some(t) => !t.is_empty() && same(t, given),
        None => false,
    }
}

// ---------------------------------------------------------------------------
// The daily round
// ---------------------------------------------------------------------------

/// The hour of the day in Japan.
pub open spec fn hour_of(now: int) -> int {
    (now + limit::JST_OFFSET) % 86_400 / 3600
}

/// The day, counted from 1970, and the hour of a time in Japan.
pub fn jst_day_hour(unix: u64) -> (r: (u64, u64))
    requires
        unix <= u64::MAX - limit::JST_OFFSET,
    ensures
        r.0 == limit::day_of(unix as int),
        r.1 == hour_of(unix as int),
{
    let t: u64 = unix + limit::JST_OFFSET;
    (t / 86_400, t % 86_400 / 3600)
}

/// The hour from which on the engines are looked after each day.
pub const ROUND_HOUR: u64 = 7;

/// When the engines were looked after.
pub struct Rounds {
    /// Whether they have been at all.
    pub started: bool,
    /// The day in Japan on which they last were from seven in the morning on.
    pub last_morning: Option<u64>,
}

/// Whether a time is one of the morning's round or later on its day.
pub open spec fn in_morning(now: int) -> bool {
    hour_of(now) >= ROUND_HOUR
}

/// Whether the engines are to be looked after now: at once where they have not been yet, and once on
/// every day from seven in the morning on.
pub open spec fn is_due(r: Rounds, now: int) -> bool {
    !r.started || (in_morning(now) && r.last_morning != Some(limit::day_of(now) as u64))
}

/// What is taken note of when one has asked at a time.
pub open spec fn noted(r: Rounds, now: int) -> Rounds {
    if is_due(r, now) {
        Rounds {
            started: true,
            last_morning: if in_morning(now) {
                Some(limit::day_of(now) as u64)
            } else {
                r.last_morning
            },
        }
    } else {
        r
    }
}

impl Rounds {
    pub fn new() -> (r: Rounds)
        ensures
            !r.started,
            r.last_morning is None,
    {
        Rounds { started: false, last_morning: None }
    }

    /// Whether the engines are to be looked after now; if so, that is taken note of.
    pub fn due(&mut self, now_unix: u64) -> (r: bool)
        requires
            now_unix <= u64::MAX - limit::JST_OFFSET,
        ensures
            r == is_due(*old(self), now_unix as int),
            *final(self) == noted(*old(self), now_unix as int),
    {
        let (day, hour): (u64, u64) = jst_day_hour(now_unix);
        let made: bool = match self.last_morning {
            Some(d) => d == day,
            None => false,
        };
        if !self.started || (hour >= ROUND_HOUR && !made) {
            self.started = true;
            if hour >= ROUND_HOUR {
                self.last_morning = Some(day);
            }
            true
        } else {
            false
        }
    }
}

// ---------------------------------------------------------------------------
// Laws
// ---------------------------------------------------------------------------

/// What is taken note of after one has asked at these times, one after the other.
pub open spec fn noted_after(r: Rounds, times: Seq<int>) -> Rounds
    decreases times.len(),
{
    if times.len() == 0 {
        r
    } else {
        noted(noted_after(r, times.drop_last()), times.last())
    }
}

/// How many rounds are due from seven in the morning on, when one asks at these times, one after the
/// other.
pub open spec fn morning_rounds(r: Rounds, times: Seq<int>) -> nat
    decreases times.len(),
{
    if times.len() == 0 {
        0
    } else {
        morning_rounds(r, times.drop_last()) + if in_morning(times.last()) && is_due(
            noted_after(r, times.drop_last()),
            times.last(),
        ) {
            1nat
        } else {
            0nat
        }
    }
}

/// How many rounds are due before seven, when one asks at these times, one after the other.
pub open spec fn early_rounds(r: Rounds, times: Seq<int>) -> nat
    decreases times.len(),
{
    if times.len() == 0 {
        0
    } else {
        early_rounds(r, times.drop_last()) + if !in_morning(times.last()) && is_due(
            noted_after(r, times.drop_last()),
            times.last(),
        ) {
            1nat
        } else {
            0nat
        }
    }
}

/// However often one asks in the course of a day, from seven in the morning on just one round is made:
/// at the first time that one asks, and also where one was made at the start, earlier that day.
pub proof fn law_one_round_every_morning(r: Rounds, times: Seq<int>, day: int)
    requires
        0 <= day <= u64::MAX,
        r.last_morning != Some(day as u64),
        forall|i: int| 0 <= i < times.len() ==> limit::day_of(#[trigger] times[i]) == day,
    ensures
        morning_rounds(r, times) == if exists|i: int|
            0 <= i < times.len() && in_morning(#[trigger] times[i]) {
            1nat
        } else {
            0nat
        },
        noted_after(r, times).last_morning == Some(day as u64) <==> morning_rounds(r, times) == 1,
    decreases times.len(),
{
    if times.len() > 0 {
        let prev = times.drop_last();
        assert forall|i: int| 0 <= i < prev.len() implies limit::day_of(#[trigger] prev[i])
            == day by {
            assert(prev[i] == times[i]);
        }
        law_one_round_every_morning(r, prev, day);
        assert(times.last() == times[times.len() - 1]);
        let before = exists|i: int| 0 <= i < prev.len() && in_morning(#[trigger] prev[i]);
        let now = exists|i: int| 0 <= i < times.len() && in_morning(#[trigger] times[i]);
        if before {
            let i = choose|i: int| 0 <= i < prev.len() && in_morning(#[trigger] prev[i]);
            assert(times[i] == prev[i]);
        }
        if now && !in_morning(times.last()) {
            let i = choose|i: int| 0 <= i < times.len() && in_morning(#[trigger] times[i]);
            assert(prev[i] == times[i]);
        }
    }
}

/// The first time that one asks, a round is due, at any hour; and this is the only one that is ever
/// made before seven in the morning.
pub proof fn law_a_round_at_the_start(r: Rounds, times: Seq<int>)
    requires
        !r.started,
        times.len() > 0,
    ensures
        is_due(r, times[0]),
        early_rounds(r, times) == if in_morning(times[0]) {
            0nat
        } else {
            1nat
        },
        noted_after(r, times).started,
    decreases times.len(),
{
    if times.len() > 1 {
        let prev = times.drop_last();
        law_a_round_at_the_start(r, prev);
        assert(prev[0] == times[0]);
    } else {
        assert(times.drop_last() =~= Seq::<int>::empty());
        assert(times.last() == times[0]);
        assert(noted_after(r, times.drop_last()) == r);
        assert(early_rounds(r, times.drop_last()) == 0);
    }
}

proof fn lemma_decode_encoded(bytes: Seq<u8>)
    ensures
        utf8::is_ascii_chars(crate::engine::encode_bytes(bytes)),
        decode_bytes(utf8::encode_utf8(crate::engine::encode_bytes(bytes))) == bytes,
    decreases bytes.len(),
{
    let chars = crate::engine::encode_bytes(bytes);
    if bytes.len() == 0 {
        utf8::is_ascii_chars_encode_utf8(chars);
        assert(utf8::encode_utf8(chars).len() == 0);
        assert(decode_bytes(utf8::encode_utf8(chars)) =~= bytes);
    } else {
        let b = bytes[0];
        let rest = bytes.skip(1);
        lemma_decode_encoded(rest);
        let head = crate::engine::encode_byte(b);
        let tail = crate::engine::encode_bytes(rest);
        assert(chars == head + tail);
        let hi = b as int / 16;
        let lo = b as int % 16;
        assert(0 <= hi < 16 && 0 <= lo < 16 && b == hi * 16 + lo);
        assert forall|i: int| 0 <= i < chars.len() implies '\0' <= #[trigger] chars[i]
            <= '\u{7f}' by {
            if i < head.len() {
                assert(chars[i] == head[i]);
            } else {
                assert(chars[i] == tail[i - head.len()]);
            }
        }
        utf8::is_ascii_chars_encode_utf8(chars);
        utf8::is_ascii_chars_encode_utf8(tail);
        let e = utf8::encode_utf8(chars);
        let te = utf8::encode_utf8(tail);
        assert(e.len() == chars.len());
        assert forall|i: int| 0 <= i < te.len() implies #[trigger] te[i] == e[i + head.len()] by {
            assert(chars[i + head.len()] == tail[i]);
        }
        assert(e[0] == head[0] as u8) by {
            assert(chars[0] == head[0]);
        }
        assert(e.skip(head.len() as int) =~= te);
        if crate::engine::is_plain_byte(b) {
            assert(e[0] == b);
            assert(decode_bytes(e) == seq![b] + decode_bytes(te));
        } else if b == 0x20 {
            assert(decode_bytes(e) == seq![b] + decode_bytes(te));
        } else {
            assert(chars[1] == head[1] && chars[2] == head[2]);
            assert(e[1] == crate::engine::hex_upper(hi) as u8);
            assert(e[2] == crate::engine::hex_upper(lo) as u8);
            assert(hex_value(e[1]) == Some(hi as u8));
            assert(hex_value(e[2]) == Some(lo as u8));
            assert(hex_pair(e[1], e[2]) == Some(b));
            assert(decode_bytes(e) == seq![b] + decode_bytes(te));
        }
        assert(seq![b] + rest =~= bytes);
    }
}

/// Decoding undoes encoding: whatever text is put into a search URL, this is what is read from it.
pub proof fn law_decoding_undoes_encoding(s: Seq<char>)
    ensures
        utf8::valid_utf8(decode_bytes(utf8::encode_utf8(crate::engine::encoded(s)))),
        utf8::decode_utf8(decode_bytes(utf8::encode_utf8(crate::engine::encoded(s)))) == s,
        decodable(crate::engine::encoded(s)),
{
    lemma_decode_encoded(utf8::encode_utf8(s));
    utf8::encode_utf8_valid_utf8(s);
    utf8::encode_utf8_decode_utf8(s);
    let chars = crate::engine::encoded(s);
    utf8::is_ascii_chars_encode_utf8(chars);
    utf8::encode_utf8_valid_utf8(chars);
    let b = utf8::encode_utf8(chars);
    assert forall|i: int| 0 <= i && i + 2 < b.len() && #[trigger] b[i] == 0x25 implies
        utf8::is_char_boundary(b, i + 3) by {
        if i + 3 == b.len() {
            utf8::is_char_boundary_start_end_of_seq(b);
        } else {
            utf8::is_char_boundary_iff_not_is_continuation_byte(b, i + 3);
            assert('\0' <= chars[i + 3] <= '\u{7f}');
            assert(chars[i + 3] as u8 == b[i + 3]);
        }
    }
}

/// A call that comes too often is answered with the status 429 and with the seconds that the limiter
/// makes the client wait, whatever it asks for.
pub proof fn law_too_many_calls_are_told_to_wait(
    l: limit::LimiterView,
    client: Option<Seq<char>>,
    now: int,
    hl: Seq<char>,
    gl: Seq<char>,
)
    requires
        0 <= now <= u64::MAX - limit::JST_OFFSET,
        limit::call_answer(l, client, now) is Err,
    ensures
        admission(l, client, now, hl, gl) matches Some(reason) && refusal_for(reason).status == 429
            && refusal_for(reason).retry_after == Some(limit::call_answer(l, client, now)->Err_0),
{
    let wait = limit::call_answer(l, client, now)->Err_0;
    assert(0 <= wait <= 86_400);
}

/// The value of a parameter is all that stands behind its `=`, up to the next `&`; of several with the
/// name the first counts.
pub proof fn law_parameters_are_read_whole(
    names: Seq<Seq<char>>,
    values: Seq<Seq<char>>,
    parts: Seq<Seq<char>>,
    key: Seq<char>,
    i: int,
)
    requires
        parts.len() > 0,
        names.len() == parts.len(),
        values.len() == parts.len(),
        forall|k: int| 0 <= k < parts.len() ==> #[trigger] parts[k] == names[k] + seq!['='] + values[k],
        forall|k: int|
            0 <= k < parts.len() ==> !(#[trigger] names[k]).contains('=') && !names[k].contains('&')
                && !values[k].contains('&'),
        0 <= i <= parts.len(),
        forall|k: int| 0 <= k < i ==> (#[trigger] names[k]) != key,
        i < parts.len() ==> names[i] == key,
    ensures
        raw_param(text::join(parts, seq!['&']), key) == if i < parts.len() {
            Some(values[i])
        } else {
            None
        },
{
    assert forall|k: int| 0 <= k < parts.len() implies !(#[trigger] parts[k]).contains('&') by {
        if parts[k].contains('&') {
            let at = choose|at: int| 0 <= at < parts[k].len() && parts[k][at] == '&';
            let (n, v) = (names[k], values[k]);
            if at < n.len() {
                assert(n[at] == '&');
            } else if at > n.len() {
                assert(v[at - n.len() - 1] == '&');
            }
        }
    }
    text::law_joined_pieces_are_split_again(parts, '&');
    lemma_part_value(names, values, parts, key, i);
}

proof fn lemma_part_value(
    names: Seq<Seq<char>>,
    values: Seq<Seq<char>>,
    parts: Seq<Seq<char>>,
    key: Seq<char>,
    i: int,
)
    requires
        names.len() == parts.len(),
        values.len() == parts.len(),
        forall|k: int| 0 <= k < parts.len() ==> #[trigger] parts[k] == names[k] + seq!['='] + values[k],
        forall|k: int| 0 <= k < parts.len() ==> !(#[trigger] names[k]).contains('='),
        0 <= i <= parts.len(),
        forall|k: int| 0 <= k < i ==> (#[trigger] names[k]) != key,
        i < parts.len() ==> names[i] == key,
    ensures
        part_value(parts, key) == if i < parts.len() {
            Some(values[i])
        } else {
            None
        },
    decreases parts.len(),
{
    if parts.len() > 0 {
        let (n, v, p) = (names[0], values[0], parts[0]);
        assert forall|k: int| 0 <= k < n.len() implies p[k] != '=' by {
            assert(n.contains(n[k]));
            assert(p[k] == n[k]);
        }
        assert(p[n.len() as int] == '=');
        text::lemma_find_is(p, '=', n.len() as int);
        assert(p.take(n.len() as int) =~= n);
        assert(p.skip((n.len() + 1) as int) =~= v);
        assert(named(p) == Some((n, v)));
        if i > 0 {
            let (ns, vs, ps) = (names.skip(1), values.skip(1), parts.skip(1));
            assert forall|k: int| 0 <= k < ps.len() implies #[trigger] ps[k] == ns[k] + seq!['=']
                + vs[k] by {
                assert(parts[k + 1] == names[k + 1] + seq!['='] + values[k + 1]);
            }
            assert forall|k: int| 0 <= k < ps.len() implies !(#[trigger] ns[k]).contains('=') by {
                assert(ns[k] == names[k + 1]);
            }
            assert forall|k: int| 0 <= k < i - 1 implies (#[trigger] ns[k]) != key by {
                assert(ns[k] == names[k + 1]);
            }
            lemma_part_value(ns, vs, ps, key, i - 1);
            assert(names[0] != key);
        }
    }
}

/// A search that is asked for by a query is for what its parameters say, whole and decoded: `q`, `hl` and
/// `gl`, and `n` results where that is a number, else ten.
pub proof fn law_queries_are_taken_at_their_word(query: Seq<char>, n: u64)
    ensures
        ({
            let r = query_request(query);
            &&& raw_param(query, "q"@) matches Some(v) ==> r.q == decoded(v)
            &&& raw_param(query, "q"@) is None ==> r.q.len() == 0
            &&& raw_param(query, "hl"@) matches Some(v) ==> r.hl == decoded(v)
            &&& raw_param(query, "hl"@) is None ==> r.hl.len() == 0
            &&& raw_param(query, "gl"@) matches Some(v) ==> r.gl == decoded(v)
            &&& raw_param(query, "gl"@) is None ==> r.gl.len() == 0
            &&& raw_param(query, "n"@) is None ==> r.n == 10
            &&& n <= usize::MAX && raw_param(query, "n"@) is Some && decoded(
                raw_param(query, "n"@)->Some_0,
            ) == text::decimal(n as nat) ==> r.n == n
        }),
        forall|v: Seq<char>| #[trigger]
            decoded(v) == lossy_text(decode_bytes(utf8::encode_utf8(v))),
{
    text::law_numbers_are_read_back(n);
}

/// A search that is asked for by JSON is for what its fields say: `q`, or `query` where that says nothing;
/// `hl` and `gl`; and `max_results` or `n` results where that is a number, else ten.
pub proof fn law_bodies_are_taken_at_their_word(j: json::FieldsView, said: Seq<char>, n: u64)
    ensures
        ({
            let r = json_request(j);
            let text = |name: Seq<char>| json::field(j, name) == Some(json::JsonView::Text(said));
            &&& text("q"@) && said.len() > 0 ==> r.q == said
            &&& !(json::field(j, "q"@) matches Some(json::JsonView::Text(s)) && s.len() > 0) && text(
                "query"@,
            ) ==> r.q == said
            &&& text("hl"@) ==> r.hl == said
            &&& text("gl"@) ==> r.gl == said
            &&& !(json::field(j, "hl"@) matches Some(json::JsonView::Text(_))) ==> r.hl.len() == 0
            &&& !(json::field(j, "gl"@) matches Some(json::JsonView::Text(_))) ==> r.gl.len() == 0
            &&& n <= usize::MAX && json::field(j, "max_results"@) == Some(
                json::JsonView::Number(Some(n)),
            ) ==> r.n == n
            &&& n <= usize::MAX && json::field(j, "max_results"@) is None && json::field(j, "n"@)
                == Some(json::JsonView::Number(Some(n))) ==> r.n == n
            &&& json::field(j, "max_results"@) is None && json::field(j, "n"@) is None ==> r.n == 10
        }),
{
}

/// The value of a hexadecimal digit, in upper and in lower case.
pub open spec fn nibble(b: u8) -> int {
    if b <= 0x39 {
        b - 0x30
    } else if b <= 0x46 {
        b - 0x41 + 10
    } else {
        b - 0x61 + 10
    }
}

/// An encoded text is decoded byte by byte: a `+` is a blank, a `%` with two hexadecimal digits is the byte
/// that they write, and every other byte is itself.
pub proof fn law_bytes_are_decoded_one_by_one(b: u8, x: u8, y: u8, rest: Seq<u8>)
    ensures
        b != 0x2B && b != 0x25 ==> decode_bytes(seq![b] + rest) == seq![b] + decode_bytes(rest),
        decode_bytes(seq![0x2Bu8] + rest) == seq![0x20u8] + decode_bytes(rest),
        ((0x30 <= x <= 0x39) || (0x41 <= x <= 0x46) || (0x61 <= x <= 0x66)) && ((0x30 <= y <= 0x39)
            || (0x41 <= y <= 0x46) || (0x61 <= y <= 0x66)) ==> decode_bytes(
            seq![0x25u8, x, y] + rest,
        ) == seq![(nibble(x) * 16 + nibble(y)) as u8] + decode_bytes(rest),
        decode_bytes(Seq::empty()).len() == 0,
{
    assert((seq![b] + rest).skip(1) =~= rest);
    assert((seq![0x2Bu8] + rest).skip(1) =~= rest);
    assert((seq![0x25u8, x, y] + rest).skip(3) =~= rest);
}

/// Who may search: a call that the limiter allows, with a language of at most 12 and a region of at most 6
/// letters, digits and `-`.
pub proof fn law_admission(
    l: limit::LimiterView,
    client: Option<Seq<char>>,
    now: int,
    hl: Seq<char>,
    gl: Seq<char>,
)
    ensures
        admission(l, client, now, hl, gl) is None <==> {
            &&& limit::call_answer(l, client, now) is Ok
            &&& hl.len() <= 12 && gl.len() <= 6
            &&& forall|i: int|
                0 <= i < hl.len() ==> text::is_alphanumeric(#[trigger] hl[i]) || hl[i] == '-'
            &&& forall|i: int|
                0 <= i < gl.len() ==> text::is_alphanumeric(#[trigger] gl[i]) || gl[i] == '-'
        },
        limit::call_answer(l, client, now) is Ok && admission(l, client, now, hl, gl) is Some
            ==> refusal_for(admission(l, client, now, hl, gl)->Some_0).status == 400,
{
    if good_tag(hl, 12) {
        assert forall|i: int| 0 <= i < hl.len() implies text::is_alphanumeric(#[trigger] hl[i])
            || hl[i] == '-' by {
            assert(is_tag_char(hl[i]));
        }
    }
    if good_tag(gl, 6) {
        assert forall|i: int| 0 <= i < gl.len() implies text::is_alphanumeric(#[trigger] gl[i])
            || gl[i] == '-' by {
            assert(is_tag_char(gl[i]));
        }
    }
}

/// The administrator is who gives the whole token, and where there is none nobody is.
pub proof fn law_the_whole_token_counts(token: Seq<char>, given: Seq<char>)
    ensures
        is_admin(Some(token), given) <==> token == given && token.len() > 0,
        !is_admin(None, given),
{
}

/// The day and the hour are those of a clock nine hours ahead of UTC.
pub proof fn law_the_clock_is_that_of_japan(now: int)
    ensures
        limit::day_of(now) == (now + 9 * 3600) / 86_400,
        hour_of(now) == (now + 9 * 3600) % 86_400 / 3600,
        limit::minute_of(now) == now / 60,
        ROUND_HOUR == 7,
        in_morning(now) <==> (now + 9 * 3600) % 86_400 >= 7 * 3600,
{
}

/// A call is refused with the status of its reason: 429 with the seconds to wait, 400 for what is wrong in
/// it, 413 for what is too large, 403 for who is not the administrator.
pub proof fn law_reasons_have_their_status(wait: u64)
    ensures
        refusal_for(Reason::TooMany(wait)).status == 429,
        refusal_for(Reason::TooMany(wait)).retry_after == Some(wait as int),
        text::contains_text(
            refusal_for(Reason::TooMany(wait)).message,
            text::decimal(wait as nat),
        ),
        refusal_for(Reason::BadTags).status == 400,
        refusal_for(Reason::BadJson).status == 400,
        refusal_for(Reason::TooLarge).status == 413,
        refusal_for(Reason::NotAdmin).status == 403,
        BODY_LIMIT == 64 * 1024,
        DEFAULT_RESULTS == 10,
{
    text::law_occurring(
        "利用回数の上限に達しました。"@,
        text::decimal(wait as nat),
        "秒後にもう一度お試しください"@,
    );
}

/// Contracts speak of the whole of a request and of a refusal.
pub proof fn law_requests_are_seen_whole(q: SearchRequest, r: Refusal)
    ensures
        q@.q == q.q@ && q@.hl == q.hl@ && q@.gl == q.gl@ && q@.n == q.n,
        r@.status == r.status && r@.message == r.message@,
        r.retry_after is None <==> r@.retry_after is None,
        r.retry_after matches Some(n) ==> r@.retry_after == Some(n as int),
{
}

/// A text in which no `%` stands can be decoded.
pub proof fn law_plain_texts_can_be_decoded(s: Seq<char>)
    requires
        forall|i: int| 0 <= i < utf8::encode_utf8(s).len() ==> #[trigger] utf8::encode_utf8(s)[i] != 0x25,
    ensures
        decodable(s),
{
}

} // verus!
