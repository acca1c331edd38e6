//! The state of a running search service, and what it decides at each point of a search.
//!
//! The service asks several engines at once, is careful with each of them (a pause between two calls,
//! a rest after a refusal), remembers what came of each, and keeps results for a while. Calling the
//! engines is left to the program around it, which hands in what came back. Times are nanoseconds of a
//! clock that never runs backwards, except where they are said to be Unix seconds.

use vstd::hash_map::StringHashMap;
use vstd::prelude::*;
use vstd::utf8;

use crate::double::Double;
use crate::engine::{self, parse, EngineDef, EngineView, Hit, HitView};
use crate::json::{self, quote};
use crate::lang::{self, resolve, Lang};
use crate::search::{self, copy_merged, gather, merge, reorder, Found, Merged, MergedView, Page};
use crate::text::{
    self, append_chars, append_str, chars_of, decimal_of, joined, joined_strings, same, slice_of,
    string_of, trimmed, trimmed_end_text,
};
use crate::web;

verus! {

/// The least time between two calls of one engine.
pub const MIN_INTERVAL: u64 = 1_200_000_000;

/// For how long results are kept.
pub const CACHE_TTL: u64 = 3_600_000_000_000;

/// For how long an engine is left alone that has refused a call.
pub const COOLDOWN: u64 = 1_200_000_000_000;

/// How many searches are kept at most.
pub const CACHE_MAX: usize = 500;

/// How many bytes of a page are kept at most.
pub const SAMPLE_MAX: usize = 300_000;

/// How many pages are put into a new order by their meaning.
pub const RERANK_TOP: usize = 15;

/// How many pages there must be for that.
pub const RERANK_MIN: usize = 3;

pub const NANOS_PER_MINUTE: u64 = 60_000_000_000;

// ---------------------------------------------------------------------------
// What is known of an engine
// ---------------------------------------------------------------------------

/// What came of the last search with an engine.
#[derive(Clone, Debug, PartialEq, Eq)]
pub struct EngineStatus {
    pub last_ok: Option<bool>,
    pub last_hits: usize,
    pub last_error: Option<String>,
    /// Unix seconds.
    pub last_checked_unix: u64,
    pub consecutive_failures: u32,
    /// The last page that was fetched, for mending the engine.
    pub sample_html: String,
    /// What was searched for when it was fetched.
    pub sample_query: String,
}

pub struct StatusView {
    pub last_ok: Option<bool>,
    pub last_hits: nat,
    pub last_error: Option<Seq<char>>,
    pub last_checked_unix: u64,
    pub consecutive_failures: u32,
    pub sample_html: Seq<char>,
    pub sample_query: Seq<char>,
}

impl View for EngineStatus {
    type V = StatusView;

    open spec fn view(&self) -> StatusView {
        StatusView {
            last_ok: self.last_ok,
            last_hits: self.last_hits as nat,
            last_error: web::opt_text(self.last_error),
            last_checked_unix: self.last_checked_unix,
            consecutive_failures: self.consecutive_failures,
            sample_html: self.sample_html@,
            sample_query: self.sample_query@,
        }
    }
}

/// What is known of an engine that has not been asked yet.
pub open spec fn unknown_status() -> StatusView {
    StatusView {
        last_ok: None,
        last_hits: 0,
        last_error: None,
        last_checked_unix: 0,
        consecutive_failures: 0,
        sample_html: Seq::empty(),
        sample_query: Seq::empty(),
    }
}

impl Default for EngineStatus {
    fn default() -> (r: EngineStatus)
        ensures
            r@ == unknown_status(),
    {
        EngineStatus {
            last_ok: None,
            last_hits: 0,
            last_error: None,
            last_checked_unix: 0,
            consecutive_failures: 0,
            sample_html: String::new(),
            sample_query: String::new(),
        }
    }
}

// ---------------------------------------------------------------------------
// The state
// ---------------------------------------------------------------------------

/// Results that are kept, and since when.
pub struct Kept {
    pub since: u64,
    pub results: Vec<Merged>,
}

pub struct KeptView {
    pub since: u64,
    pub results: Seq<MergedView>,
}

impl View for Kept {
    type V = KeptView;

    open spec fn view(&self) -> KeptView {
        KeptView { since: self.since, results: search::merged_views(self.results@) }
    }
}

/// The state of a search service.
pub struct Searcher {
    engines: Vec<EngineDef>,
    status: StringHashMap<EngineStatus>,
    last_call: StringHashMap<u64>,
    cooldown: StringHashMap<u64>,
    rerank_base: Option<String>,
    cache: StringHashMap<Kept>,
}

pub struct SearcherView {
    pub engines: Seq<EngineView>,
    /// What came of the last search with each engine.
    pub status: Map<Seq<char>, StatusView>,
    /// When each engine was last called, or is going to be.
    pub last_call: Map<Seq<char>, u64>,
    /// Until when an engine is left alone.
    pub cooldown: Map<Seq<char>, u64>,
    /// The address of the server that compares meanings, if it is used.
    pub rerank_base: Option<Seq<char>>,
    pub cache: Map<Seq<char>, KeptView>,
}

pub open spec fn status_views(m: Map<Seq<char>, EngineStatus>) -> Map<Seq<char>, StatusView> {
    m.map_values(|s: EngineStatus| s@)
}

pub open spec fn kept_views(m: Map<Seq<char>, Kept>) -> Map<Seq<char>, KeptView> {
    m.map_values(|k: Kept| k@)
}

impl View for Searcher {
    type V = SearcherView;

    closed spec fn view(&self) -> SearcherView {
        SearcherView {
            engines: engine::engine_views(self.engines@),
            status: status_views(self.status@),
            last_call: self.last_call@,
            cooldown: self.cooldown@,
            rerank_base: web::opt_text(self.rerank_base),
            cache: kept_views(self.cache@),
        }
    }
}

impl SearcherView {
    /// What holds of every state: the results of a bounded number of searches are kept.
    pub open spec fn wf(self) -> bool {
        self.cache.dom().finite() && self.cache.len() <= CACHE_MAX
    }
}

/// What is known of an engine.
pub open spec fn status_of(s: SearcherView, id: Seq<char>) -> StatusView {
    if s.status.contains_key(id) {
        s.status[id]
    } else {
        unknown_status()
    }
}

proof fn lemma_status_insert(m: Map<Seq<char>, EngineStatus>, k: Seq<char>, v: EngineStatus)
    ensures
        status_views(m.insert(k, v)) == status_views(m).insert(k, v@),
{
    assert(status_views(m.insert(k, v)) =~= status_views(m).insert(k, v@));
}

proof fn lemma_kept_insert(m: Map<Seq<char>, Kept>, k: Seq<char>, v: Kept)
    ensures
        kept_views(m.insert(k, v)) == kept_views(m).insert(k, v@),
        kept_views(m).dom() == m.dom(),
        kept_views(Map::empty()) == Map::<Seq<char>, KeptView>::empty(),
{
    assert(kept_views(m.insert(k, v)) =~= kept_views(m).insert(k, v@));
    assert(kept_views(m).dom() =~= m.dom());
    assert(kept_views(Map::empty()) =~= Map::<Seq<char>, KeptView>::empty());
}

impl Searcher {
    /// A service that has not been used yet.
    pub fn new(engines: Vec<EngineDef>) -> (r: Searcher)
        ensures
            r@ == (SearcherView {
                engines: engine::engine_views(engines@),
                status: Map::empty(),
                last_call: Map::empty(),
                cooldown: Map::empty(),
                rerank_base: None,
                cache: Map::empty(),
            }),
            r@.wf(),
    {
        let r = Searcher {
            engines,
            status: StringHashMap::new(),
            last_call: StringHashMap::new(),
            cooldown: StringHashMap::new(),
            rerank_base: None,
            cache: StringHashMap::new(),
        };
        assert(r@.status =~= Map::empty());
        assert(r@.cache =~= Map::empty());
        r
    }

    /// Sets the address of the server that compares meanings; `None` for not using one.
    pub fn set_rerank(&mut self, base: Option<String>)
        ensures
            final(self)@ == (SearcherView { rerank_base: web::opt_text(base), ..old(self)@ }),
    {
        self.rerank_base = base;
    }

    /// The definition with that id.
    pub fn engine(&self, id: &str) -> (r: Option<EngineDef>)
        ensures
            match r {
                Some(e) => engine::engine_place(self@.engines, id@) < self@.engines.len() && e@
                    == self@.engines[engine::engine_place(self@.engines, id@)],
                None => engine::engine_place(self@.engines, id@) >= self@.engines.len(),
            },
    {
        let i: usize = engine::find_engine(&self.engines, id);
        if i < self.engines.len() {
            Some(self.engines[i].copy())
        } else {
            None
        }
    }

    /// The definitions of all engines.
    pub fn all_engines(&self) -> (r: Vec<EngineDef>)
        ensures
            engine::engine_views(r@) == self@.engines,
    {
        let mut out: Vec<EngineDef> = Vec::new();
        for i in 0..self.engines.len()
            invariant
                out@.len() == i,
                forall|k: int| 0 <= k < i ==> (#[trigger] out@[k])@ == self.engines@[k]@,
        {
            out.push(self.engines[i].copy());
        }
        assert(engine::engine_views(out@) =~= self@.engines);
        out
    }

    /// Puts a definition in the place of the one with that id.
    pub fn replace_engine(&mut self, id: &str, made: &EngineDef)
        ensures
            final(self)@ == (SearcherView {
                engines: crate::maintain::adopted(old(self)@.engines, id@, made@),
                ..old(self)@
            }),
    {
        crate::maintain::adopt(&mut self.engines, id, made);
    }

    /// What is known of an engine; `None` where it has not been asked yet.
    pub fn status(&self, id: &str) -> (r: Option<&EngineStatus>)
        ensures
            match r {
                Some(s) => self@.status.contains_key(id@) && s@ == self@.status[id@],
                None => !self@.status.contains_key(id@),
            },
    {
        self.status.get(id)
    }
}

// ---------------------------------------------------------------------------
// Calling an engine
// ---------------------------------------------------------------------------

/// When an engine that is to be called at a time is called: at once, or as long after the last call as
/// there has to be between two.
pub open spec fn call_time(s: SearcherView, id: Seq<char>, now: int) -> int {
    if s.last_call.contains_key(id) && s.last_call[id] + MIN_INTERVAL > now {
        s.last_call[id] + MIN_INTERVAL
    } else {
        now
    }
}

/// The state after an engine was asked for at a time, and its call was reckoned.
pub open spec fn call_noted(s: SearcherView, id: Seq<char>, now: int) -> SearcherView {
    SearcherView { last_call: s.last_call.insert(id, call_time(s, id, now) as u64), ..s }
}

/// Whether the time of the next call of an engine can be reckoned.
pub open spec fn clock_in_range(s: SearcherView, id: Seq<char>) -> bool {
    s.last_call.contains_key(id) ==> s.last_call[id] <= u64::MAX - MIN_INTERVAL
}

/// Whether an engine is left alone.
pub open spec fn resting(s: SearcherView, id: Seq<char>, now: int) -> bool {
    s.cooldown.contains_key(id) && s.cooldown[id] > now
}

/// For how many minutes an engine is still left alone, rounded up.
pub open spec fn rest_minutes(s: SearcherView, id: Seq<char>, now: int) -> int {
    (s.cooldown[id] - now) / NANOS_PER_MINUTE as int + 1
}

pub open spec fn rest_text(minutes: nat) -> Seq<char> {
    "休止中(直前に拒否されたため、"@ + text::decimal(minutes) + "分ほど間を空けます)"@
}

/// The statuses with which an engine says that it is asked too much, or by a machine.
pub open spec fn is_refusal(status: u16) -> bool {
    status == 202 || status == 403 || status == 429 || status == 503
}

/// The statuses that come with a page of results.
pub open spec fn is_success(status: u16) -> bool {
    200 <= status <= 299 && status != 202
}

pub open spec fn refusal_text(status: u16) -> Seq<char> {
    "拒否されました(HTTP "@ + text::decimal(status as nat)
        + "。混み合い・機械利用の制限の可能性)"@
}

/// The state after an engine has answered with a status.
pub open spec fn answered(s: SearcherView, id: Seq<char>, status: u16, now: int) -> SearcherView {
    if !is_success(status) && is_refusal(status) {
        SearcherView { cooldown: s.cooldown.insert(id, (now + COOLDOWN) as u64), ..s }
    } else {
        s
    }
}

/// The language that an engine is asked to answer in.
pub fn accept_language(hl: &str) -> (r: &str)
    ensures
        r@ == (if hl@.len() == 0 {
            "en"@
        } else {
            hl@
        }),
{
    if hl.is_empty() {
        "en"
    } else {
        hl
    }
}

impl Searcher {
    /// Whether the time of the next call of an engine can be reckoned.
    pub fn can_reckon(&self, id: &str) -> (r: bool)
        ensures
            r == clock_in_range(self@, id@),
    {
        match self.last_call.get(id) {
            Some(t) => *t <= u64::MAX - MIN_INTERVAL,
            None => true,
        }
    }

    /// How long a call of an engine has to wait, so that two calls of one engine are far enough apart;
    /// its time is taken note of.
    pub fn polite_wait(&mut self, id: &str, now: u64) -> (r: u64)
        requires
            clock_in_range(old(self)@, id@),
        ensures
            r == call_time(old(self)@, id@, now as int) - now,
            final(self)@ == call_noted(old(self)@, id@, now as int),
    {
        let next: u64 = match self.last_call.get(id) {
            Some(t) => if *t + MIN_INTERVAL > now {
                *t + MIN_INTERVAL
            } else {
                now
            },
            None => now,
        };
        self.last_call.insert(id.to_string(), next);
        next - now
    }

    /// What has to be done before an engine is called: wait for so long; or, as the error says, not
    /// call it at all.
    pub fn before_call(&mut self, id: &str, now: u64) -> (r: Result<u64, String>)
        requires
            clock_in_range(old(self)@, id@),
        ensures
            match r {
                Ok(wait) => {
                    &&& !resting(old(self)@, id@, now as int)
                    &&& wait == call_time(old(self)@, id@, now as int) - now
                    &&& final(self)@ == call_noted(old(self)@, id@, now as int)
                },
                Err(e) => {
                    &&& resting(old(self)@, id@, now as int)
                    &&& e@ == rest_text(rest_minutes(old(self)@, id@, now as int) as nat)
                    &&& final(self)@ == old(self)@
                },
            },
    {
        let until: u64 = match self.cooldown.get(id) {
            Some(t) => *t,
            None => 0,
        };
        if until > now {
            let minutes: u64 = (until - now) / NANOS_PER_MINUTE + 1;
            let mut out = chars_of("休止中(直前に拒否されたため、");
            append_chars(&mut out, &decimal_of(minutes));
            append_str(&mut out, "分ほど間を空けます)");
            return Err(string_of(&out));
        }
        Ok(self.polite_wait(id, now))
    }

    /// Takes in the status with which an engine answered at a time: whether a page of results comes with
    /// it.
    pub fn after_call(&mut self, id: &str, status: u16, now: u64) -> (r: Result<(), String>)
        requires
            now <= u64::MAX - COOLDOWN,
        ensures
            r is Ok <==> is_success(status),
            r matches Err(e) ==> e@ == refusal_text(status),
            final(self)@ == answered(old(self)@, id@, status, now as int),
    {
        if 200 <= status && status <= 299 && status != 202 {
            return Ok(());
        }
        if status == 202 || status == 403 || status == 429 || status == 503 {
            self.cooldown.insert(id.to_string(), now + COOLDOWN);
        }
        let mut out = chars_of("拒否されました(HTTP ");
        append_chars(&mut out, &decimal_of(status as u64));
        append_str(&mut out, "。混み合い・機械利用の制限の可能性)");
        Err(string_of(&out))
    }
}

// ---------------------------------------------------------------------------
// The page that comes back
// ---------------------------------------------------------------------------

/// How many bytes a character takes.
pub open spec fn char_width(c: char) -> int {
    utf8::encode_scalar(c as u32).len() as int
}

/// How many characters of a text fit into so many bytes.
pub open spec fn fitting(s: Seq<char>, bytes: int) -> int
    decreases s.len(),
{
    if s.len() > 0 && char_width(s[0]) <= bytes {
        1 + fitting(s.skip(1), bytes - char_width(s[0]))
    } else {
        0
    }
}

/// The start of a page that is kept: as many characters as fit into the bytes there are for it.
pub open spec fn sample_of(html: Seq<char>) -> Seq<char> {
    html.take(fitting(html, SAMPLE_MAX as int))
}

fn width_of(c: char) -> (r: usize)
    ensures
        r == char_width(c),
        1 <= r <= 4,
{
    let u: u32 = c as u32;
    proof {
        utf8::char_is_scalar(c);
    }
    if u <= 0x7F {
        1
    } else if u <= 0x7FF {
        2
    } else if u <= 0xFFFF {
        3
    } else {
        4
    }
}

proof fn lemma_fitting(s: Seq<char>, bytes: int)
    requires
        bytes >= 0,
    ensures
        0 <= fitting(s, bytes) <= s.len(),
        utf8::encode_utf8(s.take(fitting(s, bytes))).len() <= bytes,
        fitting(s, bytes) < s.len() ==> utf8::encode_utf8(s.take(fitting(s, bytes) + 1)).len()
            > bytes,
    decreases s.len(),
{
    let n = fitting(s, bytes);
    if s.len() > 0 && char_width(s[0]) <= bytes {
        let rest = s.skip(1);
        let left = bytes - char_width(s[0]);
        lemma_fitting(rest, left);
        assert(s.take(n).drop_first() =~= rest.take(n - 1));
        assert(s.take(n)[0] == s[0]);
        if n < s.len() {
            assert(s.take(n + 1).drop_first() =~= rest.take(n));
            assert(s.take(n + 1)[0] == s[0]);
        }
    } else {
        assert(s.take(0) =~= Seq::empty());
        if s.len() > 0 {
            assert(s.take(1)[0] == s[0]);
            assert(s.take(1).drop_first() =~= Seq::empty());
        }
    }
}

/// The start of a page that is kept.
pub fn sample(html: &str) -> (r: String)
    ensures
        r@ == sample_of(html@),
        utf8::encode_utf8(r@).len() <= SAMPLE_MAX,
        web::page_fits(r@),
{
    let chars = chars_of(html);
    let mut n: usize = 0;
    let mut left: usize = SAMPLE_MAX;
    assert(chars@.skip(0) == chars@);
    let mut full: bool = false;
    while n < chars.len() && !full
        invariant
            n <= chars@.len(),
            left <= SAMPLE_MAX,
            !full ==> fitting(chars@, SAMPLE_MAX as int) == n + fitting(
                chars@.skip(n as int),
                left as int,
            ),
            full ==> fitting(chars@, SAMPLE_MAX as int) == n,
        decreases
                chars@.len() - n,
                if full {
                    0int
                } else {
                    1
                },
    {
        let ghost rest = chars@.skip(n as int);
        assert(rest[0] == chars@[n as int]);
        assert(rest.skip(1) == chars@.skip(n + 1));
        let w: usize = width_of(chars[n]);
        if w <= left {
            left -= w;
            n += 1;
        } else {
            full = true;
        }
    }
    assert(!full ==> chars@.skip(n as int).len() == 0);
    proof {
        lemma_fitting(html@, SAMPLE_MAX as int);
    }
    let r = slice_of(&chars, 0, n);
    assert(r@ =~= sample_of(html@));
    string_of(&r)
}

// ---------------------------------------------------------------------------
// What came of it
// ---------------------------------------------------------------------------

/// What is wrong with a page from which nothing was read.
pub const NOTHING_READ: &'static str = "結果を1件も読み取れませんでした(ページの作りが変わった可能性)";

/// What went wrong with a search: the page could not be fetched, or nothing was read from it.
pub open spec fn search_error(page: Result<Seq<char>, Seq<char>>, hits: Seq<HitView>) -> Option<
    Seq<char>,
> {
    match page {
        Err(e) => Some(e),
        Ok(_) => if hits.len() == 0 {
            Some(NOTHING_READ@)
        } else {
            None
        },
    }
}

/// What is known of an engine after a search with it.
pub open spec fn status_after(
    st: StatusView,
    q: Seq<char>,
    page: Result<Seq<char>, Seq<char>>,
    hits: Seq<HitView>,
    now_unix: u64,
) -> StatusView {
    let err = search_error(page, hits);
    StatusView {
        last_ok: Some(err is None),
        last_hits: if page is Ok {
            hits.len()
        } else {
            0
        },
        last_error: err,
        last_checked_unix: now_unix,
        consecutive_failures: if err is None {
            0
        } else {
            (st.consecutive_failures + 1) as u32
        },
        sample_html: match page {
            Ok(html) => html,
            Err(_) => st.sample_html,
        },
        sample_query: if page is Ok {
            q
        } else {
            st.sample_query
        },
    }
}

/// The state after a search with an engine.
pub open spec fn recorded(
    s: SearcherView,
    id: Seq<char>,
    q: Seq<char>,
    page: Result<Seq<char>, Seq<char>>,
    hits: Seq<HitView>,
    now_unix: u64,
) -> SearcherView {
    SearcherView {
        status: s.status.insert(id, status_after(status_of(s, id), q, page, hits, now_unix)),
        ..s
    }
}

/// What a search with an engine gives: the results, or the error with the name of the engine.
pub open spec fn search_outcome(
    name: Seq<char>,
    page: Result<Seq<char>, Seq<char>>,
    hits: Seq<HitView>,
) -> Result<Seq<HitView>, Seq<char>> {
    match search_error(page, hits) {
        None => Ok(hits),
        Some(e) => Err(name + ": "@ + e),
    }
}

pub open spec fn page_view(page: Result<String, String>) -> Result<Seq<char>, Seq<char>> {
    match page {
        Ok(s) => Ok(s@),
        Err(e) => Err(e@),
    }
}

pub open spec fn hits_view(r: Result<Vec<Hit>, String>) -> Result<Seq<HitView>, Seq<char>> {
    match r {
        Ok(v) => Ok(engine::hit_views(v@)),
        Err(e) => Err(e@),
    }
}

/// The results that a definition reads from a page, if there is one.
pub open spec fn hits_of(def: EngineView, page: Result<Seq<char>, Seq<char>>) -> Seq<HitView> {
    match page {
        Ok(html) => engine::page_hits(def, html),
        Err(_) => Seq::empty(),
    }
}

impl Searcher {
    /// Takes in what came of a search with an engine: the page, and the results that were read from it.
    pub fn record(
        &mut self,
        def: &EngineDef,
        q: &str,
        page: Result<String, String>,
        hits: Vec<Hit>,
        now_unix: u64,
    ) -> (r: Result<Vec<Hit>, String>)
        requires
            status_of(old(self)@, def@.id).consecutive_failures < u32::MAX,
        ensures
            final(self)@ == recorded(
                old(self)@,
                def@.id,
                q@,
                page_view(page),
                engine::hit_views(hits@),
                now_unix,
            ),
            hits_view(r) == search_outcome(
                def@.name,
                page_view(page),
                engine::hit_views(hits@),
            ),
    {
        let (failures, old_html, old_query): (u32, String, String) = match self.status.get(
            def.id.as_str(),
        ) {
            Some(s) => (s.consecutive_failures, s.sample_html.clone(), s.sample_query.clone()),
            None => (0, String::new(), String::new()),
        };
        let n: usize = hits.len();
        assert(engine::hit_views(hits@).len() == n);
        let (err, count, html, query): (Option<String>, usize, String, String) = match page {
            Err(e) => (Some(e), 0, old_html, old_query),
            Ok(html) => (
                if n == 0 {
                    Some(NOTHING_READ.to_string())
                } else {
                    None
                },
                n,
                html,
                q.to_string(),
            ),
        };
        let message: Option<String> = match &err {
            Some(e) => {
                let s = def.name.clone();
                Some(s.concat(": ").concat(e.as_str()))
            },
            None => None,
        };
        let status = EngineStatus {
            last_ok: Some(err.is_none()),
            last_hits: count,
            last_checked_unix: now_unix,
            consecutive_failures: if err.is_none() {
                0
            } else {
                failures + 1
            },
            last_error: err,
            sample_html: html,
            sample_query: query,
        };
        proof {
            lemma_status_insert(self.status@, def.id@, status);
        }
        self.status.insert(def.id.clone(), status);
        match message {
            None => Ok(hits),
            Some(m) => Err(m),
        }
    }

    /// Reads the page that came back from an engine, and takes in what came of it.
    pub fn take_page(
        &mut self,
        def: &EngineDef,
        q: &str,
        page: Result<String, String>,
        now_unix: u64,
    ) -> (r: Result<Vec<Hit>, String>)
        requires
            page matches Ok(html) ==> engine::can_read(def@, html@),
            status_of(old(self)@, def@.id).consecutive_failures < u32::MAX,
        ensures
            final(self)@ == recorded(
                old(self)@,
                def@.id,
                q@,
                page_view(page),
                hits_of(def@, page_view(page)),
                now_unix,
            ),
            hits_view(r) == search_outcome(
                def@.name,
                page_view(page),
                hits_of(def@, page_view(page)),
            ),
    {
        let hits: Vec<Hit> = match &page {
            Ok(html) => parse(def, html.as_str()),
            Err(_) => Vec::new(),
        };
        assert(engine::hit_views(hits@) =~= hits_of(def@, page_view(page)));
        self.record(def, q, page, hits, now_unix)
    }

    /// Reads the page that came back from an engine, and takes in what came of it, unless the page is
    /// one that the engine's selectors cannot be tried on.
    pub fn try_page(
        &mut self,
        def: &EngineDef,
        q: &str,
        page: Result<String, String>,
        now_unix: u64,
    ) -> (r: Option<Result<Vec<Hit>, String>>)
        requires
            status_of(old(self)@, def@.id).consecutive_failures < u32::MAX,
        ensures
            r is Some <==> (page matches Ok(html) ==> engine::can_read(def@, html@)),
            r matches Some(x) ==> hits_view(x) == search_outcome(
                def@.name,
                page_view(page),
                hits_of(def@, page_view(page)),
            ),
            final(self)@ == if r is Some {
                recorded(
                    old(self)@,
                    def@.id,
                    q@,
                    page_view(page),
                    hits_of(def@, page_view(page)),
                    now_unix,
                )
            } else {
                old(self)@
            },
    {
        let fits: bool = match &page {
            Ok(html) => def.can_read_page(html.as_str()),
            Err(_) => true,
        };
        if fits {
            Some(self.take_page(def, q, page, now_unix))
        } else {
            None
        }
    }
}

// ---------------------------------------------------------------------------
// A search
// ---------------------------------------------------------------------------

/// A search that is under way.
pub struct Search {
    pub q: String,
    pub lang: Lang,
    /// How many results are given.
    pub n: usize,
    /// Under which its results are kept.
    pub key: String,
    /// The engines that are asked.
    pub engines: Vec<EngineDef>,
}

pub struct SearchView {
    pub q: Seq<char>,
    pub lang: lang::LangView,
    pub n: usize,
    pub key: Seq<char>,
    pub engines: Seq<EngineView>,
}

impl View for Search {
    type V = SearchView;

    open spec fn view(&self) -> SearchView {
        SearchView {
            q: self.q@,
            lang: self.lang@,
            n: self.n,
            key: self.key@,
            engines: engine::engine_views(self.engines@),
        }
    }
}

/// How a search begins.
pub enum Start {
    /// Not at all, for the reason given.
    Refused(String),
    /// With results that are kept from an earlier one.
    Kept(Vec<Merged>),
    /// By asking engines.
    Ask(Search),
}

pub enum StartView {
    Refused(Seq<char>),
    Kept(Seq<MergedView>),
    Ask(SearchView),
}

impl View for Start {
    type V = StartView;

    open spec fn view(&self) -> StartView {
        match *self {
            Start::Refused(e) => StartView::Refused(e@),
            Start::Kept(v) => StartView::Kept(search::merged_views(v@)),
            Start::Ask(s) => StartView::Ask(s@),
        }
    }
}

/// How many results are given where so many are asked for: from 1 to 30.
pub open spec fn results_given(n: usize) -> usize {
    if n < 1 {
        1
    } else if n > 30 {
        30
    } else {
        n
    }
}

/// Under which the results of a search are kept.
pub open spec fn search_key(q: Seq<char>, hl: Seq<char>, gl: Seq<char>, n: usize) -> Seq<char> {
    q + "\u{1}"@ + hl + "\u{1}"@ + gl + "\u{1}"@ + text::decimal(n as nat)
}

/// The results that are kept under a key, if they are not too old.
pub open spec fn kept_results(cache: Map<Seq<char>, KeptView>, key: Seq<char>, now: int) -> Option<
    Seq<MergedView>,
> {
    if cache.contains_key(key) && now - cache[key].since < CACHE_TTL {
        Some(cache[key].results)
    } else {
        None
    }
}

/// Whether an engine is asked in a search for a language.
pub open spec fn is_asked(e: EngineView, code: Seq<char>) -> bool {
    e.enabled && (!e.only_langs || engine::lists_language(e.langs, code))
}

/// The engines that are asked in a search for a language, in their order.
pub open spec fn engines_asked(v: Seq<EngineView>, code: Seq<char>) -> Seq<EngineView>
    decreases v.len(),
{
    if v.len() == 0 {
        Seq::empty()
    } else if is_asked(v.last(), code) {
        engines_asked(v.drop_last(), code).push(v.last())
    } else {
        engines_asked(v.drop_last(), code)
    }
}

/// How a search begins: what is searched for must have 1 to 300 characters, and there must be an
/// engine to ask, unless there are results from less than an hour ago.
pub open spec fn search_start(
    s: SearcherView,
    q: Seq<char>,
    hl: Seq<char>,
    gl: Seq<char>,
    n: usize,
    now: int,
) -> StartView {
    let lang = lang::resolved(hl, gl);
    let query = text::trim(q);
    let count = results_given(n);
    let key = search_key(query, lang.hl, lang.gl, count);
    let engines = engines_asked(s.engines, lang.code);
    if query.len() == 0 || query.len() > 300 {
        StartView::Refused("検索語は1〜300文字にしてください"@)
    } else if kept_results(s.cache, key, now) is Some {
        StartView::Kept(kept_results(s.cache, key, now)->Some_0)
    } else if engines.len() == 0 {
        StartView::Refused("有効な検索元がありません"@)
    } else {
        StartView::Ask(SearchView { q: query, lang, n: count, key, engines })
    }
}

fn key_for(q: &Vec<char>, hl: &str, gl: &str, n: usize) -> (r: String)
    ensures
        r@ == search_key(q@, hl@, gl@, n),
{
    let mut out: Vec<char> = Vec::new();
    append_chars(&mut out, q);
    append_str(&mut out, "\u{1}");
    append_str(&mut out, hl);
    append_str(&mut out, "\u{1}");
    append_str(&mut out, gl);
    append_str(&mut out, "\u{1}");
    append_chars(&mut out, &decimal_of(n as u64));
    assert(Seq::<char>::empty() + q@ =~= q@);
    string_of(&out)
}

fn clamp_results(n: usize) -> (r: usize)
    ensures
        r == results_given(n),
        1 <= r <= 30,
{
    if n < 1 {
        1
    } else if n > 30 {
        30
    } else {
        n
    }
}

impl Searcher {
    fn engines_for(&self, code: &str) -> (r: Vec<EngineDef>)
        ensures
            engine::engine_views(r@) == engines_asked(self@.engines, code@),
    {
        let mut out: Vec<EngineDef> = Vec::new();
        let ghost all = self@.engines;
        assert(engine::engine_views(out@) =~= engines_asked(all.take(0), code@));
        for i in 0..self.engines.len()
            invariant
                all == engine::engine_views(self.engines@),
                engine::engine_views(out@) == engines_asked(all.take(i as int), code@),
        {
            let e: &EngineDef = &self.engines[i];
            assert(all.take(i + 1).drop_last() == all.take(i as int));
            assert(all.take(i + 1).last() == e@);
            if e.enabled && e.serves(code) {
                let ghost prev = out@;
                let copy = e.copy();
                out.push(copy);
                assert(engine::engine_views(out@) =~= engine::engine_views(prev).push(e@));
            }
        }
        assert(all.take(self.engines@.len() as int) == all);
        out
    }

    /// How a search begins.
    pub fn begin(&self, q: &str, hl: &str, gl: &str, n: usize, now: u64) -> (r: Start)
        ensures
            r@ == search_start(self@, q@, hl@, gl@, n, now as int),
    {
        let lang = resolve(hl, gl);
        let query = trimmed(&chars_of(q));
        if query.len() == 0 || query.len() > 300 {
            return Start::Refused("検索語は1〜300文字にしてください".to_string());
        }
        let count: usize = clamp_results(n);
        let key = key_for(&query, lang.hl.as_str(), lang.gl.as_str(), count);
        if let Some(kept) = self.cache.get(key.as_str()) {
            assert(self@.cache[key@] == kept@);
            if now < kept.since || now - kept.since < CACHE_TTL {
                let results = copy_merged(&kept.results, kept.results.len());
                assert(search::merged_views(kept.results@).len() == kept.results@.len());
                return Start::Kept(results);
            }
        }
        let engines = self.engines_for(lang.code);
        if engines.len() == 0 {
            assert(engine::engine_views(engines@).len() == 0);
            return Start::Refused("有効な検索元がありません".to_string());
        }
        assert(engine::engine_views(engines@).len() > 0);
        Start::Ask(Search { q: string_of(&query), lang, n: count, key, engines })
    }
}

/// What an engine answered in a search: its results, or an error in words.
pub struct Reply {
    pub def: EngineDef,
    pub hits: Result<Vec<Hit>, String>,
}

pub struct ReplyView {
    pub def: EngineView,
    pub hits: Result<Seq<HitView>, Seq<char>>,
}

impl View for Reply {
    type V = ReplyView;

    open spec fn view(&self) -> ReplyView {
        ReplyView { def: self.def@, hits: hits_view(self.hits) }
    }
}

pub open spec fn reply_views(v: Seq<Reply>) -> Seq<ReplyView> {
    v.map_values(|x: Reply| x@)
}

/// The results among the answers, in their order.
pub open spec fn results_in(v: Seq<ReplyView>) -> Seq<search::FoundView>
    decreases v.len(),
{
    if v.len() == 0 {
        Seq::empty()
    } else {
        match v.last().hits {
            Ok(h) => results_in(v.drop_last()).push((v.last().def, h)),
            Err(_) => results_in(v.drop_last()),
        }
    }
}

/// The errors among the answers, in their order.
pub open spec fn errors_in(v: Seq<ReplyView>) -> Seq<Seq<char>>
    decreases v.len(),
{
    if v.len() == 0 {
        Seq::empty()
    } else {
        match v.last().hits {
            Ok(_) => errors_in(v.drop_last()),
            Err(e) => errors_in(v.drop_last()).push(e),
        }
    }
}

/// What is said where no engine gave results.
pub open spec fn no_results_text(errors: Seq<Seq<char>>) -> Seq<char> {
    "どの検索元からも結果を得られませんでした: "@ + text::join(errors, " / "@)
}

fn copy_hits(v: &Vec<Hit>) -> (r: Vec<Hit>)
    ensures
        engine::hit_views(r@) == engine::hit_views(v@),
{
    let mut out: Vec<Hit> = Vec::new();
    for i in 0..v.len()
        invariant
            out@.len() == i,
            forall|k: int| 0 <= k < i ==> (#[trigger] out@[k])@ == v@[k]@,
    {
        let h: &Hit = &v[i];
        out.push(
            Hit { title: h.title.clone(), link: h.link.clone(), snippet: h.snippet.clone() },
        );
    }
    assert(engine::hit_views(out@) =~= engine::hit_views(v@));
    out
}

/// The results of the engines that gave some, and the errors of those that did not, as warnings. It is
/// an error only where none gave results.
pub fn collect_replies(replies: &Vec<Reply>) -> (r: Result<(Vec<Found>, Vec<String>), String>)
    ensures
        match r {
            Ok(x) => {
                &&& results_in(reply_views(replies@)).len() > 0
                &&& search::found_views(x.0@) == results_in(reply_views(replies@))
                &&& text::texts(x.1@) == errors_in(reply_views(replies@))
            },
            Err(e) => {
                &&& results_in(reply_views(replies@)).len() == 0
                &&& e@ == no_results_text(errors_in(reply_views(replies@)))
            },
        },
{
    let mut found: Vec<Found> = Vec::new();
    let mut warnings: Vec<String> = Vec::new();
    let ghost all = reply_views(replies@);
    assert(search::found_views(found@) =~= results_in(all.take(0)));
    assert(text::texts(warnings@) =~= errors_in(all.take(0)));
    for i in 0..replies.len()
        invariant
            all == reply_views(replies@),
            search::found_views(found@) == results_in(all.take(i as int)),
            text::texts(warnings@) == errors_in(all.take(i as int)),
    {
        let x: &Reply = &replies[i];
        assert(all.take(i + 1).drop_last() == all.take(i as int));
        assert(all.take(i + 1).last() == x@);
        match &x.hits {
            Ok(h) => {
                let ghost prev = found@;
                let f = Found { def: x.def.copy(), hits: copy_hits(h) };
                found.push(f);
                assert(search::found_views(found@) =~= search::found_views(prev).push(f@));
            },
            Err(e) => {
                let ghost prev = warnings@;
                warnings.push(e.clone());
                assert(text::texts(warnings@) =~= text::texts(prev).push(e@));
            },
        }
    }
    assert(all.take(replies@.len() as int) == all);
    assert(search::found_views(found@).len() == found@.len());
    if found.len() == 0 {
        let s = "どの検索元からも結果を得られませんでした: ".to_string();
        return Err(s.concat(joined_strings(&warnings, " / ").as_str()));
    }
    Ok((found, warnings))
}

/// How many pages are merged in a search: enough for the order by meaning.
pub fn merge_count(n: usize) -> (r: usize)
    ensures
        r == (if n < RERANK_TOP {
            RERANK_TOP
        } else {
            n
        }),
{
    if n < RERANK_TOP {
        RERANK_TOP
    } else {
        n
    }
}

impl Search {
    /// The pages that the engines gave, with the votes for each, and a warning for each engine that
    /// gave none. It is an error only where none gave results.
    pub fn pages(&self, replies: &Vec<Reply>) -> (r: Result<(Vec<Page>, Vec<String>), String>)
        ensures
            match r {
                Ok(x) => {
                    &&& results_in(reply_views(replies@)).len() > 0
                    &&& search::page_views(x.0@) == search::pages_for(
                        results_in(reply_views(replies@)),
                        self@.lang,
                    )
                    &&& text::texts(x.1@) == errors_in(reply_views(replies@))
                },
                Err(e) => {
                    &&& results_in(reply_views(replies@)).len() == 0
                    &&& e@ == no_results_text(errors_in(reply_views(replies@)))
                },
            },
    {
        match collect_replies(replies) {
            Ok(x) => {
                let (found, warnings): (Vec<Found>, Vec<String>) = x;
                Ok((gather(&found, &self.lang), warnings))
            },
            Err(e) => Err(e),
        }
    }

    /// The pages in the order in which they are shown, those in the script of the language first: as
    /// many as are wanted, and enough for the order by meaning.
    pub fn merge(&self, pages: &Vec<Page>, scores: &Vec<Double>) -> (r: Vec<Merged>)
        requires
            pages@.len() == scores@.len(),
        ensures
            search::merged_views(r@) == search::merged_list(
                search::page_views(pages@),
                scores@,
                self@.lang.script,
                if self@.n < RERANK_TOP {
                    RERANK_TOP as int
                } else {
                    self@.n as int
                },
            ),
    {
        merge(pages, scores, &self.lang, merge_count(self.n))
    }
}

// ---------------------------------------------------------------------------
// The order by meaning
// ---------------------------------------------------------------------------

/// The call that asks how near pages are to what is searched for.
pub struct RerankCall {
    pub url: String,
    pub body: String,
    /// How many pages it is about, from the first on.
    pub top: usize,
}

pub struct RerankView {
    pub url: Seq<char>,
    pub body: Seq<char>,
    pub top: nat,
}

impl View for RerankCall {
    type V = RerankView;

    open spec fn view(&self) -> RerankView {
        RerankView { url: self.url@, body: self.body@, top: self.top as nat }
    }
}

/// How many pages are compared.
pub open spec fn rerank_top(n: nat) -> nat {
    if n < RERANK_TOP {
        n
    } else {
        RERANK_TOP as nat
    }
}

/// The texts of pages that are compared, each as JSON.
pub open spec fn documents(v: Seq<MergedView>) -> Seq<Seq<char>> {
    v.map_values(|m: MergedView| json::quoted(m.title + " "@ + m.snippet))
}

pub open spec fn rerank_json(q: Seq<char>, v: Seq<MergedView>) -> Seq<char> {
    "{\"documents\":["@ + text::join(documents(v), ","@) + "],\"query\":"@ + json::quoted(q) + "}"@
}

/// The call, if there is a server to ask and there are enough pages.
pub open spec fn rerank_request(base: Option<Seq<char>>, q: Seq<char>, v: Seq<MergedView>) -> Option<
    RerankView,
> {
    match base {
        Some(b) => if v.len() < RERANK_MIN {
            None
        } else {
            Some(
                RerankView {
                    url: text::trim_end_text(b, "/"@) + "/v1/rerank"@,
                    body: rerank_json(q, v.take(rerank_top(v.len()) as int)),
                    top: rerank_top(v.len()),
                },
            )
        },
        None => None,
    }
}

impl Searcher {
    /// The call that asks how near the pages are to what is searched for, if there is a server to ask
    /// and there are enough pages.
    pub fn rerank_call(&self, q: &str, merged: &Vec<Merged>) -> (r: Option<RerankCall>)
        ensures
            (match r {
                Some(c) => Some(c@),
                None => None,
            }) == rerank_request(self@.rerank_base, q@, search::merged_views(merged@)),
    {
        let base: &String = match &self.rerank_base {
            Some(b) => b,
            None => {
                return None;
            },
        };
        let ghost all = search::merged_views(merged@);
        assert(all.len() == merged@.len());
        if merged.len() < RERANK_MIN {
            return None;
        }
        let top: usize = if merged.len() < RERANK_TOP {
            merged.len()
        } else {
            RERANK_TOP
        };
        let mut docs: Vec<Vec<char>> = Vec::new();
        for i in 0..top
            invariant
                top <= merged@.len(),
                all == search::merged_views(merged@),
                docs@.len() == i,
                forall|k: int|
                    0 <= k < i ==> (#[trigger] docs@[k])@ == documents(all.take(top as int))[k],
        {
            let m: &Merged = &merged[i];
            assert(all.take(top as int)[i as int] == m@);
            let words = m.title.clone().concat(" ").concat(m.snippet.as_str());
            docs.push(chars_of(quote(words.as_str()).as_str()));
        }
        assert(text::pieces(docs@) =~= documents(all.take(top as int)));
        let mut body = chars_of("{\"documents\":[");
        append_chars(&mut body, &joined(&docs, ","));
        append_str(&mut body, "],\"query\":");
        append_str(&mut body, quote(q).as_str());
        append_str(&mut body, "}");
        let mut url = trimmed_end_text(&chars_of(base.as_str()), "/");
        append_str(&mut url, "/v1/rerank");
        Some(RerankCall { url: string_of(&url), body: string_of(&body), top })
    }
}

/// Why the order by meaning is not used.
#[derive(Clone, Debug, PartialEq, Eq)]
pub enum RerankError {
    /// The server answers with this status.
    Status(u16),
    /// It does not give one number for each page.
    Count,
    /// The call fails, for the reason given.
    Call(String),
}

pub enum RerankFault {
    Status(u16),
    Count,
    Call(Seq<char>),
}

impl View for RerankError {
    type V = RerankFault;

    open spec fn view(&self) -> RerankFault {
        match *self {
            RerankError::Status(n) => RerankFault::Status(n),
            RerankError::Count => RerankFault::Count,
            RerankError::Call(e) => RerankFault::Call(e@),
        }
    }
}

/// The warning that is given instead.
pub open spec fn rerank_warning(f: RerankFault) -> Seq<char> {
    "意味による並べ替えは使えませんでした("@ + (match f {
        RerankFault::Status(n) => "HTTP "@ + text::decimal(n as nat),
        RerankFault::Count => "応答の件数が合いません"@,
        RerankFault::Call(e) => e,
    }) + ")"@
}

impl RerankError {
    /// The warning that is given instead.
    pub fn warning(&self) -> (r: String)
        ensures
            r@ == rerank_warning(self@),
    {
        let why: String = match self {
            RerankError::Status(n) => {
                let mut out = chars_of("HTTP ");
                append_chars(&mut out, &decimal_of(*n as u64));
                string_of(&out)
            },
            RerankError::Count => "応答の件数が合いません".to_string(),
            RerankError::Call(e) => e.clone(),
        };
        let s = "意味による並べ替えは使えませんでした(".to_string();
        s.concat(why.as_str()).concat(")")
    }
}

/// Whether the numbers that came back are used: the server answered well, and there is one for each
/// page.
pub fn check_scores(status: u16, count: usize, top: usize) -> (r: Result<(), RerankError>)
    ensures
        match r {
            Ok(_) => 200 <= status <= 299 && count == top,
            Err(e) => e@ == (if 200 <= status <= 299 {
                RerankFault::Count
            } else {
                RerankFault::Status(status)
            }) && !(200 <= status <= 299 && count == top),
        },
{
    if !(200 <= status && status <= 299) {
        return Err(RerankError::Status(status));
    }
    if count != top {
        return Err(RerankError::Count);
    }
    Ok(())
}

// ---------------------------------------------------------------------------
// The end of a search
// ---------------------------------------------------------------------------

/// What came of asking how near pages are to what is searched for.
pub enum Rerank {
    /// It was not asked.
    NotAsked,
    /// There are new scores for the first pages.
    Scores(Vec<Double>),
    /// It could not be found out.
    Failed(RerankError),
}

pub enum RerankedView {
    NotAsked,
    Scores(Seq<Double>),
    Failed(RerankFault),
}

impl View for Rerank {
    type V = RerankedView;

    open spec fn view(&self) -> RerankedView {
        match *self {
            Rerank::NotAsked => RerankedView::NotAsked,
            Rerank::Scores(v) => RerankedView::Scores(v@),
            Rerank::Failed(e) => RerankedView::Failed(e@),
        }
    }
}

/// The order in which pages are shown: that of new scores, where there are some.
pub open spec fn shown_order(merged: Seq<MergedView>, r: RerankedView) -> Seq<MergedView> {
    match r {
        RerankedView::Scores(scores) => search::by_score(search::rescored(merged, scores)),
        _ => merged,
    }
}

/// The warnings that are given: one more where the order by meaning could not be found out.
pub open spec fn shown_warnings(warnings: Seq<Seq<char>>, r: RerankedView) -> Seq<Seq<char>> {
    match r {
        RerankedView::Failed(f) => warnings.push(rerank_warning(f)),
        _ => warnings,
    }
}

/// The results that a search gives.
pub open spec fn final_results(search: SearchView, merged: Seq<MergedView>) -> Seq<MergedView> {
    search::at_most(merged, search.n as int)
}

/// The state after a search: its results are kept, and where too many are kept, all others are
/// forgotten.
pub open spec fn search_kept(
    s: SearcherView,
    search: SearchView,
    merged: Seq<MergedView>,
    now: u64,
) -> SearcherView {
    let before = if s.cache.len() >= CACHE_MAX {
        Map::empty()
    } else {
        s.cache
    };
    SearcherView {
        cache: before.insert(
            search.key,
            KeptView { since: now, results: final_results(search, merged) },
        ),
        ..s
    }
}

impl Searcher {
    /// Ends a search with these pages in their order: gives the results, and keeps them.
    pub fn finish(&mut self, search: &Search, merged: &Vec<Merged>, now: u64) -> (r: Vec<Merged>)
        ensures
            search::merged_views(r@) == final_results(search@, search::merged_views(merged@)),
            final(self)@ == search_kept(
                old(self)@,
                search@,
                search::merged_views(merged@),
                now,
            ),
            old(self)@.wf() ==> final(self)@.wf(),
    {
        let results = copy_merged(merged, search.n);
        let kept = Kept { since: now, results: copy_merged(merged, search.n) };
        proof {
            lemma_kept_insert(self.cache@, search.key@, kept);
            lemma_kept_insert(Map::empty(), search.key@, kept);
            if self@.wf() {
                lemma_kept_wf(self@, search@, search::merged_views(merged@), now);
            }
        }
        if self.cache.len() >= CACHE_MAX {
            self.cache.clear();
        }
        self.cache.insert(search.key.clone(), kept);
        results
    }
}

impl Searcher {
    /// Ends a search with these pages and warnings, once it is known what came of the order by meaning:
    /// gives the results and the warnings, and keeps the results.
    pub fn conclude(
        &mut self,
        search: &Search,
        merged: &Vec<Merged>,
        warnings: Vec<String>,
        rerank: Rerank,
        now: u64,
    ) -> (r: (Vec<Merged>, Vec<String>))
        ensures
            search::merged_views(r.0@) == final_results(
                search@,
                shown_order(search::merged_views(merged@), rerank@),
            ),
            text::texts(r.1@) == shown_warnings(text::texts(warnings@), rerank@),
            final(self)@ == search_kept(
                old(self)@,
                search@,
                shown_order(search::merged_views(merged@), rerank@),
                now,
            ),
            old(self)@.wf() ==> final(self)@.wf(),
    {
        let mut warnings = warnings;
        match rerank {
            Rerank::NotAsked => {
                let results = self.finish(search, merged, now);
                (results, warnings)
            },
            Rerank::Scores(scores) => {
                let ordered = reorder(merged, &scores);
                let results = self.finish(search, &ordered, now);
                (results, warnings)
            },
            Rerank::Failed(e) => {
                let ghost before = text::texts(warnings@);
                let w = e.warning();
                warnings.push(w);
                assert(text::texts(warnings@) =~= before.push(w@));
                let results = self.finish(search, merged, now);
                (results, warnings)
            },
        }
    }
}

proof fn lemma_kept_wf(s: SearcherView, search: SearchView, merged: Seq<MergedView>, now: u64)
    requires
        s.wf(),
    ensures
        search_kept(s, search, merged, now).wf(),
{
}

// ---------------------------------------------------------------------------
// Laws
// ---------------------------------------------------------------------------

/// Two calls of one engine are at least so far apart as they have to be, whenever they are asked for.
pub proof fn law_calls_are_spaced(s: SearcherView, id: Seq<char>, first: int, second: int)
    requires
        clock_in_range(s, id),
        0 <= first <= u64::MAX,
    ensures
        ({
            let t1 = call_time(s, id, first);
            let t2 = call_time(call_noted(s, id, first), id, second);
            &&& t1 >= first
            &&& t2 >= t1 + MIN_INTERVAL
            &&& t2 >= second
        }),
{
}

/// The state after a list of calls, each with its engine and the time at which it was asked for.
pub open spec fn calls_noted(s: SearcherView, calls: Seq<(Seq<char>, int)>) -> SearcherView
    decreases calls.len(),
{
    if calls.len() == 0 {
        s
    } else {
        call_noted(calls_noted(s, calls.drop_last()), calls.last().0, calls.last().1)
    }
}

/// When the call with that place in the list is made.
pub open spec fn turn_of(s: SearcherView, calls: Seq<(Seq<char>, int)>, i: int) -> int {
    call_time(calls_noted(s, calls.take(i)), calls[i].0, calls[i].1)
}

/// Whether the times of all calls in a list can be reckoned.
pub open spec fn all_reckoned(s: SearcherView, calls: Seq<(Seq<char>, int)>) -> bool {
    forall|i: int|
        0 <= i < calls.len() ==> 0 <= (#[trigger] calls[i]).1 <= u64::MAX && clock_in_range(
            calls_noted(s, calls.take(i)),
            calls[i].0,
        )
}

/// What is known of the calls of an engine after the call at a place of the list.
proof fn lemma_call_noted(s: SearcherView, calls: Seq<(Seq<char>, int)>, m: int, id: Seq<char>)
    requires
        0 <= m < calls.len(),
        all_reckoned(s, calls),
    ensures
        ({
            let before = calls_noted(s, calls.take(m)).last_call;
            let after = calls_noted(s, calls.take(m + 1)).last_call;
            if id == calls[m].0 {
                &&& after.contains_key(id)
                &&& after[id] == turn_of(s, calls, m)
                &&& before.contains_key(id) ==> after[id] >= before[id]
            } else {
                &&& after.contains_key(id) == before.contains_key(id)
                &&& after[id] == before[id]
            }
        }),
{
    assert(calls.take(m + 1).drop_last() =~= calls.take(m));
    assert(calls.take(m + 1).last() == calls[m]);
    assert(0 <= calls[m].1 <= u64::MAX);
    assert(clock_in_range(calls_noted(s, calls.take(m)), calls[m].0));
    let t = turn_of(s, calls, m);
    assert(0 <= t <= u64::MAX);
    assert(calls_noted(s, calls.take(m + 1)) == call_noted(
        calls_noted(s, calls.take(m)),
        calls[m].0,
        calls[m].1,
    ));
}

proof fn lemma_turn_is_remembered(s: SearcherView, calls: Seq<(Seq<char>, int)>, i: int, m: int)
    requires
        0 <= i < m <= calls.len(),
        all_reckoned(s, calls),
    ensures
        calls_noted(s, calls.take(m)).last_call.contains_key(calls[i].0),
        calls_noted(s, calls.take(m)).last_call[calls[i].0] >= turn_of(s, calls, i),
    decreases m,
{
    lemma_call_noted(s, calls, m - 1, calls[i].0);
    if i < m - 1 {
        lemma_turn_is_remembered(s, calls, i, m - 1);
    }
}

/// The call of an engine that is remembered is one of the list.
proof fn lemma_last_turn(
    s: SearcherView,
    calls: Seq<(Seq<char>, int)>,
    id: Seq<char>,
    m: int,
) -> (i: int)
    requires
        0 <= m <= calls.len(),
        all_reckoned(s, calls),
        !s.last_call.contains_key(id),
        calls_noted(s, calls.take(m)).last_call.contains_key(id),
    ensures
        0 <= i < m,
        calls[i].0 == id,
        turn_of(s, calls, i) == calls_noted(s, calls.take(m)).last_call[id],
    decreases m,
{
    if m == 0 {
        assert(calls.take(0) =~= Seq::empty());
        0
    } else {
        lemma_call_noted(s, calls, m - 1, id);
        if calls[m - 1].0 == id {
            m - 1
        } else {
            lemma_last_turn(s, calls, id, m - 1)
        }
    }
}

/// However the engines are called, any two calls of one engine are at least so far apart as they have
/// to be.
pub proof fn law_any_two_calls_are_spaced(
    s: SearcherView,
    calls: Seq<(Seq<char>, int)>,
    i: int,
    j: int,
)
    requires
        all_reckoned(s, calls),
        0 <= i < j < calls.len(),
        calls[i].0 == calls[j].0,
    ensures
        turn_of(s, calls, j) >= turn_of(s, calls, i) + MIN_INTERVAL,
        turn_of(s, calls, j) >= calls[j].1,
{
    lemma_turn_is_remembered(s, calls, i, j);
}

/// No call waits without need: the first one of an engine does not, and neither does one that comes
/// long enough after the turns of all earlier ones, whatever other engines are called.
pub proof fn law_calls_do_not_wait_without_need(
    s: SearcherView,
    calls: Seq<(Seq<char>, int)>,
    j: int,
)
    requires
        all_reckoned(s, calls),
        0 <= j < calls.len(),
        !s.last_call.contains_key(calls[j].0),
        forall|i: int|
            0 <= i < j && (#[trigger] calls[i]).0 == calls[j].0 ==> calls[j].1 >= turn_of(s, calls, i)
                + MIN_INTERVAL,
    ensures
        turn_of(s, calls, j) == calls[j].1,
{
    if calls_noted(s, calls.take(j)).last_call.contains_key(calls[j].0) {
        let i = lemma_last_turn(s, calls, calls[j].0, j);
        assert(calls[i].0 == calls[j].0);
    }
}

/// An engine that has refused a call is not called again before its rest is over, and may be after it.
pub proof fn law_refusal_is_respected(
    s: SearcherView,
    id: Seq<char>,
    status: u16,
    refused: int,
    now: int,
)
    requires
        is_refusal(status),
        0 <= refused <= u64::MAX - COOLDOWN,
    ensures
        resting(answered(s, id, status, refused), id, now) <==> now < refused + COOLDOWN,
{
}

/// An answer of an engine: which one, with what status, and when.
pub struct Answer {
    pub id: Seq<char>,
    pub status: u16,
    pub now: int,
}

/// The state after a list of answers.
pub open spec fn all_answered(s: SearcherView, answers: Seq<Answer>) -> SearcherView
    decreases answers.len(),
{
    if answers.len() == 0 {
        s
    } else {
        answered(
            all_answered(s, answers.drop_last()),
            answers.last().id,
            answers.last().status,
            answers.last().now,
        )
    }
}

/// Whatever engines answer after one has refused a call, and however they are called, this one is left
/// alone until its rest is over, and no longer, as long as it does not refuse again.
pub proof fn law_refusal_is_respected_over_time(
    s: SearcherView,
    id: Seq<char>,
    status: u16,
    refused: int,
    later: Seq<Answer>,
    other: Seq<char>,
    asked: int,
    now: int,
)
    requires
        is_refusal(status),
        0 <= refused <= u64::MAX - COOLDOWN,
        forall|i: int|
            0 <= i < later.len() ==> (#[trigger] later[i]).id != id || !is_refusal(later[i].status),
    ensures
        ({
            let after = all_answered(answered(s, id, status, refused), later);
            &&& resting(after, id, now) <==> now < refused + COOLDOWN
            &&& resting(call_noted(after, other, asked), id, now) == resting(after, id, now)
        }),
    decreases later.len(),
{
    if later.len() > 0 {
        let prev = later.drop_last();
        assert forall|i: int| 0 <= i < prev.len() implies (#[trigger] prev[i]).id != id
            || !is_refusal(prev[i].status) by {
            assert(prev[i] == later[i]);
        }
        law_refusal_is_respected_over_time(s, id, status, refused, prev, other, asked, now);
        assert(later.last() == later[later.len() - 1]);
    }
}

/// An engine that is left alone is so for at most twenty minutes from its refusal on, and the minutes
/// that are told are from 1 to 21.
pub proof fn law_rest_is_twenty_minutes(
    s: SearcherView,
    id: Seq<char>,
    status: u16,
    refused: int,
    now: int,
)
    requires
        is_refusal(status),
        0 <= refused <= now < refused + COOLDOWN,
        refused <= u64::MAX - COOLDOWN,
    ensures
        1 <= rest_minutes(answered(s, id, status, refused), id, now) <= 21,
{
}

/// Calling one engine, or being refused by it, changes nothing for another.
pub proof fn law_engines_are_called_apart(
    s: SearcherView,
    id: Seq<char>,
    other: Seq<char>,
    status: u16,
    time: u64,
    now: int,
)
    requires
        id != other,
    ensures
        ({
            let called = SearcherView { last_call: s.last_call.insert(id, time), ..s };
            &&& call_time(called, other, now) == call_time(s, other, now)
            &&& resting(answered(s, id, status, time as int), other, now) == resting(s, other, now)
        }),
{
}

/// The page that is kept is the longest start of the fetched one that fits into the bytes there are
/// for it.
pub proof fn law_sample_is_longest(html: Seq<char>)
    ensures
        utf8::encode_utf8(sample_of(html)).len() <= SAMPLE_MAX,
        sample_of(html) != html ==> utf8::encode_utf8(html.take(sample_of(html).len() as int + 1)).len()
            > SAMPLE_MAX,
{
    lemma_fitting(html, SAMPLE_MAX as int);
    if fitting(html, SAMPLE_MAX as int) == html.len() {
        assert(sample_of(html) =~= html);
    }
}

/// A search that went well ends a row of failures; one that did not makes it longer by one.
pub proof fn law_failures_are_counted(
    s: SearcherView,
    id: Seq<char>,
    q: Seq<char>,
    page: Result<Seq<char>, Seq<char>>,
    hits: Seq<HitView>,
    now_unix: u64,
)
    requires
        status_of(s, id).consecutive_failures < u32::MAX,
    ensures
        ({
            let after = status_of(recorded(s, id, q, page, hits, now_unix), id);
            &&& search_error(page, hits) is None ==> after.consecutive_failures == 0
            &&& search_error(page, hits) is Some ==> after.consecutive_failures == status_of(
                s,
                id,
            ).consecutive_failures + 1
            &&& after.last_ok == Some(search_error(page, hits) is None)
        }),
{
}

/// A page that was fetched is kept for mending the engine, also where nothing was read from it; one
/// that could not be fetched leaves the last one in place.
pub proof fn law_last_page_is_kept(
    s: SearcherView,
    id: Seq<char>,
    q: Seq<char>,
    page: Result<Seq<char>, Seq<char>>,
    hits: Seq<HitView>,
    now_unix: u64,
)
    ensures
        ({
            let after = status_of(recorded(s, id, q, page, hits, now_unix), id);
            &&& page matches Ok(html) ==> after.sample_html == html && after.sample_query == q
            &&& page is Err ==> after.sample_html == status_of(s, id).sample_html
                && after.sample_query == status_of(s, id).sample_query
        }),
{
}

/// The same search gives the same results, without asking any engine, for an hour after they were
/// found; and after that it asks again.
pub proof fn law_results_are_kept_for_an_hour(
    s: SearcherView,
    q: Seq<char>,
    hl: Seq<char>,
    gl: Seq<char>,
    n: usize,
    search: SearchView,
    merged: Seq<MergedView>,
    asked: int,
    found: u64,
    now: int,
)
    requires
        search_start(s, q, hl, gl, n, asked) == StartView::Ask(search),
    ensures
        ({
            let later = search_kept(s, search, merged, found);
            &&& now < found + CACHE_TTL ==> search_start(later, q, hl, gl, n, now)
                == StartView::Kept(final_results(search, merged))
            &&& now >= found + CACHE_TTL ==> search_start(later, q, hl, gl, n, now)
                == StartView::Ask(search)
        }),
{
}

/// A search that ended: what was searched for, the pages in their order, and when.
pub struct Ended {
    pub search: SearchView,
    pub merged: Seq<MergedView>,
    pub now: u64,
}

/// The state after a list of searches have ended.
pub open spec fn all_kept(s: SearcherView, ended: Seq<Ended>) -> SearcherView
    decreases ended.len(),
{
    if ended.len() == 0 {
        s
    } else {
        search_kept(
            all_kept(s, ended.drop_last()),
            ended.last().search,
            ended.last().merged,
            ended.last().now,
        )
    }
}

/// Whether none of the searches makes the results of all others be forgotten.
pub open spec fn nothing_emptied(s: SearcherView, ended: Seq<Ended>) -> bool
    decreases ended.len(),
{
    ended.len() == 0 || (nothing_emptied(s, ended.drop_last()) && all_kept(
        s,
        ended.drop_last(),
    ).cache.len() < CACHE_MAX)
}

proof fn lemma_others_kept(s: SearcherView, key: Seq<char>, ended: Seq<Ended>)
    requires
        s.cache.contains_key(key),
        forall|i: int| 0 <= i < ended.len() ==> (#[trigger] ended[i]).search.key != key,
        nothing_emptied(s, ended),
    ensures
        all_kept(s, ended).cache.contains_key(key),
        all_kept(s, ended).cache[key] == s.cache[key],
        all_kept(s, ended).engines == s.engines,
    decreases ended.len(),
{
    if ended.len() > 0 {
        let prev = ended.drop_last();
        assert forall|i: int| 0 <= i < prev.len() implies (#[trigger] prev[i]).search.key != key by {
            assert(prev[i] == ended[i]);
        }
        lemma_others_kept(s, key, prev);
        assert(ended.last() == ended[ended.len() - 1]);
    }
}

/// The results of a search are kept for an hour also where other searches end meanwhile, as long as
/// these do not become so many that all are forgotten.
pub proof fn law_other_searches_leave_results_kept(
    s: SearcherView,
    q: Seq<char>,
    hl: Seq<char>,
    gl: Seq<char>,
    n: usize,
    search: SearchView,
    merged: Seq<MergedView>,
    asked: int,
    found: u64,
    others: Seq<Ended>,
    now: int,
)
    requires
        search_start(s, q, hl, gl, n, asked) == StartView::Ask(search),
        forall|i: int| 0 <= i < others.len() ==> (#[trigger] others[i]).search.key != search.key,
        nothing_emptied(search_kept(s, search, merged, found), others),
    ensures
        ({
            let later = all_kept(search_kept(s, search, merged, found), others);
            &&& now < found + CACHE_TTL ==> search_start(later, q, hl, gl, n, now)
                == StartView::Kept(final_results(search, merged))
            &&& now >= found + CACHE_TTL ==> search_start(later, q, hl, gl, n, now)
                == StartView::Ask(search)
        }),
{
    lemma_others_kept(search_kept(s, search, merged, found), search.key, others);
}

/// A search that came to nothing is not kept: calling engines, their answers and what came of each leave
/// the results that are kept as they were, so that the next search asks again.
pub proof fn law_failed_searches_are_not_kept(
    s: SearcherView,
    q: Seq<char>,
    hl: Seq<char>,
    gl: Seq<char>,
    n: usize,
    now: int,
    id: Seq<char>,
    time: int,
    status: u16,
    query: Seq<char>,
    page: Result<Seq<char>, Seq<char>>,
    hits: Seq<HitView>,
    now_unix: u64,
)
    ensures
        search_start(call_noted(s, id, time), q, hl, gl, n, now) == search_start(s, q, hl, gl, n, now),
        search_start(answered(s, id, status, time), q, hl, gl, n, now) == search_start(
            s,
            q,
            hl,
            gl,
            n,
            now,
        ),
        search_start(recorded(s, id, query, page, hits, now_unix), q, hl, gl, n, now)
            == search_start(s, q, hl, gl, n, now),
{
}

/// Where meanings cannot be compared the search does not fail: it gives the results in the order that
/// they have, and says so in a warning.
pub proof fn law_search_does_without_meaning(
    search: SearchView,
    merged: Seq<MergedView>,
    warnings: Seq<Seq<char>>,
    f: RerankFault,
)
    ensures
        final_results(search, shown_order(merged, RerankedView::Failed(f))) == final_results(
            search,
            merged,
        ),
        shown_warnings(warnings, RerankedView::Failed(f)) == warnings.push(rerank_warning(f)),
{
}

/// The order by meaning shows the same pages, with new scores: none is lost and none added.
pub proof fn law_meaning_only_changes_the_order(merged: Seq<MergedView>, scores: Seq<Double>)
    ensures
        shown_order(merged, RerankedView::Scores(scores)).to_multiset() == search::rescored(
            merged,
            scores,
        ).to_multiset(),
        search::falling(shown_order(merged, RerankedView::Scores(scores))),
{
    search::law_order_is_by_score(search::rescored(merged, scores));
}

/// No search gives more results than were asked for, and none more than thirty.
pub proof fn law_results_are_bounded(
    s: SearcherView,
    q: Seq<char>,
    hl: Seq<char>,
    gl: Seq<char>,
    n: usize,
    now: int,
    search: SearchView,
    merged: Seq<MergedView>,
)
    requires
        search_start(s, q, hl, gl, n, now) == StartView::Ask(search),
    ensures
        final_results(search, merged).len() <= 30,
        n >= 1 ==> final_results(search, merged).len() <= n,
{
}

/// However many searches are made, the results of no more than a fixed number are kept.
pub proof fn law_cache_is_bounded(
    s: SearcherView,
    search: SearchView,
    merged: Seq<MergedView>,
    now: u64,
)
    requires
        s.wf(),
    ensures
        search_kept(s, search, merged, now).wf(),
        search_kept(s, search, merged, now).cache.len() <= CACHE_MAX,
{
    lemma_kept_wf(s, search, merged, now);
}

proof fn lemma_engines_asked(v: Seq<EngineView>, code: Seq<char>)
    ensures
        forall|i: int|
            0 <= i < engines_asked(v, code).len() ==> is_asked(
                #[trigger] engines_asked(v, code)[i],
                code,
            ) && v.contains(engines_asked(v, code)[i]),
        forall|i: int|
            0 <= i < v.len() && is_asked(#[trigger] v[i], code) ==> engines_asked(
                v,
                code,
            ).contains(v[i]),
    decreases v.len(),
{
    if v.len() > 0 {
        let prev = v.drop_last();
        lemma_engines_asked(prev, code);
        let asked = engines_asked(v, code);
        let before = engines_asked(prev, code);
        assert forall|i: int| 0 <= i < asked.len() implies is_asked(#[trigger] asked[i], code)
            && v.contains(asked[i]) by {
            if i < before.len() {
                assert(asked[i] == before[i]);
                assert(prev.contains(before[i]));
                let k = choose|k: int| 0 <= k < prev.len() && prev[k] == before[i];
                assert(v[k] == asked[i]);
            } else {
                assert(v[v.len() - 1] == asked[i]);
            }
        }
        assert forall|i: int| 0 <= i < v.len() && is_asked(#[trigger] v[i], code) implies
            asked.contains(v[i]) by {
            if i < prev.len() {
                assert(is_asked(prev[i], code));
                assert(before.contains(prev[i]));
                let k = choose|k: int| 0 <= k < before.len() && before[k] == prev[i];
                assert(asked[k] == v[i]);
            } else {
                assert(asked[asked.len() - 1] == v[i]);
            }
        }
    }
}

/// A search asks exactly the engines that are switched on and that serve its language.
pub proof fn law_engines_are_asked_by_language(v: Seq<EngineView>, code: Seq<char>, e: EngineView)
    ensures
        engines_asked(v, code).contains(e) <==> v.contains(e) && is_asked(e, code),
{
    lemma_engines_asked(v, code);
    if engines_asked(v, code).contains(e) {
        let k = choose|k: int| 0 <= k < engines_asked(v, code).len() && engines_asked(v, code)[k]
            == e;
        assert(is_asked(engines_asked(v, code)[k], code));
    }
    if v.contains(e) && is_asked(e, code) {
        let k = choose|k: int| 0 <= k < v.len() && v[k] == e;
        assert(is_asked(v[k], code));
    }
}

/// One engine that gives results is enough: a search fails only where none does.
pub proof fn law_one_engine_is_enough(v: Seq<ReplyView>, i: int)
    requires
        0 <= i < v.len(),
        v[i].hits is Ok,
    ensures
        results_in(v).len() > 0,
    decreases v.len(),
{
    if i < v.len() - 1 {
        law_one_engine_is_enough(v.drop_last(), i);
    }
}

/// Every engine that was asked is heard: it gave results, or there is a warning.
pub proof fn law_every_reply_is_heard(v: Seq<ReplyView>)
    ensures
        results_in(v).len() + errors_in(v).len() == v.len(),
    decreases v.len(),
{
    if v.len() > 0 {
        law_every_reply_is_heard(v.drop_last());
    }
}

/// The spans of time, in nanoseconds: an hour for results, 1.2 seconds between two calls of an engine,
/// twenty minutes of rest after a refusal; and the numbers of searches that are kept, of bytes of a page,
/// and of pages that are compared by meaning.
pub proof fn law_spans_and_bounds()
    ensures
        CACHE_TTL == 3600 * 1_000_000_000,
        MIN_INTERVAL == 1_200_000_000,
        COOLDOWN == 20 * 60 * 1_000_000_000,
        NANOS_PER_MINUTE == 60 * 1_000_000_000,
        CACHE_MAX == 500,
        SAMPLE_MAX == 300_000,
        RERANK_TOP == 15,
        RERANK_MIN == 3,
{
}

proof fn lemma_first_part(c: char, a: Seq<char>, x: Seq<char>, b: Seq<char>, y: Seq<char>)
    requires
        !a.contains(c),
        !b.contains(c),
        a + seq![c] + x == b + seq![c] + y,
    ensures
        a == b,
        x == y,
{
    let s = a + seq![c] + x;
    assert forall|k: int| 0 <= k < a.len() implies s[k] != c by {
        assert(s[k] == a[k]);
        assert(a.contains(a[k]));
    }
    assert(s[a.len() as int] == c);
    text::lemma_find_is(s, c, a.len() as int);
    let t = b + seq![c] + y;
    assert forall|k: int| 0 <= k < b.len() implies t[k] != c by {
        assert(t[k] == b[k]);
        assert(b.contains(b[k]));
    }
    assert(t[b.len() as int] == c);
    text::lemma_find_is(t, c, b.len() as int);
    assert(a =~= s.take(a.len() as int));
    assert(b =~= t.take(b.len() as int));
    assert(x =~= s.skip((a.len() + 1) as int));
    assert(y =~= t.skip((b.len() + 1) as int));
}

/// Different searches are kept under different keys: where two keys are the same, so are the queries, the
/// languages, the regions and the numbers of results, as long as these texts do not hold the character
/// that stands between them.
pub proof fn law_different_searches_have_different_keys(
    q1: Seq<char>,
    hl1: Seq<char>,
    gl1: Seq<char>,
    n1: usize,
    q2: Seq<char>,
    hl2: Seq<char>,
    gl2: Seq<char>,
    n2: usize,
)
    requires
        !q1.contains('\u{1}') && !hl1.contains('\u{1}') && !gl1.contains('\u{1}'),
        !q2.contains('\u{1}') && !hl2.contains('\u{1}') && !gl2.contains('\u{1}'),
        search_key(q1, hl1, gl1, n1) == search_key(q2, hl2, gl2, n2),
    ensures
        q1 == q2,
        hl1 == hl2,
        gl1 == gl2,
        n1 == n2,
{
    reveal_strlit("\u{1}");
    let c = '\u{1}';
    assert("\u{1}"@ =~= seq![c]);
    let (d1, d2) = (text::decimal(n1 as nat), text::decimal(n2 as nat));
    let (g1, g2) = (gl1 + seq![c] + d1, gl2 + seq![c] + d2);
    let (h1, h2) = (hl1 + seq![c] + g1, hl2 + seq![c] + g2);
    assert(search_key(q1, hl1, gl1, n1) =~= q1 + seq![c] + h1);
    assert(search_key(q2, hl2, gl2, n2) =~= q2 + seq![c] + h2);
    lemma_first_part(c, q1, h1, q2, h2);
    lemma_first_part(c, hl1, g1, hl2, g2);
    lemma_first_part(c, gl1, d1, gl2, d2);
    text::law_numbers_are_read_back(n1 as u64);
    text::law_numbers_are_read_back(n2 as u64);
}

/// Whether a text can be a part of the key of a search.
pub open spec fn fit_for_key(s: Seq<char>) -> bool {
    !s.contains('\u{1}')
}

/// Whether two searches are for the same: the same query, without the white space around it, in the same
/// language and region, for the same number of results.
pub open spec fn same_search(
    q1: Seq<char>,
    hl1: Seq<char>,
    gl1: Seq<char>,
    n1: usize,
    q2: Seq<char>,
    hl2: Seq<char>,
    gl2: Seq<char>,
    n2: usize,
) -> bool {
    &&& text::trim(q1) == text::trim(q2)
    &&& lang::resolved(hl1, gl1).hl == lang::resolved(hl2, gl2).hl
    &&& lang::resolved(hl1, gl1).gl == lang::resolved(hl2, gl2).gl
    &&& results_given(n1) == results_given(n2)
}

/// Keeping the results of one search changes nothing for another one: where that is for another query, in
/// another language or region, or for another number of results, it begins as it would have before, as
/// long as the results of all are not forgotten.
pub proof fn law_results_answer_no_other_search(
    s: SearcherView,
    q1: Seq<char>,
    hl1: Seq<char>,
    gl1: Seq<char>,
    n1: usize,
    asked: int,
    search: SearchView,
    merged: Seq<MergedView>,
    found: u64,
    q2: Seq<char>,
    hl2: Seq<char>,
    gl2: Seq<char>,
    n2: usize,
    now: int,
)
    requires
        search_start(s, q1, hl1, gl1, n1, asked) == StartView::Ask(search),
        !same_search(q1, hl1, gl1, n1, q2, hl2, gl2, n2),
        fit_for_key(text::trim(q1)) && fit_for_key(lang::resolved(hl1, gl1).hl) && fit_for_key(
            lang::resolved(hl1, gl1).gl,
        ),
        fit_for_key(text::trim(q2)) && fit_for_key(lang::resolved(hl2, gl2).hl) && fit_for_key(
            lang::resolved(hl2, gl2).gl,
        ),
    ensures
        s.cache.len() < CACHE_MAX ==> search_start(
            search_kept(s, search, merged, found),
            q2,
            hl2,
            gl2,
            n2,
            now,
        ) == search_start(s, q2, hl2, gl2, n2, now),
        s.cache.len() >= CACHE_MAX ==> !(search_start(
            search_kept(s, search, merged, found),
            q2,
            hl2,
            gl2,
            n2,
            now,
        ) is Kept),
{
    let (l1, l2) = (lang::resolved(hl1, gl1), lang::resolved(hl2, gl2));
    let k1 = search_key(text::trim(q1), l1.hl, l1.gl, results_given(n1));
    let k2 = search_key(text::trim(q2), l2.hl, l2.gl, results_given(n2));
    assert(search.key == k1);
    if k1 == k2 {
        law_different_searches_have_different_keys(
            text::trim(q1),
            l1.hl,
            l1.gl,
            results_given(n1),
            text::trim(q2),
            l2.hl,
            l2.gl,
            results_given(n2),
        );
    }
}

/// A search is refused where its query, without the white space around it, is empty or has more than 300
/// characters, or where there is nothing kept for it and no engine to ask. Else it is answered from what
/// is kept, or it asks: for the whole query, in the language and region that are meant, for 1 to 30
/// results, each engine that is switched on and serves the language, in their order.
pub proof fn law_searches_begin_as_they_are_asked(
    s: SearcherView,
    q: Seq<char>,
    hl: Seq<char>,
    gl: Seq<char>,
    n: usize,
    now: int,
)
    ensures
        ({
            let start = search_start(s, q, hl, gl, n, now);
            let query = text::trim(q);
            let lang = lang::resolved(hl, gl);
            let count: usize = if n == 0 {
                1
            } else if n > 30 {
                30
            } else {
                n
            };
            let key = search_key(query, lang.hl, lang.gl, count);
            let kept = s.cache.contains_key(key) && now < s.cache[key].since + 3600 * 1_000_000_000;
            let engines = s.engines.filter(
                |e: EngineView|
                    e.enabled && (!e.only_langs || engine::lists_language(e.langs, lang.code)),
            );
            &&& query.len() == 0 || query.len() > 300 ==> start is Refused
            &&& 1 <= query.len() <= 300 && kept ==> start == StartView::Kept(s.cache[key].results)
            &&& 1 <= query.len() <= 300 && !kept && engines.len() == 0 ==> start is Refused
            &&& 1 <= query.len() <= 300 && !kept && engines.len() > 0 ==> start == StartView::Ask(
                SearchView { q: query, lang, n: count, key, engines },
            )
        }),
{
    let lang = lang::resolved(hl, gl);
    lemma_engines_filtered(s.engines, lang.code);
}

proof fn lemma_engines_filtered(v: Seq<EngineView>, code: Seq<char>)
    ensures
        engines_asked(v, code) == v.filter(
            |e: EngineView| e.enabled && (!e.only_langs || engine::lists_language(e.langs, code)),
        ),
    decreases v.len(),
{
    reveal(Seq::filter);
    if v.len() > 0 {
        lemma_engines_filtered(v.drop_last(), code);
    } else {
        assert(engines_asked(v, code) =~= v.filter(
            |e: EngineView| e.enabled && (!e.only_langs || engine::lists_language(e.langs, code)),
        ));
    }
}

/// Every answer of an engine counts, in its order: the results of an engine that gave some are among the
/// results, whole and with its definition, and the error of one that gave none is among the errors.
pub proof fn law_replies_are_taken_whole(a: Seq<ReplyView>, b: Seq<ReplyView>, x: ReplyView)
    ensures
        results_in(a + b) == results_in(a) + results_in(b),
        errors_in(a + b) == errors_in(a) + errors_in(b),
        results_in(seq![x]) == match x.hits {
            Ok(h) => seq![(x.def, h)],
            Err(_) => Seq::empty(),
        },
        errors_in(seq![x]) == match x.hits {
            Ok(_) => Seq::empty(),
            Err(e) => seq![e],
        },
    decreases b.len(),
{
    let one = seq![x];
    let none = Seq::<ReplyView>::empty();
    assert(one.drop_last() =~= none);
    assert(one.last() == x);
    assert(results_in(none) =~= Seq::empty());
    assert(errors_in(none) =~= Seq::empty());
    assert(results_in(one) == match x.hits {
        Ok(h) => results_in(none).push((x.def, h)),
        Err(_) => results_in(none),
    });
    assert(errors_in(one) == match x.hits {
        Ok(_) => errors_in(none),
        Err(e) => errors_in(none).push(e),
    });
    assert(results_in(seq![x]) =~= match x.hits {
        Ok(h) => seq![(x.def, h)],
        Err(_) => Seq::empty(),
    });
    assert(errors_in(seq![x]) =~= match x.hits {
        Ok(_) => Seq::empty(),
        Err(e) => seq![e],
    });
    if b.len() == 0 {
        assert(a + b =~= a);
        assert(results_in(a) + results_in(b) =~= results_in(a));
        assert(errors_in(a) + errors_in(b) =~= errors_in(a));
    } else {
        law_replies_are_taken_whole(a, b.drop_last(), x);
        assert((a + b).drop_last() =~= a + b.drop_last());
        assert((a + b).last() == b.last());
        assert(results_in(a + b) =~= results_in(a) + results_in(b));
        assert(errors_in(a + b) =~= errors_in(a) + errors_in(b));
    }
}

/// What is known of an engine after a search with it says how that went, and nothing that is known of
/// another one changes.
pub proof fn law_what_came_of_a_search_is_known(
    s: SearcherView,
    id: Seq<char>,
    q: Seq<char>,
    page: Result<Seq<char>, Seq<char>>,
    hits: Seq<HitView>,
    now_unix: u64,
    other: Seq<char>,
)
    requires
        status_of(s, id).consecutive_failures < u32::MAX,
    ensures
        ({
            let later = recorded(s, id, q, page, hits, now_unix);
            let old = status_of(s, id);
            let new = status_of(later, id);
            let well = page is Ok && hits.len() > 0;
            &&& later.status.contains_key(id)
            &&& new.last_ok == Some(well)
            &&& page is Ok ==> new.last_hits == hits.len() && new.sample_html == page->Ok_0
                && new.sample_query == q
            &&& page is Err ==> new.last_hits == 0 && new.sample_html == old.sample_html
                && new.sample_query == old.sample_query && new.last_error == Some(page->Err_0)
            &&& well ==> new.last_error is None && new.consecutive_failures == 0
            &&& !well ==> new.last_error is Some && new.consecutive_failures
                == old.consecutive_failures + 1
            &&& new.last_checked_unix == now_unix
            &&& other != id ==> status_of(later, other) == status_of(s, other)
            &&& later.engines == s.engines && later.last_call == s.last_call && later.cooldown
                == s.cooldown && later.cache == s.cache && later.rerank_base == s.rerank_base
        }),
{
}

/// What a search with one engine gives: all that was read from the page, or an error that begins with the
/// name of the engine.
pub proof fn law_a_search_gives_all_that_was_read(
    def: EngineView,
    page: Result<Seq<char>, Seq<char>>,
)
    ensures
        ({
            let r = search_outcome(def.name, page, hits_of(def, page));
            &&& page matches Ok(html) ==> (r is Ok <==> engine::page_hits(def, html).len() > 0)
            &&& page matches Ok(html) ==> (r matches Ok(hits) ==> hits == engine::page_hits(def, html))
            &&& page matches Err(e) ==> r == Err::<Seq<HitView>, Seq<char>>(def.name + ": "@ + e)
            &&& r matches Err(e) ==> text::starts_with(e, def.name)
        }),
{
    let r = search_outcome(def.name, page, hits_of(def, page));
    if let Err(e) = r {
        let why = search_error(page, hits_of(def, page))->Some_0;
        assert(e == def.name + ": "@ + why);
        assert(e =~= def.name + (": "@ + why));
        text::law_occurring(Seq::empty(), def.name, ": "@ + why);
    }
}

/// What is kept of a page is its start: the whole of it where that is short enough.
pub proof fn law_sample_is_the_start_of_the_page(html: Seq<char>)
    ensures
        sample_of(html).len() <= html.len(),
        sample_of(html) == html.take(sample_of(html).len() as int),
        utf8::encode_utf8(html).len() <= 300_000 ==> sample_of(html) == html,
{
    lemma_fitting(html, SAMPLE_MAX as int);
    law_sample_is_longest(html);
    assert(sample_of(html) =~= html.take(sample_of(html).len() as int));
    let n = fitting(html, SAMPLE_MAX as int);
    if n < html.len() {
        lemma_longer_takes_more(html, n + 1);
    } else {
        assert(sample_of(html) =~= html);
    }
}

proof fn lemma_longer_takes_more(s: Seq<char>, n: int)
    requires
        0 <= n <= s.len(),
    ensures
        utf8::encode_utf8(s.take(n)).len() <= utf8::encode_utf8(s).len(),
    decreases s.len(),
{
    if n == 0 {
        assert(s.take(n) =~= Seq::empty());
    } else {
        let rest = s.drop_first();
        lemma_longer_takes_more(rest, n - 1);
        assert(s.take(n).drop_first() =~= rest.take(n - 1));
        assert(s.take(n)[0] == s[0]);
    }
}

/// The call by which meanings are compared is made where there is a server and there are at least three
/// pages. It holds the query, and of the first fifteen pages each title with its summary, whole and in
/// their order.
pub proof fn law_meanings_are_compared_of_whole_texts(
    base: Option<Seq<char>>,
    q: Seq<char>,
    v: Seq<MergedView>,
)
    ensures
        ({
            let r = rerank_request(base, q, v);
            let top = if v.len() < 15 {
                v.len()
            } else {
                15
            };
            let docs = Seq::new(
                top,
                |i: int| json::quoted(v[i].title + seq![' '] + v[i].snippet),
            );
            &&& r is Some <==> base is Some && v.len() >= 3
            &&& r matches Some(call) ==> call.top == top && text::ends_with(call.url, "/v1/rerank"@)
            &&& r matches Some(call) ==> call.body == "{\"documents\":["@ + text::join(docs, ","@)
                + "],\"query\":"@ + json::quoted(q) + "}"@
        }),
{
    reveal_strlit(" ");
    assert(" "@ =~= seq![' ']);
    if let Some(call) = rerank_request(base, q, v) {
        let top = rerank_top(v.len());
        assert(documents(v.take(top as int)) =~= Seq::new(
            top,
            |i: int| json::quoted(v[i].title + seq![' '] + v[i].snippet),
        ));
        text::law_occurring(
            text::trim_end_text(base->Some_0, "/"@),
            "/v1/rerank"@,
            Seq::empty(),
        );
    }
}

/// A search gives the first pages, as many as it is for, in the order in which they are shown; and these
/// are what is kept, from now on.
pub proof fn law_a_search_gives_the_first_pages(
    s: SearcherView,
    search: SearchView,
    merged: Seq<MergedView>,
    now: u64,
)
    ensures
        ({
            let r = final_results(search, merged);
            let later = search_kept(s, search, merged, now);
            &&& r.len() == if merged.len() < search.n {
                merged.len() as int
            } else {
                search.n as int
            }
            &&& forall|i: int| 0 <= i < r.len() ==> #[trigger] r[i] == merged[i]
            &&& later.cache.contains_key(search.key)
            &&& later.cache[search.key].results == r
            &&& later.cache[search.key].since == now
            &&& later.engines == s.engines && later.status == s.status && later.last_call
                == s.last_call && later.cooldown == s.cooldown
        }),
{
}

/// The statuses that count as an answer: those from 200 to 299 but 202; and those that make an engine be
/// left alone: 202, 403, 429 and 503.
pub proof fn law_statuses(status: u16)
    ensures
        is_success(status) <==> 200 <= status <= 299 && status != 202,
        is_refusal(status) <==> status == 202 || status == 403 || status == 429 || status == 503,
{
}

/// Whatever was searched for before, results that are kept answer only a search that is the same as the
/// one that they were found by, and they are the first pages of that one.
pub proof fn law_kept_results_are_those_of_the_same_search(
    s: SearcherView,
    ended: Seq<Ended>,
    q: Seq<char>,
    hl: Seq<char>,
    gl: Seq<char>,
    n: usize,
    now: int,
) -> (i: int)
    requires
        s.cache == Map::<Seq<char>, KeptView>::empty(),
        forall|k: int|
            0 <= k < ended.len() ==> is_search((#[trigger] ended[k]).search) && fit_for_key(
                ended[k].search.q,
            ) && fit_for_key(ended[k].search.lang.hl) && fit_for_key(ended[k].search.lang.gl),
        fit_for_key(text::trim(q)) && fit_for_key(lang::resolved(hl, gl).hl) && fit_for_key(
            lang::resolved(hl, gl).gl,
        ),
        search_start(all_kept(s, ended), q, hl, gl, n, now) is Kept,
    ensures
        0 <= i < ended.len(),
        ended[i].search.q == text::trim(q),
        ended[i].search.lang.hl == lang::resolved(hl, gl).hl,
        ended[i].search.lang.gl == lang::resolved(hl, gl).gl,
        ended[i].search.n == results_given(n),
        now < ended[i].now + 3600 * 1_000_000_000,
        search_start(all_kept(s, ended), q, hl, gl, n, now) == StartView::Kept(
            final_results(ended[i].search, ended[i].merged),
        ),
{
    let l = lang::resolved(hl, gl);
    let key = search_key(text::trim(q), l.hl, l.gl, results_given(n));
    let i = lemma_kept_comes_from(s, ended, key);
    let x = ended[i].search;
    law_different_searches_have_different_keys(
        x.q,
        x.lang.hl,
        x.lang.gl,
        x.n,
        text::trim(q),
        l.hl,
        l.gl,
        results_given(n),
    );
    i
}

/// Whether a search has the key of what it is for.
pub open spec fn is_search(x: SearchView) -> bool {
    x.key == search_key(x.q, x.lang.hl, x.lang.gl, x.n)
}

proof fn lemma_kept_comes_from(s: SearcherView, ended: Seq<Ended>, key: Seq<char>) -> (i: int)
    requires
        s.cache == Map::<Seq<char>, KeptView>::empty(),
        all_kept(s, ended).cache.contains_key(key),
    ensures
        0 <= i < ended.len(),
        ended[i].search.key == key,
        all_kept(s, ended).cache[key] == (KeptView {
            since: ended[i].now,
            results: final_results(ended[i].search, ended[i].merged),
        }),
    decreases ended.len(),
{
    if ended.len() == 0 {
        0
    } else if ended.last().search.key == key {
        ended.len() - 1
    } else {
        let i = lemma_kept_comes_from(s, ended.drop_last(), key);
        assert(ended.drop_last()[i] == ended[i]);
        i
    }
}

/// An engine that has not refused a call is not left alone; and the minutes that are told of one that has
/// are those that are left, begun ones counted whole.
pub proof fn law_minutes_of_rest(s: SearcherView, id: Seq<char>, now: int)
    ensures
        !s.cooldown.contains_key(id) ==> !resting(s, id, now),
        s.cooldown.contains_key(id) ==> (resting(s, id, now) <==> now < s.cooldown[id]),
        resting(s, id, now) ==> (rest_minutes(s, id, now) - 1) * 60_000_000_000 <= s.cooldown[id] - now
            < rest_minutes(s, id, now) * 60_000_000_000,
{
}

/// Without new scores the order stays, and warnings are only added to, where meanings could not be
/// compared; where no engine gave anything, every error is told.
pub proof fn law_orders_and_warnings_stay(
    merged: Seq<MergedView>,
    warnings: Seq<Seq<char>>,
    f: RerankFault,
    scores: Seq<Double>,
)
    ensures
        shown_order(merged, RerankedView::NotAsked) == merged,
        shown_order(merged, RerankedView::Failed(f)) == merged,
        shown_order(merged, RerankedView::Scores(scores)) == search::by_score(
            search::rescored(merged, scores),
        ),
        shown_warnings(warnings, RerankedView::NotAsked) == warnings,
        shown_warnings(warnings, RerankedView::Scores(scores)) == warnings,
        shown_warnings(warnings, RerankedView::Failed(f)).len() == warnings.len() + 1,
        shown_warnings(warnings, RerankedView::Failed(f)).drop_last() == warnings,
        text::ends_with(no_results_text(warnings), text::join(warnings, " / "@)),
        f matches RerankFault::Call(e) ==> text::contains_text(rerank_warning(f), e),
        f matches RerankFault::Status(n) ==> text::contains_text(
            rerank_warning(f),
            text::decimal(n as nat),
        ),
{
    assert(shown_warnings(warnings, RerankedView::Failed(f)).drop_last() =~= warnings);
    text::law_occurring(
        "どの検索元からも結果を得られませんでした: "@,
        text::join(warnings, " / "@),
        Seq::empty(),
    );
    let head = "意味による並べ替えは使えませんでした("@;
    match f {
        RerankFault::Call(e) => {
            text::law_occurring(head, e, ")"@);
        },
        RerankFault::Status(n) => {
            let d = text::decimal(n as nat);
            assert(rerank_warning(f) =~= head + "HTTP "@ + d + ")"@);
            text::law_occurring(head + "HTTP "@, d, ")"@);
        },
        RerankFault::Count => {},
    }
}

/// Contracts speak of the whole of what is known of an engine, of a search, and of what comes of it.
pub proof fn law_searches_are_seen_whole(
    st: EngineStatus,
    x: Search,
    start: Start,
    reply: Reply,
    replies: Seq<Reply>,
    page: Result<String, String>,
    r: Result<Vec<Hit>, String>,
    call: RerankCall,
    rerank: Rerank,
)
    ensures
        st@.last_ok == st.last_ok && st@.last_hits == st.last_hits && st@.last_error == web::opt_text(
            st.last_error,
        ),
        st@.last_checked_unix == st.last_checked_unix && st@.consecutive_failures
            == st.consecutive_failures,
        st@.sample_html == st.sample_html@ && st@.sample_query == st.sample_query@,
        x@.q == x.q@ && x@.lang == x.lang@ && x@.n == x.n && x@.key == x.key@,
        x@.engines == engine::engine_views(x.engines@),
        start matches Start::Refused(e) ==> start@ == StartView::Refused(e@),
        start matches Start::Kept(v) ==> start@ == StartView::Kept(search::merged_views(v@)),
        start matches Start::Ask(s) ==> start@ == StartView::Ask(s@),
        reply@.def == reply.def@ && reply@.hits == hits_view(reply.hits),
        reply_views(replies).len() == replies.len(),
        forall|i: int| 0 <= i < replies.len() ==> #[trigger] reply_views(replies)[i] == replies[i]@,
        page matches Ok(s) ==> page_view(page) == Ok::<Seq<char>, Seq<char>>(s@),
        page matches Err(e) ==> page_view(page) == Err::<Seq<char>, Seq<char>>(e@),
        r matches Ok(v) ==> hits_view(r) == Ok::<Seq<HitView>, Seq<char>>(engine::hit_views(v@)),
        r matches Err(e) ==> hits_view(r) == Err::<Seq<HitView>, Seq<char>>(e@),
        call@.url == call.url@ && call@.body == call.body@ && call@.top == call.top,
        rerank is NotAsked ==> rerank@ is NotAsked,
        rerank matches Rerank::Scores(v) ==> rerank@ == RerankedView::Scores(v@),
        rerank matches Rerank::Failed(e) ==> rerank@ == RerankedView::Failed(e@),
        unknown_status().last_ok is None && unknown_status().last_error is None
            && unknown_status().consecutive_failures == 0 && unknown_status().sample_html.len() == 0,
        forall|n: nat| text::contains_text(#[trigger] rest_text(n), text::decimal(n)),
        forall|n: u16| text::contains_text(#[trigger] refusal_text(n), text::decimal(n as nat)),
{
    assert forall|n: nat| text::contains_text(#[trigger] rest_text(n), text::decimal(n)) by {
        text::law_occurring(
            "休止中(直前に拒否されたため、"@,
            text::decimal(n),
            "分ほど間を空けます)"@,
        );
    }
    assert forall|n: u16| text::contains_text(#[trigger] refusal_text(n), text::decimal(n as nat)) by {
        text::law_occurring(
            "拒否されました(HTTP "@,
            text::decimal(n as nat),
            "。混み合い・機械利用の制限の可能性)"@,
        );
    }
}

/// Contracts speak of the whole of the state.
proof fn law_the_state_is_seen_whole(s: Searcher, id: Seq<char>)
    ensures
        s@.engines == engine::engine_views(s.engines@),
        s@.last_call == s.last_call@ && s@.cooldown == s.cooldown@,
        s@.rerank_base == web::opt_text(s.rerank_base),
        s@.status.contains_key(id) <==> s.status@.contains_key(id),
        s.status@.contains_key(id) ==> s@.status[id] == s.status@[id]@,
        s@.cache.contains_key(id) <==> s.cache@.contains_key(id),
        s.cache@.contains_key(id) ==> s@.cache[id].since == s.cache@[id].since && s@.cache[id].results
            == search::merged_views(s.cache@[id].results@),
{
}

} // verus!
