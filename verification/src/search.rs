//! Merging the results of several engines into one list.
//!
//! Each engine votes for the pages that it found, by its weight and by the rank it gave them; a page
//! that several engines rank high comes first (reciprocal-rank fusion). What a vote counts is
//! floating-point arithmetic and is left to the caller: here it is settled which pages there are, who
//! voted for each and with what, and, once the scores are known, in what order they are shown: pages in
//! the script of the language before others, and then by their scores.

use vstd::prelude::*;

use crate::double::Double;
use crate::engine::{self, EngineDef, EngineView, Hit, HitView};
use crate::lang::{self, rank_factor, Lang, Script};
use crate::text::{
    self, begins, chars_of, copy_strings, cut_before, has_string, lowered, same, slice_of,
    string_of, trimmed_end_text,
};

verus! {

// ---------------------------------------------------------------------------
// The time
// ---------------------------------------------------------------------------

/// `SystemTime::elapsed` of the standard library, of the start of 1970: the seconds that have passed since
/// then; `None` where the clock stands before it. Nothing is promised of the time.
#[verifier::external_body]
fn clock_seconds() -> (r: Option<u64>) {
    std::time::UNIX_EPOCH.elapsed().ok().map(|d| d.as_secs())
}

/// The seconds that a clock shows, 0 where it stands before 1970.
pub fn seconds_or_zero(clock: Option<u64>) -> (r: u64)
    ensures
        r == (match clock {
            Some(n) => n,
            None => 0,
        }),
{
    match clock {
        Some(n) => n,
        None => 0,
    }
}

/// The time in seconds since the start of 1970.
pub fn now_unix() -> (r: u64) {
    seconds_or_zero(clock_seconds())
}

// ---------------------------------------------------------------------------
// When two links lead to the same page
// ---------------------------------------------------------------------------

/// The text without `p` at its start, where it is there.
pub open spec fn without_start(s: Seq<char>, p: Seq<char>) -> Seq<char> {
    if text::starts_with(s, p) {
        s.skip(p.len() as int)
    } else {
        s
    }
}

/// The text without `https://` or `http://` at its start.
pub open spec fn without_scheme(s: Seq<char>) -> Seq<char> {
    if text::starts_with(s, "https://"@) {
        without_start(s, "https://"@)
    } else {
        without_start(s, "http://"@)
    }
}

/// What two links have in common that lead to the same page: in lower case, without the scheme, `www.`,
/// a fragment, or slashes at the end.
pub open spec fn norm(u: Seq<char>) -> Seq<char> {
    text::trim_end_text(
        without_start(without_scheme(text::before(text::lower(u), '#')), "www."@),
        "/"@,
    )
}

fn drop_start(s: Vec<char>, p: &str) -> (r: Vec<char>)
    ensures
        r@ == without_start(s@, p@),
{
    if begins(&s, p) {
        let n: usize = chars_of(p).len();
        let r = slice_of(&s, n, s.len());
        assert(r@ =~= s@.skip(n as int));
        r
    } else {
        s
    }
}

/// What two links have in common that lead to the same page.
pub fn norm_url(u: &str) -> (r: String)
    ensures
        r@ == norm(u@),
{
    let s = cut_before(&lowered(&chars_of(u)), '#');
    let s: Vec<char> = if begins(&s, "https://") {
        drop_start(s, "https://")
    } else {
        drop_start(s, "http://")
    };
    let s = drop_start(s, "www.");
    string_of(&trimmed_end_text(&s, "/"))
}

// ---------------------------------------------------------------------------
// The pages that were found
// ---------------------------------------------------------------------------

/// The vote of an engine for a page.
#[derive(Clone, Copy, Debug, PartialEq, Eq, Structural)]
pub struct Vote {
    /// The weight of the engine.
    pub weight: Double,
    /// Whether it is good at the language of the search.
    pub favoured: bool,
    /// The place at which it gives the page, the first one being 0.
    pub rank: usize,
}

/// A page that was found, with the votes for it.
pub struct Page {
    pub title: String,
    pub link: String,
    pub snippet: String,
    /// The ids of the engines that found it.
    pub engines: Vec<String>,
    pub votes: Vec<Vote>,
    /// The factor, in tenths, by which its score is multiplied for the script it is written in.
    pub factor: u32,
}

pub struct PageView {
    pub title: Seq<char>,
    pub link: Seq<char>,
    pub snippet: Seq<char>,
    pub engines: Seq<Seq<char>>,
    pub votes: Seq<Vote>,
    pub factor: u32,
}

impl View for Page {
    type V = PageView;

    open spec fn view(&self) -> PageView {
        PageView {
            title: self.title@,
            link: self.link@,
            snippet: self.snippet@,
            engines: text::texts(self.engines@),
            votes: self.votes@,
            factor: self.factor,
        }
    }
}

pub open spec fn page_views(v: Seq<Page>) -> Seq<PageView> {
    v.map_values(|p: Page| p@)
}

/// The place of the first page that a link leads to; the number of pages where there is none.
pub open spec fn page_place(pages: Seq<PageView>, key: Seq<char>) -> int
    decreases pages.len(),
{
    if pages.len() == 0 {
        0
    } else if norm(pages[0].link) == key {
        0
    } else {
        1 + page_place(pages.skip(1), key)
    }
}

/// A page after one more engine has given it: the engine is listed once, and the longest summary is
/// kept.
pub open spec fn voted(p: PageView, id: Seq<char>, h: HitView, vote: Vote) -> PageView {
    PageView {
        snippet: if p.snippet.len() < h.snippet.len() {
            h.snippet
        } else {
            p.snippet
        },
        engines: if p.engines.contains(id) {
            p.engines
        } else {
            p.engines.push(id)
        },
        votes: p.votes.push(vote),
        ..p
    }
}

/// A page that is found for the first time.
pub open spec fn new_page(id: Seq<char>, h: HitView, vote: Vote) -> PageView {
    PageView {
        title: h.title,
        link: h.link,
        snippet: h.snippet,
        engines: seq![id],
        votes: seq![vote],
        factor: 10,
    }
}

/// The pages after one result more.
pub open spec fn page_added(pages: Seq<PageView>, id: Seq<char>, h: HitView, vote: Vote) -> Seq<
    PageView,
> {
    let i = page_place(pages, norm(h.link));
    if i < pages.len() {
        pages.update(i, voted(pages[i], id, h, vote))
    } else {
        pages.push(new_page(id, h, vote))
    }
}

pub open spec fn vote_of(def: EngineView, code: Seq<char>, rank: int) -> Vote {
    Vote {
        weight: def.weight,
        favoured: engine::lists_language(def.langs, code),
        rank: rank as usize,
    }
}

/// The pages after the results of one engine.
pub open spec fn hits_added(
    pages: Seq<PageView>,
    def: EngineView,
    hits: Seq<HitView>,
    code: Seq<char>,
) -> Seq<PageView>
    decreases hits.len(),
{
    if hits.len() == 0 {
        pages
    } else {
        page_added(
            hits_added(pages, def, hits.drop_last(), code),
            def.id,
            hits.last(),
            vote_of(def, code, hits.len() - 1),
        )
    }
}

/// What one engine gave.
pub struct Found {
    pub def: EngineDef,
    pub hits: Vec<Hit>,
}

pub type FoundView = (EngineView, Seq<HitView>);

impl View for Found {
    type V = FoundView;

    open spec fn view(&self) -> FoundView {
        (self.def@, engine::hit_views(self.hits@))
    }
}

pub open spec fn found_views(v: Seq<Found>) -> Seq<FoundView> {
    v.map_values(|f: Found| f@)
}

/// The pages that engines gave, in the order in which they were first given.
pub open spec fn pages_found(found: Seq<FoundView>, code: Seq<char>) -> Seq<PageView>
    decreases found.len(),
{
    if found.len() == 0 {
        Seq::empty()
    } else {
        hits_added(
            pages_found(found.drop_last(), code),
            found.last().0,
            found.last().1,
            code,
        )
    }
}

/// A page with the factor for the script that is looked for.
pub open spec fn weighed(p: PageView, script: lang::ScriptView) -> PageView {
    PageView { factor: lang::page_factor(script, p.title, p.snippet), ..p }
}

/// The pages that engines gave in a search for a language, with the votes for each and the factor for
/// the script of the language.
pub open spec fn pages_for(found: Seq<FoundView>, lang: lang::LangView) -> Seq<PageView> {
    pages_found(found, lang.code).map_values(|p: PageView| weighed(p, lang.script))
}

fn find_page(pages: &Vec<Page>, keys: &Vec<String>, key: &str) -> (r: usize)
    requires
        keys@.len() == pages@.len(),
        forall|k: int| 0 <= k < keys@.len() ==> (#[trigger] keys@[k])@ == norm(pages@[k].link@),
    ensures
        r == page_place(page_views(pages@), key@),
        r <= pages@.len(),
{
    let ghost all = page_views(pages@);
    assert(all.skip(0) == all);
    for i in 0..pages.len()
        invariant
            keys@.len() == pages@.len(),
            forall|k: int| 0 <= k < keys@.len() ==> (#[trigger] keys@[k])@ == norm(pages@[k].link@),
            all == page_views(pages@),
            page_place(all, key@) == i + page_place(all.skip(i as int), key@),
    {
        let ghost rest = all.skip(i as int);
        assert(rest[0] == pages@[i as int]@);
        assert(rest.skip(1) == all.skip(i + 1));
        if same(keys[i].as_str(), key) {
            return i;
        }
    }
    pages.len()
}

fn longer(a: &str, b: &str) -> (r: bool)
    ensures
        r == (a@.len() < b@.len()),
{
    chars_of(a).len() < chars_of(b).len()
}

fn vote_for(p: Page, id: &str, h: &Hit, vote: Vote) -> (r: Page)
    ensures
        r@ == voted(p@, id@, h@, vote),
{
    let mut p = p;
    if longer(p.snippet.as_str(), h.snippet.as_str()) {
        p.snippet = h.snippet.clone();
    }
    if !has_string(&p.engines, id) {
        let ghost before = text::texts(p.engines@);
        p.engines.push(id.to_string());
        assert(text::texts(p.engines@) =~= before.push(id@));
    }
    p.votes.push(vote);
    p
}

fn first_vote(id: &str, h: &Hit, vote: Vote) -> (r: Page)
    ensures
        r@ == new_page(id@, h@, vote),
{
    let mut engines: Vec<String> = Vec::new();
    engines.push(id.to_string());
    assert(text::texts(engines@) =~= seq![id@]);
    let mut votes: Vec<Vote> = Vec::new();
    votes.push(vote);
    assert(votes@ =~= seq![vote]);
    Page {
        title: h.title.clone(),
        link: h.link.clone(),
        snippet: h.snippet.clone(),
        engines,
        votes,
        factor: 10,
    }
}

fn add_hits(pages: &mut Vec<Page>, keys: &mut Vec<String>, def: &EngineDef, hits: &Vec<Hit>, code: &str)
    requires
        old(keys)@.len() == old(pages)@.len(),
        forall|k: int|
            0 <= k < old(keys)@.len() ==> (#[trigger] old(keys)@[k])@ == norm(old(pages)@[k].link@),
    ensures
        final(keys)@.len() == final(pages)@.len(),
        forall|k: int|
            0 <= k < final(keys)@.len() ==> (#[trigger] final(keys)@[k])@ == norm(
                final(pages)@[k].link@,
            ),
        page_views(final(pages)@) == hits_added(
            page_views(old(pages)@),
            def@,
            engine::hit_views(hits@),
            code@,
        ),
{
    let ghost start = page_views(pages@);
    let ghost all = engine::hit_views(hits@);
    let favoured: bool = def.favours(code);
    assert(all.take(0).len() == 0);
    for i in 0..hits.len()
        invariant
            all == engine::hit_views(hits@),
            favoured == engine::lists_language(def@.langs, code@),
            keys@.len() == pages@.len(),
            forall|k: int| 0 <= k < keys@.len() ==> (#[trigger] keys@[k])@ == norm(pages@[k].link@),
            page_views(pages@) == hits_added(start, def@, all.take(i as int), code@),
    {
        let h: &Hit = &hits[i];
        assert(all.take(i + 1).drop_last() == all.take(i as int));
        assert(all.take(i + 1).last() == h@);
        let vote = Vote { weight: def.weight, favoured, rank: i };
        assert(vote == vote_of(def@, code@, i as int));
        let key = norm_url(h.link.as_str());
        let at: usize = find_page(pages, keys, key.as_str());
        let ghost before = page_views(pages@);
        if at < pages.len() {
            let page = pages.remove(at);
            assert(page@ == before[at as int]);
            let page = vote_for(page, def.id.as_str(), h, vote);
            pages.insert(at, page);
            assert(page_views(pages@) =~= before.update(at as int, page@));
        } else {
            let page = first_vote(def.id.as_str(), h, vote);
            pages.push(page);
            keys.push(key);
            assert(page_views(pages@) =~= before.push(page@));
        }
    }
    assert(all.take(hits@.len() as int) == all);
}

/// The pages that engines gave in a search for a language: each once, in the order in which they were
/// first given, with the votes for it.
pub fn gather(found: &Vec<Found>, lang: &Lang) -> (r: Vec<Page>)
    ensures
        page_views(r@) == pages_for(found_views(found@), lang@),
{
    let mut pages: Vec<Page> = Vec::new();
    let mut keys: Vec<String> = Vec::new();
    let ghost all = found_views(found@);
    assert(page_views(pages@) =~= pages_found(all.take(0), lang@.code));
    for i in 0..found.len()
        invariant
            all == found_views(found@),
            keys@.len() == pages@.len(),
            forall|k: int| 0 <= k < keys@.len() ==> (#[trigger] keys@[k])@ == norm(pages@[k].link@),
            page_views(pages@) == pages_found(all.take(i as int), lang@.code),
    {
        assert(all.take(i + 1).drop_last() == all.take(i as int));
        assert(all.take(i + 1).last() == found@[i as int]@);
        add_hits(&mut pages, &mut keys, &found[i].def, &found[i].hits, lang.code);
    }
    assert(all.take(found@.len() as int) == all);
    let ghost unweighed = page_views(pages@);
    let n: usize = pages.len();
    for i in 0..n
        invariant
            n == pages@.len(),
            n == unweighed.len(),
            forall|k: int|
                i <= k < pages@.len() ==> (#[trigger] pages@[k])@ == unweighed[k],
            forall|k: int|
                0 <= k < i ==> (#[trigger] pages@[k])@ == weighed(unweighed[k], lang@.script),
    {
        let factor: u32 = rank_factor(
            lang.script,
            pages[i].title.as_str(),
            pages[i].snippet.as_str(),
        );
        pages[i].factor = factor;
    }
    assert(page_views(pages@) =~= pages_for(all, lang@));
    pages
}

// ---------------------------------------------------------------------------
// The order of pages
// ---------------------------------------------------------------------------

/// A page as it is shown.
#[derive(Clone, Debug, PartialEq)]
pub struct Merged {
    pub title: String,
    pub link: String,
    pub snippet: String,
    /// The ids of the engines that found it.
    pub engines: Vec<String>,
    pub score: Double,
}

pub struct MergedView {
    pub title: Seq<char>,
    pub link: Seq<char>,
    pub snippet: Seq<char>,
    pub engines: Seq<Seq<char>>,
    pub score: Double,
}

impl View for Merged {
    type V = MergedView;

    open spec fn view(&self) -> MergedView {
        MergedView {
            title: self.title@,
            link: self.link@,
            snippet: self.snippet@,
            engines: text::texts(self.engines@),
            score: self.score,
        }
    }
}

pub open spec fn merged_views(v: Seq<Merged>) -> Seq<MergedView> {
    v.map_values(|m: Merged| m@)
}

impl Merged {
    /// A copy of the page.
    pub fn copy(&self) -> (r: Merged)
        ensures
            r@ == self@,
    {
        Merged {
            title: self.title.clone(),
            link: self.link.clone(),
            snippet: self.snippet.clone(),
            engines: copy_strings(&self.engines),
            score: self.score,
        }
    }
}

/// The first `n` pages, or all where there are fewer.
pub open spec fn at_most(v: Seq<MergedView>, n: int) -> Seq<MergedView> {
    if v.len() <= n {
        v
    } else {
        v.take(n)
    }
}

/// A copy of the first `n` pages.
pub fn copy_merged(v: &Vec<Merged>, n: usize) -> (r: Vec<Merged>)
    ensures
        merged_views(r@) == at_most(merged_views(v@), n as int),
{
    let k: usize = if v.len() <= n {
        v.len()
    } else {
        n
    };
    let mut out: Vec<Merged> = Vec::new();
    for i in 0..k
        invariant
            k <= v@.len(),
            out@.len() == i,
            forall|j: int| 0 <= j < i ==> (#[trigger] out@[j])@ == v@[j]@,
    {
        out.push(v[i].copy());
    }
    assert(merged_views(out@) =~= at_most(merged_views(v@), n as int));
    out
}

/// Where a page with that score goes among others: behind all that score at least as much and stand
/// before the first that scores less.
pub open spec fn score_place(v: Seq<MergedView>, score: Double) -> int
    decreases v.len(),
{
    if v.len() == 0 {
        0
    } else if v[0].score.key() < score.key() {
        0
    } else {
        1 + score_place(v.skip(1), score)
    }
}

/// The pages by falling score; of those that score the same, the one that came first stays first.
pub open spec fn by_score(v: Seq<MergedView>) -> Seq<MergedView>
    decreases v.len(),
{
    if v.len() == 0 {
        Seq::empty()
    } else {
        let sorted = by_score(v.drop_last());
        sorted.insert(score_place(sorted, v.last().score), v.last())
    }
}

fn place_for(v: &Vec<Merged>, score: Double) -> (r: usize)
    ensures
        r == score_place(merged_views(v@), score),
        r <= v@.len(),
{
    let ghost all = merged_views(v@);
    assert(all.skip(0) == all);
    for i in 0..v.len()
        invariant
            all == merged_views(v@),
            score_place(all, score) == i + score_place(all.skip(i as int), score),
    {
        let ghost rest = all.skip(i as int);
        assert(rest[0] == v@[i as int]@);
        assert(rest.skip(1) == all.skip(i + 1));
        if v[i].score.less(score) {
            return i;
        }
    }
    v.len()
}

/// The pages by falling score.
pub fn sorted_by_score(v: &Vec<Merged>) -> (r: Vec<Merged>)
    ensures
        merged_views(r@) == by_score(merged_views(v@)),
{
    let mut out: Vec<Merged> = Vec::new();
    let ghost all = merged_views(v@);
    assert(merged_views(out@) =~= by_score(all.take(0)));
    for i in 0..v.len()
        invariant
            all == merged_views(v@),
            merged_views(out@) == by_score(all.take(i as int)),
    {
        assert(all.take(i + 1).drop_last() == all.take(i as int));
        assert(all.take(i + 1).last() == v@[i as int]@);
        let at: usize = place_for(&out, v[i].score);
        let ghost before = merged_views(out@);
        let m = v[i].copy();
        out.insert(at, m);
        assert(merged_views(out@) =~= before.insert(at as int, m@));
    }
    assert(all.take(v@.len() as int) == all);
    out
}

/// Pages with their scores.
pub open spec fn scored(pages: Seq<PageView>, scores: Seq<Double>) -> Seq<MergedView> {
    Seq::new(
        pages.len(),
        |i: int|
            MergedView {
                title: pages[i].title,
                link: pages[i].link,
                snippet: pages[i].snippet,
                engines: pages[i].engines,
                score: scores[i],
            },
    )
}

/// The factor, in tenths, that a page has in a search for pages in the script.
pub open spec fn factor_in(m: MergedView, script: lang::ScriptView) -> u32 {
    lang::page_factor(script, m.title, m.snippet)
}

/// The pages with that factor, in their order.
pub open spec fn of_factor(v: Seq<MergedView>, script: lang::ScriptView, factor: u32) -> Seq<
    MergedView,
> {
    v.filter(|m: MergedView| factor_in(m, script) == factor)
}

/// The pages that are written in the script before those of which it does not tell, or that hold a
/// little of it, and these before those that hold no trace of it; among themselves in their order.
pub open spec fn script_first(v: Seq<MergedView>, script: lang::ScriptView) -> Seq<MergedView> {
    of_factor(v, script, 15) + of_factor(v, script, 10) + of_factor(v, script, 5)
}

fn append_of_factor(
    out: &mut Vec<Merged>,
    v: &Vec<Merged>,
    factors: &Vec<u32>,
    factor: u32,
    script: Ghost<lang::ScriptView>,
)
    requires
        factors@.len() == v@.len(),
        forall|k: int| 0 <= k < v@.len() ==> #[trigger] factors@[k] == factor_in(v@[k]@, script@),
    ensures
        merged_views(final(out)@) == merged_views(old(out)@) + of_factor(
            merged_views(v@),
            script@,
            factor,
        ),
{
    let ghost all = merged_views(v@);
    let ghost before = merged_views(out@);
    proof {
        reveal(Seq::filter);
        assert(of_factor(all.take(0), script@, factor) =~= Seq::empty());
        assert(before + of_factor(all.take(0), script@, factor) =~= before);
    }
    for i in 0..v.len()
        invariant
            all == merged_views(v@),
            factors@.len() == v@.len(),
            forall|k: int|
                0 <= k < v@.len() ==> #[trigger] factors@[k] == factor_in(v@[k]@, script@),
            merged_views(out@) == before + of_factor(all.take(i as int), script@, factor),
    {
        proof {
            reveal(Seq::filter);
            assert(all.take(i + 1).drop_last() == all.take(i as int));
            assert(all.take(i + 1).last() == v@[i as int]@);
        }
        if factors[i] == factor {
            let ghost prev = merged_views(out@);
            let m = v[i].copy();
            out.push(m);
            assert(merged_views(out@) =~= prev.push(m@));
            assert(merged_views(out@) =~= before + of_factor(all.take(i + 1), script@, factor));
        }
    }
    assert(all.take(v@.len() as int) == all);
}

/// The pages that are written in the script before the others.
pub fn sorted_by_script(v: &Vec<Merged>, script: Script) -> (r: Vec<Merged>)
    ensures
        merged_views(r@) == script_first(merged_views(v@), script@),
{
    let mut factors: Vec<u32> = Vec::new();
    for i in 0..v.len()
        invariant
            factors@.len() == i,
            forall|k: int| 0 <= k < i ==> #[trigger] factors@[k] == factor_in(v@[k]@, script@),
    {
        factors.push(rank_factor(script, v[i].title.as_str(), v[i].snippet.as_str()));
    }
    let mut out: Vec<Merged> = Vec::new();
    append_of_factor(&mut out, v, &factors, 15, Ghost(script@));
    append_of_factor(&mut out, v, &factors, 10, Ghost(script@));
    append_of_factor(&mut out, v, &factors, 5, Ghost(script@));
    assert(merged_views(out@) =~= script_first(merged_views(v@), script@));
    out
}

/// The pages that are shown: those in the script first, then by falling score; `n` of them at most.
pub open spec fn merged_list(
    pages: Seq<PageView>,
    scores: Seq<Double>,
    script: lang::ScriptView,
    n: int,
) -> Seq<MergedView> {
    at_most(script_first(by_score(scored(pages, scores)), script), n)
}

/// The first `n` pages: those in the script of the language come before the others, then those with a
/// higher score before those with a lower one; of those that score the same, the one that was found
/// first comes first.
pub fn merge(pages: &Vec<Page>, scores: &Vec<Double>, lang: &Lang, n: usize) -> (r: Vec<Merged>)
    requires
        pages@.len() == scores@.len(),
    ensures
        merged_views(r@) == merged_list(page_views(pages@), scores@, lang@.script, n as int),
{
    let mut all: Vec<Merged> = Vec::new();
    for i in 0..pages.len()
        invariant
            pages@.len() == scores@.len(),
            all@.len() == i,
            forall|k: int|
                0 <= k < i ==> (#[trigger] all@[k])@ == scored(page_views(pages@), scores@)[k],
    {
        let p: &Page = &pages[i];
        assert(page_views(pages@)[i as int] == p@);
        all.push(
            Merged {
                title: p.title.clone(),
                link: p.link.clone(),
                snippet: p.snippet.clone(),
                engines: copy_strings(&p.engines),
                score: scores[i],
            },
        );
    }
    assert(merged_views(all@) =~= scored(page_views(pages@), scores@));
    let sorted = sorted_by_script(&sorted_by_score(&all), lang.script);
    copy_merged(&sorted, n)
}

/// The pages with new scores for the first of them.
pub open spec fn rescored(v: Seq<MergedView>, scores: Seq<Double>) -> Seq<MergedView> {
    Seq::new(
        v.len(),
        |i: int|
            if i < scores.len() {
                MergedView { score: scores[i], ..v[i] }
            } else {
                v[i]
            },
    )
}

/// The pages in their new order, once the first of them have new scores.
pub fn reorder(v: &Vec<Merged>, scores: &Vec<Double>) -> (r: Vec<Merged>)
    ensures
        merged_views(r@) == by_score(rescored(merged_views(v@), scores@)),
{
    let mut all: Vec<Merged> = Vec::new();
    for i in 0..v.len()
        invariant
            all@.len() == i,
            forall|k: int|
                0 <= k < i ==> (#[trigger] all@[k])@ == rescored(merged_views(v@), scores@)[k],
    {
        let mut m = v[i].copy();
        if i < scores.len() {
            m.score = scores[i];
        }
        all.push(m);
    }
    assert(merged_views(all@) =~= rescored(merged_views(v@), scores@));
    sorted_by_score(&all)
}

// ---------------------------------------------------------------------------
// Laws
// ---------------------------------------------------------------------------

/// What is left of a link before anything is taken from its start.
spec fn bare(u: Seq<char>) -> Seq<char> {
    text::before(text::lower(u), '#')
}

proof fn lemma_bare_after(p: Seq<char>, rest: Seq<char>)
    requires
        text::lower(p) == p,
        !p.contains('#'),
    ensures
        bare(p + rest) == p + bare(rest),
{
    let low = text::lower(rest);
    let whole = text::lower(p + rest);
    assert(whole =~= p + low);
    text::lemma_find(low, '#');
    let n = p.len() + text::find(low, '#');
    assert forall|k: int| 0 <= k < n implies whole[k] != '#' by {
        if k < p.len() {
            assert(p.contains(p[k]));
        } else {
            assert(whole[k] == low[k - p.len()]);
        }
    }
    text::lemma_find_is(whole, '#', n);
    assert(whole.take(n) =~= p + low.take(text::find(low, '#')));
}

proof fn lemma_norm_of_web(rest: Seq<char>)
    ensures
        norm("https://"@ + rest) == text::trim_end_text(
            without_start(bare(rest), "www."@),
            "/"@,
        ),
        norm("http://"@ + rest) == text::trim_end_text(
            without_start(bare(rest), "www."@),
            "/"@,
        ),
{
    reveal_strlit("https://");
    reveal_strlit("http://");
    assert(text::lower("https://"@) =~= "https://"@);
    assert(text::lower("http://"@) =~= "http://"@);
    lemma_bare_after("https://"@, rest);
    lemma_bare_after("http://"@, rest);
    let a = "https://"@ + bare(rest);
    let b = "http://"@ + bare(rest);
    assert(a.subrange(0, 8) =~= "https://"@);
    assert(a.skip(8) =~= bare(rest));
    assert(b.subrange(0, 7) =~= "http://"@);
    assert(b.skip(7) =~= bare(rest));
    if text::starts_with(b, "https://"@) {
        assert(b.subrange(0, 8)[4] == 's');
        assert(b[4] == ':');
    }
}

/// Links that differ only in `http` or `https` lead to the same page.
pub proof fn law_scheme_does_not_matter(rest: Seq<char>)
    ensures
        norm("https://"@ + rest) == norm("http://"@ + rest),
{
    lemma_norm_of_web(rest);
}

/// A `www.` before the host does not matter, unless there is another one behind it.
pub proof fn law_www_does_not_matter(rest: Seq<char>)
    requires
        !text::starts_with(text::before(text::lower(rest), '#'), "www."@),
    ensures
        norm("https://"@ + ("www."@ + rest)) == norm("https://"@ + rest),
{
    reveal_strlit("www.");
    lemma_norm_of_web(rest);
    lemma_norm_of_web("www."@ + rest);
    assert(text::lower("www."@) =~= "www."@);
    lemma_bare_after("www."@, rest);
    let w = "www."@ + bare(rest);
    assert(w.subrange(0, 4) =~= "www."@);
    assert(w.skip(4) =~= bare(rest));
}

/// What follows a `#` is no part of what is left of a link.
proof fn lemma_bare_ends_before_hash(u: Seq<char>, rest: Seq<char>)
    requires
        u.contains('#'),
    ensures
        bare(u + rest) == bare(u),
{
    let low = text::lower(u);
    let whole = text::lower(u + rest);
    text::lemma_find(low, '#');
    let i = choose|i: int| 0 <= i < u.len() && u[i] == '#';
    assert(low[i] == '#');
    let n = text::find(low, '#');
    assert(n < low.len());
    assert forall|k: int| 0 <= k < n implies whole[k] != '#' by {
        assert(whole[k] == low[k]);
    }
    assert(whole[n] == low[n]);
    text::lemma_find_is(whole, '#', n);
    assert(whole.take(n) =~= low.take(n));
}

/// A fragment does not matter.
pub proof fn law_fragment_does_not_matter(u: Seq<char>, fragment: Seq<char>)
    ensures
        norm(u + "#"@ + fragment) == norm(u),
{
    if u.contains('#') {
        lemma_bare_ends_before_hash(u, "#"@ + fragment);
        assert(u + "#"@ + fragment =~= u + ("#"@ + fragment));
    } else {
        lemma_first_fragment(u, fragment);
    }
}

proof fn lemma_first_fragment(u: Seq<char>, fragment: Seq<char>)
    requires
        !u.contains('#'),
    ensures
        norm(u + "#"@ + fragment) == norm(u),
{
    reveal_strlit("#");
    let whole = u + "#"@ + fragment;
    let low = text::lower(whole);
    let n = u.len() as int;
    assert(text::lower(u).len() == n);
    assert forall|k: int| 0 <= k < n implies low[k] != '#' by {
        assert(low[k] == text::lower_char(u[k]));
        assert(u.contains(u[k]));
    }
    assert(low[n] == '#') by {
        assert(whole[n] == '#');
    }
    text::lemma_find_is(low, '#', n);
    assert forall|k: int| 0 <= k < n implies text::lower(u)[k] != '#' by {
        assert(u.contains(u[k]));
    }
    text::lemma_find_is(text::lower(u), '#', n);
    assert(low.take(n) =~= text::lower(u));
    assert(text::lower(u).take(n) =~= text::lower(u));
}

/// Upper and lower case do not matter.
pub proof fn law_case_does_not_matter(u: Seq<char>)
    ensures
        norm(text::upper(u)) == norm(text::lower(u)),
        norm(text::lower(u)) == norm(u),
{
    assert(text::lower(text::upper(u)) =~= text::lower(u));
    assert(text::lower(text::lower(u)) =~= text::lower(u));
}

/// A slash at the end does not matter, unless it is the one that makes a scheme of what stands before
/// it.
pub proof fn law_last_slash_does_not_matter(u: Seq<char>)
    requires
        text::lower(u) != "https:/"@,
        text::lower(u) != "http:/"@,
    ensures
        norm(u + "/"@) == norm(u),
{
    if u.contains('#') {
        lemma_bare_ends_before_hash(u, "/"@);
    } else {
        lemma_last_slash(u);
    }
}

proof fn lemma_last_slash(u: Seq<char>)
    requires
        !u.contains('#'),
        text::lower(u) != "https:/"@,
        text::lower(u) != "http:/"@,
    ensures
        norm(u + "/"@) == norm(u),
{
    reveal_strlit("/");
    reveal_strlit("https:/");
    reveal_strlit("http:/");
    reveal_strlit("https://");
    reveal_strlit("http://");
    reveal_strlit("www.");
    let lu = text::lower(u);
    let lv = text::lower(u + "/"@);
    assert(lv =~= lu + "/"@);
    assert forall|k: int| 0 <= k < lv.len() implies lv[k] != '#' by {
        if k < u.len() {
            assert(u.contains(u[k]));
        }
    }
    assert forall|k: int| 0 <= k < lu.len() implies lu[k] != '#' by {
        assert(u.contains(u[k]));
    }
    text::lemma_find_is(lv, '#', lv.len() as int);
    text::lemma_find_is(lu, '#', lu.len() as int);
    assert(lv.take(lv.len() as int) =~= lv);
    assert(lu.take(lu.len() as int) =~= lu);
    assert("https://"@ =~= "https:/"@ + "/"@);
    assert("http://"@ =~= "http:/"@ + "/"@);
    lemma_start_kept(lu, "https://"@, "https:/"@);
    lemma_start_kept(lu, "http://"@, "http:/"@);
    let su = without_scheme(lu);
    let sv = without_scheme(lv);
    assert(sv =~= su + "/"@);
    if text::starts_with(sv, "www."@) && su.len() < 4 {
        assert(sv.subrange(0, 4)[3] == '.');
        assert(sv[3] == '/');
    }
    if su.len() >= 4 {
        assert(sv.subrange(0, 4) =~= su.subrange(0, 4));
    }
    let wu = without_start(su, "www."@);
    let wv = without_start(sv, "www."@);
    assert(wv =~= wu + "/"@);
    assert(wv.subrange(wv.len() - 1, wv.len() as int) =~= "/"@);
    assert(wv.take(wv.len() - 1) =~= wu);
}

proof fn lemma_start_kept(s: Seq<char>, p: Seq<char>, shorter: Seq<char>)
    requires
        p == shorter + "/"@,
        s != shorter,
    ensures
        text::starts_with(s + "/"@, p) == text::starts_with(s, p),
{
    reveal_strlit("/");
    let t = s + "/"@;
    if s.len() >= p.len() {
        assert(t.subrange(0, p.len() as int) =~= s.subrange(0, p.len() as int));
    } else if text::starts_with(t, p) {
        assert(t =~= t.subrange(0, p.len() as int));
        assert(t == p);
        assert forall|i: int| 0 <= i < s.len() implies s[i] == shorter[i] by {
            assert(t[i] == p[i]);
        }
        assert(s =~= shorter);
    }
}

// Which pages there are.

/// Whether no two pages are the same.
pub open spec fn distinct_pages(v: Seq<PageView>) -> bool {
    forall|i: int, j: int|
        0 <= i < j < v.len() ==> norm(#[trigger] v[i].link) != norm(#[trigger] v[j].link)
}

/// Whether the page of a result is among the pages.
pub open spec fn has_page(v: Seq<PageView>, link: Seq<char>) -> bool {
    exists|i: int| 0 <= i < v.len() && norm(#[trigger] v[i].link) == norm(link)
}

/// Whether each engine is listed once with a page.
pub open spec fn distinct_engines(p: PageView) -> bool {
    p.engines.no_duplicates()
}

proof fn lemma_page_place(pages: Seq<PageView>, key: Seq<char>)
    ensures
        0 <= page_place(pages, key) <= pages.len(),
        page_place(pages, key) < pages.len() ==> norm(pages[page_place(pages, key)].link) == key,
        forall|k: int|
            0 <= k < page_place(pages, key) ==> norm(#[trigger] pages[k].link) != key,
    decreases pages.len(),
{
    if pages.len() > 0 {
        lemma_page_place(pages.skip(1), key);
        let n = page_place(pages, key);
        assert forall|k: int| 0 <= k < n implies norm(#[trigger] pages[k].link) != key by {
            if k > 0 {
                assert(pages[k] == pages.skip(1)[k - 1]);
            }
        }
    }
}

/// What is true of all pages at every point.
spec fn pages_ok(v: Seq<PageView>) -> bool {
    &&& distinct_pages(v)
    &&& forall|i: int| 0 <= i < v.len() ==> distinct_engines(#[trigger] v[i])
    &&& forall|i: int| 0 <= i < v.len() ==> (#[trigger] v[i]).votes.len() > 0
}

proof fn lemma_page_added(pages: Seq<PageView>, id: Seq<char>, h: HitView, vote: Vote)
    requires
        pages_ok(pages),
    ensures
        pages_ok(page_added(pages, id, h, vote)),
        has_page(page_added(pages, id, h, vote), h.link),
        forall|link: Seq<char>|
            has_page(pages, link) ==> #[trigger] has_page(page_added(pages, id, h, vote), link),
        forall|i: int|
            0 <= i < pages.len() ==> (#[trigger] page_added(pages, id, h, vote)[i]).link
                == pages[i].link && page_added(pages, id, h, vote)[i].title == pages[i].title
                && page_added(pages, id, h, vote)[i].snippet.len() >= pages[i].snippet.len(),
        pages.len() <= page_added(pages, id, h, vote).len() <= pages.len() + 1,
{
    let after = page_added(pages, id, h, vote);
    let key = norm(h.link);
    lemma_page_place(pages, key);
    let at = page_place(pages, key);
    if at < pages.len() {
        assert(norm(after[at].link) == key);
        let p = pages[at];
        assert(distinct_engines(p));
        assert(distinct_engines(after[at])) by {
            if !p.engines.contains(id) {
                let e = p.engines.push(id);
                assert forall|i: int, j: int| 0 <= i < e.len() && 0 <= j < e.len() && i != j implies
                    e[i] != e[j] by {
                    if i == p.engines.len() {
                        assert(p.engines.contains(p.engines[j]));
                    } else if j == p.engines.len() {
                        assert(p.engines.contains(p.engines[i]));
                    }
                }
            }
        }
    } else {
        assert(after[at].link == h.link);
        assert(norm(after[at].link) == key);
        assert(distinct_engines(after[at]));
    }
    assert forall|i: int, j: int| 0 <= i < j < after.len() implies norm(#[trigger] after[i].link)
        != norm(#[trigger] after[j].link) by {
        if j < pages.len() {
            assert(after[i].link == pages[i].link && after[j].link == pages[j].link);
        } else {
            assert(after[i].link == pages[i].link);
        }
    }
    assert forall|link: Seq<char>| has_page(pages, link) implies #[trigger] has_page(
        after,
        link,
    ) by {
        let i = choose|i: int| 0 <= i < pages.len() && norm(#[trigger] pages[i].link) == norm(link);
        assert(after[i].link == pages[i].link);
    }
}

proof fn lemma_hits_added(pages: Seq<PageView>, def: EngineView, hits: Seq<HitView>, code: Seq<char>)
    requires
        pages_ok(pages),
    ensures
        pages_ok(hits_added(pages, def, hits, code)),
        forall|link: Seq<char>|
            has_page(pages, link) ==> #[trigger] has_page(
                hits_added(pages, def, hits, code),
                link,
            ),
        forall|i: int|
            0 <= i < hits.len() ==> has_page(
                hits_added(pages, def, hits, code),
                (#[trigger] hits[i]).link,
            ),
        pages.len() <= hits_added(pages, def, hits, code).len() <= pages.len() + hits.len(),
    decreases hits.len(),
{
    if hits.len() > 0 {
        let prev = hits.drop_last();
        lemma_hits_added(pages, def, prev, code);
        lemma_page_added(
            hits_added(pages, def, prev, code),
            def.id,
            hits.last(),
            vote_of(def, code, hits.len() - 1),
        );
        assert forall|i: int| 0 <= i < hits.len() implies has_page(
            hits_added(pages, def, hits, code),
            (#[trigger] hits[i]).link,
        ) by {
            if i < prev.len() {
                assert(has_page(hits_added(pages, def, prev, code), prev[i].link));
            }
        }
    }
}

proof fn lemma_pages_found(found: Seq<FoundView>, code: Seq<char>)
    ensures
        pages_ok(pages_found(found, code)),
        forall|e: int, i: int|
            0 <= e < found.len() && 0 <= i < found[e].1.len() ==> has_page(
                pages_found(found, code),
                (#[trigger] found[e].1[i]).link,
            ),
    decreases found.len(),
{
    if found.len() > 0 {
        let prev = found.drop_last();
        lemma_pages_found(prev, code);
        lemma_hits_added(pages_found(prev, code), found.last().0, found.last().1, code);
        assert forall|e: int, i: int| 0 <= e < found.len() && 0 <= i < found[e].1.len() implies
            has_page(pages_found(found, code), (#[trigger] found[e].1[i]).link) by {
            if e < prev.len() {
                assert(has_page(pages_found(prev, code), prev[e].1[i].link));
            }
        }
    }
}

/// However many engines give a page, and however they write its link, it is listed once; each engine
/// that gives it is named once with it; and every result of every engine is among the pages.
pub proof fn law_pages_are_listed_once(found: Seq<FoundView>, lang: lang::LangView)
    ensures
        distinct_pages(pages_for(found, lang)),
        forall|i: int|
            0 <= i < pages_for(found, lang).len() ==> distinct_engines(
                #[trigger] pages_for(found, lang)[i],
            ),
        forall|e: int, i: int|
            0 <= e < found.len() && 0 <= i < found[e].1.len() ==> has_page(
                pages_for(found, lang),
                (#[trigger] found[e].1[i]).link,
            ),
{
    lemma_pages_found(found, lang.code);
    let plain = pages_found(found, lang.code);
    let pages = pages_for(found, lang);
    assert forall|i: int, j: int| 0 <= i < j < pages.len() implies norm(#[trigger] pages[i].link)
        != norm(#[trigger] pages[j].link) by {
        assert(pages[i].link == plain[i].link && pages[j].link == plain[j].link);
    }
    assert forall|i: int| 0 <= i < pages.len() implies distinct_engines(#[trigger] pages[i]) by {
        assert(distinct_engines(plain[i]));
    }
    assert forall|e: int, i: int| 0 <= e < found.len() && 0 <= i < found[e].1.len() implies
        has_page(pages, (#[trigger] found[e].1[i]).link) by {
        let link = found[e].1[i].link;
        assert(has_page(plain, link));
        let k = choose|k: int| 0 <= k < plain.len() && norm(#[trigger] plain[k].link) == norm(link);
        assert(pages[k].link == plain[k].link);
    }
}

/// All results of all engines.
pub open spec fn all_hits(found: Seq<FoundView>) -> Seq<HitView>
    decreases found.len(),
{
    if found.len() == 0 {
        Seq::empty()
    } else {
        all_hits(found.drop_last()) + found.last().1
    }
}

/// Whether the title and the link of a page are those of one result, and its summary is that of a
/// result for the same page.
pub open spec fn comes_from(p: PageView, hits: Seq<HitView>) -> bool {
    &&& exists|h: HitView| #[trigger] hits.contains(h) && h.title == p.title && h.link == p.link
    &&& exists|h: HitView| #[trigger]
        hits.contains(h) && norm(h.link) == norm(p.link) && h.snippet == p.snippet
}

spec fn all_come_from(pages: Seq<PageView>, hits: Seq<HitView>) -> bool {
    forall|i: int| 0 <= i < pages.len() ==> comes_from(#[trigger] pages[i], hits)
}

proof fn lemma_comes_from_more(p: PageView, hits: Seq<HitView>, h: HitView)
    requires
        comes_from(p, hits),
    ensures
        comes_from(p, hits.push(h)),
{
    let more = hits.push(h);
    let a = choose|x: HitView| #[trigger]
        hits.contains(x) && x.title == p.title && x.link == p.link;
    let b = choose|x: HitView| #[trigger]
        hits.contains(x) && norm(x.link) == norm(p.link) && x.snippet == p.snippet;
    let i = choose|i: int| 0 <= i < hits.len() && hits[i] == a;
    assert(more[i] == a);
    let j = choose|j: int| 0 <= j < hits.len() && hits[j] == b;
    assert(more[j] == b);
    assert(more.contains(a) && more.contains(b));
}

proof fn lemma_come_from_added(
    pages: Seq<PageView>,
    hits: Seq<HitView>,
    id: Seq<char>,
    h: HitView,
    vote: Vote,
)
    requires
        all_come_from(pages, hits),
    ensures
        all_come_from(page_added(pages, id, h, vote), hits.push(h)),
{
    let more = hits.push(h);
    let after = page_added(pages, id, h, vote);
    lemma_page_place(pages, norm(h.link));
    let at = page_place(pages, norm(h.link));
    assert(more[hits.len() as int] == h);
    assert(more.contains(h));
    assert forall|i: int| 0 <= i < after.len() implies comes_from(#[trigger] after[i], more) by {
        if i < pages.len() {
            assert(comes_from(pages[i], hits));
            lemma_comes_from_more(pages[i], hits, h);
            if i == at && pages[at].snippet.len() < h.snippet.len() {
                let a = choose|x: HitView| #[trigger]
                    more.contains(x) && x.title == pages[i].title && x.link == pages[i].link;
                assert(more.contains(a) && a.title == after[i].title && a.link == after[i].link);
                assert(norm(h.link) == norm(after[i].link) && h.snippet == after[i].snippet);
            } else {
                assert(after[i].title == pages[i].title);
                assert(after[i].link == pages[i].link);
                assert(after[i].snippet == pages[i].snippet);
                let a = choose|x: HitView| #[trigger]
                    more.contains(x) && x.title == pages[i].title && x.link == pages[i].link;
                let b = choose|x: HitView| #[trigger]
                    more.contains(x) && norm(x.link) == norm(pages[i].link) && x.snippet
                        == pages[i].snippet;
                assert(more.contains(a) && a.title == after[i].title && a.link == after[i].link);
                assert(more.contains(b) && norm(b.link) == norm(after[i].link) && b.snippet
                    == after[i].snippet);
            }
        }
    }
}

proof fn lemma_come_from_hits(
    pages: Seq<PageView>,
    before: Seq<HitView>,
    def: EngineView,
    hits: Seq<HitView>,
    code: Seq<char>,
)
    requires
        all_come_from(pages, before),
    ensures
        all_come_from(hits_added(pages, def, hits, code), before + hits),
    decreases hits.len(),
{
    if hits.len() > 0 {
        let prev = hits.drop_last();
        lemma_come_from_hits(pages, before, def, prev, code);
        lemma_come_from_added(
            hits_added(pages, def, prev, code),
            before + prev,
            def.id,
            hits.last(),
            vote_of(def, code, hits.len() - 1),
        );
        assert((before + prev).push(hits.last()) =~= before + hits);
    } else {
        assert(before + hits =~= before);
    }
}

proof fn lemma_come_from_found(found: Seq<FoundView>, code: Seq<char>)
    ensures
        all_come_from(pages_found(found, code), all_hits(found)),
    decreases found.len(),
{
    if found.len() > 0 {
        let prev = found.drop_last();
        lemma_come_from_found(prev, code);
        lemma_come_from_hits(
            pages_found(prev, code),
            all_hits(prev),
            found.last().0,
            found.last().1,
            code,
        );
    }
}

/// Nothing is made up: the title and the link of every page are those of a result that an engine gave,
/// and so is its summary.
pub proof fn law_pages_come_from_results(found: Seq<FoundView>, lang: lang::LangView)
    ensures
        forall|i: int|
            0 <= i < pages_for(found, lang).len() ==> comes_from(
                #[trigger] pages_for(found, lang)[i],
                all_hits(found),
            ),
{
    lemma_come_from_found(found, lang.code);
    let plain = pages_found(found, lang.code);
    let pages = pages_for(found, lang);
    let hits = all_hits(found);
    assert forall|i: int| 0 <= i < pages.len() implies comes_from(#[trigger] pages[i], hits) by {
        assert(comes_from(plain[i], hits));
        let a = choose|x: HitView| #[trigger]
            hits.contains(x) && x.title == plain[i].title && x.link == plain[i].link;
        let b = choose|x: HitView| #[trigger]
            hits.contains(x) && norm(x.link) == norm(plain[i].link) && x.snippet
                == plain[i].snippet;
        assert(hits.contains(a) && a.title == pages[i].title && a.link == pages[i].link);
        assert(hits.contains(b) && norm(b.link) == norm(pages[i].link) && b.snippet
            == pages[i].snippet);
    }
}

// The votes.

/// How many votes there are for pages, together.
pub open spec fn votes_cast(v: Seq<PageView>) -> nat
    decreases v.len(),
{
    if v.len() == 0 {
        0
    } else {
        votes_cast(v.drop_last()) + v.last().votes.len()
    }
}

/// How many results engines gave, together.
pub open spec fn results_given(found: Seq<FoundView>) -> nat
    decreases found.len(),
{
    if found.len() == 0 {
        0
    } else {
        results_given(found.drop_last()) + found.last().1.len()
    }
}

proof fn lemma_votes_update(v: Seq<PageView>, i: int, p: PageView)
    requires
        0 <= i < v.len(),
        p.votes.len() == v[i].votes.len() + 1,
    ensures
        votes_cast(v.update(i, p)) == votes_cast(v) + 1,
    decreases v.len(),
{
    let w = v.update(i, p);
    if i < v.len() - 1 {
        lemma_votes_update(v.drop_last(), i, p);
        assert(w.drop_last() =~= v.drop_last().update(i, p));
    } else {
        assert(w.drop_last() =~= v.drop_last());
    }
}

proof fn lemma_votes_of_hits(pages: Seq<PageView>, def: EngineView, hits: Seq<HitView>, code: Seq<char>)
    ensures
        votes_cast(hits_added(pages, def, hits, code)) == votes_cast(pages) + hits.len(),
    decreases hits.len(),
{
    if hits.len() > 0 {
        let h = hits.last();
        let vote = vote_of(def, code, hits.len() - 1);
        lemma_votes_of_hits(pages, def, hits.drop_last(), code);
        let before = hits_added(pages, def, hits.drop_last(), code);
        lemma_page_place(before, norm(h.link));
        let at = page_place(before, norm(h.link));
        if at < before.len() {
            lemma_votes_update(before, at, voted(before[at], def.id, h, vote));
        } else {
            assert(before.push(new_page(def.id, h, vote)).drop_last() =~= before);
        }
    }
}

proof fn lemma_votes_weighed(v: Seq<PageView>, script: lang::ScriptView)
    ensures
        votes_cast(v.map_values(|p: PageView| weighed(p, script))) == votes_cast(v),
    decreases v.len(),
{
    let w = v.map_values(|p: PageView| weighed(p, script));
    if v.len() > 0 {
        lemma_votes_weighed(v.drop_last(), script);
        assert(w.drop_last() =~= v.drop_last().map_values(|p: PageView| weighed(p, script)));
    }
}

/// Every result of every engine is one vote, for one page.
pub proof fn law_every_result_is_a_vote(found: Seq<FoundView>, lang: lang::LangView)
    ensures
        votes_cast(pages_for(found, lang)) == results_given(found),
    decreases found.len(),
{
    lemma_votes_weighed(pages_found(found, lang.code), lang.script);
    if found.len() > 0 {
        let prev = found.drop_last();
        law_every_result_is_a_vote(prev, lang);
        lemma_votes_weighed(pages_found(prev, lang.code), lang.script);
        lemma_votes_of_hits(
            pages_found(prev, lang.code),
            found.last().0,
            found.last().1,
            lang.code,
        );
    }
}

// The summary that is shown.

/// Whether the summary of a page is at least as long as that of a result for it.
pub open spec fn summed_up(v: Seq<PageView>, h: HitView) -> bool {
    forall|i: int|
        0 <= i < v.len() && norm(#[trigger] v[i].link) == norm(h.link) ==> v[i].snippet.len()
            >= h.snippet.len()
}

proof fn lemma_summed_up_kept(pages: Seq<PageView>, id: Seq<char>, h: HitView, vote: Vote, x: HitView)
    requires
        pages_ok(pages),
        has_page(pages, x.link),
        summed_up(pages, x),
    ensures
        summed_up(page_added(pages, id, h, vote), x),
{
    lemma_page_added(pages, id, h, vote);
    let after = page_added(pages, id, h, vote);
    let k = choose|k: int| 0 <= k < pages.len() && norm(#[trigger] pages[k].link) == norm(x.link);
    assert forall|i: int|
        0 <= i < after.len() && norm(#[trigger] after[i].link) == norm(x.link) implies
        after[i].snippet.len() >= x.snippet.len() by {
        if i < pages.len() {
            assert(after[i].link == pages[i].link);
            assert(after[i].snippet.len() >= pages[i].snippet.len());
        } else {
            assert(after[k].link == pages[k].link);
            assert(norm(after[k].link) != norm(after[i].link));
        }
    }
}

proof fn lemma_summed_up_new(pages: Seq<PageView>, id: Seq<char>, h: HitView, vote: Vote)
    requires
        pages_ok(pages),
    ensures
        summed_up(page_added(pages, id, h, vote), h),
{
    lemma_page_added(pages, id, h, vote);
    lemma_page_place(pages, norm(h.link));
    let after = page_added(pages, id, h, vote);
    let at = page_place(pages, norm(h.link));
    assert forall|i: int|
        0 <= i < after.len() && norm(#[trigger] after[i].link) == norm(h.link) implies
        after[i].snippet.len() >= h.snippet.len() by {
        if i < at {
            assert(after[i].link == pages[i].link);
        } else if i > at {
            assert(norm(after[at].link) == norm(h.link));
        }
    }
}

proof fn lemma_summed_up_hits(
    pages: Seq<PageView>,
    def: EngineView,
    hits: Seq<HitView>,
    code: Seq<char>,
    x: HitView,
)
    requires
        pages_ok(pages),
        has_page(pages, x.link) && summed_up(pages, x) || hits.contains(x),
    ensures
        summed_up(hits_added(pages, def, hits, code), x),
    decreases hits.len(),
{
    if hits.len() > 0 {
        let prev = hits.drop_last();
        let before = hits_added(pages, def, prev, code);
        let vote = vote_of(def, code, hits.len() - 1);
        lemma_hits_added(pages, def, prev, code);
        if hits.last() == x {
            lemma_summed_up_new(before, def.id, x, vote);
        } else {
            if hits.contains(x) {
                let k = choose|k: int| 0 <= k < hits.len() && hits[k] == x;
                assert(prev[k] == x);
                assert(prev.contains(x));
                assert(has_page(before, prev[k].link));
            } else {
                assert(has_page(before, x.link));
            }
            lemma_summed_up_hits(pages, def, prev, code, x);
            lemma_summed_up_kept(before, def.id, hits.last(), vote, x);
        }
    }
}

proof fn lemma_summed_up_found(found: Seq<FoundView>, code: Seq<char>, e: int, i: int)
    requires
        0 <= e < found.len(),
        0 <= i < found[e].1.len(),
    ensures
        summed_up(pages_found(found, code), found[e].1[i]),
    decreases found.len(),
{
    let x = found[e].1[i];
    let prev = found.drop_last();
    let (def, hits) = found.last();
    lemma_pages_found(prev, code);
    if e == found.len() - 1 {
        assert(hits[i] == x);
        assert(hits.contains(x));
    } else {
        lemma_summed_up_found(prev, code, e, i);
        assert(prev[e].1[i] == x);
        assert(has_page(pages_found(prev, code), prev[e].1[i].link));
    }
    lemma_summed_up_hits(pages_found(prev, code), def, hits, code, x);
}

/// The summary of a page is the longest that any engine gave for it: no result for the page has a
/// longer one.
pub proof fn law_longest_summary_is_kept(
    found: Seq<FoundView>,
    lang: lang::LangView,
    e: int,
    i: int,
    k: int,
)
    requires
        0 <= e < found.len(),
        0 <= i < found[e].1.len(),
        0 <= k < pages_for(found, lang).len(),
        norm(pages_for(found, lang)[k].link) == norm(found[e].1[i].link),
    ensures
        pages_for(found, lang)[k].snippet.len() >= found[e].1[i].snippet.len(),
{
    lemma_summed_up_found(found, lang.code, e, i);
    let plain = pages_found(found, lang.code);
    assert(pages_for(found, lang)[k].link == plain[k].link);
    assert(pages_for(found, lang)[k].snippet == plain[k].snippet);
}

// The order.

/// Whether scores never rise.
pub open spec fn falling(v: Seq<MergedView>) -> bool {
    forall|i: int, j: int|
        0 <= i < j < v.len() ==> (#[trigger] v[i]).score.key() >= (#[trigger] v[j]).score.key()
}

proof fn lemma_score_place(v: Seq<MergedView>, score: Double)
    ensures
        0 <= score_place(v, score) <= v.len(),
        forall|k: int|
            0 <= k < score_place(v, score) ==> (#[trigger] v[k]).score.key() >= score.key(),
        score_place(v, score) < v.len() ==> v[score_place(v, score)].score.key() < score.key(),
    decreases v.len(),
{
    if v.len() > 0 {
        lemma_score_place(v.skip(1), score);
        assert forall|k: int| 0 <= k < score_place(v, score) implies (#[trigger] v[k]).score.key()
            >= score.key() by {
            if k > 0 {
                assert(v[k] == v.skip(1)[k - 1]);
            }
        }
    }
}

/// The pages are shown by falling score, and they are the ones that there were, no more and no fewer.
pub proof fn law_order_is_by_score(v: Seq<MergedView>)
    ensures
        falling(by_score(v)),
        by_score(v).to_multiset() == v.to_multiset(),
        by_score(v).len() == v.len(),
    decreases v.len(),
{
    if v.len() > 0 {
        let prev = v.drop_last();
        law_order_is_by_score(prev);
        let sorted = by_score(prev);
        let x = v.last();
        lemma_score_place(sorted, x.score);
        let at = score_place(sorted, x.score);
        let after = sorted.insert(at, x);
        assert forall|i: int, j: int| 0 <= i < j < after.len() implies (
        #[trigger] after[i]).score.key() >= (#[trigger] after[j]).score.key() by {
            if i == at {
                assert(after[j] == sorted[j - 1]);
                if j - 1 > at {
                    assert(sorted[at].score.key() >= sorted[j - 1].score.key());
                }
            } else if j == at {
                assert(after[i] == sorted[i]);
            } else {
                let i0 = if i < at {
                    i
                } else {
                    i - 1
                };
                let j0 = if j < at {
                    j
                } else {
                    j - 1
                };
                assert(after[i] == sorted[i0] && after[j] == sorted[j0]);
            }
        }
        assert(v =~= prev.push(x));
        vstd::seq_lib::to_multiset_insert(sorted, at, x);
        prev.to_multiset_ensures();
        assert(prev.push(x).to_multiset() =~= prev.to_multiset().insert(x));
    } else {
        assert(by_score(v) =~= v);
    }
}

/// The pages with a score of that key, in their order.
pub open spec fn with_key(v: Seq<MergedView>, key: int) -> Seq<MergedView> {
    v.filter(|m: MergedView| m.score.key() == key)
}

proof fn lemma_none_with_key(v: Seq<MergedView>, key: int)
    requires
        forall|i: int| 0 <= i < v.len() ==> (#[trigger] v[i]).score.key() != key,
    ensures
        with_key(v, key) == Seq::<MergedView>::empty(),
    decreases v.len(),
{
    reveal(Seq::filter);
    if v.len() > 0 {
        let prev = v.drop_last();
        assert forall|i: int| 0 <= i < prev.len() implies (#[trigger] prev[i]).score.key()
            != key by {
            assert(v[i].score.key() != key);
        }
        lemma_none_with_key(prev, key);
        assert(v[v.len() - 1].score.key() != key);
    }
}

/// Of pages that score the same, the one that came first stays first: the pages of any one score stand
/// in the order in which they came.
pub proof fn law_order_is_stable(v: Seq<MergedView>, key: int)
    ensures
        with_key(by_score(v), key) == with_key(v, key),
    decreases v.len(),
{
    let pred = |m: MergedView| m.score.key() == key;
    if v.len() > 0 {
        let prev = v.drop_last();
        let x = v.last();
        let sorted = by_score(prev);
        law_order_is_stable(prev, key);
        law_order_is_by_score(prev);
        lemma_score_place(sorted, x.score);
        let at = score_place(sorted, x.score);
        let head = sorted.take(at);
        let tail = sorted.skip(at);
        let one = seq![x];
        assert(sorted =~= head + tail);
        assert(by_score(v) =~= head + one + tail);
        assert(v =~= prev + one);
        Seq::filter_distributes_over_add(head, tail, pred);
        Seq::filter_distributes_over_add(head + one, tail, pred);
        Seq::filter_distributes_over_add(head, one, pred);
        Seq::filter_distributes_over_add(prev, one, pred);
        reveal(Seq::filter);
        assert(one.drop_last() =~= Seq::empty());
        if x.score.key() == key {
            assert forall|i: int| 0 <= i < tail.len() implies (#[trigger] tail[i]).score.key()
                != key by {
                assert(tail[i] == sorted[at + i]);
                if i > 0 {
                    assert(sorted[at].score.key() >= sorted[at + i].score.key());
                }
            }
            lemma_none_with_key(tail, key);
            assert(tail.filter(pred) == Seq::<MergedView>::empty());
            assert(head.filter(pred) + one.filter(pred) + tail.filter(pred) =~= head.filter(pred)
                + tail.filter(pred) + one.filter(pred));
        } else {
            assert(one.filter(pred) =~= Seq::empty());
            assert(head.filter(pred) + one.filter(pred) + tail.filter(pred) =~= head.filter(pred)
                + tail.filter(pred) + one.filter(pred));
        }
    } else {
        assert(by_score(v) =~= v);
    }
}

proof fn lemma_of_factor(v: Seq<MergedView>, script: lang::ScriptView, factor: u32)
    ensures
        forall|i: int|
            0 <= i < of_factor(v, script, factor).len() ==> factor_in(
                #[trigger] of_factor(v, script, factor)[i],
                script,
            ) == factor,
        forall|i: int|
            0 <= i < of_factor(v, script, factor).len() ==> v.contains(
                #[trigger] of_factor(v, script, factor)[i],
            ),
        falling(v) ==> falling(of_factor(v, script, factor)),
    decreases v.len(),
{
    reveal(Seq::filter);
    if v.len() > 0 {
        let prev = v.drop_last();
        let x = v.last();
        let kept = of_factor(prev, script, factor);
        let all = of_factor(v, script, factor);
        lemma_of_factor(prev, script, factor);
        assert forall|i: int| 0 <= i < all.len() implies v.contains(#[trigger] all[i]) && factor_in(
            all[i],
            script,
        ) == factor by {
            if i < kept.len() {
                assert(all[i] == kept[i]);
                assert(prev.contains(kept[i]));
                let k = choose|k: int| 0 <= k < prev.len() && prev[k] == kept[i];
                assert(v[k] == all[i]);
            } else {
                assert(v[v.len() - 1] == all[i]);
            }
        }
        if falling(v) {
            assert forall|i: int, j: int| 0 <= i < j < prev.len() implies (
            #[trigger] prev[i]).score.key() >= (#[trigger] prev[j]).score.key() by {
                assert(v[i].score.key() >= v[j].score.key());
            }
            assert forall|i: int, j: int| 0 <= i < j < all.len() implies (
            #[trigger] all[i]).score.key() >= (#[trigger] all[j]).score.key() by {
                assert(all[i] == kept[i]);
                assert(prev.contains(kept[i]));
                let k = choose|k: int| 0 <= k < prev.len() && prev[k] == kept[i];
                if j < kept.len() {
                    assert(all[j] == kept[j]);
                } else {
                    assert(v[k].score.key() >= v[v.len() - 1].score.key());
                }
            }
        }
    }
}

/// Pages in the script that is looked for come first: whatever their scores, a page that is written in
/// it stands before one that only holds some of it, and both before one that holds no trace of it.
/// Among pages for which this is alike, no score rises.
pub proof fn law_pages_in_the_script_come_first(
    pages: Seq<PageView>,
    scores: Seq<Double>,
    script: lang::ScriptView,
    n: int,
    i: int,
    j: int,
)
    requires
        0 <= n,
        0 <= i < j < merged_list(pages, scores, script, n).len(),
    ensures
        ({
            let (a, b) = (
                merged_list(pages, scores, script, n)[i],
                merged_list(pages, scores, script, n)[j],
            );
            let (fa, fb) = (
                lang::page_factor(script, a.title, a.snippet),
                lang::page_factor(script, b.title, b.snippet),
            );
            &&& fa >= fb
            &&& !(fa == 5 && fb == 15)
            &&& fa == fb ==> a.score.key() >= b.score.key()
        }),
{
    let v = by_score(scored(pages, scores));
    law_order_is_by_score(scored(pages, scores));
    lemma_of_factor(v, script, 15);
    lemma_of_factor(v, script, 10);
    lemma_of_factor(v, script, 5);
    lemma_in_parts(of_factor(v, script, 15), of_factor(v, script, 10), of_factor(v, script, 5), i);
    lemma_in_parts(of_factor(v, script, 15), of_factor(v, script, 10), of_factor(v, script, 5), j);
}

/// Where an entry of three lists in a row comes from.
proof fn lemma_in_parts(a: Seq<MergedView>, b: Seq<MergedView>, c: Seq<MergedView>, i: int)
    requires
        0 <= i < (a + b + c).len(),
    ensures
        (a + b + c)[i] == if i < a.len() {
            a[i]
        } else if i < a.len() + b.len() {
            b[i - a.len()]
        } else {
            c[i - a.len() - b.len()]
        },
{
}

proof fn lemma_filter_apart(v: Seq<MergedView>, script: lang::ScriptView)
    ensures
        script_first(v, script).to_multiset() == v.to_multiset(),
        script_first(v, script).len() == v.len(),
    decreases v.len(),
{
    reveal(Seq::filter);
    broadcast use vstd::seq_lib::group_to_multiset_ensures;

    if v.len() > 0 {
        let prev = v.drop_last();
        let x = v.last();
        lemma_filter_apart(prev, script);
        let (a, b, c) = (
            of_factor(prev, script, 15),
            of_factor(prev, script, 10),
            of_factor(prev, script, 5),
        );
        let f = factor_in(x, script);
        assert(f == 15 || f == 10 || f == 5);
        let at = if f == 15 {
            a.len() as int
        } else if f == 10 {
            (a + b).len() as int
        } else {
            (a + b + c).len() as int
        };
        assert(script_first(v, script) =~= (a + b + c).insert(at, x));
        vstd::seq_lib::to_multiset_insert(a + b + c, at, x);
        assert(v =~= prev.push(x));
        assert(v.to_multiset() =~= prev.to_multiset().insert(x));
    } else {
        assert(script_first(v, script) =~= v);
    }
}

/// Putting pages in the script first loses no page and adds none.
pub proof fn law_script_only_changes_the_order(v: Seq<MergedView>, script: lang::ScriptView)
    ensures
        script_first(v, script).to_multiset() == v.to_multiset(),
        script_first(v, script).len() == v.len(),
{
    lemma_filter_apart(v, script);
}

/// In a language whose script tells nothing the order is by score alone.
pub proof fn law_latin_order_is_by_score(pages: Seq<PageView>, scores: Seq<Double>, n: int)
    ensures
        merged_list(pages, scores, lang::ScriptView::Latin, n) == at_most(
            by_score(scored(pages, scores)),
            n,
        ),
{
    let v = by_score(scored(pages, scores));
    lemma_all_alike(v, lang::ScriptView::Latin);
    assert(script_first(v, lang::ScriptView::Latin) =~= v);
}

proof fn lemma_all_alike(v: Seq<MergedView>, script: lang::ScriptView)
    requires
        script == lang::ScriptView::Latin,
    ensures
        of_factor(v, script, 15) == Seq::<MergedView>::empty(),
        of_factor(v, script, 10) == v,
        of_factor(v, script, 5) == Seq::<MergedView>::empty(),
    decreases v.len(),
{
    reveal(Seq::filter);
    if v.len() > 0 {
        lemma_all_alike(v.drop_last(), script);
        assert(factor_in(v.last(), script) == 10);
        assert(v.drop_last().push(v.last()) =~= v);
    } else {
        assert(of_factor(v, script, 10) =~= v);
    }
}

/// Whether a page has that factor and a score of that key.
pub open spec fn is_alike(m: MergedView, script: lang::ScriptView, factor: u32, key: int) -> bool {
    factor_in(m, script) == factor && m.score.key() == key
}

/// The pages with that factor and a score of that key, in their order.
pub open spec fn alike(v: Seq<MergedView>, script: lang::ScriptView, factor: u32, key: int) -> Seq<
    MergedView,
> {
    v.filter(|m: MergedView| is_alike(m, script, factor, key))
}

/// Of pages for which script and score are alike, the one that was found first comes first.
pub proof fn law_merged_order_is_stable(
    pages: Seq<PageView>,
    scores: Seq<Double>,
    script: lang::ScriptView,
    factor: u32,
    key: int,
)
    ensures
        alike(script_first(by_score(scored(pages, scores)), script), script, factor, key) == alike(
            scored(pages, scores),
            script,
            factor,
            key,
        ),
{
    let all = scored(pages, scores);
    let v = by_score(all);
    let pred = |m: MergedView| is_alike(m, script, factor, key);
    law_order_is_stable(all, key);
    lemma_alike_of_key(v, script, factor, key);
    lemma_alike_of_key(all, script, factor, key);
    let (a, b, c) = (of_factor(v, script, 15), of_factor(v, script, 10), of_factor(v, script, 5));
    Seq::filter_distributes_over_add(a + b, c, pred);
    Seq::filter_distributes_over_add(a, b, pred);
    lemma_alike_of_factor(v, script, 15, factor, key);
    lemma_alike_of_factor(v, script, 10, factor, key);
    lemma_alike_of_factor(v, script, 5, factor, key);
    if factor == 15 || factor == 10 || factor == 5 {
        assert(a.filter(pred) + b.filter(pred) + c.filter(pred) =~= alike(v, script, factor, key));
    } else {
        lemma_none_alike(v, script, factor, key);
        assert(a.filter(pred) + b.filter(pred) + c.filter(pred) =~= alike(v, script, factor, key));
    }
}

proof fn lemma_none_alike(v: Seq<MergedView>, script: lang::ScriptView, factor: u32, key: int)
    requires
        factor != 15,
        factor != 10,
        factor != 5,
    ensures
        alike(v, script, factor, key) == Seq::<MergedView>::empty(),
    decreases v.len(),
{
    reveal(Seq::filter);
    if v.len() > 0 {
        lemma_none_alike(v.drop_last(), script, factor, key);
    }
}

proof fn lemma_alike_of_key(v: Seq<MergedView>, script: lang::ScriptView, factor: u32, key: int)
    ensures
        alike(v, script, factor, key) == alike(with_key(v, key), script, factor, key),
    decreases v.len(),
{
    reveal(Seq::filter);
    if v.len() > 0 {
        let prev = v.drop_last();
        lemma_alike_of_key(prev, script, factor, key);
        if v.last().score.key() == key {
            assert(with_key(v, key).drop_last() =~= with_key(prev, key));
        }
    }
}

proof fn lemma_alike_of_factor(
    v: Seq<MergedView>,
    script: lang::ScriptView,
    part: u32,
    factor: u32,
    key: int,
)
    ensures
        alike(of_factor(v, script, part), script, factor, key) == if part == factor {
            alike(v, script, factor, key)
        } else {
            Seq::<MergedView>::empty()
        },
    decreases v.len(),
{
    reveal(Seq::filter);
    if v.len() > 0 {
        let prev = v.drop_last();
        lemma_alike_of_factor(prev, script, part, factor, key);
        if factor_in(v.last(), script) == part {
            assert(of_factor(v, script, part).drop_last() =~= of_factor(prev, script, part));
        }
    }
}

// What a link is, beyond what does not matter of it.

/// Everything else of a link matters: one by `https` or `http`, in lower case, without `www.`, fragment
/// and slash at its end, is what it is without its scheme. So two such links lead to the same page only
/// where they are the same.
pub proof fn law_everything_else_matters(rest: Seq<char>)
    requires
        !rest.contains('#'),
        forall|i: int| 0 <= i < rest.len() ==> !('A' <= #[trigger] rest[i] <= 'Z'),
        rest.len() > 0 ==> rest.last() != '/',
        !text::starts_with(rest, "www."@),
    ensures
        norm("https://"@ + rest) == rest,
        norm("http://"@ + rest) == rest,
{
    reveal_strlit("/");
    lemma_norm_of_web(rest);
    assert(text::lower(rest) =~= rest) by {
        assert forall|i: int| 0 <= i < rest.len() implies text::lower(rest)[i] == rest[i] by {
            assert(!('A' <= rest[i] <= 'Z'));
        }
    }
    text::law_before_the_first(rest, '#');
    assert(bare(rest) == rest);
    if text::ends_with(rest, "/"@) {
        assert(rest.subrange(rest.len() - 1, rest.len() as int)[0] == rest.last());
    }
}

// What becomes of the results of the engines.

/// A result of an engine: the id of the engine, its vote, and the result itself.
pub struct Given {
    pub id: Seq<char>,
    pub vote: Vote,
    pub hit: HitView,
}

/// The results of one engine, in their order.
pub open spec fn given_by(def: EngineView, hits: Seq<HitView>, code: Seq<char>) -> Seq<Given> {
    Seq::new(
        hits.len(),
        |i: int|
            Given {
                id: def.id,
                vote: Vote {
                    weight: def.weight,
                    favoured: engine::lists_language(def.langs, code),
                    rank: i as usize,
                },
                hit: hits[i],
            },
    )
}

/// The results of all engines, one engine after the other.
pub open spec fn given(found: Seq<FoundView>, code: Seq<char>) -> Seq<Given>
    decreases found.len(),
{
    if found.len() == 0 {
        Seq::empty()
    } else {
        given(found.drop_last(), code) + given_by(found.last().0, found.last().1, code)
    }
}

/// The results that lead to a page.
pub open spec fn given_for(g: Seq<Given>, link: Seq<char>) -> Seq<Given> {
    g.filter(|x: Given| norm(x.hit.link) == norm(link))
}

/// Whether a page is what its results make it: the title and the link are those of the first, `first`
/// being its place among all; each result counts as one vote; every engine that gave it is listed and no
/// other; and the summary is the first of the longest ones.
pub open spec fn is_made_of(p: PageView, g: Seq<Given>, first: int) -> bool {
    let mine = given_for(g, p.link);
    &&& 0 <= first < g.len()
    &&& p.title == g[first].hit.title
    &&& p.link == g[first].hit.link
    &&& forall|k: int| 0 <= k < first ==> norm((#[trigger] g[k]).hit.link) != norm(p.link)
    &&& p.votes == mine.map_values(|x: Given| x.vote)
    &&& p.engines.len() > 0 && p.engines[0] == g[first].id
    &&& forall|id: Seq<char>| #[trigger]
        p.engines.contains(id) <==> exists|k: int|
            0 <= k < mine.len() && (#[trigger] mine[k]).id == id
    &&& exists|k: int|
        0 <= k < mine.len() && (#[trigger] mine[k]).hit.snippet == p.snippet && forall|j: int|
            0 <= j < k ==> (#[trigger] mine[j]).hit.snippet.len() < p.snippet.len()
    &&& forall|k: int|
        0 <= k < mine.len() ==> (#[trigger] mine[k]).hit.snippet.len() <= p.snippet.len()
}

spec fn gathered(g: Seq<Given>) -> Seq<PageView>
    decreases g.len(),
{
    if g.len() == 0 {
        Seq::empty()
    } else {
        let x = g.last();
        page_added(gathered(g.drop_last()), x.id, x.hit, x.vote)
    }
}

proof fn lemma_gathered_hits(g: Seq<Given>, def: EngineView, hits: Seq<HitView>, code: Seq<char>)
    requires
        hits.len() <= usize::MAX,
    ensures
        hits_added(gathered(g), def, hits, code) == gathered(g + given_by(def, hits, code)),
    decreases hits.len(),
{
    let more = given_by(def, hits, code);
    if hits.len() == 0 {
        assert(g + more =~= g);
    } else {
        lemma_gathered_hits(g, def, hits.drop_last(), code);
        let all = g + more;
        assert(given_by(def, hits.drop_last(), code) =~= more.drop_last());
        assert(all.drop_last() =~= g + more.drop_last());
        assert(all.last() == more.last());
    }
}

/// Whether no engine gave more results than can be counted.
pub open spec fn counts_fit(found: Seq<FoundView>) -> bool {
    forall|e: int| 0 <= e < found.len() ==> (#[trigger] found[e]).1.len() <= usize::MAX
}

proof fn lemma_gathered_found(found: Seq<FoundView>, code: Seq<char>)
    requires
        counts_fit(found),
    ensures
        pages_found(found, code) == gathered(given(found, code)),
    decreases found.len(),
{
    if found.len() > 0 {
        let prev = found.drop_last();
        assert forall|e: int| 0 <= e < prev.len() implies (#[trigger] prev[e]).1.len()
            <= usize::MAX by {
            assert(prev[e] == found[e]);
        }
        lemma_gathered_found(prev, code);
        assert(found[found.len() - 1].1.len() <= usize::MAX);
        lemma_gathered_hits(given(prev, code), found.last().0, found.last().1, code);
    }
}

proof fn lemma_given_for_push(g: Seq<Given>, x: Given, link: Seq<char>)
    ensures
        given_for(g.push(x), link) == if norm(x.hit.link) == norm(link) {
            given_for(g, link).push(x)
        } else {
            given_for(g, link)
        },
{
    reveal(Seq::filter);
    assert(g.push(x).drop_last() =~= g);
}

proof fn lemma_given_for_none(g: Seq<Given>, link: Seq<char>)
    requires
        forall|k: int| 0 <= k < g.len() ==> norm((#[trigger] g[k]).hit.link) != norm(link),
    ensures
        given_for(g, link) == Seq::<Given>::empty(),
    decreases g.len(),
{
    reveal(Seq::filter);
    if g.len() > 0 {
        let prev = g.drop_last();
        assert forall|k: int| 0 <= k < prev.len() implies norm((#[trigger] prev[k]).hit.link) != norm(
            link,
        ) by {
            assert(prev[k] == g[k]);
        }
        lemma_given_for_none(prev, link);
        assert(norm(g[g.len() - 1].hit.link) != norm(link));
    }
}

proof fn lemma_made_of_more(p: PageView, g: Seq<Given>, x: Given, first: int)
    requires
        is_made_of(p, g, first),
    ensures
        norm(x.hit.link) != norm(p.link) ==> is_made_of(p, g.push(x), first),
        norm(x.hit.link) == norm(p.link) ==> is_made_of(
            voted(p, x.id, x.hit, x.vote),
            g.push(x),
            first,
        ),
{
    let more = g.push(x);
    lemma_given_for_push(g, x, p.link);
    let mine = given_for(g, p.link);
    assert(more[first] == g[first]);
    assert forall|k: int| 0 <= k < first implies norm((#[trigger] more[k]).hit.link) != norm(
        p.link,
    ) by {
        assert(more[k] == g[k]);
    }
    if norm(x.hit.link) == norm(p.link) {
        let after = voted(p, x.id, x.hit, x.vote);
        let now = mine.push(x);
        assert(given_for(more, after.link) == now);
        assert(after.votes =~= now.map_values(|x: Given| x.vote));
        assert forall|id: Seq<char>| #[trigger] after.engines.contains(id) <==> exists|k: int|
            0 <= k < now.len() && (#[trigger] now[k]).id == id by {
            if after.engines.contains(id) {
                if p.engines.contains(id) {
                    let k = choose|k: int| 0 <= k < mine.len() && (#[trigger] mine[k]).id == id;
                    assert(now[k].id == id);
                } else {
                    let e = choose|e: int| 0 <= e < after.engines.len() && after.engines[e] == id;
                    assert(e == p.engines.len()) by {
                        if e < p.engines.len() {
                            assert(p.engines[e] == id);
                            assert(p.engines.contains(id));
                        }
                    }
                    assert(now[mine.len() as int].id == id);
                }
            }
            if exists|k: int| 0 <= k < now.len() && (#[trigger] now[k]).id == id {
                let k = choose|k: int| 0 <= k < now.len() && (#[trigger] now[k]).id == id;
                if k < mine.len() {
                    assert(mine[k].id == id);
                    assert(p.engines.contains(id));
                    let e = choose|e: int| 0 <= e < p.engines.len() && p.engines[e] == id;
                    assert(after.engines[e] == id);
                } else if p.engines.contains(id) {
                    let e = choose|e: int| 0 <= e < p.engines.len() && p.engines[e] == id;
                    assert(after.engines[e] == id);
                } else {
                    assert(after.engines[p.engines.len() as int] == id);
                }
            }
        }
        let k = choose|k: int|
            0 <= k < mine.len() && (#[trigger] mine[k]).hit.snippet == p.snippet && forall|j: int|
                0 <= j < k ==> (#[trigger] mine[j]).hit.snippet.len() < p.snippet.len();
        if p.snippet.len() < x.hit.snippet.len() {
            let last = mine.len() as int;
            assert(now[last].hit.snippet == after.snippet);
            assert forall|j: int| 0 <= j < last implies (#[trigger] now[j]).hit.snippet.len()
                < after.snippet.len() by {
                assert(mine[j].hit.snippet.len() <= p.snippet.len());
            }
        } else {
            assert(now[k].hit.snippet == after.snippet);
            assert forall|j: int| 0 <= j < k implies (#[trigger] now[j]).hit.snippet.len()
                < after.snippet.len() by {
                assert(mine[j].hit.snippet.len() < p.snippet.len());
            }
        }
        assert forall|j: int| 0 <= j < now.len() implies (#[trigger] now[j]).hit.snippet.len()
            <= after.snippet.len() by {
            if j < mine.len() {
                assert(mine[j].hit.snippet.len() <= p.snippet.len());
            }
        }
    }
}

proof fn lemma_new_page_made_of(g: Seq<Given>, x: Given)
    requires
        forall|k: int| 0 <= k < g.len() ==> norm((#[trigger] g[k]).hit.link) != norm(x.hit.link),
    ensures
        is_made_of(new_page(x.id, x.hit, x.vote), g.push(x), g.len() as int),
{
    let more = g.push(x);
    let p = new_page(x.id, x.hit, x.vote);
    lemma_given_for_none(g, p.link);
    lemma_given_for_push(g, x, p.link);
    let mine = given_for(more, p.link);
    assert(mine =~= seq![x]);
    assert(p.votes =~= mine.map_values(|x: Given| x.vote));
    assert(mine[0].hit.snippet == p.snippet);
    assert forall|id: Seq<char>| #[trigger] p.engines.contains(id) <==> exists|k: int|
        0 <= k < mine.len() && (#[trigger] mine[k]).id == id by {
        assert(p.engines[0] == x.id);
        if id == x.id {
            assert(mine[0].id == id);
        }
    }
    assert forall|k: int| 0 <= k < g.len() implies norm((#[trigger] more[k]).hit.link) != norm(
        p.link,
    ) by {
        assert(more[k] == g[k]);
    }
}

proof fn lemma_gathered(g: Seq<Given>) -> (firsts: Seq<int>)
    ensures
        pages_ok(gathered(g)),
        firsts.len() == gathered(g).len(),
        forall|i: int|
            0 <= i < firsts.len() ==> is_made_of(gathered(g)[i], g, #[trigger] firsts[i]),
        forall|i: int, j: int| 0 <= i < j < firsts.len() ==> firsts[i] < firsts[j],
        forall|k: int| 0 <= k < g.len() ==> has_page(gathered(g), (#[trigger] g[k]).hit.link),
    decreases g.len(),
{
    if g.len() == 0 {
        Seq::empty()
    } else {
        let prev = g.drop_last();
        let x = g.last();
        let before = gathered(prev);
        let after = gathered(g);
        let old_firsts = lemma_gathered(prev);
        let key = norm(x.hit.link);
        lemma_page_place(before, key);
        lemma_page_added(before, x.id, x.hit, x.vote);
        let at = page_place(before, key);
        assert(g =~= prev.push(x));
        assert forall|k: int| 0 <= k < g.len() implies has_page(
            after,
            (#[trigger] g[k]).hit.link,
        ) by {
            if k < prev.len() {
                assert(has_page(before, prev[k].hit.link));
            }
        }
        let firsts = if at < before.len() {
            old_firsts
        } else {
            old_firsts.push(prev.len() as int)
        };
        assert forall|i: int| 0 <= i < firsts.len() implies is_made_of(
            after[i],
            g,
            #[trigger] firsts[i],
        ) by {
            if i < before.len() {
                assert(is_made_of(before[i], prev, old_firsts[i]));
                lemma_made_of_more(before[i], prev, x, old_firsts[i]);
                if i != at {
                    assert(norm(before[i].link) != key) by {
                        if i > at {
                            assert(norm(before[at].link) != norm(before[i].link));
                        }
                    }
                }
            } else {
                assert forall|k: int| 0 <= k < prev.len() implies norm(
                    (#[trigger] prev[k]).hit.link,
                ) != key by {
                    assert(has_page(before, prev[k].hit.link));
                    let j = choose|j: int|
                        0 <= j < before.len() && norm(#[trigger] before[j].link) == norm(
                            prev[k].hit.link,
                        );
                    assert(norm(before[j].link) != key);
                }
                lemma_new_page_made_of(prev, x);
            }
        }
        assert forall|i: int, j: int| 0 <= i < j < firsts.len() implies firsts[i] < firsts[j] by {
            if j == before.len() {
                assert(is_made_of(before[i], prev, old_firsts[i]));
            }
        }
        firsts
    }
}

proof fn lemma_weighed_made_of(p: PageView, g: Seq<Given>, first: int, script: lang::ScriptView)
    requires
        is_made_of(p, g, first),
    ensures
        is_made_of(weighed(p, script), g, first),
{
    let q = weighed(p, script);
    let mine = given_for(g, p.link);
    assert(q.engines == p.engines && q.votes == p.votes && q.snippet == p.snippet);
    assert(q.link == p.link && q.title == p.title);
    assert(given_for(g, q.link) == mine);
    let k = choose|k: int|
        0 <= k < mine.len() && (#[trigger] mine[k]).hit.snippet == p.snippet && forall|j: int|
            0 <= j < k ==> (#[trigger] mine[j]).hit.snippet.len() < p.snippet.len();
    assert(mine[k].hit.snippet == q.snippet);
}

/// Each page is just what the results that lead to it make it, in the order in which the pages were first
/// given: whatever engines gave, `firsts[i]` is the place of the result that page `i` was first given by.
pub proof fn law_pages_are_made_of_their_results(found: Seq<FoundView>, lang: lang::LangView) -> (firsts:
    Seq<int>)
    requires
        counts_fit(found),
    ensures
        ({
            let pages = pages_for(found, lang);
            let g = given(found, lang.code);
            &&& firsts.len() == pages.len()
            &&& forall|i: int|
                0 <= i < pages.len() ==> is_made_of(pages[i], g, #[trigger] firsts[i])
                    && pages[i].factor == lang::page_factor(
                    lang.script,
                    pages[i].title,
                    pages[i].snippet,
                )
            &&& forall|i: int, j: int| 0 <= i < j < firsts.len() ==> firsts[i] < firsts[j]
            &&& forall|k: int| 0 <= k < g.len() ==> has_page(pages, (#[trigger] g[k]).hit.link)
        }),
{
    let g = given(found, lang.code);
    lemma_gathered_found(found, lang.code);
    let plain = gathered(g);
    let pages = pages_for(found, lang);
    let firsts = lemma_gathered(g);
    assert forall|i: int| 0 <= i < pages.len() implies is_made_of(
        pages[i],
        g,
        #[trigger] firsts[i],
    ) && pages[i].factor == lang::page_factor(lang.script, pages[i].title, pages[i].snippet) by {
        assert(is_made_of(plain[i], g, firsts[i]));
        assert(pages[i] == weighed(plain[i], lang.script));
        lemma_weighed_made_of(plain[i], g, firsts[i], lang.script);
    }
    assert forall|k: int| 0 <= k < g.len() implies has_page(
        pages,
        (#[trigger] g[k]).hit.link,
    ) by {
        assert(has_page(plain, g[k].hit.link));
        let j = choose|j: int|
            0 <= j < plain.len() && norm(#[trigger] plain[j].link) == norm(g[k].hit.link);
        assert(pages[j].link == plain[j].link);
    }
    firsts
}

// What is shown of the pages.

/// A page as it is shown with its score: all of it, as it was gathered.
pub open spec fn shown_page(p: PageView, m: MergedView) -> bool {
    m.title == p.title && m.link == p.link && m.snippet == p.snippet && m.engines == p.engines
}

/// The pages that are shown are the gathered ones, each with its own title, link, summary and engines and
/// with its own score: every one of them exactly once where there is room for all, else the first ones in
/// the same order.
pub proof fn law_merged_pages_are_the_gathered_ones(
    pages: Seq<PageView>,
    scores: Seq<Double>,
    script: lang::ScriptView,
    n: int,
)
    requires
        0 <= n,
        pages.len() == scores.len(),
    ensures
        ({
            let shown = merged_list(pages, scores, script, n);
            let all = Seq::new(
                pages.len(),
                |i: int|
                    MergedView {
                        title: pages[i].title,
                        link: pages[i].link,
                        snippet: pages[i].snippet,
                        engines: pages[i].engines,
                        score: scores[i],
                    },
            );
            &&& shown.len() == if n < pages.len() {
                n
            } else {
                pages.len() as int
            }
            &&& forall|k: int|
                0 <= k < shown.len() ==> exists|i: int|
                    0 <= i < pages.len() && shown_page(#[trigger] pages[i], #[trigger] shown[k])
                        && shown[k].score == scores[i]
            &&& n >= pages.len() ==> shown.to_multiset() == all.to_multiset()
            &&& n < pages.len() ==> shown == merged_list(pages, scores, script, pages.len() as int).take(
                n,
            )
        }),
{
    let all = scored(pages, scores);
    let sorted = script_first(by_score(all), script);
    let shown = merged_list(pages, scores, script, n);
    law_order_is_by_score(all);
    law_script_only_changes_the_order(by_score(all), script);
    assert(all =~= Seq::new(
        pages.len(),
        |i: int|
            MergedView {
                title: pages[i].title,
                link: pages[i].link,
                snippet: pages[i].snippet,
                engines: pages[i].engines,
                score: scores[i],
            },
    ));
    assert forall|k: int| 0 <= k < shown.len() implies exists|i: int|
        0 <= i < pages.len() && shown_page(#[trigger] pages[i], #[trigger] shown[k])
            && shown[k].score == scores[i] by {
        assert(shown[k] == sorted[k]);
        sorted.to_multiset_ensures();
        all.to_multiset_ensures();
        assert(sorted.contains(sorted[k]));
        assert(sorted.to_multiset().count(sorted[k]) > 0);
        assert(all.contains(sorted[k]));
        let i = choose|i: int| 0 <= i < all.len() && all[i] == sorted[k];
        assert(shown_page(pages[i], shown[k]) && shown[k].score == scores[i]);
    }
}

/// New scores change nothing of a page but its score, and only of the first pages, one for each score.
pub proof fn law_reordered_pages_are_the_same(v: Seq<MergedView>, scores: Seq<Double>)
    ensures
        by_score(rescored(v, scores)).to_multiset() == Seq::new(
            v.len(),
            |i: int|
                if i < scores.len() {
                    MergedView {
                        title: v[i].title,
                        link: v[i].link,
                        snippet: v[i].snippet,
                        engines: v[i].engines,
                        score: scores[i],
                    }
                } else {
                    v[i]
                },
        ).to_multiset(),
        falling(by_score(rescored(v, scores))),
{
    law_order_is_by_score(rescored(v, scores));
    assert(rescored(v, scores) =~= Seq::new(
        v.len(),
        |i: int|
            if i < scores.len() {
                MergedView {
                    title: v[i].title,
                    link: v[i].link,
                    snippet: v[i].snippet,
                    engines: v[i].engines,
                    score: scores[i],
                }
            } else {
                v[i]
            },
    ));
}

/// Where there are too many pages the first ones are kept, as many as are wanted.
pub proof fn law_first_pages(v: Seq<MergedView>, n: int)
    requires
        0 <= n,
    ensures
        at_most(v, n).len() <= n,
        at_most(v, n).len() == n || at_most(v, n) == v,
        forall|i: int| 0 <= i < at_most(v, n).len() ==> #[trigger] at_most(v, n)[i] == v[i],
{
}

/// Contracts speak of every engine, every result and every page of a list, and of the whole of each.
pub proof fn law_pages_are_seen_whole(
    p: Page,
    f: Found,
    m: Merged,
    ps: Seq<Page>,
    fs: Seq<Found>,
    ms: Seq<Merged>,
)
    ensures
        p@.title == p.title@ && p@.link == p.link@ && p@.snippet == p.snippet@,
        p@.engines == text::texts(p.engines@) && p@.votes == p.votes@ && p@.factor == p.factor,
        f@.0 == f.def@ && f@.1 == engine::hit_views(f.hits@),
        m@.title == m.title@ && m@.link == m.link@ && m@.snippet == m.snippet@,
        m@.engines == text::texts(m.engines@) && m@.score == m.score,
        page_views(ps).len() == ps.len(),
        forall|i: int| 0 <= i < ps.len() ==> #[trigger] page_views(ps)[i] == ps[i]@,
        found_views(fs).len() == fs.len(),
        forall|i: int| 0 <= i < fs.len() ==> #[trigger] found_views(fs)[i] == fs[i]@,
        merged_views(ms).len() == ms.len(),
        forall|i: int| 0 <= i < ms.len() ==> #[trigger] merged_views(ms)[i] == ms[i]@,
{
}

} // verus!
