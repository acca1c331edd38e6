//! A round through all engines: each is tried, and mended where it is broken.
//!
//! The round decides what is done next; doing it (asking an engine or the AI, writing the log, saving
//! the settings) is left to the program around it, which hands in what came of it.

use vstd::prelude::*;

use crate::engine::{self, EngineDef, EngineView};
use crate::maintain::{
    self, applied_detail, candidate, judge, plan_repair, report_line, Checkup, CheckupView, Finding, Plan,
    PlanView, Report, SKIPPED_DETAIL, UNREACHABLE_DETAIL,
};
use crate::text::{self, copy_strings};
use crate::web;

verus! {

/// How many searches each engine is tried with.
pub const TRIES: usize = 2;

/// What a round waits for.
#[derive(Clone, Copy, Debug, PartialEq, Eq, Structural)]
pub enum Waiting {
    /// A search that an engine is tried with.
    Trial,
    /// The answer of the AI.
    Answer,
    /// A search with an engine that has been mended.
    Proof,
}

/// A round through all engines.
pub struct Round {
    /// The engines that are tried.
    pub engines: Vec<EngineDef>,
    /// The place of the one that is being tried.
    pub at: usize,
    /// The place of the search that it is being tried with.
    pub canary: usize,
    pub checkup: Checkup,
    pub waiting: Waiting,
    /// What there is to report so far.
    pub report: Vec<String>,
}

pub struct RoundView {
    pub engines: Seq<EngineView>,
    pub at: nat,
    pub canary: nat,
    pub checkup: CheckupView,
    pub waiting: Waiting,
    pub report: Seq<Seq<char>>,
}

impl View for Round {
    type V = RoundView;

    open spec fn view(&self) -> RoundView {
        RoundView {
            engines: engine::engine_views(self.engines@),
            at: self.at as nat,
            canary: self.canary as nat,
            checkup: self.checkup@,
            waiting: self.waiting,
            report: text::texts(self.report@),
        }
    }
}

/// What is done next.
pub enum Next {
    /// A search with this engine: the one of the canaries with that place.
    Search(EngineDef, usize),
    /// The AI is asked this.
    Ask(String),
    /// Nothing: the round is over.
    Over,
}

pub enum NextView {
    Search(EngineView, nat),
    Ask(Seq<char>),
    Over,
}

impl View for Next {
    type V = NextView;

    open spec fn view(&self) -> NextView {
        match *self {
            Next::Search(e, i) => NextView::Search(e@, i as nat),
            Next::Ask(p) => NextView::Ask(p@),
            Next::Over => NextView::Over,
        }
    }
}

/// A line for the log: the engine, what happened, and more about it.
pub struct LogLine {
    pub engine: String,
    pub outcome: String,
    pub detail: String,
}

pub struct LogView {
    pub engine: Seq<char>,
    pub outcome: Seq<char>,
    pub detail: Seq<char>,
}

impl View for LogLine {
    type V = LogView;

    open spec fn view(&self) -> LogView {
        LogView { engine: self.engine@, outcome: self.outcome@, detail: self.detail@ }
    }
}

/// What is to be done at a point of a round.
pub struct Step {
    /// The definition that takes the place of the one with its id.
    pub adopt: Option<EngineDef>,
    pub log: Option<LogLine>,
    pub next: Next,
}

pub struct StepView {
    pub adopt: Option<EngineView>,
    pub log: Option<LogView>,
    pub next: NextView,
}

impl View for Step {
    type V = StepView;

    open spec fn view(&self) -> StepView {
        StepView {
            adopt: match self.adopt {
                Some(e) => Some(e@),
                None => None,
            },
            log: match self.log {
                Some(l) => Some(l@),
                None => None,
            },
            next: self.next@,
        }
    }
}

/// What came of what was done.
pub enum Event {
    /// Of a search: how many results were read, if any, and the last page fetched from the engine.
    Searched(Option<usize>, String),
    /// Of asking the AI: its answer, or an error in words.
    Answered(Result<String, String>),
}

pub enum EventView {
    Searched(Option<usize>, Seq<char>),
    Answered(Result<Seq<char>, Seq<char>>),
}

impl View for Event {
    type V = EventView;

    open spec fn view(&self) -> EventView {
        match *self {
            Event::Searched(n, html) => EventView::Searched(n, html@),
            Event::Answered(a) => EventView::Answered(
                match a {
                    Ok(s) => Ok(s@),
                    Err(e) => Err(e@),
                },
            ),
        }
    }
}

/// The engines that are switched on, in their order.
pub open spec fn enabled_ones(v: Seq<EngineView>) -> Seq<EngineView>
    decreases v.len(),
{
    if v.len() == 0 {
        Seq::empty()
    } else if v.last().enabled {
        enabled_ones(v.drop_last()).push(v.last())
    } else {
        enabled_ones(v.drop_last())
    }
}

pub open spec fn fresh_checkup() -> CheckupView {
    CheckupView { ok_count: 0, broken: None }
}

impl RoundView {
    /// What holds of a round at every point: there is something to report of each engine that it is
    /// through with, the pages that it keeps are small enough to be read, and a broken engine has one
    /// while the AI is asked about it.
    pub open spec fn wf(self) -> bool {
        &&& self.at <= self.engines.len()
        &&& self.at <= self.report.len()
        &&& self.canary < TRIES
        &&& self.checkup.ok_count <= TRIES
        &&& self.waiting == Waiting::Trial ==> self.checkup.ok_count <= self.canary
        &&& self.checkup.broken matches Some((html, _)) ==> web::page_fits(html)
        &&& self.waiting == Waiting::Answer ==> self.checkup.broken is Some
    }

    pub open spec fn is_over(self) -> bool {
        self.at >= self.engines.len()
    }
}

/// What is done when it is the turn of an engine: the first search with it, if there is such an engine.
pub open spec fn turn(engines: Seq<EngineView>, at: nat) -> NextView {
    if at < engines.len() {
        NextView::Search(engines[at as int], 0)
    } else {
        NextView::Over
    }
}

/// The round at the turn of the next engine, with one line more to report.
pub open spec fn moved_on(r: RoundView, line: Seq<char>) -> RoundView {
    RoundView {
        at: r.at + 1,
        canary: 0,
        checkup: fresh_checkup(),
        waiting: Waiting::Trial,
        report: r.report.push(line),
        ..r
    }
}

pub open spec fn log_line(def: EngineView, outcome: Seq<char>, detail: Seq<char>) -> Option<LogView> {
    Some(LogView { engine: def.id, outcome, detail })
}

/// What follows when all searches with an engine have been made.
pub open spec fn round_found(r: RoundView, c: CheckupView) -> (RoundView, StepView) {
    let def = r.engines[r.at as int];
    let next = turn(r.engines, r.at + 1);
    match maintain::finding_of(c) {
        Finding::Fine => (
            moved_on(r, maintain::report_text(def.id, Report::Fine(c.ok_count as usize))),
            StepView { adopt: None, log: None, next },
        ),
        Finding::Unreachable => (
            moved_on(r, maintain::report_text(def.id, Report::Unreachable)),
            StepView {
                adopt: None,
                log: log_line(def, "unreachable"@, UNREACHABLE_DETAIL@),
                next,
            },
        ),
        Finding::Broken => {
            let (html, query) = c.broken->Some_0;
            match maintain::plan_for(def, query, maintain::condensed(html)) {
                PlanView::Skip => (
                    moved_on(r, maintain::report_text(def.id, Report::Broken(false))),
                    StepView { adopt: None, log: log_line(def, "skipped"@, SKIPPED_DETAIL@), next },
                ),
                PlanView::Ask(prompt) => (
                    RoundView { checkup: c, waiting: Waiting::Answer, ..r },
                    StepView { adopt: None, log: None, next: NextView::Ask(prompt) },
                ),
            }
        },
    }
}

/// What follows on a search that an engine is tried with.
pub open spec fn round_tried(r: RoundView, hits: Option<usize>, html: Seq<char>) -> (
    RoundView,
    StepView,
) {
    let query = maintain::CANARIES@[r.canary as int].0@;
    let c = maintain::checkup_noted(r.checkup, hits, html, query);
    if r.canary + 1 < TRIES {
        (
            RoundView { canary: r.canary + 1, checkup: c, ..r },
            StepView {
                adopt: None,
                log: None,
                next: NextView::Search(r.engines[r.at as int], r.canary + 1),
            },
        )
    } else {
        round_found(r, c)
    }
}

/// What follows on a judgement of what the AI answered.
pub open spec fn round_judged(
    r: RoundView,
    judgement: Result<(EngineView, nat), Seq<char>>,
) -> (RoundView, StepView) {
    let def = r.engines[r.at as int];
    match judgement {
        Err(e) => (
            moved_on(r, maintain::report_text(def.id, Report::Broken(false))),
            StepView {
                adopt: None,
                log: log_line(def, "rejected"@, e),
                next: turn(r.engines, r.at + 1),
            },
        ),
        Ok(x) => (
            RoundView {
                waiting: Waiting::Proof,
                report: r.report.push(maintain::report_text(def.id, Report::Broken(true))),
                ..r
            },
            StepView {
                adopt: Some(x.0),
                log: log_line(def, "applied"@, maintain::applied_text(x.1, x.0)),
                next: NextView::Search(x.0, 0),
            },
        ),
    }
}

/// What follows on an event.
pub open spec fn round_next(r: RoundView, event: EventView) -> (RoundView, StepView) {
    let def = r.engines[r.at as int];
    match event {
        EventView::Answered(answer) => round_judged(
            r,
            maintain::judged(def, r.checkup.broken->Some_0.0, answer),
        ),
        EventView::Searched(hits, html) => if r.waiting == Waiting::Proof {
            (
                moved_on(r, maintain::report_text(def.id, Report::Again(hits is Some))),
                StepView { adopt: None, log: None, next: turn(r.engines, r.at + 1) },
            )
        } else {
            round_tried(r, hits, html)
        },
    }
}

/// Whether an event is one that the round waits for.
pub open spec fn awaited(r: RoundView, event: EventView) -> bool {
    &&& !r.is_over()
    &&& r.waiting == Waiting::Answer <==> event is Answered
    &&& event matches EventView::Searched(_, html) ==> web::page_fits(html)
}

/// Whether the definition that an answer of the AI makes, if the event is one, can be tried on the page
/// from which nothing was read.
pub open spec fn can_be_tried(r: RoundView, event: EventView) -> bool {
    event matches EventView::Answered(answer) ==> (r.checkup.broken matches Some((html, _)) ==> (
    maintain::candidate_of(r.engines[r.at as int], answer) matches Ok(made) ==> engine::can_read(
        made,
        html,
    )))
}

/// The start of a round.
pub open spec fn round_start(all: Seq<EngineView>) -> (RoundView, StepView) {
    let engines = enabled_ones(all);
    (
        RoundView {
            engines,
            at: 0,
            canary: 0,
            checkup: fresh_checkup(),
            waiting: Waiting::Trial,
            report: Seq::empty(),
        },
        StepView { adopt: None, log: None, next: turn(engines, 0) },
    )
}

fn line(def_id: &str, outcome: &str, detail: &str) -> (r: Option<LogLine>)
    ensures
        r matches Some(l) && l@ == (LogView {
            engine: def_id@,
            outcome: outcome@,
            detail: detail@,
        }),
{
    Some(
        LogLine {
            engine: def_id.to_string(),
            outcome: outcome.to_string(),
            detail: detail.to_string(),
        },
    )
}

impl Round {
    /// Starts a round through the engines that are switched on.
    pub fn start(all: &Vec<EngineDef>) -> (r: (Round, Step))
        ensures
            (r.0@, r.1@) == round_start(engine::engine_views(all@)),
            r.0@.wf(),
    {
        let mut engines: Vec<EngineDef> = Vec::new();
        let ghost views = engine::engine_views(all@);
        assert(engine::engine_views(engines@) =~= enabled_ones(views.take(0)));
        for i in 0..all.len()
            invariant
                views == engine::engine_views(all@),
                engine::engine_views(engines@) == enabled_ones(views.take(i as int)),
        {
            assert(views.take(i + 1).drop_last() == views.take(i as int));
            assert(views.take(i + 1).last() == all@[i as int]@);
            if all[i].enabled {
                let ghost prev = engines@;
                let e = all[i].copy();
                engines.push(e);
                assert(engine::engine_views(engines@) =~= engine::engine_views(prev).push(e@));
            }
        }
        assert(views.take(all@.len() as int) == views);
        let round = Round {
            engines,
            at: 0,
            canary: 0,
            checkup: Checkup::new(),
            waiting: Waiting::Trial,
            report: Vec::new(),
        };
        assert(text::texts(round.report@) =~= Seq::<Seq<char>>::empty());
        let next = round.turn();
        (round, Step { adopt: None, log: None, next })
    }

    fn turn(&self) -> (r: Next)
        ensures
            r@ == turn(self@.engines, self@.at),
    {
        if self.at < self.engines.len() {
            Next::Search(self.engines[self.at].copy(), 0)
        } else {
            Next::Over
        }
    }

    fn add_line(&mut self, report: Report)
        requires
            old(self).at < old(self).engines@.len(),
        ensures
            final(self)@ == (RoundView {
                report: old(self)@.report.push(
                    maintain::report_text(old(self)@.engines[old(self)@.at as int].id, report),
                ),
                ..old(self)@
            }),
            final(self).engines == old(self).engines,
            final(self).at == old(self).at,
    {
        let ghost before = text::texts(self.report@);
        let line = report_line(self.engines[self.at].id.as_str(), report);
        self.report.push(line);
        assert(text::texts(self.report@) =~= before.push(line@));
    }

    fn move_on(&mut self, report: Report, log: Option<LogLine>) -> (r: Step)
        requires
            old(self).at < old(self).engines@.len(),
        ensures
            final(self)@ == moved_on(
                old(self)@,
                maintain::report_text(old(self)@.engines[old(self)@.at as int].id, report),
            ),
            r@ == (StepView {
                adopt: None,
                log: match log {
                    Some(l) => Some(l@),
                    None => None,
                },
                next: turn(old(self)@.engines, old(self)@.at + 1),
            }),
    {
        self.add_line(report);
        let n: usize = self.engines.len();
        assert(self.at < n);
        self.at += 1;
        self.canary = 0;
        self.checkup = Checkup::new();
        self.waiting = Waiting::Trial;
        let next = self.turn();
        Step { adopt: None, log, next }
    }

    fn found(&mut self) -> (r: Step)
        requires
            old(self).at < old(self).engines@.len(),
            old(self)@.at <= old(self)@.report.len(),
            old(self).canary < TRIES,
            old(self)@.checkup.ok_count <= TRIES,
            old(self)@.checkup.broken matches Some((html, _)) ==> web::page_fits(html),
        ensures
            (final(self)@, r@) == round_found(old(self)@, old(self)@.checkup),
            final(self)@.wf(),
    {
        let id = self.engines[self.at].id.clone();
        match self.checkup.finding() {
            Finding::Fine => {
                let n: usize = self.checkup.ok_count;
                self.move_on(Report::Fine(n), None)
            },
            Finding::Unreachable => {
                let log = line(id.as_str(), "unreachable", UNREACHABLE_DETAIL);
                self.move_on(Report::Unreachable, log)
            },
            Finding::Broken => {
                let plan: Plan = match &self.checkup.broken {
                    Some(x) => plan_repair(&self.engines[self.at], x.0.as_str(), x.1.as_str()),
                    None => Plan::Skip,
                };
                match plan {
                    Plan::Skip => {
                        let log = line(id.as_str(), "skipped", SKIPPED_DETAIL);
                        self.move_on(Report::Broken(false), log)
                    },
                    Plan::Ask(prompt) => {
                        self.waiting = Waiting::Answer;
                        Step { adopt: None, log: None, next: Next::Ask(prompt) }
                    },
                }
            },
        }
    }

    /// Takes in how what the AI answered was judged.
    pub fn judged(&mut self, judgement: Result<(EngineDef, usize), String>) -> (r: Step)
        requires
            old(self)@.wf(),
            !old(self)@.is_over(),
        ensures
            (final(self)@, r@) == round_judged(old(self)@, maintain::judgement(judgement)),
            final(self)@.wf(),
    {
        let id = self.engines[self.at].id.clone();
        match judgement {
            Err(e) => {
                let log = line(id.as_str(), "rejected", e.as_str());
                self.move_on(Report::Broken(false), log)
            },
            Ok(x) => {
                let (made, n): (EngineDef, usize) = x;
                self.add_line(Report::Broken(true));
                self.waiting = Waiting::Proof;
                let detail = applied_detail(n, &made);
                let log = line(id.as_str(), "applied", detail.as_str());
                let again = made.copy();
                Step { adopt: Some(made), log, next: Next::Search(again, 0) }
            },
        }
    }

    /// Takes in what came of what was done, and says what is done next; unless an answer of the AI
    /// cannot be tried on the page that it is about.
    pub fn try_step(&mut self, event: Event) -> (r: Option<Step>)
        requires
            old(self)@.wf(),
            awaited(old(self)@, event@),
        ensures
            r is Some <==> can_be_tried(old(self)@, event@),
            r matches Some(s) ==> (final(self)@, s@) == round_next(old(self)@, event@),
            r is None ==> final(self)@ == old(self)@,
            final(self)@.wf(),
    {
        let fits: bool = match (&event, &self.checkup.broken) {
            (Event::Answered(answer), Some(x)) => match candidate(&self.engines[self.at], answer) {
                Ok(made) => made.can_read_page(x.0.as_str()),
                Err(_) => true,
            },
            _ => true,
        };
        if fits {
            Some(self.step(event))
        } else {
            None
        }
    }

    /// Takes in what came of what was done, and says what is done next.
    pub fn step(&mut self, event: Event) -> (r: Step)
        requires
            old(self)@.wf(),
            awaited(old(self)@, event@),
            can_be_tried(old(self)@, event@),
        ensures
            (final(self)@, r@) == round_next(old(self)@, event@),
            final(self)@.wf(),
    {
        match event {
            Event::Answered(answer) => {
                let judgement: Result<(EngineDef, usize), String> = match &self.checkup.broken {
                    Some(x) => judge(&self.engines[self.at], x.0.as_str(), answer),
                    None => Err(String::new()),
                };
                self.judged(judgement)
            },
            Event::Searched(hits, html) => {
                if self.waiting == Waiting::Proof {
                    return self.move_on(Report::Again(hits.is_some()), None);
                }
                let query: &'static str = maintain::CANARIES[self.canary].0;
                self.checkup.note(hits, html.as_str(), query);
                if self.canary + 1 < TRIES {
                    self.canary += 1;
                    let e = self.engines[self.at].copy();
                    Step { adopt: None, log: None, next: Next::Search(e, self.canary) }
                } else {
                    self.found()
                }
            },
        }
    }

    /// What there is to report.
    pub fn lines(&self) -> (r: Vec<String>)
        ensures
            text::texts(r@) == self@.report,
    {
        copy_strings(&self.report)
    }
}

// ---------------------------------------------------------------------------
// Laws
// ---------------------------------------------------------------------------

/// How many things are still to be done in a round, at most.
pub open spec fn work_left(r: RoundView) -> int {
    (r.engines.len() - r.at) * 4 - match r.waiting {
        Waiting::Trial => r.canary as int,
        Waiting::Answer => 2,
        Waiting::Proof => 3,
    }
}

/// A round comes to an end, whatever the engines and the AI do: at most four things are done for each
/// engine, and each step leaves less to be done.
pub proof fn law_rounds_end(r: RoundView, event: EventView)
    requires
        r.wf(),
        awaited(r, event),
    ensures
        ({
            let (after, step) = round_next(r, event);
            &&& work_left(after) < work_left(r)
            &&& work_left(after) >= 0
            &&& step.next is Over <==> after.is_over()
        }),
{
}

/// A round after a list of events.
pub open spec fn run(all: Seq<EngineView>, events: Seq<EventView>) -> RoundView
    decreases events.len(),
{
    if events.len() == 0 {
        round_start(all).0
    } else {
        round_next(run(all, events.drop_last()), events.last()).0
    }
}

/// Whether each of the events is one that the round waits for when it comes.
pub open spec fn run_awaited(all: Seq<EngineView>, events: Seq<EventView>) -> bool
    decreases events.len(),
{
    events.len() == 0 || (run_awaited(all, events.drop_last()) && awaited(
        run(all, events.drop_last()),
        events.last(),
    ))
}

/// The places of the engines that were replaced in the course of these events.
pub open spec fn mended(all: Seq<EngineView>, events: Seq<EventView>) -> Set<int>
    decreases events.len(),
{
    if events.len() == 0 {
        Set::empty()
    } else {
        let before = run(all, events.drop_last());
        if round_next(before, events.last()).1.adopt is Some {
            mended(all, events.drop_last()).insert(before.at as int)
        } else {
            mended(all, events.drop_last())
        }
    }
}

/// How many lines there are on the engines before place `k`: two on each that was replaced, one on each
/// other.
pub open spec fn lines_before(mended: Set<int>, k: int) -> int
    decreases k,
{
    if k <= 0 {
        0
    } else {
        lines_before(mended, k - 1) + if mended.contains(k - 1) {
            2int
        } else {
            1int
        }
    }
}

/// Whether a line is the only one on an engine: that it is fine, could not be reached, or is broken and
/// was not mended.
pub open spec fn is_only_line(line: Seq<char>, id: Seq<char>) -> bool {
    ||| exists|n: usize| line == #[trigger] maintain::report_text(id, Report::Fine(n))
    ||| line == maintain::report_text(id, Report::Unreachable)
    ||| line == maintain::report_text(id, Report::Broken(false))
}

/// Whether the lines from place `p` of the report on are those on an engine.
pub open spec fn lines_on(report: Seq<Seq<char>>, p: int, id: Seq<char>, was_mended: bool) -> bool {
    &&& text::starts_with(report[p], id)
    &&& if was_mended {
        &&& report[p] == maintain::report_text(id, Report::Broken(true))
        &&& text::starts_with(report[p + 1], id)
        &&& report[p + 1] == maintain::report_text(id, Report::Again(true)) || report[p + 1]
            == maintain::report_text(id, Report::Again(false))
    } else {
        is_only_line(report[p], id)
    }
}

proof fn lemma_report_starts_with_id(id: Seq<char>, report: Report)
    ensures
        text::starts_with(maintain::report_text(id, report), id),
{
    let line = maintain::report_text(id, report);
    assert(line.subrange(0, id.len() as int) =~= id);
}

proof fn lemma_lines_before(m: Set<int>, at: int, k: int)
    requires
        k <= at,
    ensures
        lines_before(m.insert(at), k) == lines_before(m, k),
    decreases k,
{
    if k > 0 {
        lemma_lines_before(m, at, k - 1);
    }
}

proof fn lemma_lines_rise(m: Set<int>, k: int, at: int)
    requires
        0 <= k < at,
    ensures
        0 <= lines_before(m, k),
        lines_before(m, k) + (if m.contains(k) {
            2int
        } else {
            1int
        }) <= lines_before(m, at),
    decreases at,
{
    if k + 1 < at {
        lemma_lines_rise(m, k, at - 1);
    } else {
        lemma_lines_positive(m, k);
    }
}

proof fn lemma_lines_positive(m: Set<int>, k: int)
    ensures
        lines_before(m, k) >= 0,
    decreases k,
{
    if k > 0 {
        lemma_lines_positive(m, k - 1);
    }
}

/// What holds of the report at any point of a round.
spec fn report_in_order(r: RoundView, m: Set<int>) -> bool {
    &&& r.report.len() == lines_before(m, r.at as int) + if r.waiting == Waiting::Proof {
        1int
    } else {
        0int
    }
    &&& r.waiting == Waiting::Proof <==> m.contains(r.at as int)
    &&& r.waiting == Waiting::Proof ==> !r.is_over() && r.report.last() == maintain::report_text(
        r.engines[r.at as int].id,
        Report::Broken(true),
    )
    &&& forall|k: int| #[trigger] m.contains(k) ==> 0 <= k <= r.at
    &&& forall|k: int|
        0 <= k < r.at ==> lines_on(
            r.report,
            lines_before(m, k),
            #[trigger] r.engines[k].id,
            m.contains(k),
        )
}

proof fn lemma_run(all: Seq<EngineView>, events: Seq<EventView>)
    requires
        run_awaited(all, events),
    ensures
        run(all, events).wf(),
        run(all, events).engines == enabled_ones(all),
        report_in_order(run(all, events), mended(all, events)),
    decreases events.len(),
{
    if events.len() > 0 {
        let prev = events.drop_last();
        lemma_run(all, prev);
        let r = run(all, prev);
        let event = events.last();
        let (after, step) = round_next(r, event);
        let m0 = mended(all, prev);
        let m = mended(all, events);
        let at = r.at as int;
        let id = r.engines[at].id;
        lemma_lines_positive(m0, at);
        lemma_lines_before(m0, at, at);
        assert(after.wf());
        assert forall|k: int| 0 <= k < at implies lines_on(
            after.report,
            lines_before(m, k),
            #[trigger] after.engines[k].id,
            m.contains(k),
        ) by {
            assert(lines_on(r.report, lines_before(m0, k), r.engines[k].id, m0.contains(k)));
            lemma_lines_before(m0, at, k);
            lemma_lines_rise(m0, k, at);
        }
        if after.at == at + 1 {
            assert(m == m0);
            let line = after.report.last();
            lemma_report_starts_with_id(id, Report::Broken(true));
            lemma_report_starts_with_id(id, Report::Broken(false));
            lemma_report_starts_with_id(id, Report::Again(true));
            lemma_report_starts_with_id(id, Report::Again(false));
            lemma_report_starts_with_id(id, Report::Unreachable);
            assert(lines_on(after.report, lines_before(m, at), id, m.contains(at))) by {
                if r.waiting == Waiting::Proof {
                    assert(after.report[lines_before(m, at)] == r.report.last());
                } else if event is Searched {
                    let c = maintain::checkup_noted(
                        r.checkup,
                        event->Searched_0,
                        event->Searched_1,
                        maintain::CANARIES@[r.canary as int].0@,
                    );
                    lemma_report_starts_with_id(id, Report::Fine(c.ok_count as usize));
                }
            }
        }
    }
}

/// At every point of a round the report tells of the engines that are switched on and that the round is
/// through with, in their order. On each there is one line, which begins with its id; and right after it
/// one line more exactly where the engine was replaced in the course of the round.
pub proof fn law_report_of_a_round(all: Seq<EngineView>, events: Seq<EventView>)
    requires
        run_awaited(all, events),
    ensures
        ({
            let r = run(all, events);
            let m = mended(all, events);
            &&& r.engines == enabled_ones(all)
            &&& r.report.len() == lines_before(m, r.at as int) + if r.waiting == Waiting::Proof {
                1int
            } else {
                0int
            }
            &&& r.is_over() ==> r.at == enabled_ones(all).len() && r.waiting != Waiting::Proof
            &&& forall|k: int|
                0 <= k < r.at ==> lines_on(
                    r.report,
                    lines_before(m, k),
                    #[trigger] enabled_ones(all)[k].id,
                    m.contains(k),
                )
        }),
{
    lemma_run(all, events);
}

/// In a round an engine is replaced only on an answer of the AI, only by a definition with its own id
/// that fetches from the same address, and only where at least three results are read with it from the
/// page from which nothing was read before.
pub proof fn law_rounds_adopt_only_what_is_proven(r: RoundView, event: EventView)
    requires
        r.wf(),
        awaited(r, event),
    ensures
        round_next(r, event).1.adopt matches Some(made) ==> {
            &&& r.waiting == Waiting::Answer
            &&& made.id == r.engines[r.at as int].id
            &&& made.url == r.engines[r.at as int].url
            &&& made.weight == r.engines[r.at as int].weight
            &&& made.enabled == r.engines[r.at as int].enabled
            &&& engine::usable(made)
            &&& engine::page_hits(made, r.checkup.broken->Some_0.0).len() >= maintain::MIN_HITS
        },
{
    if let EventView::Answered(answer) = event {
        maintain::law_adopted_definitions_are_proven(
            r.engines[r.at as int],
            r.checkup.broken->Some_0.0,
            answer,
        );
    }
}

proof fn lemma_enabled_ones(v: Seq<EngineView>)
    ensures
        forall|i: int| 0 <= i < enabled_ones(v).len() ==> (#[trigger] enabled_ones(v)[i]).enabled,
        enabled_ones(v).len() <= v.len(),
    decreases v.len(),
{
    if v.len() > 0 {
        lemma_enabled_ones(v.drop_last());
    }
}

/// Engines that are switched off are never asked in a round.
pub proof fn law_rounds_leave_out_engines_switched_off(all: Seq<EngineView>)
    ensures
        forall|i: int|
            0 <= i < round_start(all).0.engines.len() ==> (
            #[trigger] round_start(all).0.engines[i]).enabled,
{
    lemma_enabled_ones(all);
}

/// Each engine is tried with both searches, the one after the other; when both have been made, it is
/// reported as fine, as unreachable, or as broken, or the AI is asked about the page of the first that
/// did not go well.
pub proof fn law_each_engine_is_tried_twice(r: RoundView, hits: Option<usize>, html: Seq<char>)
    requires
        r.wf(),
        !r.is_over(),
        r.waiting == Waiting::Trial,
    ensures
        ({
            let (after, step) = round_next(r, EventView::Searched(hits, html));
            let def = r.engines[r.at as int];
            let c = maintain::checkup_noted(
                r.checkup,
                hits,
                html,
                maintain::CANARIES@[r.canary as int].0@,
            );
            let over = r.at + 1 == r.engines.len();
            &&& step.adopt is None
            &&& r.canary == 0 ==> {
                &&& step.next == NextView::Search(def, 1)
                &&& after == (RoundView { canary: 1, checkup: c, ..r })
                &&& step.log is None
            }
            &&& r.canary == 1 && c.broken is None ==> {
                &&& after.report == r.report.push(
                    maintain::report_text(def.id, Report::Fine(c.ok_count as usize)),
                )
                &&& step.log is None
            }
            &&& r.canary == 1 && (c.broken matches Some((page, _)) && page.len() == 0) ==> {
                &&& after.report == r.report.push(maintain::report_text(def.id, Report::Unreachable))
                &&& step.log matches Some(l) && l.engine == def.id && l.outcome == "unreachable"@
            }
            &&& r.canary == 1 && (c.broken matches Some((page, q)) && page.len() > 0) ==> {
                let (page, q) = c.broken->Some_0;
                let structure = maintain::condensed(page);
                if vstd::utf8::encode_utf8(structure).len() >= 200 {
                    &&& step.next == NextView::Ask(maintain::prompt_text(def, q, structure))
                    &&& after.waiting == Waiting::Answer
                    &&& after.checkup == c
                    &&& after.at == r.at
                    &&& after.report == r.report
                } else {
                    &&& after.report == r.report.push(
                        maintain::report_text(def.id, Report::Broken(false)),
                    )
                    &&& step.log matches Some(l) && l.engine == def.id && l.outcome == "skipped"@
                }
            }
            &&& after.waiting == Waiting::Trial && r.canary == 1 ==> {
                &&& after.at == r.at + 1
                &&& after.canary == 0
                &&& after.checkup.ok_count == 0 && after.checkup.broken is None
                &&& over ==> step.next is Over
                &&& !over ==> step.next == NextView::Search(r.engines[r.at as int + 1], 0)
            }
        }),
        TRIES == 2,
{
}

/// What the AI answers is judged on the page that nothing was read from; an engine that can be mended by it
/// is replaced, reported and tried once more, and one that cannot is reported, with the reason in the log.
pub proof fn law_answers_are_judged(r: RoundView, answer: Result<Seq<char>, Seq<char>>)
    requires
        r.wf(),
        !r.is_over(),
        r.waiting == Waiting::Answer,
    ensures
        ({
            let (after, step) = round_next(r, EventView::Answered(answer));
            let def = r.engines[r.at as int];
            let (page, _) = r.checkup.broken->Some_0;
            match maintain::judged(def, page, answer) {
                Ok(x) => {
                    &&& step.adopt == Some(x.0)
                    &&& step.next == NextView::Search(x.0, 0)
                    &&& step.log matches Some(l) && l.engine == def.id && l.outcome == "applied"@
                    &&& after.waiting == Waiting::Proof
                    &&& after.at == r.at
                    &&& after.report == r.report.push(
                        maintain::report_text(def.id, Report::Broken(true)),
                    )
                },
                Err(why) => {
                    &&& step.adopt is None
                    &&& step.log == Some(
                        LogView { engine: def.id, outcome: "rejected"@, detail: why },
                    )
                    &&& after.at == r.at + 1
                    &&& after.report == r.report.push(
                        maintain::report_text(def.id, Report::Broken(false)),
                    )
                },
            }
        }),
{
}

/// An engine that was replaced is tried once more, it is reported how that went, and the next one follows.
pub proof fn law_mended_engines_are_tried_again(r: RoundView, hits: Option<usize>, html: Seq<char>)
    requires
        r.wf(),
        !r.is_over(),
        r.waiting == Waiting::Proof,
    ensures
        ({
            let (after, step) = round_next(r, EventView::Searched(hits, html));
            &&& after.report == r.report.push(
                maintain::report_text(r.engines[r.at as int].id, Report::Again(hits is Some)),
            )
            &&& after.at == r.at + 1
            &&& step.adopt is None && step.log is None
        }),
{
}

/// A round is through the engines that are switched on, all of them, as they are and in their order, and
/// begins with the first search with the first.
pub proof fn law_rounds_go_through_all_engines(all: Seq<EngineView>)
    ensures
        ({
            let (r, step) = round_start(all);
            &&& r.engines == all.filter(|e: EngineView| e.enabled)
            &&& r.at == 0 && r.canary == 0 && r.report.len() == 0 && r.waiting == Waiting::Trial
            &&& r.engines.len() > 0 ==> step.next == NextView::Search(r.engines[0], 0)
            &&& r.engines.len() == 0 ==> step.next is Over
        }),
{
    lemma_enabled_filtered(all);
}

proof fn lemma_enabled_filtered(v: Seq<EngineView>)
    ensures
        enabled_ones(v) == v.filter(|e: EngineView| e.enabled),
    decreases v.len(),
{
    reveal(Seq::filter);
    if v.len() > 0 {
        lemma_enabled_filtered(v.drop_last());
    } else {
        assert(enabled_ones(v) =~= v.filter(|e: EngineView| e.enabled));
    }
}

/// Contracts speak of the whole of a round, of what is to be done, and of what came of it.
pub proof fn law_rounds_are_seen_whole(r: Round, next: Next, l: LogLine, step: Step, event: Event)
    ensures
        r@.engines == engine::engine_views(r.engines@) && r@.at == r.at && r@.canary == r.canary,
        r@.checkup == r.checkup@ && r@.waiting == r.waiting && r@.report == text::texts(r.report@),
        next matches Next::Search(e, i) ==> next@ == NextView::Search(e@, i as nat),
        next matches Next::Ask(p) ==> next@ == NextView::Ask(p@),
        next is Over <==> next@ is Over,
        l@.engine == l.engine@ && l@.outcome == l.outcome@ && l@.detail == l.detail@,
        step.adopt matches Some(e) ==> step@.adopt == Some(e@),
        step.adopt is None <==> step@.adopt is None,
        step.log matches Some(x) ==> step@.log == Some(x@),
        step.log is None <==> step@.log is None,
        step@.next == step.next@,
        event matches Event::Searched(n, html) ==> event@ == EventView::Searched(n, html@),
        event matches Event::Answered(Ok(s)) ==> event@ == EventView::Answered(Ok(s@)),
        event matches Event::Answered(Err(e)) ==> event@ == EventView::Answered(Err(e@)),
{
}

/// A round takes in every event of the kind that it waits for, with any page that the parser takes; and an
/// answer can be tried wherever it makes no definition, or one that can be tried on the page.
pub proof fn law_events_are_taken_in(r: RoundView, event: EventView)
    requires
        !r.is_over(),
    ensures
        r.waiting != Waiting::Answer && (event matches EventView::Searched(_, html)
            && vstd::utf8::encode_utf8(html).len() <= 0x2AAA_AAAA) ==> awaited(r, event)
            && can_be_tried(r, event),
        r.waiting == Waiting::Answer && event is Answered ==> awaited(r, event),
        event matches EventView::Answered(Err(_)) ==> can_be_tried(r, event),
        (event matches EventView::Answered(answer) && (r.checkup.broken matches Some((html, _)) && (
        maintain::candidate_of(r.engines[r.at as int], answer) matches Ok(made) && engine::can_read(
            made,
            html,
        )))) ==> can_be_tried(r, event),
{
}

} // verus!
