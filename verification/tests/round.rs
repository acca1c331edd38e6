use aruaru_search::engine::{defaults, EngineDef};
use aruaru_search::maintain::{CANARIES, SKIPPED_DETAIL, UNREACHABLE_DETAIL};
use aruaru_search::round::{Event, Next, Round, Step, Waiting};

const PAGE: &str = r#"<html><body><main>
      <article class="r-item"><h3><a class="r-link" href="https://a.example/1">Alpha</a></h3><p class="r-desc">about alpha</p></article>
      <article class="r-item"><h3><a class="r-link" href="https://b.example/2">Beta</a></h3><p class="r-desc">about beta</p></article>
      <article class="r-item"><h3><a class="r-link" href="https://c.example/3">Gamma</a></h3><p class="r-desc">about gamma</p></article>
      </main></body></html>"#;

const GOOD: &str =
    r#"{"container":"article.r-item","title":"h3 a","link":"h3 a","snippet":"p.r-desc","unwrap":""}"#;

fn two() -> Vec<EngineDef> {
    let mut v = defaults();
    v[1].enabled = false;
    v[3].enabled = false;
    v
}

fn search(s: &Step) -> (String, usize) {
    match &s.next {
        Next::Search(e, i) => (e.id.clone(), *i),
        _ => panic!("no search"),
    }
}

fn log(s: &Step) -> (&str, &str, &str) {
    let l = s.log.as_ref().unwrap();
    (l.engine.as_str(), l.outcome.as_str(), l.detail.as_str())
}

fn hits(n: usize, html: &str) -> Event {
    Event::Searched(Some(n), html.to_string())
}

#[test]
fn engines_that_work_are_tried_twice_and_left_alone() {
    let (mut r, s) = Round::start(&two());
    assert_eq!(search(&s), ("duckduckgo".into(), 0));
    assert_eq!(search(&r.step(hits(3, "x"))), ("duckduckgo".into(), 1));
    let s = r.step(hits(10, "x"));
    assert!(s.log.is_none() && s.adopt.is_none());
    assert_eq!(search(&s), ("brave".into(), 0));
    r.step(hits(3, "x"));
    let s = r.step(hits(3, "x"));
    assert!(matches!(s.next, Next::Over));
    assert_eq!(r.lines(), vec!["duckduckgo: 正常(2/2)", "brave: 正常(2/2)"]);
    assert_eq!(CANARIES.len(), 2);
}

#[test]
fn an_answer_with_has_is_tried_only_on_a_page_that_is_not_nested_too_deep() {
    let deep = PAGE.replace("</main>", &"<div>".repeat(1000));
    let has = GOOD.replace("article.r-item", "article:has(h3)");
    for (page, answer, tried) in [
        (PAGE, GOOD, true),
        (PAGE, has.as_str(), true),
        (deep.as_str(), GOOD, true),
        (deep.as_str(), has.as_str(), false),
    ] {
        let (mut r, _) = Round::start(&two());
        assert!(r.try_step(hits(0, page)).is_some());
        assert!(r.try_step(hits(0, page)).is_some());
        assert_eq!(r.waiting, Waiting::Answer);
        assert_eq!(r.try_step(Event::Answered(Ok(answer.into()))).is_some(), tried);
        assert_eq!(r.waiting, if tried { Waiting::Proof } else { Waiting::Answer });
        if !tried {
            assert!(r.try_step(Event::Answered(Err("timeout".into()))).is_some());
            assert_eq!(r.waiting, Waiting::Trial);
        }
    }
}

#[test]
fn the_report_has_a_line_more_on_an_engine_that_was_mended() {
    let (mut r, _) = Round::start(&two());
    r.step(hits(0, PAGE));
    r.step(hits(0, PAGE));
    r.step(Event::Answered(Ok(GOOD.into())));
    assert_eq!(r.lines().len(), 1);
    r.step(hits(3, PAGE));
    assert_eq!(r.lines().len(), 2);
    r.step(hits(3, "x"));
    r.step(hits(3, "x"));
    let ids: Vec<String> =
        r.lines().iter().map(|l| l.split(':').next().unwrap().to_string()).collect();
    assert_eq!(ids, vec!["duckduckgo", "duckduckgo", "brave"]);
}

#[test]
fn a_broken_engine_is_mended_and_tried_again() {
    let (mut r, _) = Round::start(&two());
    r.step(hits(0, PAGE));
    let s = r.step(Event::Searched(None, "".into()));
    match &s.next {
        Next::Ask(p) => assert!(p.contains("open source software") && p.contains("r-item")),
        _ => panic!("not asked"),
    }
    assert_eq!(r.waiting, Waiting::Answer);
    let s = r.step(Event::Answered(Ok(GOOD.into())));
    let made = s.adopt.as_ref().unwrap();
    assert_eq!((made.id.as_str(), made.container.as_str()), ("duckduckgo", "article.r-item"));
    assert_eq!(made.url, defaults()[0].url);
    assert_eq!(
        log(&s),
        (
            "duckduckgo",
            "applied",
            "3件を読み取れる設定に更新: container=article.r-item title=h3 a link=h3 a snippet=p.r-desc unwrap="
        )
    );
    match &s.next {
        Next::Search(e, i) => assert_eq!((e.container.as_str(), *i), ("article.r-item", 0)),
        _ => panic!("not tried again"),
    }
    let s = r.step(hits(1, PAGE));
    assert_eq!(search(&s), ("brave".into(), 0));
    assert_eq!(
        r.lines(),
        vec!["duckduckgo: 読み取れず → AI が設定を修正", "duckduckgo: 修正後の確認 OK"]
    );
}

#[test]
fn a_rejected_proposal_is_logged() {
    let (mut r, _) = Round::start(&two());
    r.step(hits(3, PAGE));
    r.step(hits(2, PAGE));
    let s = r.step(Event::Answered(Err("timeout".into())));
    assert!(s.adopt.is_none());
    assert_eq!(log(&s), ("duckduckgo", "rejected", "timeout"));
    assert_eq!(search(&s), ("brave".into(), 0));
    assert_eq!(
        r.lines(),
        vec!["duckduckgo: 読み取れず → 修正できず(maintenance.log を確認)"]
    );
}

#[test]
fn a_judgement_decides_whether_an_engine_is_replaced() {
    let (mut r, _) = Round::start(&two());
    r.step(hits(0, PAGE));
    r.step(hits(0, PAGE));
    let s = r.judged(Ok((defaults().remove(0), 5)));
    assert!(s.adopt.is_some());
    let s = r.step(Event::Searched(None, PAGE.into()));
    assert_eq!(search(&s), ("brave".into(), 0));
    assert_eq!(r.lines()[1], "duckduckgo: 修正後の確認 NG");
}

#[test]
fn empty_and_missing_pages_are_logged() {
    let (mut r, _) = Round::start(&two());
    r.step(hits(0, "<body>almost nothing</body>"));
    let s = r.step(hits(3, "x"));
    assert_eq!(log(&s), ("duckduckgo", "skipped", SKIPPED_DETAIL));
    r.step(Event::Searched(None, "".into()));
    let s = r.step(Event::Searched(None, PAGE.into()));
    assert_eq!(log(&s), ("brave", "unreachable", UNREACHABLE_DETAIL));
    assert!(matches!(s.next, Next::Over));
    assert_eq!(
        r.lines(),
        vec![
            "duckduckgo: 読み取れず → 修正できず(maintenance.log を確認)",
            "brave: 取得できず(接続失敗または拒否)"
        ]
    );
}

#[test]
fn a_round_without_engines_is_over_at_once() {
    let (r, s) = Round::start(&Vec::new());
    assert!(matches!(s.next, Next::Over));
    assert!(r.lines().is_empty());
}
