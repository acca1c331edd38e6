use aruaru_search::double::Double;
use aruaru_search::engine::{defaults, EngineDef, Hit};
use aruaru_search::search::Merged;
use aruaru_search::searcher::{
    accept_language, check_scores, collect_replies, merge_count, sample, EngineStatus, Reply, Rerank,
    RerankError, Search, Searcher, Start, CACHE_MAX, CACHE_TTL, COOLDOWN, MIN_INTERVAL, SAMPLE_MAX,
};

fn searcher() -> Searcher {
    Searcher::new(defaults())
}

fn page(t: &str) -> Merged {
    Merged {
        title: t.into(),
        link: format!("https://{t}/"),
        snippet: "s".into(),
        engines: vec!["bing".into()],
        score: Double { bits: 0 },
    }
}

fn pages(n: usize) -> Vec<Merged> {
    (0..n).map(|i| page(&format!("p{i}"))).collect()
}

fn ask(s: Start) -> Search {
    match s {
        Start::Ask(x) => x,
        Start::Refused(e) => panic!("{e}"),
        Start::Kept(_) => panic!("kept"),
    }
}

fn refused(s: Start) -> String {
    match s {
        Start::Refused(e) => e,
        _ => panic!("not refused"),
    }
}

fn kept(s: Start) -> Vec<Merged> {
    match s {
        Start::Kept(v) => v,
        _ => panic!("not kept"),
    }
}

fn ids(v: &[EngineDef]) -> Vec<&str> {
    v.iter().map(|e| e.id.as_str()).collect()
}

fn hit(t: &str) -> Hit {
    Hit {
        title: t.into(),
        link: format!("https://{t}/"),
        snippet: String::new(),
    }
}

#[test]
fn calls_of_one_engine_are_spaced() {
    let mut s = searcher();
    assert_eq!(s.before_call("a", 1000), Ok(0));
    assert_eq!(s.before_call("a", 1000), Ok(MIN_INTERVAL));
    assert_eq!(s.before_call("a", 1001), Ok(2 * MIN_INTERVAL - 1));
    assert_eq!(s.before_call("b", 1001), Ok(0));
    assert_eq!(s.before_call("a", 1000 + 10 * MIN_INTERVAL), Ok(0));
    assert!(s.can_reckon("a"));
    assert_eq!(s.before_call("a", u64::MAX), Ok(0));
    assert!(!s.can_reckon("a") && s.can_reckon("b"));
}

#[test]
fn engines_that_refuse_are_left_alone_for_twenty_minutes() {
    for status in [202, 403, 429, 503] {
        let mut s = searcher();
        assert_eq!(
            s.after_call("a", status, 5),
            Err(format!(
                "拒否されました(HTTP {status}。混み合い・機械利用の制限の可能性)"
            ))
        );
        assert_eq!(
            s.before_call("a", 5),
            Err("休止中(直前に拒否されたため、21分ほど間を空けます)".into())
        );
        assert_eq!(
            s.before_call("a", 4 + COOLDOWN),
            Err("休止中(直前に拒否されたため、1分ほど間を空けます)".into())
        );
        assert_eq!(s.before_call("a", 5 + COOLDOWN), Ok(0));
        assert_eq!(s.before_call("b", 5), Ok(0));
    }
}

#[test]
fn other_failures_are_no_reason_for_a_rest() {
    let mut s = searcher();
    assert!(s.after_call("a", 500, 5).is_err());
    assert!(s.after_call("a", 404, 5).is_err());
    assert_eq!(s.after_call("a", 200, 5), Ok(()));
    assert_eq!(s.after_call("a", 299, 5), Ok(()));
    assert!(s.after_call("a", 300, 5).is_err());
    assert_eq!(s.before_call("a", 5), Ok(0));
}

#[test]
fn pages_are_kept_up_to_a_size_and_to_whole_characters() {
    assert_eq!(sample("short"), "short");
    let long = format!("a{}", "あ".repeat(SAMPLE_MAX));
    let cut = sample(&long);
    assert_eq!(cut.len(), SAMPLE_MAX - 2);
    assert!(long.starts_with(&cut));
    assert_eq!(sample(&"b".repeat(SAMPLE_MAX)).len(), SAMPLE_MAX);
    assert_eq!(sample(&"b".repeat(SAMPLE_MAX + 1)).len(), SAMPLE_MAX);
    assert_eq!(sample(&format!("{}é", "b".repeat(SAMPLE_MAX - 2))).len(), SAMPLE_MAX);
    assert_eq!(sample(&format!("{}\u{1F600}", "b".repeat(SAMPLE_MAX - 3))).len(), SAMPLE_MAX - 3);
}

#[test]
fn what_comes_of_a_search_is_recorded() {
    let mut s = searcher();
    let def = s.engine("bing").unwrap();
    assert!(s.status("bing").is_none());
    assert_eq!(
        s.record(&def, "q1", Err("no network".into()), Vec::new(), 10),
        Err("Bing: no network".into())
    );
    let st = s.status("bing").unwrap();
    assert_eq!((st.last_ok, st.last_hits, st.consecutive_failures), (Some(false), 0, 1));
    assert_eq!(st.last_error.as_deref(), Some("no network"));
    assert_eq!((st.last_checked_unix, st.sample_html.as_str()), (10, ""));
    assert_eq!(
        s.record(&def, "q2", Ok("<p>".into()), Vec::new(), 20),
        Err("Bing: 結果を1件も読み取れませんでした(ページの作りが変わった可能性)".into())
    );
    let st = s.status("bing").unwrap();
    assert_eq!((st.consecutive_failures, st.sample_html.as_str()), (2, "<p>"));
    assert_eq!(st.sample_query, "q2");
    assert!(s.record(&def, "q3", Err("x".into()), vec![hit("a")], 25).is_err());
    let st = s.status("bing").unwrap();
    assert_eq!((st.last_hits, st.consecutive_failures, st.sample_query.as_str()), (0, 3, "q2"));
    assert_eq!(
        s.record(&def, "q4", Ok("<b>".into()), vec![hit("a")], 30),
        Ok(vec![hit("a")])
    );
    assert_eq!(
        s.status("bing").unwrap(),
        &EngineStatus {
            last_ok: Some(true),
            last_hits: 1,
            last_error: None,
            last_checked_unix: 30,
            consecutive_failures: 0,
            sample_html: "<b>".into(),
            sample_query: "q4".into(),
        }
    );
}

#[test]
fn pages_are_read_and_recorded() {
    let mut s = searcher();
    let def = s.engine("bing").unwrap();
    let html = r#"<body><li class="b_algo"><h2><a href="https://a.example/">A</a></h2><div class="b_caption"><p>about</p></div></li></body>"#;
    let hits = s.take_page(&def, "q", Ok(html.into()), 1).unwrap();
    assert_eq!(hits.len(), 1);
    assert_eq!((hits[0].link.as_str(), hits[0].snippet.as_str()), ("https://a.example/", "about"));
    assert_eq!(s.status("bing").unwrap().sample_html, html);
    assert!(s.take_page(&def, "q", Ok("<body></body>".into()), 2).is_err());
    assert!(s.take_page(&def, "q", Err("e".into()), 3).is_err());
    assert_eq!(s.status("bing").unwrap().consecutive_failures, 2);
    assert_eq!(s.try_page(&def, "q", Ok(html.into()), 4), Some(Ok(hits)));
    assert_eq!(s.status("bing").unwrap().last_checked_unix, 4);
    let mut with_has = def.copy();
    with_has.title = "h2:has(a)".into();
    assert!(s.try_page(&with_has, "q", Ok("<div>".repeat(1000)), 5).is_none());
    assert_eq!(s.status("bing").unwrap().last_checked_unix, 4);
    assert!(matches!(s.try_page(&def, "q", Ok("<div>".repeat(1000)), 5), Some(Err(_))));
    assert_eq!(s.status("bing").unwrap().last_checked_unix, 5);
    assert!(matches!(s.try_page(&def, "q", Err("e".into()), 6), Some(Err(_))));
}

#[test]
fn a_new_status_knows_nothing() {
    let st = EngineStatus::default();
    assert_eq!((st.last_ok, st.last_hits, st.last_error), (None, 0, None));
    assert_eq!((st.last_checked_unix, st.consecutive_failures), (0, 0));
}

#[test]
fn engines_can_be_replaced() {
    let mut s = searcher();
    assert!(s.engine("none").is_none());
    let mut e = s.engine("bing").unwrap();
    e.container = "li".into();
    s.replace_engine("bing", &e);
    assert_eq!(s.engine("bing").unwrap().container, "li");
    assert_eq!(ids(&s.all_engines()), vec!["duckduckgo", "bing", "brave", "yahoo-jp"]);
}

#[test]
fn a_search_begins_with_the_engines_for_its_language() {
    let s = searcher();
    let x = ask(s.begin("  温泉 \n", "ja", "", 10, 0));
    assert_eq!((x.q.as_str(), x.lang.hl.as_str(), x.lang.gl.as_str(), x.n), ("温泉", "ja", "JP", 10));
    assert_eq!(x.key, "温泉\u{1}ja\u{1}JP\u{1}10");
    assert_eq!(ids(&x.engines), vec!["duckduckgo", "bing", "brave", "yahoo-jp"]);
    let x = ask(s.begin("x", "en", "GB", 0, 0));
    assert_eq!(ids(&x.engines), vec!["duckduckgo", "bing", "brave"]);
    assert_eq!((x.n, x.lang.gl.as_str()), (1, "GB"));
    assert_eq!(ask(s.begin("x", "", "", 31, 0)).n, 30);
}

#[test]
fn a_search_needs_a_query_and_an_engine() {
    let s = searcher();
    let why = "検索語は1〜300文字にしてください";
    assert_eq!(refused(s.begin(" \n", "ja", "", 10, 0)), why);
    assert_eq!(refused(s.begin(&"あ".repeat(301), "ja", "", 10, 0)), why);
    ask(s.begin(&"あ".repeat(300), "ja", "", 10, 0));
    let mut v = defaults();
    for e in v.iter_mut() {
        e.enabled = e.id == "yahoo-jp";
    }
    let s = Searcher::new(v);
    ask(s.begin("x", "ja", "", 10, 0));
    assert_eq!(refused(s.begin("x", "en", "", 10, 0)), "有効な検索元がありません");
}

#[test]
fn results_are_kept_for_an_hour() {
    let mut s = searcher();
    let x = ask(s.begin("q", "en", "", 2, 0));
    let shown = s.finish(&x, &pages(5), 100);
    assert_eq!(shown, pages(2));
    assert_eq!(kept(s.begin(" q ", "en", "us", 2, 100)), pages(2));
    assert_eq!(kept(s.begin("q", "en", "", 2, 99 + CACHE_TTL)), pages(2));
    ask(s.begin("q", "en", "", 2, 100 + CACHE_TTL));
    ask(s.begin("q", "en", "", 3, 100));
    ask(s.begin("q", "ja", "", 2, 100));
    ask(s.begin("q", "en", "GB", 2, 100));
    assert_eq!(kept(s.begin("q", "en", "", 2, 50)), pages(2));
}

#[test]
fn a_bounded_number_of_searches_is_kept() {
    let mut s = searcher();
    for i in 0..CACHE_MAX {
        let x = ask(s.begin(&format!("q{i}"), "en", "", 2, 0));
        s.finish(&x, &pages(1), 0);
    }
    kept(s.begin("q0", "en", "", 2, 0));
    let x = ask(s.begin("one more", "en", "", 2, 0));
    s.finish(&x, &pages(1), 0);
    ask(s.begin("q0", "en", "", 2, 0));
    kept(s.begin("one more", "en", "", 2, 0));
}

fn reply(id: &str, hits: Result<Vec<Hit>, String>) -> Reply {
    let mut def = defaults().remove(0);
    def.id = id.into();
    Reply { def, hits }
}

#[test]
fn one_engine_with_results_is_enough() {
    let (found, warnings) = collect_replies(&vec![
        reply("a", Err("a: x".into())),
        reply("b", Ok(vec![hit("1"), hit("2")])),
        reply("c", Err("c: y".into())),
    ])
    .unwrap_or_else(|e| panic!("{e}"));
    assert_eq!(found.len(), 1);
    assert_eq!((found[0].def.id.as_str(), found[0].hits.len()), ("b", 2));
    assert_eq!(warnings, vec!["a: x", "c: y"]);
}

#[test]
fn no_engine_with_results_is_an_error() {
    assert_eq!(
        collect_replies(&vec![reply("a", Err("a: x".into())), reply("b", Err("b: y".into()))])
            .err()
            .unwrap(),
        "どの検索元からも結果を得られませんでした: a: x / b: y"
    );
}

#[test]
fn meanings_are_compared_where_there_is_a_server_and_enough_pages() {
    let mut s = searcher();
    assert!(s.rerank_call("q", &pages(5)).is_none());
    s.set_rerank(Some("http://127.0.0.1:4600/".into()));
    assert!(s.rerank_call("q", &pages(2)).is_none());
    let c = s.rerank_call("a\"b", &pages(3)).unwrap_or_else(|| panic!());
    assert_eq!((c.url.as_str(), c.top), ("http://127.0.0.1:4600/v1/rerank", 3));
    assert_eq!(c.body, r#"{"documents":["p0 s","p1 s","p2 s"],"query":"a\"b"}"#);
    let c = s.rerank_call("q", &pages(20)).unwrap_or_else(|| panic!());
    assert_eq!(c.top, 15);
    assert!(c.body.contains("\"p14 s\"]"));
    s.set_rerank(None);
    assert!(s.rerank_call("q", &pages(5)).is_none());
}

#[test]
fn answers_on_meaning_are_checked() {
    assert_eq!(check_scores(200, 15, 15), Ok(()));
    assert_eq!(check_scores(500, 15, 15), Err(RerankError::Status(500)));
    assert_eq!(check_scores(200, 14, 15), Err(RerankError::Count));
    assert_eq!(
        RerankError::Status(500).warning(),
        "意味による並べ替えは使えませんでした(HTTP 500)"
    );
    assert_eq!(
        RerankError::Count.warning(),
        "意味による並べ替えは使えませんでした(応答の件数が合いません)"
    );
    assert_eq!(
        RerankError::Call("timeout".into()).warning(),
        "意味による並べ替えは使えませんでした(timeout)"
    );
}

#[test]
fn small_things_of_a_search() {
    assert_eq!((merge_count(3), merge_count(15), merge_count(30)), (15, 15, 30));
    assert_eq!((accept_language(""), accept_language("ja")), ("en", "ja"));
}

#[test]
fn a_search_goes_from_replies_to_results() {
    let mut s = searcher();
    let x = ask(s.begin("q", "en", "", 2, 0));
    let replies = vec![
        reply("a", Ok(vec![hit("1"), hit("2"), hit("3")])),
        reply("b", Err("b: x".into())),
        reply("c", Ok(vec![hit("2")])),
    ];
    let (pages, warnings) = x.pages(&replies).unwrap_or_else(|e| panic!("{e}"));
    assert_eq!(pages.iter().map(|p| p.votes.len()).collect::<Vec<_>>(), vec![1, 2, 1]);
    assert_eq!(warnings, vec!["b: x"]);
    let scores = [1.0f64, 3.0, 2.0].iter().map(|x| Double { bits: x.to_bits() }).collect();
    let merged = x.merge(&pages, &scores);
    assert_eq!(merged.iter().map(|m| m.title.as_str()).collect::<Vec<_>>(), vec!["2", "3", "1"]);
    let (shown, told) = s.conclude(&x, &merged, warnings, Rerank::NotAsked, 7);
    assert_eq!(shown, merged[..2]);
    assert_eq!(told, vec!["b: x"]);
    assert_eq!(kept(s.begin("q", "en", "", 2, 7)), merged[..2]);
    let none = vec![reply("a", Err("a: x".into()))];
    assert!(x.pages(&none).is_err());
}

#[test]
fn meaning_changes_the_order_or_is_done_without() {
    let mut s = searcher();
    let x = ask(s.begin("q", "en", "", 3, 0));
    let new = [0.1f64, 0.9, 0.5].iter().map(|x| Double { bits: x.to_bits() }).collect();
    let (shown, told) = s.conclude(&x, &pages(3), Vec::new(), Rerank::Scores(new), 7);
    assert_eq!(shown.iter().map(|m| m.title.as_str()).collect::<Vec<_>>(), vec!["p1", "p2", "p0"]);
    assert!(told.is_empty());
    let failed = Rerank::Failed(RerankError::Count);
    let (shown, told) = s.conclude(&x, &pages(3), vec!["w".into()], failed, 7);
    assert_eq!(shown, pages(3));
    assert_eq!(told, vec!["w", "意味による並べ替えは使えませんでした(応答の件数が合いません)"]);
}
