use aruaru_search::engine::{defaults, parse, EngineDef, EngineError, Hit, Part};
use aruaru_search::json::{parse_json, Json};
use aruaru_search::maintain::{
    adopt, answer_text, applied_detail, apply_proposal, ask_body, ask_url, candidate, candidate_from,
    check_hits, choose_engines, condense, condense_edges, extract_json, judge, log_entry, plan_repair,
    plan_with, prompt, report_line, verify, AnswerError, Checkup, Finding, Plan, ProposalError, Report,
    VerifyError, HTML_BUDGET,
};
use aruaru_search::web::{PageEdge, PageNode};

fn ddg() -> EngineDef {
    defaults()
        .into_iter()
        .find(|e| e.id == "duckduckgo")
        .unwrap()
}

fn json(s: &str) -> Json {
    parse_json(s.as_bytes()).unwrap_or_else(|e| panic!("{e}"))
}

const CHANGED: &str = r#"<html><head><script>var x=1</script></head><body>
      <main>
      <article class="r-item"><h3><a class="r-link" href="https://a.example/1">Alpha</a></h3><p class="r-desc">about alpha</p></article>
      <article class="r-item"><h3><a class="r-link" href="https://b.example/2">Beta</a></h3><p class="r-desc">about beta</p></article>
      <article class="r-item"><h3><a class="r-link" href="https://c.example/3">Gamma</a></h3><p class="r-desc">about gamma</p></article>
      </main></body></html>"#;

const GOOD: &str =
    r#"{"container":"article.r-item","title":"h3 a","link":"h3 a","snippet":"p.r-desc","unwrap":""}"#;

#[test]
fn current_selectors_fail_on_a_redesigned_page_and_a_valid_proposal_fixes_it() {
    assert!(parse(&ddg(), CHANGED).is_empty());
    let p = json(GOOD);
    let cand = apply_proposal(&ddg(), &p).unwrap();
    assert_eq!(verify(&cand, CHANGED).unwrap(), 3);
    assert_eq!(cand.url, ddg().url, "取得先の URL は AI に変えさせない");
    assert_eq!(cand.weight, ddg().weight);
}

#[test]
fn bad_proposals_are_rejected() {
    let d = ddg();
    // Nothing can be read with it.
    let p = json(r#"{"container":"div.nothing","title":"a","link":"a","snippet":"","unwrap":""}"#);
    assert!(verify(&apply_proposal(&d, &p).unwrap(), CHANGED).is_err());
    // A selector is none.
    let p = json(r#"{"container":"article[","title":"a","link":"a","snippet":"","unwrap":""}"#);
    assert!(apply_proposal(&d, &p).is_err());
    // Something is missing.
    assert!(apply_proposal(&d, &json(r#"{"container":"article"}"#)).is_err());
    // It gives up.
    assert!(apply_proposal(&d, &json(r#"{"give_up":true}"#)).is_err());
    // A new address is not even read.
    let p = json(
        r#"{"container":"article.r-item","title":"h3 a","link":"h3 a","snippet":"p","url":"https://evil.example/?q={q}"}"#,
    );
    assert_eq!(apply_proposal(&d, &p).unwrap().url, d.url);
    // A sign in the name of the parameter.
    let p = json(r#"{"container":"article","title":"a","link":"a","snippet":"","unwrap":"x&y"}"#);
    assert!(apply_proposal(&d, &p).is_err());
}

#[test]
fn condense_drops_scripts_and_keeps_structure() {
    let c = condense(CHANGED);
    assert!(c.contains("article class=\"r-item\"") && c.contains("Alpha") && !c.contains("var x"));
}

#[test]
fn extract_json_handles_fenced_answers() {
    let j = extract_json("説明です\n```json\n{\"container\":\"a\"}\n```").unwrap_or_else(|| panic!());
    assert_eq!(j.text("container"), Some("a"));
    assert!(extract_json("none").is_none());
}

#[test]
fn broken_settings_fall_back_to_defaults() {
    assert_eq!(choose_engines(None), defaults());
    let mut v = defaults();
    v[0].container = "div.changed".into();
    assert_eq!(choose_engines(Some(v))[0].container, "div.changed");
    assert_eq!(choose_engines(Some(Vec::new())), defaults());
    let mut v = defaults();
    v[3].id = "a b".into();
    assert_eq!(choose_engines(Some(v)), defaults());
}

#[test]
fn the_structure_of_a_page_is_shown_with_its_selectors() {
    let html = "<html><head><style>x</style></head><body id=b><div class='c d' style='x' href='u'>\n  Hi \n there <script>no</script><svg><path/></svg><img src=x><!-- no --><b data-type=t>!</b></div></body></html>";
    let c = condense(html);
    assert!(c.starts_with("<body id=\"b\"><div "), "{c}");
    assert!(c.contains(" class=\"c d\"") && c.contains(" href=\"u\"") && !c.contains("style"), "{c}");
    assert!(c.ends_with(">Hi there<b>!</b></div></body>"), "{c}");
    assert_eq!(condense("<body><p data-type=\"x\">t</p></body>"), "<body><p>t</p></body>");
}

#[test]
fn what_a_template_holds_is_not_shown() {
    assert_eq!(
        condense("<body><template><p>no</p></template><i>yes</i></body>"),
        "<body><template></template><i>yes</i></body>"
    );
    let edges = vec![
        open("template", &[]),
        PageEdge::Open(fragment()),
        open("p", &[]),
        text("no"),
        close("p"),
        PageEdge::Close(fragment()),
        close("template"),
    ];
    assert_eq!(condense_edges(&edges), "<template></template>");
}

fn open(name: &str, attrs: &[(&str, &str)]) -> PageEdge {
    let attrs = attrs.iter().map(|(k, v)| (k.to_string(), v.to_string())).collect();
    PageEdge::Open(PageNode { element: Some((name.into(), attrs)), text: None, fragment: false })
}

fn close(name: &str) -> PageEdge {
    PageEdge::Close(PageNode {
        element: Some((name.into(), Vec::new())),
        text: None,
        fragment: false,
    })
}

fn text(s: &str) -> PageEdge {
    PageEdge::Open(PageNode { element: None, text: Some(s.into()), fragment: false })
}

fn fragment() -> PageNode {
    PageNode { element: None, text: None, fragment: true }
}

fn comment() -> PageNode {
    PageNode { element: None, text: None, fragment: false }
}

#[test]
fn what_stands_in_a_dropped_element_leaves_no_trace() {
    let edges = vec![
        open("body", &[]),
        open("noscript", &[("class", "x")]),
        open("p", &[]),
        text("no"),
        close("p"),
        close("noscript"),
        PageEdge::Open(comment()),
        PageEdge::Close(comment()),
        text(" yes "),
        close("body"),
    ];
    assert_eq!(condense_edges(&edges), "<body>yes</body>");
}

#[test]
fn attributes_and_texts_are_cut() {
    let edges = vec![
        open(
            "a",
            &[("href", &"h".repeat(100)), ("class", &"c".repeat(100)), ("title", "t")],
        ),
        text(&"é".repeat(100)),
        close("a"),
    ];
    assert_eq!(
        condense_edges(&edges),
        format!(
            "<a href=\"{}\" class=\"{}\">{}</a>",
            "h".repeat(90),
            "c".repeat(80),
            "é".repeat(80)
        )
    );
}

#[test]
fn elements_nested_too_deep_are_passed_over() {
    let mut edges: Vec<PageEdge> = (0..50).map(|_| open("i", &[])).collect();
    edges.extend((0..50).map(|_| close("i")));
    assert_eq!(
        condense_edges(&edges),
        format!("{}{}", "<i>".repeat(41), "</i>".repeat(41))
    );
}

#[test]
fn long_structures_are_cut_to_their_middle() {
    let mut edges = vec![open("b", &[])];
    for i in 0..1000 {
        edges.push(text(&format!("{i:020}")));
    }
    edges.push(close("b"));
    let c = condense_edges(&edges);
    assert_eq!(c.chars().count(), HTML_BUDGET);
    // Of the 6007 characters too many, 2002 go from the start.
    assert!(c.starts_with(&format!("{:020}", 99)[19..]), "{}", &c[..30]);
    assert_eq!(&c[1..21], &format!("{:020}", 100));
}

#[test]
fn nothing_is_entered_once_enough_is_collected() {
    let mut edges = vec![open("b", &[])];
    for _ in 0..710 {
        edges.push(text(&"x".repeat(80)));
    }
    edges.push(open("i", &[]));
    edges.push(text("late"));
    edges.push(close("i"));
    edges.push(close("b"));
    let c = condense_edges(&edges);
    assert_eq!(c.chars().count(), HTML_BUDGET);
    let all: Vec<PageEdge> = vec![open("b", &[]), close("b")];
    assert_eq!(condense_edges(&all), "<b></b>");
}

#[test]
fn the_prompt_holds_the_settings_and_the_structure() {
    let p = prompt(&ddg(), "山梨県 温泉", "<body></body>");
    assert!(p.starts_with("あなたは検索エンジンの結果ページ(HTML)を読み取る CSS セレクタを直す保守担当です。\n検索元「DuckDuckGo」の結果ページで、"));
    assert!(p.contains("検索語は「山梨県 温泉」です。"));
    assert!(p.contains("今の設定: container=div.result:not(.result--ad) / title=a.result__a / link=a.result__a / snippet=.result__snippet / unwrap=uddg\n\n条件:\n"));
    assert!(p.contains("{\"give_up\":true} だけ返す\n"));
    assert!(p.ends_with("{\"container\":\"...\",\"title\":\"...\",\"link\":\"...\",\"snippet\":\"...\",\"unwrap\":\"\"}\n\nページ構造:\n<body></body>"));
}

#[test]
fn the_ai_is_asked_with_json() {
    assert_eq!(
        ask_url("http://127.0.0.1:4600//"),
        "http://127.0.0.1:4600/v1/chat-providers/complete-priority"
    );
    assert_eq!(
        ask_body("a\"b\\c\n\u{1}\u{8}\t\u{c}\ré/"),
        "{\"prompt\":\"a\\\"b\\\\c\\n\\u0001\\b\\t\\f\\ré/\"}"
    );
}

#[test]
fn answers_of_the_ai_are_read() {
    assert_eq!(
        answer_text(r#"{"reply":{"text":"はい"},"x":1}"#.as_bytes()).unwrap(),
        "はい"
    );
    for none in ["{}", r#"{"reply":"x"}"#, r#"{"reply":{"text":1}}"#, "[]"] {
        let e = answer_text(none.as_bytes()).unwrap_err();
        assert_eq!(e, AnswerError::Empty);
        assert_eq!(e.message(), "AI から回答を得られませんでした");
    }
    assert_eq!(
        answer_text(b"").unwrap_err().message(),
        "aruaru-llm の応答を読めません: error decoding response body: EOF while parsing a value at line 1 column 0"
    );
}

#[test]
fn the_first_object_of_an_answer_is_taken() {
    let names = |s: &str| {
        extract_json(s).map(|j| j.fields.into_iter().map(|f| f.0).collect::<Vec<String>>())
    };
    assert_eq!(names("{\"a\":1} {\"b\":2}"), Some(vec!["a".into()]));
    assert_eq!(names("a {b} c {\"d\":\"}\"} {"), Some(vec!["d".into()]));
    assert_eq!(names("} {} {\"b\":2}"), Some(vec![]));
    assert_eq!(names("{\"a\":{\"b\":2}"), Some(vec!["b".into()]));
    assert_eq!(names("} {"), None);
    assert_eq!(names("}{"), None);
    assert!(extract_json("{ x }").is_none());
    assert_eq!(
        extract_json("a {\"b\":{\"c\":1}} d").map(|j| j.fields.len()),
        Some(1)
    );
}

#[test]
fn each_fault_of_a_proposal_has_its_error() {
    let e = |s: &str| apply_proposal(&ddg(), &json(s)).unwrap_err();
    assert_eq!(e(r#"{"give_up":true}"#), ProposalError::GivenUp);
    assert!(e(r#"{"give_up":true}"#).message().starts_with("AI は読み取れないと判断しました"));
    assert_eq!(e(r#"{"give_up":"true"}"#), ProposalError::Missing(Part::Container));
    assert_eq!(
        e(r#"{"container":"a","title":" ","link":"a","snippet":""}"#),
        ProposalError::Missing(Part::Title)
    );
    assert_eq!(
        e(r#"{"container":"a","title":"a","snippet":""}"#).message(),
        "提案に link がありません"
    );
    assert_eq!(
        e(r#"{"container":"a","title":"a","link":"a"}"#),
        ProposalError::Missing(Part::Snippet)
    );
    let bad = e(r#"{"container":"a","title":"a","link":"a","snippet":"","unwrap":"x&y"}"#);
    assert_eq!(bad, ProposalError::BadUnwrap);
    assert_eq!(bad.message(), "unwrap の指定が正しくありません");
    let long = format!(
        r#"{{"container":"{}","title":"a","link":"a","snippet":""}}"#,
        "a".repeat(301)
    );
    assert_eq!(
        e(&long),
        ProposalError::Invalid(EngineError::LongSelector(Part::Container))
    );
    assert_eq!(e(&long).message(), "container のセレクタが長すぎます");
}

#[test]
fn proposals_are_trimmed_and_keep_the_rest() {
    let p = json(r#"{"container":" li ","title":"a","link":"b","snippet":" ","name":"x","enabled":false}"#);
    let made = apply_proposal(&ddg(), &p).unwrap();
    let mut want = ddg();
    want.container = "li".into();
    want.title = "a".into();
    want.link = "b".into();
    want.snippet = "".into();
    assert_eq!(made, want);
    assert_eq!(made.unwrap, "uddg");
}

fn hits(n: usize, snippet: &str, title: &str) -> Vec<Hit> {
    (0..n)
        .map(|i| Hit {
            title: title.into(),
            link: format!("https://x/{i}"),
            snippet: snippet.into(),
        })
        .collect()
}

#[test]
fn results_must_be_three_with_summaries_and_short_titles() {
    assert_eq!(check_hits("p", &hits(3, "s", "t")), Ok(3));
    let few = check_hits("p", &hits(2, "s", "t")).unwrap_err();
    assert_eq!(few, VerifyError::TooFew(2));
    assert_eq!(few.message(), "実際のページで 2 件しか読み取れませんでした(必要 3 件)");
    let bare = check_hits("p", &hits(3, "", "t")).unwrap_err();
    assert_eq!(bare, VerifyError::NoSnippets);
    assert_eq!(bare.message(), "要約が1件も読み取れません");
    assert_eq!(check_hits("", &hits(3, "", "t")), Ok(3));
    assert_eq!(check_hits("", &hits(3, "", &"é".repeat(300))), Ok(3));
    let long = check_hits("", &hits(3, "", &"é".repeat(301))).unwrap_err();
    assert_eq!(long, VerifyError::LongTitle);
    assert_eq!(long.message(), "タイトルが長すぎます(かたまりの指定が広すぎる可能性)");
}

#[test]
fn engines_are_mended_by_asking_unless_the_page_is_empty() {
    assert!(matches!(plan_repair(&ddg(), "<body>x</body>", "q"), Plan::Skip));
    match plan_repair(&ddg(), CHANGED, "q") {
        Plan::Ask(p) => assert_eq!(p, prompt(&ddg(), "q", &condense(CHANGED))),
        Plan::Skip => panic!(),
    }
    assert!(matches!(plan_with(&ddg(), "q", &"x".repeat(199)), Plan::Skip));
    assert!(matches!(plan_with(&ddg(), "q", &"x".repeat(200)), Plan::Ask(_)));
}

#[test]
fn only_proven_answers_are_adopted() {
    let (made, n) = judge(&ddg(), CHANGED, Ok(format!("どうぞ: {GOOD}"))).unwrap();
    assert_eq!(n, 3);
    assert_eq!((made.container.as_str(), made.url), ("article.r-item", ddg().url));
    let e = |a: Result<String, String>| judge(&ddg(), CHANGED, a).unwrap_err();
    assert_eq!(e(Err("timeout".into())), "timeout");
    assert_eq!(e(Ok("sorry".into())), "AI の回答から設定を読み取れません");
    assert_eq!(e(Ok("{}".into())), "提案に container がありません");
    assert_eq!(
        e(Ok(GOOD.replace("article", "section"))),
        "実際のページで 0 件しか読み取れませんでした(必要 3 件)"
    );
}

#[test]
fn adopting_replaces_one_engine() {
    let mut v = defaults();
    let mut made = ddg();
    made.container = "article".into();
    adopt(&mut v, "duckduckgo", &made);
    assert_eq!(v[0], made);
    assert_eq!(v[1..], defaults()[1..]);
    adopt(&mut v, "none", &made);
    assert_eq!(v.len(), 4);
    assert_eq!(v[1..], defaults()[1..]);
}

#[test]
fn log_entries_are_lines_of_json() {
    let line = log_entry(1790000000, "bing", "rejected", "a\n\"b\"");
    assert_eq!(
        line,
        "{\"detail\":\"a\\n\\\"b\\\"\",\"engine\":\"bing\",\"outcome\":\"rejected\",\"unix\":1790000000}\n"
    );
    assert_eq!(line.matches('\n').count(), 1);
    let back = serde_json::from_str::<serde_json::Value>(&line).unwrap();
    assert_eq!(back["detail"], "a\n\"b\"");
    assert_eq!(
        applied_detail(3, &ddg()),
        "3件を読み取れる設定に更新: container=div.result:not(.result--ad) title=a.result__a link=a.result__a snippet=.result__snippet unwrap=uddg"
    );
}

#[test]
fn checkups_lead_to_findings() {
    let mut c = Checkup::new();
    c.note(Some(3), "<a>", "q1");
    c.note(Some(10), "<b>", "q2");
    assert_eq!((c.ok_count, c.finding()), (2, Finding::Fine));
    let mut c = Checkup::new();
    c.note(Some(2), "<a>", "q1");
    c.note(None, "<b>", "q2");
    assert_eq!((c.ok_count, c.finding()), (0, Finding::Broken));
    assert_eq!(c.broken, Some(("<a>".to_string(), "q1".to_string())));
    let mut c = Checkup::new();
    c.note(None, "", "q1");
    c.note(Some(3), "<b>", "q2");
    assert_eq!((c.ok_count, c.finding()), (1, Finding::Unreachable));
}

#[test]
fn reports_are_in_words() {
    assert_eq!(report_line("bing", Report::Fine(2)), "bing: 正常(2/2)");
    assert_eq!(report_line("bing", Report::Broken(true)), "bing: 読み取れず → AI が設定を修正");
    assert_eq!(
        report_line("bing", Report::Broken(false)),
        "bing: 読み取れず → 修正できず(maintenance.log を確認)"
    );
    assert_eq!(report_line("bing", Report::Again(true)), "bing: 修正後の確認 OK");
    assert_eq!(report_line("bing", Report::Again(false)), "bing: 修正後の確認 NG");
    assert_eq!(report_line("bing", Report::Unreachable), "bing: 取得できず(接続失敗または拒否)");
}

#[test]
fn an_answer_makes_a_definition_before_it_is_tried() {
    let made = candidate(&ddg(), &Ok(format!("Here: {GOOD}"))).unwrap();
    assert_eq!((made.container.as_str(), made.url), ("article.r-item", ddg().url));
    assert_eq!(candidate(&ddg(), &Err("timeout".into())).unwrap_err(), "timeout");
    let none = "AI の回答から設定を読み取れません";
    assert_eq!(candidate(&ddg(), &Ok("no".into())).unwrap_err(), none);
    assert_eq!(candidate_from(&ddg(), &None).unwrap_err(), none);
    assert_eq!(candidate_from(&ddg(), &Some(json(GOOD))).unwrap().title, "h3 a");
    assert_eq!(
        candidate_from(&ddg(), &Some(json("{}"))).unwrap_err(),
        "提案に container がありません"
    );
}
