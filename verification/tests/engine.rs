use aruaru_search::double::Double;
use aruaru_search::engine::{
    bing_target, check_scheme, check_selector, defaults, encode, find_engine, parameter, parse, read_rows, text_of,
    unwrap_redirect, EngineDef, EngineError, Hit, Part,
};
use aruaru_search::maintain::condense;
use aruaru_search::web::{all_shallow, is_shallow, is_short, may_use_has, UrlParts, NEST_LIMIT};

fn named(id: &str) -> EngineDef {
    defaults().into_iter().find(|e| e.id == id).unwrap()
}

fn ddg() -> EngineDef {
    named("duckduckgo")
}

fn error(e: &EngineDef) -> EngineError {
    e.validate().unwrap_err()
}

#[test]
fn defaults_are_valid_and_urls_are_encoded() {
    for e in defaults() {
        e.validate()
            .unwrap_or_else(|err| panic!("{}: {}", e.id, err.message()));
    }
    let u = ddg().search_url("山梨県 温泉", "ja", "JP");
    assert!(
        u.contains("q=%E5%B1%B1%E6%A2%A8%E7%9C%8C+%E6%B8%A9%E6%B3%89") && u.contains("kl=jp-ja"),
        "{u}"
    );
}

#[test]
fn parses_duckduckgo_style_results_and_skips_ads() {
    let html = r#"<html><body>
      <div class="result results_links web-result"><h2><a class="result__a" href="//duckduckgo.com/l/?uddg=https%3A%2F%2Fexample.com%2Fa&amp;rut=x">Example A</a></h2><a class="result__snippet">About A</a></div>
      <div class="result result--ad"><h2><a class="result__a" href="//duckduckgo.com/l/?uddg=https%3A%2F%2Fad.example%2F">AD</a></h2></div>
      <div class="result"><h2><a class="result__a" href="//duckduckgo.com/l/?uddg=https%3A%2F%2Fduckduckgo.com%2Fy.js%3Fad_domain%3Dx">Sneaky ad</a></h2></div>
      <div class="result"><h2><a class="result__a" href="javascript:alert(1)">Bad</a></h2></div>
      <div class="result"><h2><a class="result__a" href="//duckduckgo.com/l/?uddg=https%3A%2F%2Fexample.com%2Fa">Dup</a></h2></div>
      <div class="result"><h2><a class="result__a" href="//duckduckgo.com/l/?uddg=https%3A%2F%2Fexample.org%2Fb">Example B</a></h2></div>
    </body></html>"#;
    let hits = parse(&ddg(), html);
    assert_eq!(hits.len(), 2, "{hits:?}");
    assert_eq!(
        hits[0],
        Hit {
            title: "Example A".into(),
            link: "https://example.com/a".into(),
            snippet: "About A".into()
        }
    );
    assert_eq!(hits[1].link, "https://example.org/b");
}

#[test]
fn decodes_bing_redirect_links() {
    // The address is https://example.com/a?b=1, in base64url behind a1.
    let href = "https://www.bing.com/ck/a?!&&p=x&u=a1aHR0cHM6Ly9leGFtcGxlLmNvbS9hP2I9MQ&ntb=1";
    assert_eq!(unwrap_redirect(href, ""), "https://example.com/a?b=1");
    let other = "https://other.example/?u=a1aHR0cHM6Ly9leGFtcGxlLmNvbS9hP2I9MQ";
    assert_eq!(unwrap_redirect(other, ""), other);
}

#[test]
fn empty_region_omits_cc_and_language_gating_works() {
    let bing = named("bing");
    let u = bing.search_url("x", "th", "");
    assert!(!u.contains("cc="), "{u}");
    let y = named("yahoo-jp");
    assert!(y.serves("ja") && !y.serves("en") && !y.serves("zh-Hans"));
    assert!(y.favours("ja") && !bing.favours("ja") && bing.serves("ko"));
}

#[test]
fn validate_rejects_unsafe_or_broken_definitions() {
    let mut e = ddg();
    e.url = "http://insecure.example/?q={q}".into();
    assert!(e.validate().is_err());
    let mut e = ddg();
    e.container = "div[".into();
    assert!(e.validate().is_err());
    let mut e = ddg();
    e.id = "../x".into();
    assert!(e.validate().is_err());
}

#[test]
fn each_fault_of_a_definition_has_its_error() {
    let mut e = ddg();
    e.id = String::new();
    assert_eq!(error(&e), EngineError::Id);
    assert_eq!(error(&e).message(), "id が正しくありません");
    let mut e = ddg();
    e.url = "no url".into();
    assert_eq!(
        error(&e),
        EngineError::Url("relative URL without a base".into())
    );
    assert_eq!(
        error(&e).message(),
        "URL の型が正しくありません: relative URL without a base"
    );
    let mut e = ddg();
    e.url = "http://x/?q={q}".into();
    assert_eq!(error(&e), EngineError::Scheme);
    assert_eq!(error(&e).message(), "URL は https のみです");
    let mut e = ddg();
    e.title = "a".repeat(301);
    assert_eq!(error(&e), EngineError::LongSelector(Part::Title));
    assert_eq!(error(&e).message(), "title のセレクタが長すぎます");
    let mut e = ddg();
    e.link = "div[".into();
    assert!(matches!(error(&e), EngineError::Selector(Part::Link, _)));
    assert!(error(&e)
        .message()
        .starts_with("link のセレクタが正しくありません: "));
    let mut e = ddg();
    e.snippet = String::new();
    assert_eq!(e.validate(), Ok(()));
    e.container = String::new();
    assert!(matches!(error(&e), EngineError::Selector(Part::Container, _)));
    let mut e = ddg();
    e.link_attr = "data href".into();
    assert_eq!(error(&e), EngineError::LinkAttr);
    assert_eq!(error(&e).message(), "link_attr が正しくありません");
    e.link_attr = "@mu".into();
    assert_eq!(e.validate(), Ok(()));
    e.link_attr = "a".repeat(41);
    assert_eq!(error(&e), EngineError::LinkAttr);
    for (w, good) in [
        (0.0, true),
        (-0.0, true),
        (2.0, true),
        (2.0000001, false),
        (-0.1, false),
        (f64::NAN, false),
        (f64::INFINITY, false),
    ] {
        let mut e = ddg();
        e.weight = Double { bits: f64::to_bits(w) };
        assert_eq!(e.validate().is_ok(), good, "{w}");
    }
    let mut e = ddg();
    e.weight = Double { bits: f64::to_bits(3.0) };
    assert_eq!(error(&e).message(), "weight は 0〜2 です");
}

#[test]
fn the_first_fault_is_the_one_reported() {
    let mut e = ddg();
    e.id = "a b".into();
    e.url = "http://x/".into();
    e.title = "div[".into();
    assert_eq!(error(&e), EngineError::Id);
    e.id = "a".into();
    assert_eq!(error(&e), EngineError::Scheme);
    e.url = "https://x/".into();
    assert!(matches!(error(&e), EngineError::Selector(Part::Title, _)));
}

#[test]
fn doubles_are_ordered_like_numbers() {
    let d = |x: f64| Double { bits: x.to_bits() };
    let order = [f64::NEG_INFINITY, -2.5, -1.0, -1e-300, 0.0, 1e-300, 0.3, 1.0, f64::INFINITY];
    for i in 0..order.len() {
        for j in 0..order.len() {
            assert_eq!(d(order[i]).less(d(order[j])), order[i] < order[j]);
        }
    }
    assert!(!d(0.0).less(d(-0.0)) && !d(-0.0).less(d(0.0)));
}

#[test]
fn search_urls_fill_in_every_place() {
    let mut e = ddg();
    e.url = "https://x/?q={q}&l={hl}&cc={gl}&k={kl}".into();
    assert_eq!(
        e.search_url("a&b", "zh-CN", "CN"),
        "https://x/?q=a%26b&l=zh-CN&cc=CN&k=cn-zh"
    );
    assert_eq!(e.search_url("", "", ""), "https://x/?q=&l=en&k=wt-wt");
    assert_eq!(named("bing").search_url("x", "th", ""), "https://www.bing.com/search?q=x&setlang=th");
}

#[test]
fn encoded_texts_hold_nothing_that_means_something_in_a_url() {
    assert_eq!(encode("aZ09-_.~ &=#/{}é"), "aZ09-_.~+%26%3D%23%2F%7B%7D%C3%A9");
    assert_eq!(encode(""), "");
}

#[test]
fn schemes_are_checked_on_urls_that_were_read() {
    let url = |scheme: &str| UrlParts {
        scheme: scheme.into(),
        host: None,
        pairs: Vec::new(),
    };
    assert_eq!(check_scheme(Ok(url("https"))), Ok(()));
    assert_eq!(check_scheme(Ok(url("ftp"))), Err(EngineError::Scheme));
    assert_eq!(
        check_scheme(Err("bad".into())),
        Err(EngineError::Url("bad".into()))
    );
}

#[test]
fn selectors_are_checked_by_their_faults() {
    assert_eq!(check_selector(Part::Title, None), Ok(()));
    assert_eq!(
        check_selector(Part::Title, Some("x".into())),
        Err(EngineError::Selector(Part::Title, "x".into()))
    );
}

fn bing_url(host: &str, u: &str) -> UrlParts {
    UrlParts {
        scheme: "https".into(),
        host: Some(host.into()),
        pairs: vec![("x".into(), "1".into()), ("u".into(), u.into()), ("u".into(), "2".into())],
    }
}

#[test]
fn redirects_of_bing_need_their_form() {
    assert_eq!(parameter(&bing_url("x", "y"), "u").as_deref(), Some("y"));
    assert_eq!(parameter(&bing_url("x", "y"), "z"), None);
    let good = "a1aHR0cHM6Ly9leGFtcGxlLmNvbS8";
    assert_eq!(
        bing_target(&bing_url("www.bing.com", good)).as_deref(),
        Some("https://example.com/")
    );
    assert_eq!(
        bing_target(&bing_url("www.bing.com", "a1aHR0cHM6Ly9leGFtcGxlLmNvbS8=!!")).as_deref(),
        Some("https://example.com/")
    );
    assert_eq!(bing_target(&bing_url("example.com", good)), None);
    assert_eq!(bing_target(&bing_url("www.bing.com", &good[2..])), None);
    assert_eq!(bing_target(&bing_url("www.bing.com", "a1aHR0!")), None);
    assert_eq!(bing_target(&bing_url("www.bing.com", "a1Zm9v")), None);
    assert_eq!(bing_target(&bing_url("www.bing.com", "a1_____w")), None);
    let mut none = bing_url("x", good);
    none.host = None;
    assert_eq!(bing_target(&none), None);
}

#[test]
fn redirecting_links_lead_where_their_parameter_says() {
    assert_eq!(
        unwrap_redirect("//duckduckgo.com/l/?uddg=https%3A%2F%2Fexample.com%2Fa&rut=x", "uddg"),
        "https://example.com/a"
    );
    assert_eq!(unwrap_redirect("//x/?y=1", "uddg"), "//x/?y=1");
    assert_eq!(unwrap_redirect("/relative", "uddg"), "/relative");
    assert_eq!(unwrap_redirect("//x/?uddg=1", ""), "//x/?uddg=1");
}

#[test]
fn texts_of_elements_have_single_blanks() {
    assert_eq!(text_of(&vec![" a\n b".into(), "".into(), "c\t".into()]), "a b c");
    assert_eq!(text_of(&Vec::new()), "");
}

#[test]
fn rows_without_title_or_link_are_no_results() {
    let t = |s: &str| Some(vec![s.to_string()]);
    let l = |s: &str| Some(s.to_string());
    let hits = read_rows(
        &vec![t("A"), None, t(" "), t("B"), t("C"), t("D"), t("E")],
        &vec![
            l("https://a/"),
            l("https://b/"),
            l("https://c/"),
            None,
            l("mailto:x"),
            l("http://www.bing.com/aclick?x"),
            l("https://a/"),
        ],
        &vec![None, None, None, None, None, None, None],
        "",
    );
    assert_eq!(
        hits,
        vec![Hit {
            title: "A".into(),
            link: "https://a/".into(),
            snippet: "".into()
        }]
    );
}

#[test]
fn links_are_read_from_the_attribute_that_is_named() {
    let html = r#"<body><div class="r" mu="https://own.example/"><h3>T</h3>
        <a href="https://href.example/" data-u="https://data.example/">x</a><p>S  s</p></div></body>"#;
    let mut e = ddg();
    e.container = "div.r".into();
    e.title = "h3".into();
    e.link = "a".into();
    e.snippet = "p".into();
    e.unwrap = String::new();
    assert_eq!(parse(&e, html)[0].link, "https://href.example/");
    assert_eq!(parse(&e, html)[0].snippet, "S s");
    e.link_attr = "data-u".into();
    assert_eq!(parse(&e, html)[0].link, "https://data.example/");
    e.link_attr = "@mu".into();
    assert_eq!(parse(&e, html)[0].link, "https://own.example/");
    e.link_attr = "@none".into();
    assert!(parse(&e, html).is_empty());
}

#[test]
fn a_broken_selector_of_the_summary_only_costs_the_summary() {
    let html = r#"<body><li><a href="https://a/">A</a><p>s</p></li></body>"#;
    let mut e = ddg();
    e.container = "li".into();
    e.title = "a".into();
    e.link = "a".into();
    e.snippet = String::new();
    let hits = parse(&e, html);
    assert_eq!(hits.len(), 1);
    assert_eq!(hits[0].snippet, "");
    e.title = "a[".into();
    assert!(parse(&e, html).is_empty());
}

fn nested(n: usize) -> String {
    format!("<body>{}{}</body>", "<div>".repeat(n), "</div>".repeat(n))
}

#[test]
fn selectors_with_has_are_tried_on_pages_that_are_not_nested_too_deep() {
    // The document, the page itself and its body are three levels more.
    let html = nested(NEST_LIMIT - 2);
    assert!(is_shallow(&html));
    let mut e = ddg();
    e.container = "div:has(i)".into();
    assert!(e.has_short_selectors() && e.can_read_page(&html));
    assert!(parse(&e, &html).is_empty());
    for deep in [nested(NEST_LIMIT - 1), nested(5_000)] {
        assert!(!is_shallow(&deep));
        assert!(!e.can_read_page(&deep));
    }
    assert!(is_shallow(""));
}

#[test]
fn nodes_that_are_taken_out_of_the_document_count() {
    let deep = "<span>".repeat(5_000) + "<frameset>";
    assert!(condense(&deep).is_empty());
    assert!(!is_shallow(&deep));
    assert!(is_shallow(&("<span>".repeat(50) + "<frameset>")));
}

#[test]
fn selectors_without_has_are_tried_on_any_page() {
    let result = r#"<li class="b_algo"><h2><a href="https://a.example/">A</a></h2></li>"#;
    let deep = format!("{}{result}", "<div>".repeat(5_000));
    let e = named("bing");
    assert!(e.can_read_page(&deep));
    assert_eq!(parse(&e, &deep).len(), 1);
}

#[test]
fn has_is_seen_in_any_case_and_behind_escapes() {
    for s in ["a:has(b)", "A:HAS(b)", "a:not(:Has(> b))", "a:\\68 as(b)"] {
        assert!(may_use_has(s), "{s}");
    }
    for s in ["a", "div.has", "[x=has]", "a:not(.hash)", ""] {
        assert!(!may_use_has(s), "{s}");
    }
    let mut e = ddg();
    assert!(e.can_read_page(&nested(600)));
    e.snippet = "p:has(b)".into();
    assert!(!e.can_read_page(&nested(600)));
}

#[test]
fn counts_of_nesting_are_compared() {
    assert!(all_shallow(&vec![0, NEST_LIMIT]));
    assert!(!all_shallow(&vec![0, NEST_LIMIT + 1]));
}

#[test]
fn long_selectors_are_told() {
    assert!(is_short(&"a".repeat(300)));
    assert!(!is_short(&"a".repeat(301)));
    assert!(!is_short(&"é".repeat(151)));
    let mut e = ddg();
    e.snippet = "a".repeat(301);
    assert!(!e.has_short_selectors());
}

#[test]
fn engines_are_found_by_their_id() {
    let v = defaults();
    assert_eq!(find_engine(&v, "duckduckgo"), 0);
    assert_eq!(find_engine(&v, "yahoo-jp"), 3);
    assert_eq!(find_engine(&v, "none"), 4);
    assert_eq!(v[1].copy(), v[1]);
}
