use aruaru_search::double::Double;
use aruaru_search::engine::{defaults, EngineDef, Hit};
use aruaru_search::lang::{resolve, Lang};
use aruaru_search::search::{
    copy_merged, gather, merge, norm_url, now_unix, reorder, seconds_or_zero, sorted_by_score, Found,
    Merged, Page,
};

fn double(x: f64) -> Double {
    Double { bits: x.to_bits() }
}

fn number(d: Double) -> f64 {
    f64::from_bits(d.bits)
}

fn def(id: &str, w: f64) -> EngineDef {
    let mut d = defaults().remove(0);
    d.id = id.into();
    d.weight = double(w);
    d
}

fn hit(t: &str, l: &str, s: &str) -> Hit {
    Hit {
        title: t.into(),
        link: l.into(),
        snippet: s.into(),
    }
}

/// What the votes for a page count: the sum of the weights over the ranks, with 60 to spare.
fn score(p: &Page) -> Double {
    let mut sum = 0.0;
    for v in &p.votes {
        let boost = if v.favoured { 1.3 } else { 1.0 };
        sum += number(v.weight) * boost / (60.0 + v.rank as f64 + 1.0);
    }
    double(sum * (p.factor as f64 / 10.0))
}

fn merged(found: Vec<Found>, lang: &Lang, n: usize) -> Vec<Merged> {
    let pages = gather(&found, lang);
    let scores = pages.iter().map(score).collect();
    merge(&pages, &scores, lang, n)
}

fn found(def: EngineDef, hits: Vec<Hit>) -> Found {
    Found { def, hits }
}

#[test]
fn pages_returned_by_several_engines_rank_first_and_urls_are_deduplicated() {
    let a = found(
        def("a", 1.0),
        vec![
            hit("X", "https://x.example/", "s"),
            hit("Y", "https://y.example/1", "short"),
        ],
    );
    let b = found(
        def("b", 1.0),
        vec![
            hit("Y2", "http://www.y.example/1#top", "a longer snippet"),
            hit("Z", "https://z.example/", ""),
        ],
    );
    let m = merged(vec![a, b], &resolve("en", ""), 10);
    assert_eq!(m.len(), 3);
    assert_eq!(
        m[0].link, "https://y.example/1",
        "2つの検索元が挙げたページが先頭"
    );
    assert_eq!(m[0].engines, vec!["a", "b"]);
    assert_eq!(m[0].snippet, "a longer snippet", "長いほうの要約を使う");
    assert_eq!(
        merged(
            vec![found(
                def("a", 1.0),
                vec![hit("X", "https://x/", ""), hit("Y", "https://y/", "")]
            )],
            &resolve("en", ""),
            1
        )
        .len(),
        1
    );
}

#[test]
fn japanese_queries_put_japanese_pages_above_english_ones() {
    let a = || {
        found(
            def("a", 1.0),
            vec![
                hit(
                    "Hot springs in Yamanashi",
                    "https://en.example/",
                    "list of onsen",
                ),
                hit("山梨県の温泉一覧", "https://ja.example/", "日帰り温泉"),
            ],
        )
    };
    let ja = merged(vec![a()], &resolve("ja", ""), 10);
    assert_eq!(
        ja[0].link, "https://ja.example/",
        "英語のページが1位でも、日本語の検索では日本語のページが先"
    );
    let en = merged(vec![a()], &resolve("en", ""), 10);
    assert_eq!(
        en[0].link, "https://en.example/",
        "英語の検索では順位を変えない"
    );
}

#[test]
fn pages_in_the_script_come_first_whatever_their_scores() {
    let english = || hit("Hot springs", "https://en.example/", "list of onsen");
    let some = || hit("Hot springs of Yamanashi 温泉", "https://some.example/", "");
    let japanese = || hit("山梨県の温泉一覧", "https://ja.example/", "日帰り温泉");
    let all = || {
        vec![
            found(def("a", 1.0), vec![english(), some(), japanese()]),
            found(def("b", 1.0), vec![english(), some()]),
            found(def("c", 1.0), vec![english()]),
            found(def("d", 1.0), vec![english()]),
        ]
    };
    let links = |v: Vec<Merged>| v.into_iter().map(|m| m.link).collect::<Vec<String>>();
    let shown = merged(all(), &resolve("ja", ""), 10);
    assert!(number(shown[2].score) > number(shown[0].score));
    assert_eq!(
        links(shown),
        vec!["https://ja.example/", "https://some.example/", "https://en.example/"]
    );
    assert_eq!(links(merged(all(), &resolve("ja", ""), 1)), vec!["https://ja.example/"]);
    assert_eq!(
        links(merged(all(), &resolve("en", ""), 10)),
        vec!["https://en.example/", "https://some.example/", "https://ja.example/"]
    );
}

#[test]
fn norm_url_ignores_scheme_www_slash_and_fragment() {
    assert_eq!(
        norm_url("HTTPS://www.Example.com/a/#x"),
        norm_url("http://example.com/a")
    );
    assert_ne!(
        norm_url("https://example.com/a"),
        norm_url("https://example.com/b")
    );
}

#[test]
fn links_are_compared_in_one_form() {
    assert_eq!(norm_url("HTTPS://www.Example.com/a/#x"), "example.com/a");
    assert_eq!(norm_url("https://x.example//"), "x.example");
    assert_eq!(norm_url("http://www.www.x/"), "www.x");
    assert_eq!(norm_url("ftp://x/#"), "ftp://x");
    assert_eq!(norm_url("https://x/a#b#c"), norm_url("https://x/a#b"));
    assert_eq!(norm_url("https://x/a#b/"), norm_url("https://x/a#b"));
    assert_eq!(norm_url("https:/"), "https:");
    assert_eq!(norm_url("https://"), "");
    assert_eq!(norm_url(""), "");
}

#[test]
fn votes_are_gathered_for_each_page() {
    let mut ja = def("ja", 0.5);
    ja.langs = vec!["ja".into()];
    let pages = gather(
        &vec![
            found(
                ja,
                vec![hit("A", "https://a/", "x"), hit("B", "https://b/", ""), hit("A2", "https://A", "xyz")],
            ),
            found(def("e", 2.0), vec![hit("B3", "http://b", "y")]),
        ],
        &resolve("ja", ""),
    );
    assert_eq!(pages.len(), 2);
    assert_eq!((pages[0].title.as_str(), pages[0].link.as_str()), ("A", "https://a/"));
    assert_eq!(pages[0].snippet, "xyz");
    assert_eq!(pages[0].engines, vec!["ja"]);
    assert_eq!(
        pages[0]
            .votes
            .iter()
            .map(|v| (number(v.weight), v.favoured, v.rank))
            .collect::<Vec<_>>(),
        vec![(0.5, true, 0), (0.5, true, 2)]
    );
    assert_eq!(pages[1].engines, vec!["ja", "e"]);
    assert_eq!(
        pages[1]
            .votes
            .iter()
            .map(|v| (number(v.weight), v.favoured, v.rank))
            .collect::<Vec<_>>(),
        vec![(0.5, true, 1), (2.0, false, 0)]
    );
    assert_eq!((pages[0].factor, pages[1].factor), (5, 5));
    assert!(gather(&Vec::new(), &resolve("", "")).is_empty());
}

fn scored(t: &str, s: f64) -> Merged {
    Merged {
        title: t.into(),
        link: t.into(),
        snippet: String::new(),
        engines: vec!["a".into()],
        score: double(s),
    }
}

fn titles(v: &Vec<Merged>) -> String {
    v.iter().map(|m| m.title.as_str()).collect()
}

#[test]
fn equal_scores_keep_their_order() {
    let v = vec![
        scored("a", 0.5),
        scored("b", 1.5),
        scored("c", 0.5),
        scored("d", -1.0),
        scored("e", 1.5),
        scored("f", 0.0),
        scored("g", -0.0),
    ];
    let sorted = sorted_by_score(&v);
    assert_eq!(titles(&sorted), "beacfgd");
    assert_eq!(sorted_by_score(&sorted), sorted);
    assert_eq!(titles(&copy_merged(&sorted, 2)), "be");
    assert_eq!(copy_merged(&sorted, 20), sorted);
}

#[test]
fn new_scores_put_the_first_pages_into_a_new_order() {
    let v = vec![scored("a", 0.9), scored("b", 0.8), scored("c", 0.7)];
    assert_eq!(titles(&reorder(&v, &vec![double(0.1), double(0.95)])), "bca");
    assert_eq!(reorder(&v, &Vec::new()), v);
    assert_eq!(number(reorder(&v, &vec![double(0.1)])[2].score), 0.1);
}

#[test]
fn the_clock_runs() {
    assert!(now_unix() > 1_600_000_000);
    assert_eq!(seconds_or_zero(Some(7)), 7);
    assert_eq!(seconds_or_zero(None), 0);
}
