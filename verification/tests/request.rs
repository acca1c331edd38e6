use aruaru_search::engine::encode;
use aruaru_search::json::{parse_json, JsonValue};
use aruaru_search::limit::Limiter;
use aruaru_search::request::{
    admin_allowed, decoded_bytes, is_decodable, is_query_decodable, jst_day_hour, may_search,
    pct_decode, query_param, Reason, Refusal, Rounds, SearchRequest,
};

#[test]
fn query_string_decoding() {
    assert_eq!(
        query_param("q=%E5%B1%B1%E6%A2%A8+%E6%B8%A9%E6%B3%89&hl=ja", "q").as_deref(),
        Some("山梨 温泉")
    );
    assert_eq!(query_param("q=a&hl=ja", "hl").as_deref(), Some("ja"));
    assert_eq!(query_param("q=a", "zz"), None);
    assert_eq!(pct_decode("100%"), "100%");
}

#[test]
fn jst_day_boundary_is_at_9_utc() {
    let (d1, h1) = jst_day_hour(86_400 * 10 + 8 * 3600);
    assert_eq!(h1, 17);
    let (d2, h2) = jst_day_hour(86_400 * 10 + 15 * 3600);
    assert_eq!((d2, h2), (d1 + 1, 0));
}

#[test]
fn decoding_undoes_encoding_whatever_is_encoded() {
    for s in ["", "a b", "100% + 1", "山梨県 温泉", "é\u{1F600}\n\0", "&=#{q}"] {
        let e = encode(s);
        assert!(is_decodable(&e));
        assert_eq!(pct_decode(&e), s);
    }
}

#[test]
fn only_two_digits_after_a_percent_sign_are_a_byte() {
    assert_eq!(decoded_bytes(b"%41%4a%4A"), b"AJJ");
    assert_eq!(decoded_bytes(b"%4"), b"%4");
    assert_eq!(decoded_bytes(b"%zz%+f+"), b"%zz\x0f ");
    assert_eq!(decoded_bytes(b"%%41"), b"%A");
    assert_eq!(pct_decode("%FF%41"), "\u{FFFD}A");
}

#[test]
fn a_percent_sign_before_half_a_character_cannot_be_decoded() {
    assert!(!is_decodable("%1é"));
    assert!(is_decodable("%é"));
    assert!(is_decodable("é%4"));
    assert!(!is_query_decodable("hl=ja&q=%1é"));
    assert!(is_query_decodable("other=%1é&q=%41"));
}

#[test]
fn the_first_parameter_with_a_name_counts() {
    assert_eq!(query_param("q&q=1&q=2", "q").as_deref(), Some("1"));
    assert_eq!(query_param("q=a=b", "q").as_deref(), Some("a=b"));
    assert_eq!(query_param("=x", "").as_deref(), Some("x"));
    assert_eq!(query_param("", "q"), None);
}

#[test]
fn searches_are_read_from_query_strings() {
    let r = SearchRequest::from_query("q=%E6%B8%A9%E6%B3%89+x&hl=ja&gl=JP&n=5");
    assert_eq!(
        r,
        SearchRequest {
            q: "温泉 x".into(),
            hl: "ja".into(),
            gl: "JP".into(),
            n: 5
        }
    );
    let r = SearchRequest::from_query("n=many");
    assert_eq!((r.q.as_str(), r.hl.as_str(), r.gl.as_str(), r.n), ("", "", "", 10));
    assert_eq!(SearchRequest::from_query("n=%2B7").n, 7);
}

#[test]
fn searches_are_read_from_json() {
    let r = SearchRequest::from_body(r#"{"q":"温泉","hl":"ja","gl":"JP","n":3}"#.as_bytes()).unwrap();
    assert_eq!(
        r,
        SearchRequest {
            q: "温泉".into(),
            hl: "ja".into(),
            gl: "JP".into(),
            n: 3
        }
    );
    let r = SearchRequest::from_body(br#"{"query":"x","q":"","max_results":7,"n":3}"#).unwrap();
    assert_eq!((r.q.as_str(), r.n), ("x", 7));
    let r = SearchRequest::from_body(br#"{"q":1,"max_results":"7","n":3}"#).unwrap();
    assert_eq!((r.q.as_str(), r.n), ("", 10));
    let r = SearchRequest::from_body(b"[1]").unwrap();
    assert_eq!((r.q.as_str(), r.n), ("", 10));
    assert_eq!(SearchRequest::from_body(b"not json"), None);
}

#[test]
fn json_objects_are_read_one_level_deep() {
    let j = parse_json(br#"{"a":null,"b":true,"c":1,"d":-1.5,"e":"x","f":{"g":[1,"y"]}}"#)
        .unwrap_or_else(|e| panic!("{e}"));
    assert!(matches!(j.get("a"), Some(JsonValue::Null)));
    assert!(matches!(j.get("b"), Some(JsonValue::Bool(true))));
    assert!(matches!(j.get("c"), Some(JsonValue::Number(Some(1)))));
    assert!(matches!(j.get("d"), Some(JsonValue::Number(None))));
    assert_eq!(j.text("e"), Some("x"));
    assert_eq!(j.text("a"), None);
    match j.get("f") {
        Some(JsonValue::Nested(s)) => assert_eq!(s, r#"{"g":[1,"y"]}"#),
        _ => panic!(),
    }
    assert!(j.get("h").is_none());
    assert_eq!(
        parse_json(b"{").err().unwrap(),
        "EOF while parsing an object at line 1 column 1"
    );
}

#[test]
fn refused_calls_are_told_why() {
    let mut l = Limiter::new(1, 10, true);
    assert_eq!(may_search(&mut l, Some("a"), 100, "ja", "JP"), Ok(()));
    let r = may_search(&mut l, Some("a"), 100, "<", "").unwrap_err();
    assert_eq!(
        r,
        Refusal {
            status: 429,
            message: "利用回数の上限に達しました。20秒後にもう一度お試しください".into(),
            retry_after: Some(20)
        }
    );
    let r = may_search(&mut l, Some("b"), 100, "<", "").unwrap_err();
    assert_eq!(
        r,
        Refusal {
            status: 400,
            message: "hl / gl が正しくありません".into(),
            retry_after: None
        }
    );
    assert!(may_search(&mut l, None, 100, "zh-Hant-TW-1", "JP-123").is_ok());
    assert!(may_search(&mut l, None, 100, "zh-Hant-TW-12", "").is_err());
    assert!(may_search(&mut l, None, 100, "", "JP-1234").is_err());
    assert!(may_search(&mut l, None, 100, "é", "").is_err());
}

#[test]
fn every_reason_has_its_status() {
    let of = |r: Reason| {
        let x = Refusal::because(r);
        (x.status, x.message, x.retry_after)
    };
    assert_eq!(of(Reason::TooLarge), (413, "リクエストが大きすぎます".into(), None));
    assert_eq!(of(Reason::BadJson), (400, "JSON が正しくありません".into(), None));
    assert_eq!(of(Reason::NotAdmin), (403, "管理トークンが必要です".into(), None));
    assert_eq!(of(Reason::BadTags).0, 400);
    assert_eq!(of(Reason::TooMany(7)).2, Some(7));
}

#[test]
fn the_administrator_needs_a_token() {
    assert!(admin_allowed(Some("secret"), "secret"));
    assert!(!admin_allowed(Some("secret"), "Secret"));
    assert!(!admin_allowed(Some(""), ""));
    assert!(!admin_allowed(None, ""));
}

#[test]
fn rounds_are_made_at_once_and_then_every_morning() {
    let mut r = Rounds::new();
    let day = 86_400 * 20_000;
    // Three in the morning in Japan.
    assert!(r.due(day - 6 * 3600));
    assert!(!r.due(day - 6 * 3600 + 300));
    assert!(!r.due(day - 2 * 3600 - 1));
    // Seven.
    assert!(r.due(day - 2 * 3600));
    assert!(!r.due(day - 2 * 3600 + 300));
    assert!(!r.due(day + 14 * 3600));
    // The next day: not before seven.
    assert!(!r.due(day + 86_400 - 6 * 3600));
    assert!(!r.due(day + 86_400 - 2 * 3600 - 1));
    assert!(r.due(day + 86_400 - 2 * 3600));
    assert!(!r.due(day + 86_400));
}

#[test]
fn a_start_after_seven_is_the_round_of_the_morning() {
    let mut r = Rounds::new();
    let day = 86_400 * 20_000;
    // Nine in the morning in Japan.
    assert!(r.due(day));
    assert!(!r.due(day + 300));
    assert!(!r.due(day + 86_400 - 3 * 3600));
    assert!(r.due(day + 86_400 - 3600));
}
