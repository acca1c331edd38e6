use aruaru_search::engine::defaults;
use aruaru_search::store::{dec, dec_all, enc, engine_row, event_row, keep_usable, StoreError};

#[test]
fn stored_texts_are_read_back() {
    for s in ["", "a", "ab", "abc", "山梨県, 温泉\n'\"", "\u{1F600}"] {
        assert_eq!(dec(&enc(s)).unwrap(), s);
        assert_eq!(dec(&format!(" {}\n", enc(s))).unwrap(), s);
    }
}

#[test]
fn stored_texts_are_base64() {
    assert_eq!(enc(""), "");
    assert_eq!(enc("f"), "Zg==");
    assert_eq!(enc("fo"), "Zm8=");
    assert_eq!(enc("foo"), "Zm9v");
    assert_eq!(enc("foob"), "Zm9vYg==");
    assert_eq!(enc("\u{3ff}\u{3ff}"), "z7/Pvw==");
    assert!(!enc("a,b,c 'd'").contains(','));
}

#[test]
fn values_that_are_no_stored_texts_are_errors() {
    let e = dec("Zg=").unwrap_err();
    assert_eq!(e, StoreError::NotBase64("Invalid padding".into()));
    assert_eq!(e.message(), "保存された値を復号できません: Invalid padding");
    assert!(matches!(dec("Zh=="), Err(StoreError::NotBase64(_))));
    assert!(matches!(dec("a b"), Err(StoreError::NotBase64(_))));
    let e = dec("/w==").unwrap_err();
    assert_eq!(
        e,
        StoreError::NotText("invalid utf-8 sequence of 1 bytes from index 0".into())
    );
    assert_eq!(
        e.message(),
        "保存された値が UTF-8 ではありません: invalid utf-8 sequence of 1 bytes from index 0"
    );
}

#[test]
fn one_bad_row_is_an_error() {
    assert_eq!(dec_all(&vec![enc("a"), enc("b")]).unwrap(), vec!["a", "b"]);
    assert_eq!(
        dec_all(&vec![enc("a"), "/w==".into(), "!".into()]).unwrap_err(),
        dec("/w==").unwrap_err()
    );
    assert!(dec_all(&Vec::new()).unwrap().is_empty());
}

#[test]
fn only_valid_definitions_are_kept() {
    let mut v = defaults();
    v[1].url = "http://x/".into();
    v[2].container = "[".into();
    let kept = keep_usable(&v);
    assert_eq!(kept, vec![v[0].copy(), v[3].copy()]);
}

#[test]
fn rows_hold_stored_texts() {
    let r = engine_row("bing", "{}", 1790000000);
    assert_eq!((r.id.as_str(), r.json.as_str(), r.updated_unix.as_str()), ("bing", "e30=", "1790000000"));
    let r = event_row(0, "a", "b", "c, d");
    assert_eq!((r.unix.as_str(), r.engine.as_str(), r.outcome.as_str()), ("0", "YQ==", "Yg=="));
    assert_eq!(dec(&r.detail).unwrap(), "c, d");
}
