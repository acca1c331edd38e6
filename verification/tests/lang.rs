use aruaru_search::lang::{
    rank_factor, resolve, script_for, script_share, share_factor, wanted, Script, Share,
    LANGUAGE_SCRIPTS,
};
use aruaru_search::languages::{find, LANGUAGES};

fn factor(script: Script, title: &str, snippet: &str) -> f64 {
    rank_factor(script, title, snippet) as f64 / 10.0
}

#[test]
fn resolves_languages_and_regions() {
    let l = resolve("ja", "");
    assert_eq!(
        (l.code, l.hl.as_str(), l.gl.as_str(), l.script),
        ("ja", "ja", "JP", Script::Japanese)
    );
    let l = resolve("zh-TW", "");
    assert_eq!(
        (l.code, l.hl.as_str(), l.gl.as_str()),
        ("zh-Hant", "zh-TW", "TW")
    );
    let l = resolve("zh", "");
    assert_eq!(
        (l.code, l.hl.as_str(), l.gl.as_str()),
        ("zh-Hans", "zh-CN", "CN")
    );
    let l = resolve("fa", "");
    assert_eq!((l.gl.as_str(), l.script), ("IR", Script::Arabic));
    let l = resolve("ar", "EG");
    assert_eq!(l.gl, "EG", "地域は指定を優先");
    let l = resolve("pt_BR", "");
    assert_eq!((l.code, l.gl.as_str()), ("pt-BR", "BR"));
    let l = resolve("", "");
    assert_eq!((l.code, l.hl.as_str()), ("en", "en"));
}

#[test]
fn every_listed_language_resolves_to_itself() {
    for (code, _, _) in LANGUAGES.iter() {
        let l = resolve(code, "");
        assert_eq!(l.code, *code, "{code}");
    }
}

#[test]
fn japanese_pages_outrank_english_ones_for_japanese_queries() {
    let ja = factor(Script::Japanese, "山梨県の温泉一覧", "日帰り温泉・旅館");
    let en = factor(
        Script::Japanese,
        "Hot springs in Yamanashi",
        "A list of onsen",
    );
    assert!(ja > en, "{ja} {en}");
    assert_eq!(factor(Script::Latin, "anything", ""), 1.0);
}

#[test]
fn chinese_korean_arabic_persian_are_recognised() {
    assert!(factor(Script::Chinese, "北京温泉推荐", "") > 1.0);
    assert!(
        factor(Script::Chinese, "山梨県の温泉です", "かなが混じる") < 1.0,
        "日本語のページは中国語の結果にしない"
    );
    assert!(factor(Script::Korean, "서울 맛집 추천", "") > 1.0);
    assert!(factor(Script::Arabic, "أفضل المطاعم في دبي", "") > 1.0);
    assert!(factor(Script::Arabic, "بهترین رستوران\u{200c}های تهران", "") > 1.0);
    assert!(factor(Script::Cyrillic, "Лучшие рестораны Москвы", "") > 1.0);
    assert!(factor(Script::Thai, "ร้านอาหารกรุงเทพ", "") > 1.0);
    assert!(factor(Script::Devanagari, "दिल्ली के रेस्तरां", "") > 1.0);
    assert!(factor(Script::Korean, "Seoul restaurants", "") < 1.0);
}

#[test]
fn there_are_around_a_hundred_and_thirty_languages() {
    assert_eq!(LANGUAGES.len(), 134);
    assert_eq!(find("JA"), Some("ja"));
    assert_eq!(find("zh-hans"), Some("zh-Hans"));
    assert_eq!(find("xx"), None);
}

#[test]
fn other_names_of_languages_are_understood() {
    for (name, code) in [
        ("zh-CN", "zh-Hans"),
        ("zh_SG", "zh-Hans"),
        ("ZH-hk", "zh-Hant"),
        ("zh-MO", "zh-Hant"),
        ("pt", "pt-BR"),
        ("pt-PT", "pt-PT"),
        ("nb", "no"),
        ("nn", "no"),
        ("tl", "fil"),
        ("iw", "he"),
        ("  en-GB\n", "en"),
        ("de_AT", "de"),
    ] {
        assert_eq!(resolve(name, "").code, code, "{name}");
    }
}

#[test]
fn unknown_languages_are_passed_on() {
    let l = resolve("XX-Yy", "");
    assert_eq!((l.code, l.hl.as_str(), l.gl.as_str()), ("en", "xx-yy", ""));
    assert_eq!(l.script, Script::Latin);
    assert_eq!(resolve("x-y", " gb ").gl, "GB");
    for name in ["zh-x", "pt-x"] {
        let l = resolve(name, "");
        assert_eq!((l.hl.as_str(), l.gl.as_str()), (name, ""));
        assert_eq!(l.script, Script::Latin);
    }
    let l = resolve("yue-HK", " hk ");
    assert_eq!((l.hl.as_str(), l.gl.as_str()), ("yue", "HK"));
    assert_eq!(l.script, Script::Chinese);
    let l = resolve(" \n", "");
    assert_eq!((l.code, l.hl.as_str(), l.gl.as_str()), ("en", "en", "US"));
}

#[test]
fn resolving_again_changes_nothing() {
    for (hl, gl) in [
        ("zh_HK", ""),
        ("zh", "sg"),
        ("pt", ""),
        ("nb", " se "),
        ("XX-yy", ""),
        ("eo", ""),
        ("", ""),
    ] {
        let l = resolve(hl, gl);
        assert_eq!(resolve(&l.hl, &l.gl), l, "{hl}");
    }
}

#[test]
fn every_script_is_told_apart() {
    for (script, text) in [
        (Script::Japanese, "カナ"),
        (Script::Chinese, "漢"),
        (Script::Korean, "한"),
        (Script::Arabic, "ع"),
        (Script::Cyrillic, "ж"),
        (Script::Devanagari, "अ"),
        (Script::Bengali, "অ"),
        (Script::Thai, "ก"),
        (Script::Hebrew, "א"),
        (Script::Greek, "α"),
        (Script::Other("gurmukhi"), "ਅ"),
        (Script::Other("gujarati"), "અ"),
        (Script::Other("tamil"), "அ"),
        (Script::Other("telugu"), "అ"),
        (Script::Other("kannada"), "ಅ"),
        (Script::Other("malayalam"), "അ"),
        (Script::Other("sinhala"), "අ"),
        (Script::Other("lao"), "ກ"),
        (Script::Other("myanmar"), "က"),
        (Script::Other("khmer"), "ក"),
        (Script::Other("georgian"), "ა"),
        (Script::Other("armenian"), "ա"),
        (Script::Other("ethiopic"), "አ"),
        (Script::Other("tibetan"), "ཀ"),
    ] {
        assert_eq!(rank_factor(script, text, ""), 15, "{text}");
        assert_eq!(rank_factor(script, "latin", "1 2"), 5, "{text}");
    }
    assert_eq!(rank_factor(Script::Other("runic"), "ᚠ", ""), 10);
}

#[test]
fn scripts_of_languages() {
    for (code, script) in [
        ("hi", Script::Devanagari),
        ("bn", Script::Bengali),
        ("ru", Script::Cyrillic),
        ("el", Script::Greek),
        ("he", Script::Hebrew),
        ("ta", Script::Other("tamil")),
        ("am", Script::Other("ethiopic")),
        ("fr", Script::Latin),
    ] {
        assert_eq!(resolve(code, "").script, script, "{code}");
    }
}

#[test]
fn shares_count_only_characters_of_scripts() {
    assert_eq!(
        script_share(Script::Japanese, "温泉 abc 123!"),
        Some(Share { hit: 2, total: 5 })
    );
    assert_eq!(script_share(Script::Japanese, "123 !?"), None);
    assert_eq!(script_share(Script::Latin, "abc"), None);
    assert_eq!(
        script_share(Script::Chinese, "漢字かな"),
        Some(Share { hit: 0, total: 4 })
    );
    assert_eq!(script_share(Script::Greek, "é"), Some(Share { hit: 0, total: 1 }));
}

#[test]
fn three_tenths_are_enough() {
    let share = |hit, total| Some(Share { hit, total });
    assert_eq!(share_factor(share(3, 10)), 15);
    assert_eq!(share_factor(share(29, 100)), 10);
    assert_eq!(share_factor(share(1, 100)), 10);
    assert_eq!(share_factor(share(0, 100)), 5);
    assert_eq!(share_factor(None), 10);
    assert_eq!(share_factor(share(usize::MAX, usize::MAX)), 15);
}

#[test]
fn every_script_of_a_language_tells_pages_apart() {
    let of = |code: &str| script_for(&code.chars().collect());
    for (code, _) in LANGUAGE_SCRIPTS {
        assert_ne!(of(code), Script::Latin, "{code}");
        assert!(!wanted(of(code)).is_empty(), "{code}");
    }
    assert_eq!(of("fr"), Script::Latin);
    assert!(wanted(Script::Latin).is_empty());
    assert_eq!(wanted(of("ko")), vec!["hangul", "han"]);
}
