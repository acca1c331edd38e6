//! The languages that the library knows by name.

use vstd::prelude::*;

use crate::text::{self, chars_of, lowered, same_chars};

verus! {

/// The code of each language, its name in English and its own name for itself. The codes that are one
/// plain word come first, those with a part after a `-` last.
pub const LANGUAGES: [(&'static str, &'static str, &'static str); 134] = [
    ("ja", "Japanese", "日本語"),
    ("en", "English", "English"),
    ("ko", "Korean", "한국어"),
    ("es", "Spanish", "Español"),
    ("fr", "French", "Français"),
    ("de", "German", "Deutsch"),
    ("it", "Italian", "Italiano"),
    ("ru", "Russian", "Русский"),
    ("uk", "Ukrainian", "Українська"),
    ("ar", "Arabic", "العربية"),
    ("he", "Hebrew", "עברית"),
    ("fa", "Persian", "فارسی"),
    ("tr", "Turkish", "Türkçe"),
    ("hi", "Hindi", "हिन्दी"),
    ("bn", "Bengali", "বাংলা"),
    ("ur", "Urdu", "اردو"),
    ("pa", "Punjabi", "ਪੰਜਾਬੀ"),
    ("gu", "Gujarati", "ગુજરાતી"),
    ("mr", "Marathi", "मराठी"),
    ("ta", "Tamil", "தமிழ்"),
    ("te", "Telugu", "తెలుగు"),
    ("kn", "Kannada", "ಕನ್ನಡ"),
    ("ml", "Malayalam", "മലയാളം"),
    ("or", "Odia", "ଓଡ଼ିଆ"),
    ("as", "Assamese", "অসমীয়া"),
    ("ne", "Nepali", "नेपाली"),
    ("si", "Sinhala", "සිංහල"),
    ("th", "Thai", "ไทย"),
    ("lo", "Lao", "ລາວ"),
    ("km", "Khmer", "ខ្មែរ"),
    ("my", "Burmese", "မြန်မာ"),
    ("vi", "Vietnamese", "Tiếng Việt"),
    ("id", "Indonesian", "Bahasa Indonesia"),
    ("ms", "Malay", "Bahasa Melayu"),
    ("fil", "Filipino", "Filipino"),
    ("pl", "Polish", "Polski"),
    ("nl", "Dutch", "Nederlands"),
    ("sv", "Swedish", "Svenska"),
    ("da", "Danish", "Dansk"),
    ("no", "Norwegian", "Norsk"),
    ("fi", "Finnish", "Suomi"),
    ("cs", "Czech", "Čeština"),
    ("sk", "Slovak", "Slovenčina"),
    ("hu", "Hungarian", "Magyar"),
    ("ro", "Romanian", "Română"),
    ("bg", "Bulgarian", "Български"),
    ("el", "Greek", "Ελληνικά"),
    ("sr", "Serbian", "Српски"),
    ("hr", "Croatian", "Hrvatski"),
    ("sl", "Slovenian", "Slovenščina"),
    ("lt", "Lithuanian", "Lietuvių"),
    ("lv", "Latvian", "Latviešu"),
    ("et", "Estonian", "Eesti"),
    ("ka", "Georgian", "ქართული"),
    ("hy", "Armenian", "Հայերեն"),
    ("az", "Azerbaijani", "Azərbaycanca"),
    ("kk", "Kazakh", "Қазақша"),
    ("uz", "Uzbek", "Oʻzbekcha"),
    ("mn", "Mongolian", "Монгол"),
    ("sw", "Swahili", "Kiswahili"),
    ("am", "Amharic", "አማርኛ"),
    ("af", "Afrikaans", "Afrikaans"),
    ("ha", "Hausa", "Hausa"),
    ("yo", "Yoruba", "Yorùbá"),
    ("ig", "Igbo", "Igbo"),
    ("is", "Icelandic", "Íslenska"),
    ("ga", "Irish", "Gaeilge"),
    ("ca", "Catalan", "Català"),
    ("yue", "Cantonese", "粵語"),
    ("wuu", "Wu Chinese", "吴语"),
    ("ps", "Pashto", "پښتو"),
    ("ckb", "Central Kurdish", "کوردیی ناوەندی"),
    ("ug", "Uyghur", "ئۇيغۇرچە"),
    ("sd", "Sindhi", "سنڌي"),
    ("dv", "Divehi", "ދިވެހި"),
    ("mk", "Macedonian", "Македонски"),
    ("be", "Belarusian", "Беларуская"),
    ("ky", "Kyrgyz", "Кыргызча"),
    ("tg", "Tajik", "Тоҷикӣ"),
    ("tt", "Tatar", "Татарча"),
    ("ba", "Bashkir", "Башҡортса"),
    ("cv", "Chuvash", "Чӑвашла"),
    ("sa", "Sanskrit", "संस्कृतम्"),
    ("kok", "Konkani", "कोंकणी"),
    ("mai", "Maithili", "मैथिली"),
    ("bho", "Bhojpuri", "भोजपुरी"),
    ("yi", "Yiddish", "ייִדיש"),
    ("ti", "Tigrinya", "ትግርኛ"),
    ("bo", "Tibetan", "བོད་ཡིག"),
    ("dz", "Dzongkha", "རྫོང་ཁ"),
    ("eu", "Basque", "Euskara"),
    ("gl", "Galician", "Galego"),
    ("cy", "Welsh", "Cymraeg"),
    ("gd", "Scottish Gaelic", "Gàidhlig"),
    ("br", "Breton", "Brezhoneg"),
    ("mt", "Maltese", "Malti"),
    ("lb", "Luxembourgish", "Lëtzebuergesch"),
    ("sq", "Albanian", "Shqip"),
    ("bs", "Bosnian", "Bosanski"),
    ("tk", "Turkmen", "Türkmençe"),
    ("ku", "Kurdish", "Kurdî"),
    ("so", "Somali", "Soomaali"),
    ("rw", "Kinyarwanda", "Ikinyarwanda"),
    ("zu", "Zulu", "isiZulu"),
    ("xh", "Xhosa", "isiXhosa"),
    ("st", "Sesotho", "Sesotho"),
    ("tn", "Setswana", "Setswana"),
    ("sn", "Shona", "chiShona"),
    ("ny", "Chichewa", "Chichewa"),
    ("mg", "Malagasy", "Malagasy"),
    ("om", "Oromo", "Afaan Oromoo"),
    ("ln", "Lingala", "Lingála"),
    ("lg", "Ganda", "Luganda"),
    ("wo", "Wolof", "Wolof"),
    ("jv", "Javanese", "Basa Jawa"),
    ("su", "Sundanese", "Basa Sunda"),
    ("ceb", "Cebuano", "Cebuano"),
    ("ilo", "Ilocano", "Ilokano"),
    ("mi", "Maori", "Māori"),
    ("sm", "Samoan", "Gagana Samoa"),
    ("to", "Tongan", "Lea faka-Tonga"),
    ("haw", "Hawaiian", "ʻŌlelo Hawaiʻi"),
    ("ht", "Haitian Creole", "Kreyòl ayisyen"),
    ("qu", "Quechua", "Runasimi"),
    ("ay", "Aymara", "Aymar aru"),
    ("gn", "Guarani", "Avañeʼẽ"),
    ("eo", "Esperanto", "Esperanto"),
    ("la", "Latin", "Latina"),
    ("fo", "Faroese", "Føroyskt"),
    ("oc", "Occitan", "Occitan"),
    ("zh-Hans", "Chinese (Simplified)", "简体中文"),
    ("zh-Hant", "Chinese (Traditional)", "繁體中文"),
    ("pt-BR", "Portuguese (Brazil)", "Português (Brasil)"),
    ("pt-PT", "Portuguese (Portugal)", "Português (Portugal)"),
];

/// How many of the codes are one plain word.
pub const PLAIN_CODES: usize = 130;

/// The code at a place of the table.
pub open spec fn code_at(i: int) -> Seq<char> {
    LANGUAGES@[i].0@
}

/// The code of the first language from place `i` on that the lower-case text `key` names.
pub open spec fn listed_from(key: Seq<char>, i: int) -> Option<Seq<char>>
    decreases 134 - i,
{
    if i < 0 || i >= 134 {
        None
    } else if text::lower(code_at(i)) == key {
        Some(code_at(i))
    } else {
        listed_from(key, i + 1)
    }
}

/// The code that a text names, upper and lower case alike.
pub open spec fn listed(name: Seq<char>) -> Option<Seq<char>> {
    listed_from(text::lower(name), 0)
}

/// The code that a text names, upper and lower case alike.
pub fn find(name: &str) -> (r: Option<&'static str>)
    ensures
        match r {
            Some(c) => listed(name@) == Some(c@),
            None => listed(name@) is None,
        },
{
    let key = lowered(&chars_of(name));
    for i in 0..134
        invariant
            key@ == text::lower(name@),
            listed(name@) == listed_from(key@, i as int),
    {
        let entry: (&'static str, &'static str, &'static str) = LANGUAGES[i];
        let code: &'static str = entry.0;
        let here = lowered(&chars_of(code));
        if same_chars(&here, &key) {
            return Some(code);
        }
    }
    None
}

/// Other ways to write a code: lower-case texts that name a language of the table under another code.
pub open spec fn is_other_name(s: Seq<char>) -> bool {
    ||| s == "zh"@
    ||| s == "pt"@
    ||| s == "nb"@
    ||| s == "nn"@
    ||| s == "tl"@
    ||| s == "iw"@
}

/// A code that is one plain word: two or three lower-case letters, and no other name of a language.
pub open spec fn is_plain_code(s: Seq<char>) -> bool {
    &&& 2 <= s.len() <= 3
    &&& forall|k: int| 0 <= k < s.len() ==> 'a' <= #[trigger] s[k] <= 'z'
    &&& !is_other_name(s)
}

proof fn lemma_plain_codes_1(i: int)
    requires
        0 <= i < 13,
    ensures
        is_plain_code(code_at(i)),
{
    reveal_other_names();
    if i == 0 {
        reveal_strlit("ja");
    } else if i == 1 {
        reveal_strlit("en");
    } else if i == 2 {
        reveal_strlit("ko");
    } else if i == 3 {
        reveal_strlit("es");
    } else if i == 4 {
        reveal_strlit("fr");
    } else if i == 5 {
        reveal_strlit("de");
    } else if i == 6 {
        reveal_strlit("it");
    } else if i == 7 {
        reveal_strlit("ru");
    } else if i == 8 {
        reveal_strlit("uk");
    } else if i == 9 {
        reveal_strlit("ar");
    } else if i == 10 {
        reveal_strlit("he");
    } else if i == 11 {
        reveal_strlit("fa");
    } else if i == 12 {
        reveal_strlit("tr");
    }
}

proof fn lemma_plain_codes_2(i: int)
    requires
        13 <= i < 26,
    ensures
        is_plain_code(code_at(i)),
{
    reveal_other_names();
    if i == 13 {
        reveal_strlit("hi");
    } else if i == 14 {
        reveal_strlit("bn");
    } else if i == 15 {
        reveal_strlit("ur");
    } else if i == 16 {
        reveal_strlit("pa");
    } else if i == 17 {
        reveal_strlit("gu");
    } else if i == 18 {
        reveal_strlit("mr");
    } else if i == 19 {
        reveal_strlit("ta");
    } else if i == 20 {
        reveal_strlit("te");
    } else if i == 21 {
        reveal_strlit("kn");
    } else if i == 22 {
        reveal_strlit("ml");
    } else if i == 23 {
        reveal_strlit("or");
    } else if i == 24 {
        reveal_strlit("as");
    } else if i == 25 {
        reveal_strlit("ne");
    }
}

proof fn lemma_plain_codes_3(i: int)
    requires
        26 <= i < 39,
    ensures
        is_plain_code(code_at(i)),
{
    reveal_other_names();
    if i == 26 {
        reveal_strlit("si");
    } else if i == 27 {
        reveal_strlit("th");
    } else if i == 28 {
        reveal_strlit("lo");
    } else if i == 29 {
        reveal_strlit("km");
    } else if i == 30 {
        reveal_strlit("my");
    } else if i == 31 {
        reveal_strlit("vi");
    } else if i == 32 {
        reveal_strlit("id");
    } else if i == 33 {
        reveal_strlit("ms");
    } else if i == 34 {
        reveal_strlit("fil");
    } else if i == 35 {
        reveal_strlit("pl");
    } else if i == 36 {
        reveal_strlit("nl");
    } else if i == 37 {
        reveal_strlit("sv");
    } else if i == 38 {
        reveal_strlit("da");
    }
}

proof fn lemma_plain_codes_4(i: int)
    requires
        39 <= i < 52,
    ensures
        is_plain_code(code_at(i)),
{
    reveal_other_names();
    if i == 39 {
        reveal_strlit("no");
    } else if i == 40 {
        reveal_strlit("fi");
    } else if i == 41 {
        reveal_strlit("cs");
    } else if i == 42 {
        reveal_strlit("sk");
    } else if i == 43 {
        reveal_strlit("hu");
    } else if i == 44 {
        reveal_strlit("ro");
    } else if i == 45 {
        reveal_strlit("bg");
    } else if i == 46 {
        reveal_strlit("el");
    } else if i == 47 {
        reveal_strlit("sr");
    } else if i == 48 {
        reveal_strlit("hr");
    } else if i == 49 {
        reveal_strlit("sl");
    } else if i == 50 {
        reveal_strlit("lt");
    } else if i == 51 {
        reveal_strlit("lv");
    }
}

proof fn lemma_plain_codes_5(i: int)
    requires
        52 <= i < 65,
    ensures
        is_plain_code(code_at(i)),
{
    reveal_other_names();
    if i == 52 {
        reveal_strlit("et");
    } else if i == 53 {
        reveal_strlit("ka");
    } else if i == 54 {
        reveal_strlit("hy");
    } else if i == 55 {
        reveal_strlit("az");
    } else if i == 56 {
        reveal_strlit("kk");
    } else if i == 57 {
        reveal_strlit("uz");
    } else if i == 58 {
        reveal_strlit("mn");
    } else if i == 59 {
        reveal_strlit("sw");
    } else if i == 60 {
        reveal_strlit("am");
    } else if i == 61 {
        reveal_strlit("af");
    } else if i == 62 {
        reveal_strlit("ha");
    } else if i == 63 {
        reveal_strlit("yo");
    } else if i == 64 {
        reveal_strlit("ig");
    }
}

proof fn lemma_plain_codes_6(i: int)
    requires
        65 <= i < 78,
    ensures
        is_plain_code(code_at(i)),
{
    reveal_other_names();
    if i == 65 {
        reveal_strlit("is");
    } else if i == 66 {
        reveal_strlit("ga");
    } else if i == 67 {
        reveal_strlit("ca");
    } else if i == 68 {
        reveal_strlit("yue");
    } else if i == 69 {
        reveal_strlit("wuu");
    } else if i == 70 {
        reveal_strlit("ps");
    } else if i == 71 {
        reveal_strlit("ckb");
    } else if i == 72 {
        reveal_strlit("ug");
    } else if i == 73 {
        reveal_strlit("sd");
    } else if i == 74 {
        reveal_strlit("dv");
    } else if i == 75 {
        reveal_strlit("mk");
    } else if i == 76 {
        reveal_strlit("be");
    } else if i == 77 {
        reveal_strlit("ky");
    }
}

proof fn lemma_plain_codes_7(i: int)
    requires
        78 <= i < 91,
    ensures
        is_plain_code(code_at(i)),
{
    reveal_other_names();
    if i == 78 {
        reveal_strlit("tg");
    } else if i == 79 {
        reveal_strlit("tt");
    } else if i == 80 {
        reveal_strlit("ba");
    } else if i == 81 {
        reveal_strlit("cv");
    } else if i == 82 {
        reveal_strlit("sa");
    } else if i == 83 {
        reveal_strlit("kok");
    } else if i == 84 {
        reveal_strlit("mai");
    } else if i == 85 {
        reveal_strlit("bho");
    } else if i == 86 {
        reveal_strlit("yi");
    } else if i == 87 {
        reveal_strlit("ti");
    } else if i == 88 {
        reveal_strlit("bo");
    } else if i == 89 {
        reveal_strlit("dz");
    } else if i == 90 {
        reveal_strlit("eu");
    }
}

proof fn lemma_plain_codes_8(i: int)
    requires
        91 <= i < 104,
    ensures
        is_plain_code(code_at(i)),
{
    reveal_other_names();
    if i == 91 {
        reveal_strlit("gl");
    } else if i == 92 {
        reveal_strlit("cy");
    } else if i == 93 {
        reveal_strlit("gd");
    } else if i == 94 {
        reveal_strlit("br");
    } else if i == 95 {
        reveal_strlit("mt");
    } else if i == 96 {
        reveal_strlit("lb");
    } else if i == 97 {
        reveal_strlit("sq");
    } else if i == 98 {
        reveal_strlit("bs");
    } else if i == 99 {
        reveal_strlit("tk");
    } else if i == 100 {
        reveal_strlit("ku");
    } else if i == 101 {
        reveal_strlit("so");
    } else if i == 102 {
        reveal_strlit("rw");
    } else if i == 103 {
        reveal_strlit("zu");
    }
}

proof fn lemma_plain_codes_9(i: int)
    requires
        104 <= i < 117,
    ensures
        is_plain_code(code_at(i)),
{
    reveal_other_names();
    if i == 104 {
        reveal_strlit("xh");
    } else if i == 105 {
        reveal_strlit("st");
    } else if i == 106 {
        reveal_strlit("tn");
    } else if i == 107 {
        reveal_strlit("sn");
    } else if i == 108 {
        reveal_strlit("ny");
    } else if i == 109 {
        reveal_strlit("mg");
    } else if i == 110 {
        reveal_strlit("om");
    } else if i == 111 {
        reveal_strlit("ln");
    } else if i == 112 {
        reveal_strlit("lg");
    } else if i == 113 {
        reveal_strlit("wo");
    } else if i == 114 {
        reveal_strlit("jv");
    } else if i == 115 {
        reveal_strlit("su");
    } else if i == 116 {
        reveal_strlit("ceb");
    }
}

proof fn lemma_plain_codes_10(i: int)
    requires
        117 <= i < 130,
    ensures
        is_plain_code(code_at(i)),
{
    reveal_other_names();
    if i == 117 {
        reveal_strlit("ilo");
    } else if i == 118 {
        reveal_strlit("mi");
    } else if i == 119 {
        reveal_strlit("sm");
    } else if i == 120 {
        reveal_strlit("to");
    } else if i == 121 {
        reveal_strlit("haw");
    } else if i == 122 {
        reveal_strlit("ht");
    } else if i == 123 {
        reveal_strlit("qu");
    } else if i == 124 {
        reveal_strlit("ay");
    } else if i == 125 {
        reveal_strlit("gn");
    } else if i == 126 {
        reveal_strlit("eo");
    } else if i == 127 {
        reveal_strlit("la");
    } else if i == 128 {
        reveal_strlit("fo");
    } else if i == 129 {
        reveal_strlit("oc");
    }
}

/// Spells out the other names.
proof fn reveal_other_names()
    ensures
        "zh"@ == seq!['z', 'h'],
        "pt"@ == seq!['p', 't'],
        "nb"@ == seq!['n', 'b'],
        "nn"@ == seq!['n', 'n'],
        "tl"@ == seq!['t', 'l'],
        "iw"@ == seq!['i', 'w'],
{
    reveal_strlit("zh");
    reveal_strlit("pt");
    reveal_strlit("nb");
    reveal_strlit("nn");
    reveal_strlit("tl");
    reveal_strlit("iw");
}

/// The codes at the first places of the table are plain.
pub proof fn lemma_plain_codes(i: int)
    requires
        0 <= i < PLAIN_CODES,
    ensures
        is_plain_code(code_at(i)),
{
    if i < 13 {
        lemma_plain_codes_1(i);
    } else if i < 26 {
        lemma_plain_codes_2(i);
    } else if i < 39 {
        lemma_plain_codes_3(i);
    } else if i < 52 {
        lemma_plain_codes_4(i);
    } else if i < 65 {
        lemma_plain_codes_5(i);
    } else if i < 78 {
        lemma_plain_codes_6(i);
    } else if i < 91 {
        lemma_plain_codes_7(i);
    } else if i < 104 {
        lemma_plain_codes_8(i);
    } else if i < 117 {
        lemma_plain_codes_9(i);
    } else {
        lemma_plain_codes_10(i);
    }
}

/// The codes at the last places of the table have a part after a `-`.
pub proof fn lemma_compound_codes(i: int)
    requires
        PLAIN_CODES <= i < 134,
    ensures
        i == 130 ==> code_at(i) == "zh-Hans"@,
        i == 131 ==> code_at(i) == "zh-Hant"@,
        i == 132 ==> code_at(i) == "pt-BR"@,
        i == 133 ==> code_at(i) == "pt-PT"@,
        text::lower(code_at(i)).contains('-'),
{
    reveal_strlit("zh-Hans");
    reveal_strlit("zh-Hant");
    reveal_strlit("pt-BR");
    reveal_strlit("pt-PT");
    assert(text::lower(code_at(i))[2] == '-');
}

/// The place at which a text is found.
pub proof fn lemma_listed_from(key: Seq<char>, i: int) -> (k: int)
    requires
        0 <= i,
        listed_from(key, i) is Some,
    ensures
        i <= k < LANGUAGES@.len(),
        listed_from(key, i) == Some(code_at(k)),
        text::lower(code_at(k)) == key,
    decreases 134 - i,
{
    if text::lower(code_at(i)) == key {
        i
    } else {
        lemma_listed_from(key, i + 1)
    }
}

/// A plain code is found under itself.
pub proof fn lemma_plain_code_is_found(key: Seq<char>, i: int, k: int)
    requires
        0 <= i <= k < PLAIN_CODES,
        key == code_at(k),
    ensures
        listed_from(key, i) == Some(key),
    decreases k - i,
{
    lemma_plain_codes(i);
    lemma_plain_codes(k);
    assert(text::lower(code_at(i)) =~= code_at(i));
    if text::lower(code_at(i)) != key {
        if i == k {
            assert(false);
        }
        lemma_plain_code_is_found(key, i + 1, k);
    }
}

} // verus!
