//! Searching in a language: codes and regions that engines understand, and pages in the script of the
//! language before others.
//!
//! A code that a caller gives is brought into the form that the engines take. Of the results, those
//! written in the script of the language are moved up, those without a trace of it down, so that pages
//! in English do not crowd out the ones that were looked for.

use vstd::prelude::*;

use crate::languages::{self, find};
use crate::text::{
    self, append_str, chars_of, cut_before, lowered, same, same_chars, string_of,
    trimmed, uppered,
};

verus! {

/// The script of a language, as far as it tells pages apart.
#[derive(Clone, Copy, Debug, PartialEq, Eq)]
pub enum Script {
    /// One that does not: results keep their order.
    Latin,
    Japanese,
    Chinese,
    Korean,
    Arabic,
    Cyrillic,
    Devanagari,
    Bengali,
    Thai,
    Hebrew,
    Greek,
    Other(&'static str),
}

pub enum ScriptView {
    Latin,
    Japanese,
    Chinese,
    Korean,
    Arabic,
    Cyrillic,
    Devanagari,
    Bengali,
    Thai,
    Hebrew,
    Greek,
    Other(Seq<char>),
}

impl View for Script {
    type V = ScriptView;

    open spec fn view(&self) -> ScriptView {
        match *self {
            Script::Latin => ScriptView::Latin,
            Script::Japanese => ScriptView::Japanese,
            Script::Chinese => ScriptView::Chinese,
            Script::Korean => ScriptView::Korean,
            Script::Arabic => ScriptView::Arabic,
            Script::Cyrillic => ScriptView::Cyrillic,
            Script::Devanagari => ScriptView::Devanagari,
            Script::Bengali => ScriptView::Bengali,
            Script::Thai => ScriptView::Thai,
            Script::Hebrew => ScriptView::Hebrew,
            Script::Greek => ScriptView::Greek,
            Script::Other(s) => ScriptView::Other(s@),
        }
    }
}

/// A language as a search uses it.
#[derive(Clone, Debug, PartialEq)]
pub struct Lang {
    /// Its code in the table of languages.
    pub code: &'static str,
    /// The language as engines are told it.
    pub hl: String,
    /// The region as engines are told it; empty where none is known.
    pub gl: String,
    pub script: Script,
}

pub struct LangView {
    pub code: Seq<char>,
    pub hl: Seq<char>,
    pub gl: Seq<char>,
    pub script: ScriptView,
}

impl View for Lang {
    type V = LangView;

    open spec fn view(&self) -> LangView {
        LangView { code: self.code@, hl: self.hl@, gl: self.gl@, script: self.script@ }
    }
}

// ---------------------------------------------------------------------------
// The scripts of characters
// ---------------------------------------------------------------------------

/// The first and the last character of each block, and the script that it belongs to.
pub const BLOCKS: [(u32, u32, &'static str); 35] = [
    (0x3040, 0x30FF, "kana"),
    (0x31F0, 0x31FF, "kana"),
    (0xFF66, 0xFF9F, "kana"),
    (0x4E00, 0x9FFF, "han"),
    (0x3400, 0x4DBF, "han"),
    (0xF900, 0xFAFF, "han"),
    (0xAC00, 0xD7AF, "hangul"),
    (0x1100, 0x11FF, "hangul"),
    (0x3130, 0x318F, "hangul"),
    (0x0600, 0x06FF, "arabic"),
    (0x0750, 0x077F, "arabic"),
    (0x08A0, 0x08FF, "arabic"),
    (0xFB50, 0xFDFF, "arabic"),
    (0xFE70, 0xFEFF, "arabic"),
    (0x0400, 0x052F, "cyrillic"),
    (0x0900, 0x097F, "devanagari"),
    (0x0980, 0x09FF, "bengali"),
    (0x0E00, 0x0E7F, "thai"),
    (0x0590, 0x05FF, "hebrew"),
    (0x0370, 0x03FF, "greek"),
    (0x1F00, 0x1FFF, "greek"),
    (0x0A00, 0x0A7F, "gurmukhi"),
    (0x0A80, 0x0AFF, "gujarati"),
    (0x0B80, 0x0BFF, "tamil"),
    (0x0C00, 0x0C7F, "telugu"),
    (0x0C80, 0x0CFF, "kannada"),
    (0x0D00, 0x0D7F, "malayalam"),
    (0x0D80, 0x0DFF, "sinhala"),
    (0x0E80, 0x0EFF, "lao"),
    (0x1000, 0x109F, "myanmar"),
    (0x1780, 0x17FF, "khmer"),
    (0x10A0, 0x10FF, "georgian"),
    (0x0530, 0x058F, "armenian"),
    (0x1200, 0x137F, "ethiopic"),
    (0x0F00, 0x0FFF, "tibetan"),
];

/// The script of the first block, from place `i` on, that holds a character.
pub open spec fn block_script(u: u32, i: int) -> Option<Seq<char>>
    decreases 35 - i,
{
    if i < 0 || i >= 35 {
        None
    } else if BLOCKS@[i].0 <= u <= BLOCKS@[i].1 {
        Some(BLOCKS@[i].2@)
    } else {
        block_script(u, i + 1)
    }
}

/// Whether a character has the Unicode property `Alphabetic`.
pub uninterp spec fn alphabetic(c: char) -> bool;

/// `char::is_alphabetic` of the standard library: whether the character has the Unicode property
/// `Alphabetic`.
#[verifier::external_body]
fn is_alphabetic(c: char) -> (r: bool)
    ensures
        r == alphabetic(c),
{
    c.is_alphabetic()
}

/// The script of a character: that of its block; else `latin` where it is a letter at all.
pub open spec fn char_script(c: char) -> Option<Seq<char>> {
    match block_script(c as u32, 0) {
        Some(s) => Some(s),
        None => if alphabetic(c) {
            Some("latin"@)
        } else {
            None
        },
    }
}

pub open spec fn opt_str(x: Option<&'static str>) -> Option<Seq<char>> {
    match x {
        Some(s) => Some(s@),
        None => None,
    }
}

fn script_of_char(c: char) -> (r: Option<&'static str>)
    ensures
        opt_str(r) == char_script(c),
{
    let u: u32 = c as u32;
    for i in 0..35
        invariant
            u == c as u32,
            block_script(u, 0) == block_script(u, i as int),
    {
        let block: (u32, u32, &'static str) = BLOCKS[i];
        if block.0 <= u && u <= block.1 {
            return Some(block.2);
        }
    }
    if is_alphabetic(c) {
        Some("latin")
    } else {
        None
    }
}

// ---------------------------------------------------------------------------
// The scripts and regions of languages
// ---------------------------------------------------------------------------

/// The script of each language that is not written in one like the Latin.
pub const LANGUAGE_SCRIPTS: [(&'static str, &'static str); 55] = [
    ("ja", "japanese"),
    ("zh", "chinese"),
    ("yue", "chinese"),
    ("wuu", "chinese"),
    ("ko", "korean"),
    ("ar", "arabic"),
    ("fa", "arabic"),
    ("ur", "arabic"),
    ("ps", "arabic"),
    ("ckb", "arabic"),
    ("ug", "arabic"),
    ("sd", "arabic"),
    ("dv", "arabic"),
    ("ru", "cyrillic"),
    ("uk", "cyrillic"),
    ("bg", "cyrillic"),
    ("sr", "cyrillic"),
    ("mk", "cyrillic"),
    ("be", "cyrillic"),
    ("kk", "cyrillic"),
    ("ky", "cyrillic"),
    ("tg", "cyrillic"),
    ("mn", "cyrillic"),
    ("tt", "cyrillic"),
    ("ba", "cyrillic"),
    ("cv", "cyrillic"),
    ("hi", "devanagari"),
    ("mr", "devanagari"),
    ("ne", "devanagari"),
    ("sa", "devanagari"),
    ("kok", "devanagari"),
    ("mai", "devanagari"),
    ("bho", "devanagari"),
    ("bn", "bengali"),
    ("as", "bengali"),
    ("th", "thai"),
    ("he", "hebrew"),
    ("yi", "hebrew"),
    ("el", "greek"),
    ("pa", "gurmukhi"),
    ("gu", "gujarati"),
    ("ta", "tamil"),
    ("te", "telugu"),
    ("kn", "kannada"),
    ("ml", "malayalam"),
    ("si", "sinhala"),
    ("lo", "lao"),
    ("my", "myanmar"),
    ("km", "khmer"),
    ("ka", "georgian"),
    ("hy", "armenian"),
    ("am", "ethiopic"),
    ("ti", "ethiopic"),
    ("bo", "tibetan"),
    ("dz", "tibetan"),
];

/// The name of the script of a language, from place `i` of the table on.
pub open spec fn script_name(base: Seq<char>, i: int) -> Option<Seq<char>>
    decreases 55 - i,
{
    if i < 0 || i >= 55 {
        None
    } else if LANGUAGE_SCRIPTS@[i].0@ == base {
        Some(LANGUAGE_SCRIPTS@[i].1@)
    } else {
        script_name(base, i + 1)
    }
}

/// The script with that name.
pub open spec fn named_script(name: Seq<char>) -> ScriptView {
    if name == "japanese"@ {
        ScriptView::Japanese
    } else if name == "chinese"@ {
        ScriptView::Chinese
    } else if name == "korean"@ {
        ScriptView::Korean
    } else if name == "arabic"@ {
        ScriptView::Arabic
    } else if name == "cyrillic"@ {
        ScriptView::Cyrillic
    } else if name == "devanagari"@ {
        ScriptView::Devanagari
    } else if name == "bengali"@ {
        ScriptView::Bengali
    } else if name == "thai"@ {
        ScriptView::Thai
    } else if name == "hebrew"@ {
        ScriptView::Hebrew
    } else if name == "greek"@ {
        ScriptView::Greek
    } else {
        ScriptView::Other(name)
    }
}

fn script_named(name: &'static str) -> (r: Script)
    ensures
        r@ == named_script(name@),
{
    if same(name, "japanese") {
        Script::Japanese
    } else if same(name, "chinese") {
        Script::Chinese
    } else if same(name, "korean") {
        Script::Korean
    } else if same(name, "arabic") {
        Script::Arabic
    } else if same(name, "cyrillic") {
        Script::Cyrillic
    } else if same(name, "devanagari") {
        Script::Devanagari
    } else if same(name, "bengali") {
        Script::Bengali
    } else if same(name, "thai") {
        Script::Thai
    } else if same(name, "hebrew") {
        Script::Hebrew
    } else if same(name, "greek") {
        Script::Greek
    } else {
        Script::Other(name)
    }
}

/// The script of a language, by the part of its code before the first `-`.
pub open spec fn language_script(base: Seq<char>) -> ScriptView {
    match script_name(base, 0) {
        Some(name) => named_script(name),
        None => ScriptView::Latin,
    }
}

/// The script of a language, by the part of its code before the first `-`.
pub fn script_for(base: &Vec<char>) -> (r: Script)
    ensures
        r@ == language_script(base@),
{
    for i in 0..55
        invariant
            script_name(base@, 0) == script_name(base@, i as int),
    {
        let entry: (&'static str, &'static str) = LANGUAGE_SCRIPTS[i];
        if same_chars(&chars_of(entry.0), base) {
            return script_named(entry.1);
        }
    }
    Script::Latin
}

/// The region in which each language is looked for, unless another is given.
pub const REGIONS: [(&'static str, &'static str); 75] = [
    ("ja", "JP"),
    ("en", "US"),
    ("zh-Hans", "CN"),
    ("zh-Hant", "TW"),
    ("ko", "KR"),
    ("es", "ES"),
    ("pt-BR", "BR"),
    ("pt-PT", "PT"),
    ("fr", "FR"),
    ("de", "DE"),
    ("it", "IT"),
    ("ru", "RU"),
    ("uk", "UA"),
    ("ar", "SA"),
    ("he", "IL"),
    ("fa", "IR"),
    ("tr", "TR"),
    ("hi", "IN"),
    ("bn", "BD"),
    ("ur", "PK"),
    ("pa", "IN"),
    ("gu", "IN"),
    ("mr", "IN"),
    ("ta", "IN"),
    ("te", "IN"),
    ("kn", "IN"),
    ("ml", "IN"),
    ("or", "IN"),
    ("as", "IN"),
    ("ne", "NP"),
    ("si", "LK"),
    ("th", "TH"),
    ("lo", "LA"),
    ("km", "KH"),
    ("my", "MM"),
    ("vi", "VN"),
    ("id", "ID"),
    ("ms", "MY"),
    ("fil", "PH"),
    ("tl", "PH"),
    ("pl", "PL"),
    ("nl", "NL"),
    ("sv", "SE"),
    ("da", "DK"),
    ("no", "NO"),
    ("nb", "NO"),
    ("nn", "NO"),
    ("fi", "FI"),
    ("cs", "CZ"),
    ("sk", "SK"),
    ("hu", "HU"),
    ("ro", "RO"),
    ("bg", "BG"),
    ("el", "GR"),
    ("sr", "RS"),
    ("hr", "HR"),
    ("sl", "SI"),
    ("lt", "LT"),
    ("lv", "LV"),
    ("et", "EE"),
    ("ka", "GE"),
    ("hy", "AM"),
    ("az", "AZ"),
    ("kk", "KZ"),
    ("uz", "UZ"),
    ("mn", "MN"),
    ("sw", "KE"),
    ("am", "ET"),
    ("af", "ZA"),
    ("ha", "NG"),
    ("yo", "NG"),
    ("ig", "NG"),
    ("is", "IS"),
    ("ga", "IE"),
    ("ca", "ES"),
];

/// The region of a language, from place `i` of the table on; empty where none is known.
pub open spec fn region_from(code: Seq<char>, i: int) -> Seq<char>
    decreases 75 - i,
{
    if i < 0 || i >= 75 {
        Seq::empty()
    } else if REGIONS@[i].0@ == code {
        REGIONS@[i].1@
    } else {
        region_from(code, i + 1)
    }
}

/// The region in which a language is looked for, unless another is given; empty where none is known.
pub open spec fn region_of(code: Seq<char>) -> Seq<char> {
    region_from(code, 0)
}

fn default_region(code: &str) -> (r: &'static str)
    ensures
        r@ == region_of(code@),
{
    let key = chars_of(code);
    for i in 0..75
        invariant
            key@ == code@,
            region_of(code@) == region_from(code@, i as int),
    {
        let entry: (&'static str, &'static str) = REGIONS[i];
        if same_chars(&chars_of(entry.0), &key) {
            return entry.1;
        }
    }
    proof {
        reveal_strlit("");
    }
    assert(""@ =~= Seq::<char>::empty());
    ""
}

// ---------------------------------------------------------------------------
// Resolving a language
// ---------------------------------------------------------------------------

/// The code that one of the other ways to write a language stands for.
pub open spec fn other_name(s: Seq<char>) -> Option<Seq<char>> {
    if s == "zh"@ || s == "zh-cn"@ || s == "zh-sg"@ || s == "zh-hans"@ {
        Some("zh-Hans"@)
    } else if s == "zh-tw"@ || s == "zh-hk"@ || s == "zh-mo"@ || s == "zh-hant"@ {
        Some("zh-Hant"@)
    } else if s == "pt"@ || s == "pt-br"@ {
        Some("pt-BR"@)
    } else if s == "pt-pt"@ {
        Some("pt-PT"@)
    } else if s == "nb"@ || s == "nn"@ {
        Some("no"@)
    } else if s == "tl"@ {
        Some("fil"@)
    } else if s == "iw"@ {
        Some("he"@)
    } else {
        None
    }
}

fn other_name_of(s: &str) -> (r: Option<&'static str>)
    ensures
        opt_str(r) == other_name(s@),
{
    if same(s, "zh") || same(s, "zh-cn") || same(s, "zh-sg") || same(s, "zh-hans") {
        Some("zh-Hans")
    } else if same(s, "zh-tw") || same(s, "zh-hk") || same(s, "zh-mo") || same(s, "zh-hant") {
        Some("zh-Hant")
    } else if same(s, "pt") || same(s, "pt-br") {
        Some("pt-BR")
    } else if same(s, "pt-pt") {
        Some("pt-PT")
    } else if same(s, "nb") || same(s, "nn") {
        Some("no")
    } else if same(s, "tl") {
        Some("fil")
    } else if same(s, "iw") {
        Some("he")
    } else {
        None
    }
}

pub open spec fn dash_char(c: char) -> char {
    if c == '_' {
        '-'
    } else {
        c
    }
}

/// The text with `-` in place of every `_`.
pub open spec fn dashed(s: Seq<char>) -> Seq<char> {
    s.map_values(|c: char| dash_char(c))
}

fn with_dashes(s: &Vec<char>) -> (r: Vec<char>)
    ensures
        r@ == dashed(s@),
{
    let mut out: Vec<char> = Vec::new();
    for i in 0..s.len()
        invariant
            out@ == dashed(s@.take(i as int)),
    {
        let c: char = s[i];
        out.push(if c == '_' { '-' } else { c });
        assert(dashed(s@.take(i + 1)) == dashed(s@.take(i as int)).push(dash_char(s@[i as int])));
    }
    assert(s@.take(s@.len() as int) == s@);
    out
}

/// A code as a caller writes it, evened out: without white space around it, with `-` for `_`, in
/// lower case.
pub open spec fn plain_name(hl: Seq<char>) -> Seq<char> {
    text::lower(dashed(text::trim(hl)))
}

/// The code of the table that a plain name stands for: by one of the other names, by itself, or by
/// its part before the first `-`.
pub open spec fn known_code(name: Seq<char>) -> Option<Seq<char>> {
    match other_name(name) {
        Some(c) => Some(c),
        None => match languages::listed(name) {
            Some(c) => Some(c),
            None => languages::listed(text::before(name, '-')),
        },
    }
}

/// The language as engines are told it.
pub open spec fn engine_name(code: Seq<char>) -> Seq<char> {
    if code == "zh-Hans"@ {
        "zh-CN"@
    } else if code == "zh-Hant"@ {
        "zh-TW"@
    } else {
        code
    }
}

/// The language that a caller means by `hl`, and the region by `gl`. A language that is not in the
/// table is passed on to the engines as it is, with the region that the caller gives or none, and pages
/// are not moved for it. No language at all is English.
pub open spec fn resolved(hl: Seq<char>, gl: Seq<char>) -> LangView {
    let name = plain_name(hl);
    let found = known_code(name);
    let code = match found {
        Some(c) => c,
        None => "en"@,
    };
    let region = text::upper(text::trim(gl));
    LangView {
        code,
        hl: if name.len() == 0 {
            "en"@
        } else if found is Some {
            engine_name(code)
        } else {
            name
        },
        gl: if region.len() > 0 {
            region
        } else if found is None && name.len() > 0 {
            Seq::empty()
        } else {
            region_of(code)
        },
        script: match found {
            Some(c) => language_script(text::before(c, '-')),
            None => ScriptView::Latin,
        },
    }
}

/// The language that a caller means by `hl` (such as `ja`, `zh-TW`, `zh-Hant`, `pt_BR`), and the
/// region by `gl`, in the form that a search uses.
pub fn resolve(hl: &str, gl: &str) -> (r: Lang)
    ensures
        r@ == resolved(hl@, gl@),
{
    let name_chars = lowered(&with_dashes(&trimmed(&chars_of(hl))));
    let name = string_of(&name_chars);
    let found: Option<&'static str> = match other_name_of(name.as_str()) {
        Some(c) => Some(c),
        None => {
            let here = find(name.as_str());
            if here.is_some() {
                here
            } else {
                find(string_of(&cut_before(&name_chars, '-')).as_str())
            }
        },
    };
    let region_chars = uppered(&trimmed(&chars_of(gl)));
    let (code, script): (&'static str, Script) = match found {
        Some(c) => (c, script_for(&cut_before(&chars_of(c), '-'))),
        None => ("en", Script::Latin),
    };
    let region: String = if region_chars.len() > 0 {
        string_of(&region_chars)
    } else if found.is_none() && name_chars.len() > 0 {
        proof {
            reveal_strlit("");
            assert(""@ =~= Seq::<char>::empty());
        }
        "".to_string()
    } else {
        default_region(code).to_string()
    };
    let told: String = if name_chars.len() == 0 {
        "en".to_string()
    } else if found.is_some() {
        if same(code, "zh-Hans") {
            "zh-CN".to_string()
        } else if same(code, "zh-Hant") {
            "zh-TW".to_string()
        } else {
            code.to_string()
        }
    } else {
        name
    };
    Lang { code, hl: told, gl: region, script }
}

// ---------------------------------------------------------------------------
// Pages in the script of a language
// ---------------------------------------------------------------------------

/// The scripts, by name, beyond those that have a place of their own in `Script`.
pub open spec fn is_other_script(s: Seq<char>) -> bool {
    ||| s == "gurmukhi"@
    ||| s == "gujarati"@
    ||| s == "tamil"@
    ||| s == "telugu"@
    ||| s == "kannada"@
    ||| s == "malayalam"@
    ||| s == "sinhala"@
    ||| s == "lao"@
    ||| s == "myanmar"@
    ||| s == "khmer"@
    ||| s == "georgian"@
    ||| s == "armenian"@
    ||| s == "ethiopic"@
    ||| s == "tibetan"@
}

/// The names of the scripts that pages in a script of this kind are written in.
pub open spec fn wanted_scripts(script: ScriptView) -> Seq<Seq<char>> {
    match script {
        ScriptView::Latin => Seq::empty(),
        ScriptView::Japanese => seq!["kana"@, "han"@],
        ScriptView::Chinese => seq!["han"@],
        ScriptView::Korean => seq!["hangul"@, "han"@],
        ScriptView::Arabic => seq!["arabic"@],
        ScriptView::Cyrillic => seq!["cyrillic"@],
        ScriptView::Devanagari => seq!["devanagari"@],
        ScriptView::Bengali => seq!["bengali"@],
        ScriptView::Thai => seq!["thai"@],
        ScriptView::Hebrew => seq!["hebrew"@],
        ScriptView::Greek => seq!["greek"@],
        ScriptView::Other(s) => if is_other_script(s) {
            seq![s]
        } else {
            Seq::empty()
        },
    }
}

pub open spec fn str_texts(v: Seq<&'static str>) -> Seq<Seq<char>> {
    v.map_values(|s: &'static str| s@)
}

fn one(s: &'static str) -> (r: Vec<&'static str>)
    ensures
        str_texts(r@) == seq![s@],
{
    let mut v: Vec<&'static str> = Vec::new();
    v.push(s);
    assert(str_texts(v@) =~= seq![s@]);
    v
}

fn two(s: &'static str, t: &'static str) -> (r: Vec<&'static str>)
    ensures
        str_texts(r@) == seq![s@, t@],
{
    let mut v: Vec<&'static str> = Vec::new();
    v.push(s);
    v.push(t);
    assert(str_texts(v@) =~= seq![s@, t@]);
    v
}

fn none() -> (r: Vec<&'static str>)
    ensures
        str_texts(r@) == Seq::<Seq<char>>::empty(),
{
    let v: Vec<&'static str> = Vec::new();
    assert(str_texts(v@) =~= Seq::<Seq<char>>::empty());
    v
}

fn other_script(s: &str) -> (r: bool)
    ensures
        r == is_other_script(s@),
{
    same(s, "gurmukhi") || same(s, "gujarati") || same(s, "tamil") || same(s, "telugu") ||
        same(s, "kannada") || same(s, "malayalam") || same(s, "sinhala") || same(s, "lao") ||
        same(s, "myanmar") || same(s, "khmer") || same(s, "georgian") || same(s, "armenian")
        || same(s, "ethiopic") || same(s, "tibetan")
}

/// The names of the scripts that pages in a script of this kind are written in.
pub fn wanted(script: Script) -> (r: Vec<&'static str>)
    ensures
        str_texts(r@) == wanted_scripts(script@),
{
    match script {
        Script::Latin => none(),
        Script::Japanese => two("kana", "han"),
        Script::Chinese => one("han"),
        Script::Korean => two("hangul", "han"),
        Script::Arabic => one("arabic"),
        Script::Cyrillic => one("cyrillic"),
        Script::Devanagari => one("devanagari"),
        Script::Bengali => one("bengali"),
        Script::Thai => one("thai"),
        Script::Hebrew => one("hebrew"),
        Script::Greek => one("greek"),
        Script::Other(s) => if other_script(s) {
            one(s)
        } else {
            none()
        },
    }
}

fn wants(want: &Vec<&'static str>, s: &str) -> (r: bool)
    ensures
        r == str_texts(want@).contains(s@),
{
    for i in 0..want.len()
        invariant
            forall|k: int| 0 <= k < i ==> str_texts(want@)[k] != s@,
    {
        if same(want[i], s) {
            assert(str_texts(want@)[i as int] == s@);
            return true;
        }
    }
    false
}

/// How many characters of a text belong to a script.
pub open spec fn scripted(s: Seq<char>) -> nat
    decreases s.len(),
{
    if s.len() == 0 {
        0
    } else {
        scripted(s.drop_last()) + if char_script(s.last()) is Some {
            1nat
        } else {
            0nat
        }
    }
}

/// Whether a character belongs to one of the scripts.
pub open spec fn in_scripts(c: char, want: Seq<Seq<char>>) -> bool {
    char_script(c) matches Some(name) && want.contains(name)
}

/// How many characters of a text belong to one of the scripts.
pub open spec fn written_in(s: Seq<char>, want: Seq<Seq<char>>) -> nat
    decreases s.len(),
{
    if s.len() == 0 {
        0
    } else {
        written_in(s.drop_last(), want) + if in_scripts(s.last(), want) {
            1nat
        } else {
            0nat
        }
    }
}

/// Whether a text holds a kana, which only Japanese does.
pub open spec fn holds_kana(s: Seq<char>) -> bool {
    exists|i: int| 0 <= i < s.len() && char_script(#[trigger] s[i]) == Some("kana"@)
}

/// How much of a text is written in a script: `hit` of its `total` characters that belong to one.
#[derive(Clone, Copy, Debug, PartialEq, Eq, Structural)]
pub struct Share {
    pub hit: usize,
    pub total: usize,
}

/// How much of a text is written in the script that is looked for, as two counts like those of a
/// `Share`; `None` where the script tells nothing, or no character belongs to one. A text that holds a
/// kana is Japanese, not Chinese.
pub open spec fn share_of(script: ScriptView, s: Seq<char>) -> Option<(nat, nat)> {
    let want = wanted_scripts(script);
    if want.len() == 0 || scripted(s) == 0 {
        None
    } else if script == ScriptView::Chinese && holds_kana(s) {
        Some((0, scripted(s)))
    } else {
        Some((written_in(s, want), scripted(s)))
    }
}

pub open spec fn opt_share(share: Option<Share>) -> Option<(nat, nat)> {
    match share {
        Some(s) => Some((s.hit as nat, s.total as nat)),
        None => None,
    }
}

/// How much of a text is written in the script that is looked for.
pub fn script_share(script: Script, text: &str) -> (r: Option<Share>)
    ensures
        opt_share(r) == share_of(script@, text@),
{
    let want = wanted(script);
    if want.len() == 0 {
        assert(str_texts(want@).len() == 0);
        return None;
    }
    assert(str_texts(want@).len() > 0);
    let chars = chars_of(text);
    let mut total: usize = 0;
    let mut hit: usize = 0;
    let mut has_kana: bool = false;
    assert(chars@.take(0).len() == 0);
    for i in 0..chars.len()
        invariant
            chars@ == text@,
            str_texts(want@) == wanted_scripts(script@),
            total == scripted(text@.take(i as int)),
            hit == written_in(text@.take(i as int), wanted_scripts(script@)),
            hit <= total <= i,
            has_kana == holds_kana(text@.take(i as int)),
    {
        let ghost before_it = text@.take(i as int);
        let ghost with_it = text@.take(i + 1);
        assert(with_it.drop_last() == before_it);
        assert(with_it.last() == chars@[i as int]);
        let found = script_of_char(chars[i]);
        proof {
            if holds_kana(before_it) {
                let k = choose|k: int|
                    0 <= k < before_it.len() && char_script(#[trigger] before_it[k]) == Some(
                        "kana"@,
                    );
                assert(with_it[k] == before_it[k]);
            }
            if holds_kana(with_it) {
                let k = choose|k: int|
                    0 <= k < with_it.len() && char_script(#[trigger] with_it[k]) == Some("kana"@);
                if k < i {
                    assert(before_it[k] == with_it[k]);
                }
            }
            assert(char_script(with_it[i as int]) == char_script(chars@[i as int]));
        }
        if let Some(name) = found {
            total += 1;
            if same(name, "kana") {
                has_kana = true;
            }
            if wants(&want, name) {
                hit += 1;
            }
        }
    }
    assert(text@.take(text@.len() as int) == text@);
    if total == 0 {
        return None;
    }
    let chinese: bool = match script {
        Script::Chinese => true,
        _ => false,
    };
    if chinese && has_kana {
        return Some(Share { hit: 0, total });
    }
    Some(Share { hit, total })
}

/// The factor, in tenths, that a page's score is multiplied with: 15 where at least three tenths of
/// its text are in the script, 10 where some of it is, 5 where none is, and 10 where the script tells
/// nothing.
pub open spec fn factor_of(share: Option<(nat, nat)>) -> u32 {
    match share {
        None => 10,
        Some((hit, total)) => if hit * 10 >= total * 3 {
            15
        } else if hit > 0 {
            10
        } else {
            5
        },
    }
}

/// The factor, in tenths, for a share.
pub fn share_factor(share: Option<Share>) -> (r: u32)
    ensures
        r == factor_of(opt_share(share)),
{
    match share {
        None => 10,
        Some(s) => if s.hit as u128 * 10 >= s.total as u128 * 3 {
            15
        } else if s.hit > 0 {
            10
        } else {
            5
        },
    }
}

/// The factor, in tenths, for a page with this title and summary.
pub open spec fn page_factor(script: ScriptView, title: Seq<char>, snippet: Seq<char>) -> u32 {
    factor_of(share_of(script, title + " "@ + snippet))
}

/// The factor, in tenths, by which a page with this title and summary is moved up or down in a search
/// for pages in the script.
pub fn rank_factor(script: Script, title: &str, snippet: &str) -> (r: u32)
    ensures
        r == page_factor(script@, title@, snippet@),
{
    let mut all = chars_of(title);
    append_str(&mut all, " ");
    append_str(&mut all, snippet);
    share_factor(script_share(script, string_of(&all).as_str()))
}

// ---------------------------------------------------------------------------
// Laws
// ---------------------------------------------------------------------------

proof fn lemma_plain_code_names_itself(code: Seq<char>)
    requires
        languages::is_plain_code(code),
    ensures
        plain_name(code) == code,
        text::lower(code) == code,
        !code.contains('-'),
{
    assert(!text::is_white(code[0]));
    assert(!text::is_white(code.last()));
    assert(text::trim(code) == code);
    assert(dashed(code) =~= code);
    assert(text::lower(code) =~= code);
}

proof fn lemma_listed_code_is_known(i: int)
    requires
        0 <= i < languages::LANGUAGES@.len(),
    ensures
        known_code(plain_name(languages::code_at(i))) == Some(languages::code_at(i)),
        plain_name(languages::code_at(i)).len() > 0,
{
    let code = languages::code_at(i);
    if i < languages::PLAIN_CODES {
        languages::lemma_plain_codes(i);
        lemma_plain_code_names_itself(code);
        reveal_strlit("zh-cn");
        reveal_strlit("zh-sg");
        reveal_strlit("zh-hans");
        reveal_strlit("zh-tw");
        reveal_strlit("zh-hk");
        reveal_strlit("zh-mo");
        reveal_strlit("zh-hant");
        reveal_strlit("pt-br");
        reveal_strlit("pt-pt");
        assert(other_name(code) is None);
        languages::lemma_plain_code_is_found(code, 0, i);
    } else {
        languages::lemma_compound_codes(i);
        reveal_strlit("zh-Hans");
        reveal_strlit("zh-Hant");
        reveal_strlit("pt-BR");
        reveal_strlit("pt-PT");
        reveal_strlit("zh");
        reveal_strlit("zh-cn");
        reveal_strlit("zh-sg");
        reveal_strlit("zh-hans");
        reveal_strlit("zh-tw");
        reveal_strlit("zh-hk");
        reveal_strlit("zh-mo");
        reveal_strlit("zh-hant");
        reveal_strlit("pt");
        reveal_strlit("pt-br");
        reveal_strlit("pt-pt");
        assert(!text::is_white(code[0]));
        assert(!text::is_white(code.last()));
        assert(text::trim(code) == code);
        assert(dashed(code) =~= code);
        let name = text::lower(code);
        if code == "zh-Hans"@ {
            assert(name =~= "zh-hans"@);
        } else if code == "zh-Hant"@ {
            assert(name =~= "zh-hant"@);
            assert("zh-hant"@[6] != "zh-hans"@[6]);
        } else if code == "pt-BR"@ {
            assert(name =~= "pt-br"@);
        } else {
            assert(name =~= "pt-pt"@);
            assert("pt-pt"@[3] != "pt-br"@[3]);
        }
        assert(name.len() > 0);
    }
}

/// Every language of the table resolves to itself.
pub proof fn law_listed_languages_resolve_to_themselves(i: int, gl: Seq<char>)
    requires
        0 <= i < languages::LANGUAGES@.len(),
    ensures
        resolved(languages::code_at(i), gl).code == languages::code_at(i),
        resolved(languages::code_at(i), gl).hl == engine_name(languages::code_at(i)),
{
    lemma_listed_code_is_known(i);
}

/// A region that the caller gives is the one that is searched.
pub proof fn law_given_region_wins(hl: Seq<char>, gl: Seq<char>)
    requires
        text::trim(gl).len() > 0,
    ensures
        resolved(hl, gl).gl == text::upper(text::trim(gl)),
{
}

/// A language that is not in the table is passed on to the engines as it is, with no region but the
/// one that the caller gives; and for it no page is moved.
pub proof fn law_unknown_languages_pass_through(hl: Seq<char>, gl: Seq<char>)
    requires
        known_code(plain_name(hl)) is None,
        plain_name(hl).len() > 0,
    ensures
        resolved(hl, gl).hl == plain_name(hl),
        resolved(hl, gl).gl == text::upper(text::trim(gl)),
        forall|title: Seq<char>, snippet: Seq<char>| #[trigger]
            page_factor(resolved(hl, gl).script, title, snippet) == 10,
{
    if text::trim(gl).len() == 0 {
        assert(text::upper(text::trim(gl)) =~= Seq::<char>::empty());
    }
}

/// In a language whose script tells nothing, no page is moved.
pub proof fn law_latin_pages_keep_their_place(title: Seq<char>, snippet: Seq<char>)
    ensures
        page_factor(ScriptView::Latin, title, snippet) == 10,
{
}

/// A page of which at least three tenths are in the script that is looked for counts three times as
/// much as one that holds no trace of it.
pub proof fn law_pages_in_the_script_count_threefold(
    script: ScriptView,
    near_title: Seq<char>,
    near_snippet: Seq<char>,
    far_title: Seq<char>,
    far_snippet: Seq<char>,
)
    requires
        share_of(script, near_title + " "@ + near_snippet) matches Some((hit, total)) && hit * 10
            >= total * 3,
        share_of(script, far_title + " "@ + far_snippet) matches Some((hit, total)) && hit == 0,
    ensures
        page_factor(script, near_title, near_snippet) == 3 * page_factor(
            script,
            far_title,
            far_snippet,
        ),
{
}

/// In a search for Chinese, a page that holds a kana is moved down.
pub proof fn law_japanese_pages_are_not_chinese(title: Seq<char>, snippet: Seq<char>)
    requires
        holds_kana(title + " "@ + snippet),
    ensures
        page_factor(ScriptView::Chinese, title, snippet) == 5,
{
    let s = title + " "@ + snippet;
    let k = choose|k: int| 0 <= k < s.len() && char_script(#[trigger] s[k]) == Some("kana"@);
    lemma_scripted_positive(s, k);
}

proof fn lemma_scripted_positive(s: Seq<char>, k: int)
    requires
        0 <= k < s.len(),
        char_script(s[k]) is Some,
    ensures
        scripted(s) > 0,
    decreases s.len(),
{
    if k < s.len() - 1 {
        assert(s.drop_last()[k] == s[k]);
        lemma_scripted_positive(s.drop_last(), k);
    }
}

/// Two upper-case letters.
spec fn is_region(s: Seq<char>) -> bool {
    s.len() == 2 && 'A' <= s[0] <= 'Z' && 'A' <= s[1] <= 'Z'
}

proof fn lemma_regions_1(i: int)
    requires
        0 <= i < 25,
    ensures
        is_region(REGIONS@[i].1@),
{
    reveal_strlit("BD");
    reveal_strlit("BR");
    reveal_strlit("CN");
    reveal_strlit("DE");
    reveal_strlit("ES");
    reveal_strlit("FR");
    reveal_strlit("IL");
    reveal_strlit("IN");
    reveal_strlit("IR");
    reveal_strlit("IT");
    reveal_strlit("JP");
    reveal_strlit("KR");
    reveal_strlit("PK");
    reveal_strlit("PT");
    reveal_strlit("RU");
    reveal_strlit("SA");
    reveal_strlit("TR");
    reveal_strlit("TW");
    reveal_strlit("UA");
    reveal_strlit("US");
}

proof fn lemma_regions_2(i: int)
    requires
        25 <= i < 50,
    ensures
        is_region(REGIONS@[i].1@),
{
    reveal_strlit("CZ");
    reveal_strlit("DK");
    reveal_strlit("FI");
    reveal_strlit("ID");
    reveal_strlit("IN");
    reveal_strlit("KH");
    reveal_strlit("LA");
    reveal_strlit("LK");
    reveal_strlit("MM");
    reveal_strlit("MY");
    reveal_strlit("NL");
    reveal_strlit("NO");
    reveal_strlit("NP");
    reveal_strlit("PH");
    reveal_strlit("PL");
    reveal_strlit("SE");
    reveal_strlit("SK");
    reveal_strlit("TH");
    reveal_strlit("VN");
}

proof fn lemma_regions_3(i: int)
    requires
        50 <= i < 75,
    ensures
        is_region(REGIONS@[i].1@),
{
    reveal_strlit("AM");
    reveal_strlit("AZ");
    reveal_strlit("BG");
    reveal_strlit("EE");
    reveal_strlit("ES");
    reveal_strlit("ET");
    reveal_strlit("GE");
    reveal_strlit("GR");
    reveal_strlit("HR");
    reveal_strlit("HU");
    reveal_strlit("IE");
    reveal_strlit("IS");
    reveal_strlit("KE");
    reveal_strlit("KZ");
    reveal_strlit("LT");
    reveal_strlit("LV");
    reveal_strlit("MN");
    reveal_strlit("NG");
    reveal_strlit("RO");
    reveal_strlit("RS");
    reveal_strlit("SI");
    reveal_strlit("UZ");
    reveal_strlit("ZA");
}

proof fn lemma_region_from(code: Seq<char>, i: int)
    requires
        0 <= i,
    ensures
        region_from(code, i).len() == 0 || is_region(region_from(code, i)),
    decreases 75 - i,
{
    if i < 75 {
        if i < 25 {
            lemma_regions_1(i);
        } else if i < 50 {
            lemma_regions_2(i);
        } else {
            lemma_regions_3(i);
        }
        lemma_region_from(code, i + 1);
    }
}

proof fn lemma_lowered_twice(c: char)
    ensures
        text::lower_char(text::lower_char(c)) == text::lower_char(c),
        text::upper_char(text::upper_char(c)) == text::upper_char(c),
        text::is_white(text::lower_char(c)) == text::is_white(c),
        text::is_white(text::upper_char(c)) == text::is_white(c),
        dash_char(text::lower_char(dash_char(c))) == text::lower_char(dash_char(c)),
        text::is_white(dash_char(c)) == text::is_white(c),
{
}

proof fn lemma_plain_name_twice(hl: Seq<char>)
    ensures
        plain_name(plain_name(hl)) == plain_name(hl),
{
    let t = text::trim(hl);
    let name = plain_name(hl);
    text::lemma_trim(hl);
    if name.len() > 0 {
        lemma_lowered_twice(t[0]);
        lemma_lowered_twice(dash_char(t[0]));
        lemma_lowered_twice(t.last());
        lemma_lowered_twice(dash_char(t.last()));
        assert(name[0] == text::lower_char(dash_char(t[0])));
        assert(name.last() == text::lower_char(dash_char(t.last())));
    }
    assert(text::trim(name) == name);
    assert forall|k: int| 0 <= k < name.len() implies plain_name(name)[k] == #[trigger] name[k] by {
        lemma_lowered_twice(t[k]);
        lemma_lowered_twice(dash_char(t[k]));
    }
    assert(plain_name(name) =~= name);
}

proof fn lemma_region_twice(gl: Seq<char>)
    ensures
        text::upper(text::trim(text::upper(text::trim(gl)))) == text::upper(text::trim(gl)),
{
    let t = text::trim(gl);
    let region = text::upper(t);
    text::lemma_trim(gl);
    if region.len() > 0 {
        lemma_lowered_twice(t[0]);
        lemma_lowered_twice(t.last());
        assert(region[0] == text::upper_char(t[0]));
        assert(region.last() == text::upper_char(t.last()));
    }
    assert(text::trim(region) == region);
    assert forall|k: int| 0 <= k < region.len() implies text::upper(region)[k] == #[trigger]
        region[k] by {
        lemma_lowered_twice(t[k]);
    }
    assert(text::upper(region) =~= region);
}

proof fn lemma_region_of_is_upper(code: Seq<char>)
    ensures
        text::upper(text::trim(region_of(code))) == region_of(code),
{
    let region = region_of(code);
    lemma_region_from(code, 0);
    assert(text::trim(region) == region);
    assert(text::upper(region) =~= region);
}

/// The place of a language that is known by a name.
proof fn lemma_known_code_is_listed(name: Seq<char>) -> (i: int)
    requires
        known_code(name) is Some,
    ensures
        0 <= i < languages::LANGUAGES@.len(),
        known_code(name) == Some(languages::code_at(i)),
{
    match other_name(name) {
        Some(c) => {
            if c == "zh-Hans"@ {
                130
            } else if c == "zh-Hant"@ {
                131
            } else if c == "pt-BR"@ {
                132
            } else if c == "pt-PT"@ {
                133
            } else if c == "no"@ {
                39
            } else if c == "fil"@ {
                34
            } else {
                10
            }
        },
        None => match languages::listed(name) {
            Some(_) => languages::lemma_listed_from(text::lower(name), 0),
            None => languages::lemma_listed_from(text::lower(text::before(name, '-')), 0),
        },
    }
}

/// What the engines are told of a language of the table names the same language again.
proof fn lemma_engine_name_is_known(i: int)
    requires
        0 <= i < languages::LANGUAGES@.len(),
    ensures
        known_code(plain_name(engine_name(languages::code_at(i)))) == Some(languages::code_at(i)),
        plain_name(engine_name(languages::code_at(i))).len() > 0,
{
    let code = languages::code_at(i);
    lemma_listed_code_is_known(i);
    if code == "zh-Hans"@ || code == "zh-Hant"@ {
        reveal_strlit("zh-CN");
        reveal_strlit("zh-TW");
        reveal_strlit("zh");
        reveal_strlit("zh-cn");
        reveal_strlit("zh-sg");
        reveal_strlit("zh-hans");
        reveal_strlit("zh-tw");
        reveal_strlit("zh-Hans");
        reveal_strlit("zh-Hant");
        assert("zh-Hans"@[6] != "zh-Hant"@[6]);
        let told = engine_name(code);
        assert(text::trim(told) == told);
        if code == "zh-Hans"@ {
            assert(plain_name(told) =~= "zh-cn"@);
        } else {
            assert(plain_name(told) =~= "zh-tw"@);
            assert("zh-tw"@[3] != "zh-cn"@[3]);
            assert("zh-tw"@[3] != "zh-sg"@[3]);
        }
    }
}

/// No language has an empty name.
proof fn lemma_no_name_is_known(name: Seq<char>)
    requires
        name.len() == 0,
    ensures
        known_code(name) is None,
{
    reveal_strlit("zh");
    reveal_strlit("zh-cn");
    reveal_strlit("zh-sg");
    reveal_strlit("zh-hans");
    reveal_strlit("zh-tw");
    reveal_strlit("zh-hk");
    reveal_strlit("zh-mo");
    reveal_strlit("zh-hant");
    reveal_strlit("pt");
    reveal_strlit("pt-br");
    reveal_strlit("pt-pt");
    reveal_strlit("nb");
    reveal_strlit("nn");
    reveal_strlit("tl");
    reveal_strlit("iw");
    text::lemma_find(name, '-');
    assert(text::before(name, '-') =~= name);
    if languages::listed(name) is Some {
        let k = languages::lemma_listed_from(text::lower(name), 0);
        if k < languages::PLAIN_CODES {
            languages::lemma_plain_codes(k);
        } else {
            languages::lemma_compound_codes(k);
        }
        assert(text::lower(languages::code_at(k)).len() == languages::code_at(k).len());
    }
}

proof fn lemma_english_at(i: int)
    requires
        0 <= i < 55,
    ensures
        LANGUAGE_SCRIPTS@[i].0@ != "en"@,
{
    reveal_strlit("en");
    if i == 0 {
        reveal_strlit("ja");
    } else if i == 1 {
        reveal_strlit("zh");
    } else if i == 2 {
        reveal_strlit("yue");
    } else if i == 3 {
        reveal_strlit("wuu");
    } else if i == 4 {
        reveal_strlit("ko");
    } else if i == 5 {
        reveal_strlit("ar");
    } else if i == 6 {
        reveal_strlit("fa");
    } else if i == 7 {
        reveal_strlit("ur");
    } else if i == 8 {
        reveal_strlit("ps");
    } else if i == 9 {
        reveal_strlit("ckb");
    } else if i == 10 {
        reveal_strlit("ug");
    } else if i == 11 {
        reveal_strlit("sd");
    } else if i == 12 {
        reveal_strlit("dv");
    } else if i == 13 {
        reveal_strlit("ru");
    } else if i == 14 {
        reveal_strlit("uk");
    } else if i == 15 {
        reveal_strlit("bg");
    } else if i == 16 {
        reveal_strlit("sr");
    } else if i == 17 {
        reveal_strlit("mk");
    } else if i == 18 {
        reveal_strlit("be");
    } else if i == 19 {
        reveal_strlit("kk");
    } else if i == 20 {
        reveal_strlit("ky");
    } else if i == 21 {
        reveal_strlit("tg");
    } else if i == 22 {
        reveal_strlit("mn");
    } else if i == 23 {
        reveal_strlit("tt");
    } else if i == 24 {
        reveal_strlit("ba");
    } else if i == 25 {
        reveal_strlit("cv");
    } else if i == 26 {
        reveal_strlit("hi");
    } else if i == 27 {
        reveal_strlit("mr");
    } else if i == 28 {
        reveal_strlit("ne");
    } else if i == 29 {
        reveal_strlit("sa");
    } else if i == 30 {
        reveal_strlit("kok");
    } else if i == 31 {
        reveal_strlit("mai");
    } else if i == 32 {
        reveal_strlit("bho");
    } else if i == 33 {
        reveal_strlit("bn");
    } else if i == 34 {
        reveal_strlit("as");
    } else if i == 35 {
        reveal_strlit("th");
    } else if i == 36 {
        reveal_strlit("he");
    } else if i == 37 {
        reveal_strlit("yi");
    } else if i == 38 {
        reveal_strlit("el");
    } else if i == 39 {
        reveal_strlit("pa");
    } else if i == 40 {
        reveal_strlit("gu");
    } else if i == 41 {
        reveal_strlit("ta");
    } else if i == 42 {
        reveal_strlit("te");
    } else if i == 43 {
        reveal_strlit("kn");
    } else if i == 44 {
        reveal_strlit("ml");
    } else if i == 45 {
        reveal_strlit("si");
    } else if i == 46 {
        reveal_strlit("lo");
    } else if i == 47 {
        reveal_strlit("my");
    } else if i == 48 {
        reveal_strlit("km");
    } else if i == 49 {
        reveal_strlit("ka");
    } else if i == 50 {
        reveal_strlit("hy");
    } else if i == 51 {
        reveal_strlit("am");
    } else if i == 52 {
        reveal_strlit("ti");
    } else if i == 53 {
        reveal_strlit("bo");
    } else if i == 54 {
        reveal_strlit("dz");
    }
    let code = LANGUAGE_SCRIPTS@[i].0@;
    assert(code.len() == 3 || code[0] != 'e' || code[1] != 'n');
    assert("en"@.len() == 2 && "en"@[0] == 'e' && "en"@[1] == 'n');
}

proof fn lemma_english_from(i: int)
    requires
        0 <= i,
    ensures
        script_name("en"@, i) is None,
    decreases 55 - i,
{
    if i < 55 {
        lemma_english_at(i);
        lemma_english_from(i + 1);
    }
}

/// What the engines are told of a language and its region resolves to the same language, region and
/// script again.
pub proof fn law_resolving_again_changes_nothing(hl: Seq<char>, gl: Seq<char>)
    ensures
        ({
            let r = resolved(hl, gl);
            resolved(r.hl, r.gl) == r
        }),
{
    let r = resolved(hl, gl);
    let name = plain_name(hl);
    let found = known_code(name);
    lemma_region_twice(gl);
    lemma_region_of_is_upper(r.code);
    if name.len() == 0 {
        lemma_no_name_is_known(name);
        lemma_listed_code_is_known(1);
        reveal_strlit("en");
        assert(!"en"@.contains('-'));
        text::lemma_find_is("en"@, '-', 2);
        assert(text::before("en"@, '-') =~= "en"@);
        lemma_english_from(0);
        reveal_strlit("zh-Hans");
        reveal_strlit("zh-Hant");
    } else if found is Some {
        let i = lemma_known_code_is_listed(name);
        lemma_engine_name_is_known(i);
    } else {
        lemma_plain_name_twice(hl);
        assert(text::upper(text::trim(Seq::<char>::empty())) =~= Seq::<char>::empty());
    }
}

/// Every script but the Latin that a language can have names characters by which its pages are told
/// apart.
pub proof fn law_scripts_of_languages_tell_pages_apart(base: Seq<char>)
    ensures
        wanted_scripts(language_script(base)).len() == 0 <==> language_script(base)
            == ScriptView::Latin,
{
    lemma_script_name(base, 0);
}

proof fn lemma_script_name(base: Seq<char>, i: int)
    requires
        0 <= i,
    ensures
        script_name(base, i) matches Some(name) ==> named_script(name) != ScriptView::Latin
            && wanted_scripts(named_script(name)).len() > 0,
    decreases 55 - i,
{
    if i < 55 {
        lemma_script_at(i);
        lemma_script_name(base, i + 1);
    }
}

proof fn lemma_script_at(i: int)
    requires
        0 <= i < 55,
    ensures
        wanted_scripts(named_script(LANGUAGE_SCRIPTS@[i].1@)).len() > 0,
{
}

/// Characters belong to the script of their block: kana, han characters, hangul, and the letters of the
/// other scripts that are told apart.
pub proof fn law_characters_belong_to_their_script(c: char)
    ensures
        ({
            let u = c as u32;
            let s = char_script(c);
            &&& (0x3040 <= u <= 0x30FF || 0x31F0 <= u <= 0x31FF || 0xFF66 <= u <= 0xFF9F) ==> s
                == Some("kana"@)
            &&& (0x4E00 <= u <= 0x9FFF || 0x3400 <= u <= 0x4DBF || 0xF900 <= u <= 0xFAFF) ==> s
                == Some("han"@)
            &&& (0xAC00 <= u <= 0xD7AF || 0x1100 <= u <= 0x11FF || 0x3130 <= u <= 0x318F) ==> s
                == Some("hangul"@)
            &&& (0x0600 <= u <= 0x06FF || 0x0750 <= u <= 0x077F || 0x08A0 <= u <= 0x08FF || 0xFB50
                <= u <= 0xFDFF || 0xFE70 <= u <= 0xFEFF) ==> s == Some("arabic"@)
            &&& 0x0400 <= u <= 0x052F ==> s == Some("cyrillic"@)
            &&& 0x0900 <= u <= 0x097F ==> s == Some("devanagari"@)
            &&& 0x0980 <= u <= 0x09FF ==> s == Some("bengali"@)
            &&& 0x0E00 <= u <= 0x0E7F ==> s == Some("thai"@)
            &&& 0x0590 <= u <= 0x05FF ==> s == Some("hebrew"@)
            &&& (0x0370 <= u <= 0x03FF || 0x1F00 <= u <= 0x1FFF) ==> s == Some("greek"@)
            &&& 0x0A00 <= u <= 0x0A7F ==> s == Some("gurmukhi"@)
            &&& 0x0A80 <= u <= 0x0AFF ==> s == Some("gujarati"@)
            &&& 0x0B80 <= u <= 0x0BFF ==> s == Some("tamil"@)
            &&& 0x0C00 <= u <= 0x0C7F ==> s == Some("telugu"@)
            &&& 0x0C80 <= u <= 0x0CFF ==> s == Some("kannada"@)
            &&& 0x0D00 <= u <= 0x0D7F ==> s == Some("malayalam"@)
            &&& 0x0D80 <= u <= 0x0DFF ==> s == Some("sinhala"@)
            &&& 0x0E80 <= u <= 0x0EFF ==> s == Some("lao"@)
            &&& 0x1000 <= u <= 0x109F ==> s == Some("myanmar"@)
            &&& 0x1780 <= u <= 0x17FF ==> s == Some("khmer"@)
            &&& 0x10A0 <= u <= 0x10FF ==> s == Some("georgian"@)
            &&& 0x0530 <= u <= 0x058F ==> s == Some("armenian"@)
            &&& 0x1200 <= u <= 0x137F ==> s == Some("ethiopic"@)
            &&& 0x0F00 <= u <= 0x0FFF ==> s == Some("tibetan"@)
            &&& u < 0x0370 ==> s == if alphabetic(c) {
                Some("latin"@)
            } else {
                None
            }
        }),
{
    reveal_with_fuel(block_script, 36);
}

/// Every character of a text counts, and none twice: the characters of two texts in a row are those of the
/// one and those of the other.
pub proof fn law_every_character_counts(a: Seq<char>, b: Seq<char>, c: char, want: Seq<Seq<char>>)
    ensures
        scripted(a + b) == scripted(a) + scripted(b),
        written_in(a + b, want) == written_in(a, want) + written_in(b, want),
        scripted(seq![c]) == if char_script(c) is Some {
            1nat
        } else {
            0
        },
        written_in(seq![c], want) == if (char_script(c) matches Some(name) && want.contains(name)) {
            1nat
        } else {
            0
        },
        scripted(Seq::empty()) == 0,
        written_in(Seq::empty(), want) == 0,
    decreases b.len(),
{
    let one = seq![c];
    assert(one.drop_last() =~= Seq::<char>::empty());
    assert(one.last() == c);
    assert(scripted(one.drop_last()) == 0);
    assert(written_in(one.drop_last(), want) == 0);
    if b.len() == 0 {
        assert(a + b =~= a);
    } else {
        law_every_character_counts(a, b.drop_last(), c, want);
        assert((a + b).drop_last() =~= a + b.drop_last());
        assert((a + b).last() == b.last());
    }
}

/// A page is moved by how much of its title and its summary is written in the script: up where at least
/// three tenths of the characters that belong to a script are, down where none is, and not at all in
/// between, or where no character belongs to one.
pub proof fn law_pages_are_moved_by_their_script(
    script: ScriptView,
    title: Seq<char>,
    snippet: Seq<char>,
)
    requires
        script != ScriptView::Chinese || !holds_kana(title + " "@ + snippet),
        wanted_scripts(script).len() > 0,
    ensures
        ({
            let s = title + " "@ + snippet;
            let hit = written_in(s, wanted_scripts(script));
            let total = scripted(s);
            let factor = page_factor(script, title, snippet);
            &&& total == 0 ==> factor == 10
            &&& total > 0 && hit * 10 >= total * 3 ==> factor == 15
            &&& total > 0 && hit > 0 && hit * 10 < total * 3 ==> factor == 10
            &&& total > 0 && hit == 0 ==> factor == 5
        }),
{
}

/// The scripts that pages in a language are written in: kana and han characters in Japanese, han characters
/// in Chinese, hangul and han characters in Korean, and its own in every other language.
pub proof fn law_scripts_that_are_looked_for()
    ensures
        wanted_scripts(ScriptView::Japanese) == seq!["kana"@, "han"@],
        wanted_scripts(ScriptView::Chinese) == seq!["han"@],
        wanted_scripts(ScriptView::Korean) == seq!["hangul"@, "han"@],
        wanted_scripts(ScriptView::Arabic) == seq!["arabic"@],
        wanted_scripts(ScriptView::Cyrillic) == seq!["cyrillic"@],
        wanted_scripts(ScriptView::Devanagari) == seq!["devanagari"@],
        wanted_scripts(ScriptView::Bengali) == seq!["bengali"@],
        wanted_scripts(ScriptView::Thai) == seq!["thai"@],
        wanted_scripts(ScriptView::Hebrew) == seq!["hebrew"@],
        wanted_scripts(ScriptView::Greek) == seq!["greek"@],
        forall|s: Seq<char>| #[trigger]
            wanted_scripts(ScriptView::Other(s)).len() > 0 ==> wanted_scripts(ScriptView::Other(s))
                == seq![s],
{
}

/// A name of a language is evened out character by character: it keeps its length without the white space
/// around it, `_` becomes `-`, and letters become lower case.
pub proof fn law_names_are_evened_out(hl: Seq<char>, i: int)
    requires
        0 <= i < text::trim(hl).len(),
    ensures
        plain_name(hl).len() == text::trim(hl).len(),
        text::trim(hl)[i] == '_' ==> plain_name(hl)[i] == '-',
        text::trim(hl)[i] != '_' ==> plain_name(hl)[i] == text::lower(text::trim(hl))[i],
{
}

/// A language of the table with something behind a `-` is that language, unless the whole is one of the
/// other names or a language of the table itself.
pub proof fn law_variants_are_the_language(i: int, variant: Seq<char>)
    requires
        0 <= i < languages::PLAIN_CODES,
        other_name(languages::code_at(i) + seq!['-'] + variant) is None,
        languages::listed(languages::code_at(i) + seq!['-'] + variant) is None,
    ensures
        known_code(languages::code_at(i) + seq!['-'] + variant) == Some(languages::code_at(i)),
{
    let code = languages::code_at(i);
    let name = code + seq!['-'] + variant;
    languages::lemma_plain_codes(i);
    lemma_plain_code_names_itself(code);
    assert forall|k: int| 0 <= k < code.len() implies name[k] != '-' by {
        assert(code.contains(code[k]));
        assert(name[k] == code[k]);
    }
    assert(name[code.len() as int] == '-');
    text::lemma_find_is(name, '-', code.len() as int);
    assert(text::before(name, '-') =~= code);
    languages::lemma_plain_code_is_found(code, 0, i);
}

/// What engines are told: of a language that is known its code, but `zh-CN` and `zh-TW` for the two ways to
/// write Chinese; the region that is given, in upper case and whole, or else that of the language; and
/// pages are looked for in the script of the language.
pub proof fn law_engines_are_told_language_and_region(hl: Seq<char>, gl: Seq<char>, code: Seq<char>)
    requires
        known_code(plain_name(hl)) == Some(code),
        plain_name(hl).len() > 0,
    ensures
        ({
            let r = resolved(hl, gl);
            &&& r.code == code
            &&& code == "zh-Hans"@ ==> r.hl == "zh-CN"@
            &&& code == "zh-Hant"@ ==> r.hl == "zh-TW"@
            &&& code != "zh-Hans"@ && code != "zh-Hant"@ ==> r.hl == code
            &&& text::trim(gl).len() > 0 ==> r.gl == text::upper(text::trim(gl))
            &&& text::trim(gl).len() == 0 ==> r.gl == region_of(code)
            &&& r.script == language_script(text::before(code, '-'))
        }),
{
    reveal_strlit("zh-Hans");
    reveal_strlit("zh-Hant");
    assert("zh-Hans"@[6] != "zh-Hant"@[6]);
}

/// The region and the script of a language are those of its first entry in the tables.
pub proof fn law_tables_are_read_by_code(code: Seq<char>, i: int)
    ensures
        0 <= i < REGIONS@.len() && REGIONS@[i].0@ == code && (forall|k: int|
            0 <= k < i ==> (#[trigger] REGIONS@[k]).0@ != code) ==> region_of(code) == REGIONS@[i].1@,
        (forall|k: int| 0 <= k < REGIONS@.len() ==> (#[trigger] REGIONS@[k]).0@ != code) ==> region_of(
            code,
        ).len() == 0,
        0 <= i < LANGUAGE_SCRIPTS@.len() && LANGUAGE_SCRIPTS@[i].0@ == code && (forall|k: int|
            0 <= k < i ==> (#[trigger] LANGUAGE_SCRIPTS@[k]).0@ != code) ==> language_script(code)
            == named_script(LANGUAGE_SCRIPTS@[i].1@),
        (forall|k: int|
            0 <= k < LANGUAGE_SCRIPTS@.len() ==> (#[trigger] LANGUAGE_SCRIPTS@[k]).0@ != code)
            ==> language_script(code) == ScriptView::Latin,
{
    lemma_region_read(code, 0, i);
    lemma_script_read(code, 0, i);
}

proof fn lemma_region_read(code: Seq<char>, from: int, i: int)
    requires
        0 <= from,
    ensures
        from <= i < 75 && REGIONS@[i].0@ == code && (forall|k: int|
            from <= k < i ==> (#[trigger] REGIONS@[k]).0@ != code) ==> region_from(code, from)
            == REGIONS@[i].1@,
        (forall|k: int| from <= k < 75 ==> (#[trigger] REGIONS@[k]).0@ != code) ==> region_from(
            code,
            from,
        ).len() == 0,
    decreases 75 - from,
{
    if from < 75 {
        lemma_region_read(code, from + 1, i);
        if from < i < 75 && (forall|k: int| from <= k < i ==> (#[trigger] REGIONS@[k]).0@ != code) {
            assert(REGIONS@[from].0@ != code);
        }
        if forall|k: int| from <= k < 75 ==> (#[trigger] REGIONS@[k]).0@ != code {
            assert(REGIONS@[from].0@ != code);
        }
    }
}

proof fn lemma_script_read(code: Seq<char>, from: int, i: int)
    requires
        0 <= from,
    ensures
        from <= i < 55 && LANGUAGE_SCRIPTS@[i].0@ == code && (forall|k: int|
            from <= k < i ==> (#[trigger] LANGUAGE_SCRIPTS@[k]).0@ != code) ==> script_name(code, from)
            == Some(LANGUAGE_SCRIPTS@[i].1@),
        (forall|k: int| from <= k < 55 ==> (#[trigger] LANGUAGE_SCRIPTS@[k]).0@ != code)
            ==> script_name(code, from) is None,
    decreases 55 - from,
{
    if from < 55 {
        lemma_script_read(code, from + 1, i);
        if from < i < 55 && (forall|k: int|
            from <= k < i ==> (#[trigger] LANGUAGE_SCRIPTS@[k]).0@ != code) {
            assert(LANGUAGE_SCRIPTS@[from].0@ != code);
        }
        if forall|k: int| from <= k < 55 ==> (#[trigger] LANGUAGE_SCRIPTS@[k]).0@ != code {
            assert(LANGUAGE_SCRIPTS@[from].0@ != code);
        }
    }
}

/// A number by which the codes of the tables differ: of their length, their first two characters and
/// their last one.
spec fn code_number(s: Seq<char>) -> int {
    s.len() * 1_000_000_000 + s[0] as int * 1_000_000 + s[1] as int * 1_000 + s.last() as int
}

proof fn lemma_code_numbers()
    ensures
        code_number("af"@) == 2097102102,
        code_number("am"@) == 2097109109,
        code_number("ar"@) == 2097114114,
        code_number("as"@) == 2097115115,
        code_number("az"@) == 2097122122,
        code_number("ba"@) == 2098097097,
        code_number("be"@) == 2098101101,
        code_number("bg"@) == 2098103103,
        code_number("bho"@) == 3098104111,
        code_number("bn"@) == 2098110110,
        code_number("bo"@) == 2098111111,
        code_number("ca"@) == 2099097097,
        code_number("ckb"@) == 3099107098,
        code_number("cs"@) == 2099115115,
        code_number("cv"@) == 2099118118,
        code_number("da"@) == 2100097097,
        code_number("de"@) == 2100101101,
        code_number("dv"@) == 2100118118,
        code_number("dz"@) == 2100122122,
        code_number("el"@) == 2101108108,
        code_number("en"@) == 2101110110,
        code_number("es"@) == 2101115115,
        code_number("et"@) == 2101116116,
        code_number("fa"@) == 2102097097,
        code_number("fi"@) == 2102105105,
        code_number("fil"@) == 3102105108,
        code_number("fr"@) == 2102114114,
        code_number("ga"@) == 2103097097,
        code_number("gu"@) == 2103117117,
        code_number("ha"@) == 2104097097,
        code_number("he"@) == 2104101101,
        code_number("hi"@) == 2104105105,
        code_number("hr"@) == 2104114114,
        code_number("hu"@) == 2104117117,
        code_number("hy"@) == 2104121121,
        code_number("id"@) == 2105100100,
        code_number("ig"@) == 2105103103,
        code_number("is"@) == 2105115115,
        code_number("it"@) == 2105116116,
        code_number("ja"@) == 2106097097,
        code_number("ka"@) == 2107097097,
        code_number("kk"@) == 2107107107,
        code_number("km"@) == 2107109109,
        code_number("kn"@) == 2107110110,
        code_number("ko"@) == 2107111111,
        code_number("kok"@) == 3107111107,
        code_number("ky"@) == 2107121121,
        code_number("lo"@) == 2108111111,
        code_number("lt"@) == 2108116116,
        code_number("lv"@) == 2108118118,
        code_number("mai"@) == 3109097105,
        code_number("mk"@) == 2109107107,
        code_number("ml"@) == 2109108108,
        code_number("mn"@) == 2109110110,
        code_number("mr"@) == 2109114114,
        code_number("ms"@) == 2109115115,
        code_number("my"@) == 2109121121,
        code_number("nb"@) == 2110098098,
        code_number("ne"@) == 2110101101,
        code_number("nl"@) == 2110108108,
        code_number("nn"@) == 2110110110,
        code_number("no"@) == 2110111111,
        code_number("or"@) == 2111114114,
        code_number("pa"@) == 2112097097,
        code_number("pl"@) == 2112108108,
        code_number("ps"@) == 2112115115,
        code_number("pt-BR"@) == 5112116082,
        code_number("pt-PT"@) == 5112116084,
        code_number("ro"@) == 2114111111,
        code_number("ru"@) == 2114117117,
        code_number("sa"@) == 2115097097,
        code_number("sd"@) == 2115100100,
        code_number("si"@) == 2115105105,
        code_number("sk"@) == 2115107107,
        code_number("sl"@) == 2115108108,
        code_number("sr"@) == 2115114114,
        code_number("sv"@) == 2115118118,
        code_number("sw"@) == 2115119119,
        code_number("ta"@) == 2116097097,
        code_number("te"@) == 2116101101,
        code_number("tg"@) == 2116103103,
        code_number("th"@) == 2116104104,
        code_number("ti"@) == 2116105105,
        code_number("tl"@) == 2116108108,
        code_number("tr"@) == 2116114114,
        code_number("tt"@) == 2116116116,
        code_number("ug"@) == 2117103103,
        code_number("uk"@) == 2117107107,
        code_number("ur"@) == 2117114114,
        code_number("uz"@) == 2117122122,
        code_number("vi"@) == 2118105105,
        code_number("wuu"@) == 3119117117,
        code_number("yi"@) == 2121105105,
        code_number("yo"@) == 2121111111,
        code_number("yue"@) == 3121117101,
        code_number("zh"@) == 2122104104,
        code_number("zh-Hans"@) == 7122104115,
        code_number("zh-Hant"@) == 7122104116,
{
    reveal_strlit("af");
    reveal_strlit("am");
    reveal_strlit("ar");
    reveal_strlit("as");
    reveal_strlit("az");
    reveal_strlit("ba");
    reveal_strlit("be");
    reveal_strlit("bg");
    reveal_strlit("bho");
    reveal_strlit("bn");
    reveal_strlit("bo");
    reveal_strlit("ca");
    reveal_strlit("ckb");
    reveal_strlit("cs");
    reveal_strlit("cv");
    reveal_strlit("da");
    reveal_strlit("de");
    reveal_strlit("dv");
    reveal_strlit("dz");
    reveal_strlit("el");
    reveal_strlit("en");
    reveal_strlit("es");
    reveal_strlit("et");
    reveal_strlit("fa");
    reveal_strlit("fi");
    reveal_strlit("fil");
    reveal_strlit("fr");
    reveal_strlit("ga");
    reveal_strlit("gu");
    reveal_strlit("ha");
    reveal_strlit("he");
    reveal_strlit("hi");
    reveal_strlit("hr");
    reveal_strlit("hu");
    reveal_strlit("hy");
    reveal_strlit("id");
    reveal_strlit("ig");
    reveal_strlit("is");
    reveal_strlit("it");
    reveal_strlit("ja");
    reveal_strlit("ka");
    reveal_strlit("kk");
    reveal_strlit("km");
    reveal_strlit("kn");
    reveal_strlit("ko");
    reveal_strlit("kok");
    reveal_strlit("ky");
    reveal_strlit("lo");
    reveal_strlit("lt");
    reveal_strlit("lv");
    reveal_strlit("mai");
    reveal_strlit("mk");
    reveal_strlit("ml");
    reveal_strlit("mn");
    reveal_strlit("mr");
    reveal_strlit("ms");
    reveal_strlit("my");
    reveal_strlit("nb");
    reveal_strlit("ne");
    reveal_strlit("nl");
    reveal_strlit("nn");
    reveal_strlit("no");
    reveal_strlit("or");
    reveal_strlit("pa");
    reveal_strlit("pl");
    reveal_strlit("ps");
    reveal_strlit("pt-BR");
    reveal_strlit("pt-PT");
    reveal_strlit("ro");
    reveal_strlit("ru");
    reveal_strlit("sa");
    reveal_strlit("sd");
    reveal_strlit("si");
    reveal_strlit("sk");
    reveal_strlit("sl");
    reveal_strlit("sr");
    reveal_strlit("sv");
    reveal_strlit("sw");
    reveal_strlit("ta");
    reveal_strlit("te");
    reveal_strlit("tg");
    reveal_strlit("th");
    reveal_strlit("ti");
    reveal_strlit("tl");
    reveal_strlit("tr");
    reveal_strlit("tt");
    reveal_strlit("ug");
    reveal_strlit("uk");
    reveal_strlit("ur");
    reveal_strlit("uz");
    reveal_strlit("vi");
    reveal_strlit("wuu");
    reveal_strlit("yi");
    reveal_strlit("yo");
    reveal_strlit("yue");
    reveal_strlit("zh");
    reveal_strlit("zh-Hans");
    reveal_strlit("zh-Hant");
}

proof fn lemma_regions_of_1()
    ensures
        region_from("ja"@, 0) == "JP"@,
        region_from("en"@, 0) == "US"@,
        region_from("zh-Hans"@, 0) == "CN"@,
        region_from("zh-Hant"@, 0) == "TW"@,
        region_from("ko"@, 0) == "KR"@,
        region_from("es"@, 0) == "ES"@,
        region_from("pt-BR"@, 0) == "BR"@,
        region_from("pt-PT"@, 0) == "PT"@,
        region_from("fr"@, 0) == "FR"@,
        region_from("de"@, 0) == "DE"@,
        region_from("it"@, 0) == "IT"@,
        region_from("ru"@, 0) == "RU"@,
        region_from("uk"@, 0) == "UA"@,
        region_from("ar"@, 0) == "SA"@,
        region_from("he"@, 0) == "IL"@,
{
    lemma_code_numbers();
    reveal_with_fuel(region_from, 76);
}

proof fn lemma_regions_of_2()
    ensures
        region_from("fa"@, 0) == "IR"@,
        region_from("tr"@, 0) == "TR"@,
        region_from("hi"@, 0) == "IN"@,
        region_from("bn"@, 0) == "BD"@,
        region_from("ur"@, 0) == "PK"@,
        region_from("pa"@, 0) == "IN"@,
        region_from("gu"@, 0) == "IN"@,
        region_from("mr"@, 0) == "IN"@,
        region_from("ta"@, 0) == "IN"@,
        region_from("te"@, 0) == "IN"@,
        region_from("kn"@, 0) == "IN"@,
        region_from("ml"@, 0) == "IN"@,
        region_from("or"@, 0) == "IN"@,
        region_from("as"@, 0) == "IN"@,
        region_from("ne"@, 0) == "NP"@,
{
    lemma_code_numbers();
    reveal_with_fuel(region_from, 76);
}

proof fn lemma_regions_of_3()
    ensures
        region_from("si"@, 0) == "LK"@,
        region_from("th"@, 0) == "TH"@,
        region_from("lo"@, 0) == "LA"@,
        region_from("km"@, 0) == "KH"@,
        region_from("my"@, 0) == "MM"@,
        region_from("vi"@, 0) == "VN"@,
        region_from("id"@, 0) == "ID"@,
        region_from("ms"@, 0) == "MY"@,
        region_from("fil"@, 0) == "PH"@,
        region_from("tl"@, 0) == "PH"@,
        region_from("pl"@, 0) == "PL"@,
        region_from("nl"@, 0) == "NL"@,
        region_from("sv"@, 0) == "SE"@,
        region_from("da"@, 0) == "DK"@,
        region_from("no"@, 0) == "NO"@,
{
    lemma_code_numbers();
    reveal_with_fuel(region_from, 76);
}

proof fn lemma_regions_of_4()
    ensures
        region_from("nb"@, 0) == "NO"@,
        region_from("nn"@, 0) == "NO"@,
        region_from("fi"@, 0) == "FI"@,
        region_from("cs"@, 0) == "CZ"@,
        region_from("sk"@, 0) == "SK"@,
        region_from("hu"@, 0) == "HU"@,
        region_from("ro"@, 0) == "RO"@,
        region_from("bg"@, 0) == "BG"@,
        region_from("el"@, 0) == "GR"@,
        region_from("sr"@, 0) == "RS"@,
        region_from("hr"@, 0) == "HR"@,
        region_from("sl"@, 0) == "SI"@,
        region_from("lt"@, 0) == "LT"@,
        region_from("lv"@, 0) == "LV"@,
        region_from("et"@, 0) == "EE"@,
{
    lemma_code_numbers();
    reveal_with_fuel(region_from, 76);
}

proof fn lemma_regions_of_5()
    ensures
        region_from("ka"@, 0) == "GE"@,
        region_from("hy"@, 0) == "AM"@,
        region_from("az"@, 0) == "AZ"@,
        region_from("kk"@, 0) == "KZ"@,
        region_from("uz"@, 0) == "UZ"@,
        region_from("mn"@, 0) == "MN"@,
        region_from("sw"@, 0) == "KE"@,
        region_from("am"@, 0) == "ET"@,
        region_from("af"@, 0) == "ZA"@,
        region_from("ha"@, 0) == "NG"@,
        region_from("yo"@, 0) == "NG"@,
        region_from("ig"@, 0) == "NG"@,
        region_from("is"@, 0) == "IS"@,
        region_from("ga"@, 0) == "IE"@,
        region_from("ca"@, 0) == "ES"@,
{
    lemma_code_numbers();
    reveal_with_fuel(region_from, 76);
}

proof fn lemma_scripts_of_1()
    ensures
        script_name("ja"@, 0) == Some("japanese"@),
        script_name("zh"@, 0) == Some("chinese"@),
        script_name("yue"@, 0) == Some("chinese"@),
        script_name("wuu"@, 0) == Some("chinese"@),
        script_name("ko"@, 0) == Some("korean"@),
        script_name("ar"@, 0) == Some("arabic"@),
        script_name("fa"@, 0) == Some("arabic"@),
        script_name("ur"@, 0) == Some("arabic"@),
        script_name("ps"@, 0) == Some("arabic"@),
        script_name("ckb"@, 0) == Some("arabic"@),
        script_name("ug"@, 0) == Some("arabic"@),
        script_name("sd"@, 0) == Some("arabic"@),
        script_name("dv"@, 0) == Some("arabic"@),
        script_name("ru"@, 0) == Some("cyrillic"@),
{
    lemma_code_numbers();
    reveal_with_fuel(script_name, 56);
}

proof fn lemma_scripts_of_2()
    ensures
        script_name("uk"@, 0) == Some("cyrillic"@),
        script_name("bg"@, 0) == Some("cyrillic"@),
        script_name("sr"@, 0) == Some("cyrillic"@),
        script_name("mk"@, 0) == Some("cyrillic"@),
        script_name("be"@, 0) == Some("cyrillic"@),
        script_name("kk"@, 0) == Some("cyrillic"@),
        script_name("ky"@, 0) == Some("cyrillic"@),
        script_name("tg"@, 0) == Some("cyrillic"@),
        script_name("mn"@, 0) == Some("cyrillic"@),
        script_name("tt"@, 0) == Some("cyrillic"@),
        script_name("ba"@, 0) == Some("cyrillic"@),
        script_name("cv"@, 0) == Some("cyrillic"@),
        script_name("hi"@, 0) == Some("devanagari"@),
        script_name("mr"@, 0) == Some("devanagari"@),
{
    lemma_code_numbers();
    reveal_with_fuel(script_name, 56);
}

proof fn lemma_scripts_of_3()
    ensures
        script_name("ne"@, 0) == Some("devanagari"@),
        script_name("sa"@, 0) == Some("devanagari"@),
        script_name("kok"@, 0) == Some("devanagari"@),
        script_name("mai"@, 0) == Some("devanagari"@),
        script_name("bho"@, 0) == Some("devanagari"@),
        script_name("bn"@, 0) == Some("bengali"@),
        script_name("as"@, 0) == Some("bengali"@),
        script_name("th"@, 0) == Some("thai"@),
        script_name("he"@, 0) == Some("hebrew"@),
        script_name("yi"@, 0) == Some("hebrew"@),
        script_name("el"@, 0) == Some("greek"@),
        script_name("pa"@, 0) == Some("gurmukhi"@),
        script_name("gu"@, 0) == Some("gujarati"@),
        script_name("ta"@, 0) == Some("tamil"@),
{
    lemma_code_numbers();
    reveal_with_fuel(script_name, 56);
}

proof fn lemma_scripts_of_4()
    ensures
        script_name("te"@, 0) == Some("telugu"@),
        script_name("kn"@, 0) == Some("kannada"@),
        script_name("ml"@, 0) == Some("malayalam"@),
        script_name("si"@, 0) == Some("sinhala"@),
        script_name("lo"@, 0) == Some("lao"@),
        script_name("my"@, 0) == Some("myanmar"@),
        script_name("km"@, 0) == Some("khmer"@),
        script_name("ka"@, 0) == Some("georgian"@),
        script_name("hy"@, 0) == Some("armenian"@),
        script_name("am"@, 0) == Some("ethiopic"@),
        script_name("ti"@, 0) == Some("ethiopic"@),
        script_name("bo"@, 0) == Some("tibetan"@),
        script_name("dz"@, 0) == Some("tibetan"@),
{
    lemma_code_numbers();
    reveal_with_fuel(script_name, 56);
}

/// Each language is looked for in a region where it is spoken, unless another is given.
pub proof fn law_regions_of_languages()
    ensures
        region_of("ja"@) == "JP"@,
        region_of("en"@) == "US"@,
        region_of("zh-Hans"@) == "CN"@,
        region_of("zh-Hant"@) == "TW"@,
        region_of("ko"@) == "KR"@,
        region_of("es"@) == "ES"@,
        region_of("pt-BR"@) == "BR"@,
        region_of("pt-PT"@) == "PT"@,
        region_of("fr"@) == "FR"@,
        region_of("de"@) == "DE"@,
        region_of("it"@) == "IT"@,
        region_of("ru"@) == "RU"@,
        region_of("uk"@) == "UA"@,
        region_of("ar"@) == "SA"@,
        region_of("he"@) == "IL"@,
        region_of("fa"@) == "IR"@,
        region_of("tr"@) == "TR"@,
        region_of("hi"@) == "IN"@,
        region_of("bn"@) == "BD"@,
        region_of("ur"@) == "PK"@,
        region_of("pa"@) == "IN"@,
        region_of("gu"@) == "IN"@,
        region_of("mr"@) == "IN"@,
        region_of("ta"@) == "IN"@,
        region_of("te"@) == "IN"@,
        region_of("kn"@) == "IN"@,
        region_of("ml"@) == "IN"@,
        region_of("or"@) == "IN"@,
        region_of("as"@) == "IN"@,
        region_of("ne"@) == "NP"@,
        region_of("si"@) == "LK"@,
        region_of("th"@) == "TH"@,
        region_of("lo"@) == "LA"@,
        region_of("km"@) == "KH"@,
        region_of("my"@) == "MM"@,
        region_of("vi"@) == "VN"@,
        region_of("id"@) == "ID"@,
        region_of("ms"@) == "MY"@,
        region_of("fil"@) == "PH"@,
        region_of("tl"@) == "PH"@,
        region_of("pl"@) == "PL"@,
        region_of("nl"@) == "NL"@,
        region_of("sv"@) == "SE"@,
        region_of("da"@) == "DK"@,
        region_of("no"@) == "NO"@,
        region_of("nb"@) == "NO"@,
        region_of("nn"@) == "NO"@,
        region_of("fi"@) == "FI"@,
        region_of("cs"@) == "CZ"@,
        region_of("sk"@) == "SK"@,
        region_of("hu"@) == "HU"@,
        region_of("ro"@) == "RO"@,
        region_of("bg"@) == "BG"@,
        region_of("el"@) == "GR"@,
        region_of("sr"@) == "RS"@,
        region_of("hr"@) == "HR"@,
        region_of("sl"@) == "SI"@,
        region_of("lt"@) == "LT"@,
        region_of("lv"@) == "LV"@,
        region_of("et"@) == "EE"@,
        region_of("ka"@) == "GE"@,
        region_of("hy"@) == "AM"@,
        region_of("az"@) == "AZ"@,
        region_of("kk"@) == "KZ"@,
        region_of("uz"@) == "UZ"@,
        region_of("mn"@) == "MN"@,
        region_of("sw"@) == "KE"@,
        region_of("am"@) == "ET"@,
        region_of("af"@) == "ZA"@,
        region_of("ha"@) == "NG"@,
        region_of("yo"@) == "NG"@,
        region_of("ig"@) == "NG"@,
        region_of("is"@) == "IS"@,
        region_of("ga"@) == "IE"@,
        region_of("ca"@) == "ES"@,
{
    lemma_regions_of_1();
    lemma_regions_of_2();
    lemma_regions_of_3();
    lemma_regions_of_4();
    lemma_regions_of_5();
}

/// A number by which the names of the scripts differ: of their length, their first and third characters
/// and their last one.
spec fn name_number(s: Seq<char>) -> int {
    s.len() * 1_000_000_000 + s[0] as int * 1_000_000 + s[2] as int * 1_000 + s.last() as int
}

proof fn lemma_name_numbers()
    ensures
        name_number("arabic"@) == 6097097099,
        name_number("armenian"@) == 8097109110,
        name_number("bengali"@) == 7098110105,
        name_number("chinese"@) == 7099105101,
        name_number("cyrillic"@) == 8099114099,
        name_number("devanagari"@) == 10100118105,
        name_number("ethiopic"@) == 8101104099,
        name_number("georgian"@) == 8103111110,
        name_number("greek"@) == 5103101107,
        name_number("gujarati"@) == 8103106105,
        name_number("gurmukhi"@) == 8103114105,
        name_number("hebrew"@) == 6104098119,
        name_number("japanese"@) == 8106112101,
        name_number("kannada"@) == 7107110097,
        name_number("khmer"@) == 5107109114,
        name_number("korean"@) == 6107114110,
        name_number("lao"@) == 3108111111,
        name_number("malayalam"@) == 9109108109,
        name_number("myanmar"@) == 7109097114,
        name_number("sinhala"@) == 7115110097,
        name_number("tamil"@) == 5116109108,
        name_number("telugu"@) == 6116108117,
        name_number("thai"@) == 4116097105,
        name_number("tibetan"@) == 7116098110,
{
    reveal_strlit("arabic");
    reveal_strlit("armenian");
    reveal_strlit("bengali");
    reveal_strlit("chinese");
    reveal_strlit("cyrillic");
    reveal_strlit("devanagari");
    reveal_strlit("ethiopic");
    reveal_strlit("georgian");
    reveal_strlit("greek");
    reveal_strlit("gujarati");
    reveal_strlit("gurmukhi");
    reveal_strlit("hebrew");
    reveal_strlit("japanese");
    reveal_strlit("kannada");
    reveal_strlit("khmer");
    reveal_strlit("korean");
    reveal_strlit("lao");
    reveal_strlit("malayalam");
    reveal_strlit("myanmar");
    reveal_strlit("sinhala");
    reveal_strlit("tamil");
    reveal_strlit("telugu");
    reveal_strlit("thai");
    reveal_strlit("tibetan");
}

proof fn lemma_scripts_by_name()
    ensures
        named_script("arabic"@) == ScriptView::Arabic,
        named_script("armenian"@) == ScriptView::Other("armenian"@),
        named_script("bengali"@) == ScriptView::Bengali,
        named_script("chinese"@) == ScriptView::Chinese,
        named_script("cyrillic"@) == ScriptView::Cyrillic,
        named_script("devanagari"@) == ScriptView::Devanagari,
        named_script("ethiopic"@) == ScriptView::Other("ethiopic"@),
        named_script("georgian"@) == ScriptView::Other("georgian"@),
        named_script("greek"@) == ScriptView::Greek,
        named_script("gujarati"@) == ScriptView::Other("gujarati"@),
        named_script("gurmukhi"@) == ScriptView::Other("gurmukhi"@),
        named_script("hebrew"@) == ScriptView::Hebrew,
        named_script("japanese"@) == ScriptView::Japanese,
        named_script("kannada"@) == ScriptView::Other("kannada"@),
        named_script("khmer"@) == ScriptView::Other("khmer"@),
        named_script("korean"@) == ScriptView::Korean,
        named_script("lao"@) == ScriptView::Other("lao"@),
        named_script("malayalam"@) == ScriptView::Other("malayalam"@),
        named_script("myanmar"@) == ScriptView::Other("myanmar"@),
        named_script("sinhala"@) == ScriptView::Other("sinhala"@),
        named_script("tamil"@) == ScriptView::Other("tamil"@),
        named_script("telugu"@) == ScriptView::Other("telugu"@),
        named_script("thai"@) == ScriptView::Thai,
        named_script("tibetan"@) == ScriptView::Other("tibetan"@),
{
    lemma_name_numbers();
}

/// Each language that is not written in a script like the Latin has its own.
pub proof fn law_scripts_of_languages()
    ensures
        language_script("ja"@) == ScriptView::Japanese,
        language_script("zh"@) == ScriptView::Chinese,
        language_script("yue"@) == ScriptView::Chinese,
        language_script("wuu"@) == ScriptView::Chinese,
        language_script("ko"@) == ScriptView::Korean,
        language_script("ar"@) == ScriptView::Arabic,
        language_script("fa"@) == ScriptView::Arabic,
        language_script("ur"@) == ScriptView::Arabic,
        language_script("ps"@) == ScriptView::Arabic,
        language_script("ckb"@) == ScriptView::Arabic,
        language_script("ug"@) == ScriptView::Arabic,
        language_script("sd"@) == ScriptView::Arabic,
        language_script("dv"@) == ScriptView::Arabic,
        language_script("ru"@) == ScriptView::Cyrillic,
        language_script("uk"@) == ScriptView::Cyrillic,
        language_script("bg"@) == ScriptView::Cyrillic,
        language_script("sr"@) == ScriptView::Cyrillic,
        language_script("mk"@) == ScriptView::Cyrillic,
        language_script("be"@) == ScriptView::Cyrillic,
        language_script("kk"@) == ScriptView::Cyrillic,
        language_script("ky"@) == ScriptView::Cyrillic,
        language_script("tg"@) == ScriptView::Cyrillic,
        language_script("mn"@) == ScriptView::Cyrillic,
        language_script("tt"@) == ScriptView::Cyrillic,
        language_script("ba"@) == ScriptView::Cyrillic,
        language_script("cv"@) == ScriptView::Cyrillic,
        language_script("hi"@) == ScriptView::Devanagari,
        language_script("mr"@) == ScriptView::Devanagari,
        language_script("ne"@) == ScriptView::Devanagari,
        language_script("sa"@) == ScriptView::Devanagari,
        language_script("kok"@) == ScriptView::Devanagari,
        language_script("mai"@) == ScriptView::Devanagari,
        language_script("bho"@) == ScriptView::Devanagari,
        language_script("bn"@) == ScriptView::Bengali,
        language_script("as"@) == ScriptView::Bengali,
        language_script("th"@) == ScriptView::Thai,
        language_script("he"@) == ScriptView::Hebrew,
        language_script("yi"@) == ScriptView::Hebrew,
        language_script("el"@) == ScriptView::Greek,
        language_script("pa"@) == ScriptView::Other("gurmukhi"@),
        language_script("gu"@) == ScriptView::Other("gujarati"@),
        language_script("ta"@) == ScriptView::Other("tamil"@),
        language_script("te"@) == ScriptView::Other("telugu"@),
        language_script("kn"@) == ScriptView::Other("kannada"@),
        language_script("ml"@) == ScriptView::Other("malayalam"@),
        language_script("si"@) == ScriptView::Other("sinhala"@),
        language_script("lo"@) == ScriptView::Other("lao"@),
        language_script("my"@) == ScriptView::Other("myanmar"@),
        language_script("km"@) == ScriptView::Other("khmer"@),
        language_script("ka"@) == ScriptView::Other("georgian"@),
        language_script("hy"@) == ScriptView::Other("armenian"@),
        language_script("am"@) == ScriptView::Other("ethiopic"@),
        language_script("ti"@) == ScriptView::Other("ethiopic"@),
        language_script("bo"@) == ScriptView::Other("tibetan"@),
        language_script("dz"@) == ScriptView::Other("tibetan"@),
{
    lemma_scripts_by_name();
    lemma_scripts_of_1();
    lemma_scripts_of_2();
    lemma_scripts_of_3();
    lemma_scripts_of_4();
}

/// Contracts speak of the whole of a language, of its script and of a share.
pub proof fn law_languages_are_seen_whole(
    l: Lang,
    s: Script,
    v: Seq<&'static str>,
    share: Option<Share>,
)
    ensures
        l@.code == l.code@ && l@.hl == l.hl@ && l@.gl == l.gl@ && l@.script == l.script@,
        s is Latin <==> s@ is Latin,
        s is Japanese <==> s@ is Japanese,
        s is Chinese <==> s@ is Chinese,
        s is Korean <==> s@ is Korean,
        s is Arabic <==> s@ is Arabic,
        s is Cyrillic <==> s@ is Cyrillic,
        s is Devanagari <==> s@ is Devanagari,
        s is Bengali <==> s@ is Bengali,
        s is Thai <==> s@ is Thai,
        s is Hebrew <==> s@ is Hebrew,
        s is Greek <==> s@ is Greek,
        s matches Script::Other(name) ==> s@ == ScriptView::Other(name@),
        str_texts(v).len() == v.len(),
        forall|i: int| 0 <= i < v.len() ==> #[trigger] str_texts(v)[i] == v[i]@,
        share is None <==> opt_share(share) is None,
        share matches Some(x) ==> opt_share(share) == Some((x.hit as nat, x.total as nat)),
{
}

} // verus!
