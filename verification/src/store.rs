//! Settings and history in a database, as texts that survive its simple reading of statements.
//!
//! The database cuts the values of a statement at every comma. Texts are therefore kept in base64,
//! which holds none.

use base64::engine::general_purpose::STANDARD;
use base64::Engine;
use vstd::prelude::*;
use vstd::utf8;

use crate::engine::{self, EngineDef, EngineView};
use crate::text::{self, chars_of, decimal_of, string_of, trimmed, utf8_text};

verus! {

// ---------------------------------------------------------------------------
// Base64
// ---------------------------------------------------------------------------

/// The character of base64 for six bits.
pub open spec fn symbol(n: int) -> char {
    if n < 26 {
        (65 + n) as char
    } else if n < 52 {
        (71 + n) as char
    } else if n < 62 {
        (n - 4) as char
    } else if n == 62 {
        '+'
    } else {
        '/'
    }
}

/// A byte of a sequence, and zero beyond its end.
pub open spec fn byte_or_zero(b: Seq<u8>, i: int) -> int {
    if i < b.len() {
        b[i] as int
    } else {
        0
    }
}

/// The six bits number `k` of some bytes: three bytes make four of them.
pub open spec fn six_of(b: Seq<u8>, k: int) -> int {
    let j = k / 4 * 3;
    if k % 4 == 0 {
        byte_or_zero(b, j) / 4
    } else if k % 4 == 1 {
        byte_or_zero(b, j) % 4 * 16 + byte_or_zero(b, j + 1) / 16
    } else if k % 4 == 2 {
        byte_or_zero(b, j + 1) % 16 * 4 + byte_or_zero(b, j + 2) / 64
    } else {
        byte_or_zero(b, j + 2) % 64
    }
}

/// How many characters of base64 some bytes take.
pub open spec fn base64_len(n: nat) -> nat {
    ((n + 2) / 3 * 4) as nat
}

/// Bytes in base64: a character for each six bits, and `=` up to a multiple of four characters.
pub open spec fn base64_of(b: Seq<u8>) -> Seq<char> {
    Seq::new(
        base64_len(b.len()),
        |k: int|
            if k * 6 < b.len() * 8 {
                symbol(six_of(b, k))
            } else {
                '='
            },
    )
}

/// `Engine::encode` of the crate `base64`, with its engine `STANDARD`: the bytes in base64, with the
/// alphabet of RFC 4648 that has `+` and `/`, padded with `=`. The characters must fit into memory.
#[verifier::external_body]
fn base64_text(bytes: &[u8]) -> (r: String)
    requires
        base64_len(bytes@.len()) <= isize::MAX,
    ensures
        r@ == base64_of(bytes@),
{
    STANDARD.encode(bytes)
}

/// The words in which `base64` says what is wrong with a text that is no base64.
pub uninterp spec fn base64_fault(s: Seq<char>) -> Seq<char>;

/// `Engine::decode` of the crate `base64`, with its engine `STANDARD`: the bytes of which the text is
/// the base64, padding and unused bits included; else its error in words. Of these the contract says
/// only that they depend on the text alone.
#[verifier::external_body]
fn base64_bytes(s: &str) -> (r: Result<Vec<u8>, String>)
    ensures
        match r {
            Ok(b) => s@ == base64_of(b@),
            Err(e) => e@ == base64_fault(s@) && forall|b: Seq<u8>| s@ != #[trigger] base64_of(b),
        },
{
    STANDARD.decode(s).map_err(|e| e.to_string())
}

proof fn lemma_symbol(m: int, n: int)
    requires
        0 <= m < 64,
        0 <= n < 64,
        symbol(m) == symbol(n),
    ensures
        m == n,
        symbol(m) != '=',
{
}

proof fn lemma_six_range(b: Seq<u8>, k: int)
    requires
        0 <= k,
    ensures
        0 <= six_of(b, k) < 64,
{
    let j = k / 4 * 3;
    assert(0 <= byte_or_zero(b, j) < 256);
    assert(0 <= byte_or_zero(b, j + 1) < 256);
    assert(0 <= byte_or_zero(b, j + 2) < 256);
}

proof fn lemma_base64_char(b: Seq<u8>, k: int)
    ensures
        base64_of(b).len() == base64_len(b.len()),
        0 <= k < base64_len(b.len()) ==> base64_of(b)[k] == if k * 6 < b.len() * 8 {
            symbol(six_of(b, k))
        } else {
            '='
        },
{
}

proof fn lemma_same_char(a: Seq<u8>, b: Seq<u8>, k: int)
    requires
        base64_of(a) == base64_of(b),
        0 <= k < base64_len(a.len()),
    ensures
        k * 6 < a.len() * 8 <==> k * 6 < b.len() * 8,
        k * 6 < a.len() * 8 ==> six_of(a, k) == six_of(b, k),
{
    lemma_six_range(a, k);
    lemma_six_range(b, k);
    lemma_base64_char(a, k);
    lemma_base64_char(b, k);
    lemma_symbol(six_of(a, k), six_of(a, k));
    lemma_symbol(six_of(b, k), six_of(b, k));
    if k * 6 < a.len() * 8 && k * 6 < b.len() * 8 {
        lemma_symbol(six_of(a, k), six_of(b, k));
    }
}

/// Different bytes have a different base64.
pub proof fn law_base64_is_unambiguous(a: Seq<u8>, b: Seq<u8>)
    requires
        base64_of(a) == base64_of(b),
    ensures
        a == b,
{
    lemma_base64_char(a, 0);
    lemma_base64_char(b, 0);
    let n = base64_len(a.len()) as int;
    assert(n == base64_len(b.len()));
    let q = n / 4;
    assert(3 * q - 2 <= a.len() <= 3 * q);
    assert(3 * q - 2 <= b.len() <= 3 * q);
    if q > 0 {
        lemma_same_char(a, b, n - 1);
        lemma_same_char(a, b, n - 2);
    }
    assert(a.len() == b.len());
    assert forall|i: int| 0 <= i < a.len() implies a[i] == b[i] by {
        let q = i / 3;
        assert(0 <= 4 * q && 4 * q + 3 < n);
        lemma_same_char(a, b, 4 * q);
        lemma_same_char(a, b, 4 * q + 1);
        lemma_same_char(a, b, 4 * q + 2);
        lemma_same_char(a, b, 4 * q + 3);
        assert((4 * q) / 4 == q && (4 * q + 1) / 4 == q && (4 * q + 2) / 4 == q && (4 * q + 3) / 4
            == q);
        if i % 3 == 0 {
            assert(byte_or_zero(a, 3 * q) == byte_or_zero(b, 3 * q));
        } else if i % 3 == 1 {
            assert(byte_or_zero(a, 3 * q) == byte_or_zero(b, 3 * q));
            assert(byte_or_zero(a, 3 * q + 1) == byte_or_zero(b, 3 * q + 1));
        } else {
            assert(byte_or_zero(a, 3 * q + 1) == byte_or_zero(b, 3 * q + 1));
            assert(byte_or_zero(a, 3 * q + 2) == byte_or_zero(b, 3 * q + 2));
        }
    }
    assert(a =~= b);
}

// ---------------------------------------------------------------------------
// Stored texts
// ---------------------------------------------------------------------------

/// A text as it is stored.
pub open spec fn stored(s: Seq<char>) -> Seq<char> {
    base64_of(utf8::encode_utf8(s))
}

/// Whether the stored form of a text fits into memory.
pub open spec fn storable(s: Seq<char>) -> bool {
    base64_len(utf8::encode_utf8(s).len()) <= isize::MAX
}

/// A text as it is stored.
pub fn enc(s: &str) -> (r: String)
    requires
        storable(s@),
    ensures
        r@ == stored(s@),
{
    base64_text(s.as_bytes())
}

/// Why a stored text cannot be read.
#[derive(Clone, Debug, PartialEq, Eq)]
pub enum StoreError {
    /// It is no base64, for the reason given.
    NotBase64(String),
    /// It is no text, for the reason given.
    NotText(String),
}

pub enum StoreFault {
    NotBase64(Seq<char>),
    NotText(Seq<char>),
}

impl View for StoreError {
    type V = StoreFault;

    open spec fn view(&self) -> StoreFault {
        match *self {
            StoreError::NotBase64(e) => StoreFault::NotBase64(e@),
            StoreError::NotText(e) => StoreFault::NotText(e@),
        }
    }
}

pub open spec fn store_fault_text(f: StoreFault) -> Seq<char> {
    match f {
        StoreFault::NotBase64(e) => "保存された値を復号できません: "@ + e,
        StoreFault::NotText(e) => "保存された値が UTF-8 ではありません: "@ + e,
    }
}

impl StoreError {
    /// The error in words.
    pub fn message(&self) -> (r: String)
        ensures
            r@ == store_fault_text(self@),
    {
        match self {
            StoreError::NotBase64(e) => {
                let s = "保存された値を復号できません: ".to_string();
                s.concat(e.as_str())
            },
            StoreError::NotText(e) => {
                let s = "保存された値が UTF-8 ではありません: ".to_string();
                s.concat(e.as_str())
            },
        }
    }
}

/// Whether reading a stored value gives this result: the text whose base64 the value is, without the
/// white space around it; an error where it is the base64 of something else, or none.
pub open spec fn reads_as(value: Seq<char>, r: Result<Seq<char>, StoreFault>) -> bool {
    let s = text::trim(value);
    match r {
        Ok(t) => exists|b: Seq<u8>|
            s == #[trigger] base64_of(b) && utf8::valid_utf8(b) && t == utf8::decode_utf8(b),
        Err(StoreFault::NotText(e)) => exists|b: Seq<u8>|
            s == #[trigger] base64_of(b) && !utf8::valid_utf8(b) && e == text::utf8_fault(b),
        Err(StoreFault::NotBase64(e)) => e == base64_fault(s) && forall|b: Seq<u8>|
            s != #[trigger] base64_of(b),
    }
}

pub open spec fn store_result(r: Result<String, StoreError>) -> Result<Seq<char>, StoreFault> {
    match r {
        Ok(s) => Ok(s@),
        Err(e) => Err(e@),
    }
}

/// The text that a stored value holds.
pub fn dec(s: &str) -> (r: Result<String, StoreError>)
    ensures
        reads_as(s@, store_result(r)),
{
    let value = string_of(&trimmed(&chars_of(s)));
    match base64_bytes(value.as_str()) {
        Err(e) => Err(StoreError::NotBase64(e)),
        Ok(b) => {
            let ghost bytes = b@;
            assert(value@ == base64_of(bytes));
            match utf8_text(b) {
                Ok(t) => Ok(t),
                Err(e) => Err(StoreError::NotText(e)),
            }
        },
    }
}

/// Whether a stored value is a text.
pub open spec fn readable(value: Seq<char>) -> bool {
    exists|t: Seq<char>| #[trigger] reads_as(value, Ok(t))
}

/// Whether an error is that of the first value that is no text.
pub open spec fn first_error(values: Seq<Seq<char>>, e: StoreFault) -> bool {
    exists|i: int|
        0 <= i < values.len() && reads_as(#[trigger] values[i], Err(e)) && forall|k: int|
            0 <= k < i ==> readable(#[trigger] values[k])
}

/// The values of some rows as texts, and the first error there is instead.
pub fn dec_all(values: &Vec<String>) -> (r: Result<Vec<String>, StoreError>)
    ensures
        match r {
            Ok(v) => v@.len() == values@.len() && forall|i: int|
                0 <= i < v@.len() ==> reads_as(values@[i]@, Ok(#[trigger] v@[i]@)),
            Err(e) => first_error(text::texts(values@), e@),
        },
{
    let mut out: Vec<String> = Vec::new();
    for i in 0..values.len()
        invariant
            out@.len() == i,
            forall|k: int| 0 <= k < i ==> reads_as(values@[k]@, Ok(#[trigger] out@[k]@)),
    {
        match dec(values[i].as_str()) {
            Ok(t) => {
                out.push(t);
            },
            Err(e) => {
                let ghost all = text::texts(values@);
                assert forall|k: int| 0 <= k < i implies readable(#[trigger] all[k]) by {
                    assert(reads_as(all[k], Ok::<Seq<char>, StoreFault>(out@[k]@)));
                }
                assert(reads_as(all[i as int], Err(e@)));
                return Err(e);
            },
        }
    }
    Ok(out)
}

/// Those of the definitions that can be used, in their order.
pub open spec fn usable_ones(v: Seq<EngineView>) -> Seq<EngineView>
    decreases v.len(),
{
    if v.len() == 0 {
        Seq::empty()
    } else if engine::usable(v.last()) {
        usable_ones(v.drop_last()).push(v.last())
    } else {
        usable_ones(v.drop_last())
    }
}

/// Those of the definitions that can be used.
pub fn keep_usable(engines: &Vec<EngineDef>) -> (r: Vec<EngineDef>)
    ensures
        engine::engine_views(r@) == usable_ones(engine::engine_views(engines@)),
{
    let mut out: Vec<EngineDef> = Vec::new();
    let ghost all = engine::engine_views(engines@);
    assert(engine::engine_views(out@) =~= usable_ones(all.take(0)));
    for i in 0..engines.len()
        invariant
            all == engine::engine_views(engines@),
            engine::engine_views(out@) == usable_ones(all.take(i as int)),
    {
        assert(all.take(i + 1).drop_last() == all.take(i as int));
        assert(all.take(i + 1).last() == engines@[i as int]@);
        if engines[i].validate().is_ok() {
            let ghost prev = out@;
            let e = engines[i].copy();
            out.push(e);
            assert(engine::engine_views(out@) =~= engine::engine_views(prev).push(e@));
        }
    }
    assert(all.take(engines@.len() as int) == all);
    out
}

/// A definition as a row of its table: its id, its JSON as it is stored, and the time.
pub struct EngineRow {
    pub id: String,
    pub json: String,
    pub updated_unix: String,
}

/// The row that stores a definition, given as JSON, at a time.
pub fn engine_row(id: &str, json: &str, now_unix: u64) -> (r: EngineRow)
    requires
        storable(json@),
    ensures
        r.id@ == id@,
        r.json@ == stored(json@),
        r.updated_unix@ == text::decimal(now_unix as nat),
{
    EngineRow {
        id: id.to_string(),
        json: enc(json),
        updated_unix: string_of(&decimal_of(now_unix)),
    }
}

/// An event in the upkeep of an engine as a row of its table: the time, and the rest as it is stored.
pub struct EventRow {
    pub unix: String,
    pub engine: String,
    pub outcome: String,
    pub detail: String,
}

/// The row that stores an event.
pub fn event_row(now_unix: u64, engine: &str, outcome: &str, detail: &str) -> (r: EventRow)
    requires
        storable(engine@),
        storable(outcome@),
        storable(detail@),
    ensures
        r.unix@ == text::decimal(now_unix as nat),
        r.engine@ == stored(engine@),
        r.outcome@ == stored(outcome@),
        r.detail@ == stored(detail@),
{
    EventRow {
        unix: string_of(&decimal_of(now_unix)),
        engine: enc(engine),
        outcome: enc(outcome),
        detail: enc(detail),
    }
}

// ---------------------------------------------------------------------------
// Laws
// ---------------------------------------------------------------------------

/// The characters that a stored text is made of: none that ends a value in a statement.
pub open spec fn is_stored_char(c: char) -> bool {
    text::is_alphanumeric(c) || c == '+' || c == '/' || c == '='
}

/// Whatever a text holds, its stored form holds only letters, digits, `+`, `/` and `=`: no comma, no
/// quotation mark, no white space.
pub proof fn law_stored_texts_are_plain(s: Seq<char>)
    ensures
        forall|i: int| 0 <= i < stored(s).len() ==> is_stored_char(#[trigger] stored(s)[i]),
{
    let b = utf8::encode_utf8(s);
    assert forall|i: int| 0 <= i < stored(s).len() implies is_stored_char(
        #[trigger] stored(s)[i],
    ) by {
        lemma_six_range(b, i);
    }
}

/// What is stored is read back: a value that was stored for a text reads as that text, and as nothing
/// else.
pub proof fn law_stored_texts_are_read_back(s: Seq<char>, r: Result<Seq<char>, StoreFault>)
    ensures
        reads_as(stored(s), r) <==> r == Ok::<Seq<char>, StoreFault>(s),
{
    let value = stored(s);
    let bytes = utf8::encode_utf8(s);
    law_stored_texts_are_plain(s);
    if value.len() > 0 {
        assert(is_stored_char(value[0]));
        assert(is_stored_char(value.last()));
    }
    assert(text::trim(value) == value);
    utf8::encode_utf8_valid_utf8(s);
    utf8::encode_utf8_decode_utf8(s);
    assert(value == base64_of(bytes));
    if reads_as(value, r) {
        match r {
            Ok(t) => {
                let b = choose|b: Seq<u8>|
                    value == #[trigger] base64_of(b) && utf8::valid_utf8(b) && t
                        == utf8::decode_utf8(b);
                law_base64_is_unambiguous(b, bytes);
            },
            Err(StoreFault::NotText(e)) => {
                let b = choose|b: Seq<u8>|
                    value == #[trigger] base64_of(b) && !utf8::valid_utf8(b) && e
                        == text::utf8_fault(b);
                law_base64_is_unambiguous(b, bytes);
            },
            Err(StoreFault::NotBase64(_)) => {},
        }
    }
}

/// What is read of a stored value does not depend on anything but the value.
pub proof fn law_stored_values_read_one_way(
    value: Seq<char>,
    r1: Result<Seq<char>, StoreFault>,
    r2: Result<Seq<char>, StoreFault>,
)
    requires
        reads_as(value, r1),
        reads_as(value, r2),
    ensures
        r1 == r2,
{
    let s = text::trim(value);
    if exists|b: Seq<u8>| s == #[trigger] base64_of(b) {
        let b = choose|b: Seq<u8>| s == #[trigger] base64_of(b);
        assert forall|c: Seq<u8>| s == #[trigger] base64_of(c) implies c == b by {
            law_base64_is_unambiguous(c, b);
        }
    }
}

/// Of the definitions that are stored those that can be used are kept, each as it is and in their order.
pub proof fn law_usable_definitions_are_kept(v: Seq<EngineView>)
    ensures
        usable_ones(v) == v.filter(|e: EngineView| engine::usable(e)),
    decreases v.len(),
{
    reveal(Seq::filter);
    if v.len() > 0 {
        law_usable_definitions_are_kept(v.drop_last());
    } else {
        assert(usable_ones(v) =~= v.filter(|e: EngineView| engine::usable(e)));
    }
}

/// What is said of a value that cannot be read holds the whole reason.
pub proof fn law_unreadable_values_are_told(why: Seq<char>)
    ensures
        text::ends_with(store_fault_text(StoreFault::NotBase64(why)), why),
        text::ends_with(store_fault_text(StoreFault::NotText(why)), why),
{
    text::law_occurring("保存された値を復号できません: "@, why, Seq::empty());
    text::law_occurring("保存された値が UTF-8 ではありません: "@, why, Seq::empty());
}

/// Contracts speak of the whole of what is read.
pub proof fn law_stored_values_are_seen_whole(r: Result<String, StoreError>)
    ensures
        r matches Ok(s) ==> store_result(r) == Ok::<Seq<char>, StoreFault>(s@),
        r matches Err(StoreError::NotBase64(e)) ==> store_result(r) == Err::<Seq<char>, StoreFault>(
            StoreFault::NotBase64(e@),
        ),
        r matches Err(StoreError::NotText(e)) ==> store_result(r) == Err::<Seq<char>, StoreFault>(
            StoreFault::NotText(e@),
        ),
{
}

} // verus!
