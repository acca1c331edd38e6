//! JSON: objects, read one level deep, and texts, written.

use serde_json::Value;
use vstd::prelude::*;

use crate::text::same;

verus! {

/// The value of a field.
pub enum JsonValue {
    Null,
    Bool(bool),
    /// A number: its value where that is a whole number from 0 to 2^64 - 1.
    Number(Option<u64>),
    Text(String),
    /// An array or an object, as JSON text.
    Nested(String),
}

pub enum JsonView {
    Null,
    Bool(bool),
    Number(Option<u64>),
    Text(Seq<char>),
    Nested(Seq<char>),
}

impl View for JsonValue {
    type V = JsonView;

    open spec fn view(&self) -> JsonView {
        match *self {
            JsonValue::Null => JsonView::Null,
            JsonValue::Bool(b) => JsonView::Bool(b),
            JsonValue::Number(n) => JsonView::Number(n),
            JsonValue::Text(s) => JsonView::Text(s@),
            JsonValue::Nested(s) => JsonView::Nested(s@),
        }
    }
}

pub type FieldsView = Seq<(Seq<char>, JsonView)>;

pub open spec fn field_views(v: Seq<(String, JsonValue)>) -> FieldsView {
    v.map_values(|f: (String, JsonValue)| (f.0@, f.1@))
}

/// A JSON value as its fields; one that is no object has none.
pub struct Json {
    pub fields: Vec<(String, JsonValue)>,
}

impl View for Json {
    type V = FieldsView;

    open spec fn view(&self) -> FieldsView {
        field_views(self.fields@)
    }
}

pub open spec fn json_result(x: Result<Json, String>) -> Result<FieldsView, Seq<char>> {
    match x {
        Ok(j) => Ok(j@),
        Err(e) => Err(e@),
    }
}

pub open spec fn fields_result(x: Result<Vec<(String, JsonValue)>, String>) -> Result<
    FieldsView,
    Seq<char>,
> {
    match x {
        Ok(v) => Ok(field_views(v@)),
        Err(e) => Err(e@),
    }
}

/// The fields of the JSON value that some bytes write, or the words of the error where they write
/// none.
pub uninterp spec fn json_fields(bytes: Seq<u8>) -> Result<FieldsView, Seq<char>>;

/// `serde_json::from_slice` into `serde_json::Value`, and the fields of the object that it gives, in
/// the order of its map (no fields where it gives something else). The contract says only that the
/// outcome depends on the bytes alone.
#[verifier::external_body]
pub(crate) fn read_fields(bytes: &[u8]) -> (r: Result<Vec<(String, JsonValue)>, String>)
    ensures
        fields_result(r) == json_fields(bytes@),
{
    let Value::Object(map) = serde_json::from_slice(bytes).map_err(|e| e.to_string())? else {
        return Ok(Vec::new());
    };
    let value = |v: Value| match v {
        Value::Null => JsonValue::Null,
        Value::Bool(b) => JsonValue::Bool(b),
        Value::Number(n) => JsonValue::Number(n.as_u64()),
        Value::String(s) => JsonValue::Text(s),
        array @ Value::Array(_) => JsonValue::Nested(array.to_string()),
        object @ Value::Object(_) => JsonValue::Nested(object.to_string()),
    };
    Ok(map.into_iter().map(|(k, v)| (k, value(v))).collect())
}

/// The JSON value that some bytes write, or the words of the error where they write none.
pub fn parse_json(bytes: &[u8]) -> (r: Result<Json, String>)
    ensures
        json_result(r) == json_fields(bytes@),
{
    match read_fields(bytes) {
        Ok(fields) => Ok(Json { fields }),
        Err(e) => Err(e),
    }
}

// ---------------------------------------------------------------------------
// Writing
// ---------------------------------------------------------------------------

/// The lower-case hexadecimal digit of a number below sixteen.
pub open spec fn hex_lower(n: int) -> char {
    if n < 10 {
        (48 + n) as char
    } else {
        (87 + n) as char
    }
}

/// A character inside a JSON text.
pub open spec fn escaped_char(c: char) -> Seq<char> {
    let u = c as u32 as int;
    if c == '"' || c == '\\' {
        seq!['\\', c]
    } else if u == 8 {
        seq!['\\', 'b']
    } else if u == 9 {
        seq!['\\', 't']
    } else if u == 10 {
        seq!['\\', 'n']
    } else if u == 12 {
        seq!['\\', 'f']
    } else if u == 13 {
        seq!['\\', 'r']
    } else if u < 32 {
        seq!['\\', 'u', '0', '0', hex_lower(u / 16), hex_lower(u % 16)]
    } else {
        seq![c]
    }
}

pub open spec fn escaped(s: Seq<char>) -> Seq<char>
    decreases s.len(),
{
    if s.len() == 0 {
        Seq::empty()
    } else {
        escaped(s.drop_last()) + escaped_char(s.last())
    }
}

/// A text as JSON: between quotation marks, with these, backslashes and control characters escaped.
pub open spec fn quoted(s: Seq<char>) -> Seq<char> {
    seq!['"'] + escaped(s) + seq!['"']
}

/// `serde_json::to_string` of a text: the text as JSON.
#[verifier::external_body]
pub(crate) fn quote(s: &str) -> (r: String)
    ensures
        r@ == quoted(s@),
{
    serde_json::to_string(s).unwrap()
}

proof fn lemma_escaped_char(c: char)
    ensures
        forall|i: int| 0 <= i < escaped_char(c).len() ==> #[trigger] escaped_char(c)[i] >= ' ',
{
    let u = c as u32 as int;
    let e = escaped_char(c);
    if c == '"' || c == '\\' {
        assert(e.len() == 2 && e[0] == '\\' && e[1] == c);
    } else if u == 8 || u == 9 || u == 10 || u == 12 || u == 13 {
        assert(e.len() == 2 && e[0] == '\\');
        assert(e[1] >= ' ');
    } else if u < 32 {
        let (hi, lo) = (u / 16, u % 16);
        assert(0 <= hi < 16 && 0 <= lo < 16);
        assert(hex_lower(hi) >= ' ');
        assert(hex_lower(lo) >= ' ');
        assert(e =~= seq!['\\', 'u', '0', '0', hex_lower(hi), hex_lower(lo)]);
    } else {
        assert(e =~= seq![c]);
        assert(c >= ' ');
    }
}

proof fn lemma_escaped_is_printable(s: Seq<char>)
    ensures
        forall|i: int| 0 <= i < escaped(s).len() ==> #[trigger] escaped(s)[i] >= ' ',
    decreases s.len(),
{
    if s.len() > 0 {
        let head = escaped(s.drop_last());
        let tail = escaped_char(s.last());
        lemma_escaped_is_printable(s.drop_last());
        lemma_escaped_char(s.last());
        assert forall|i: int| 0 <= i < escaped(s).len() implies #[trigger] escaped(s)[i] >= ' ' by {
            if i < head.len() {
                assert(escaped(s)[i] == head[i]);
            } else {
                assert(escaped(s)[i] == tail[i - head.len()]);
            }
        }
    }
}

/// Whatever a text holds, as JSON it holds no control character, and so stands in one line.
pub proof fn law_quoted_texts_are_printable(s: Seq<char>)
    ensures
        forall|i: int| 0 <= i < quoted(s).len() ==> #[trigger] quoted(s)[i] >= ' ',
{
    lemma_escaped_is_printable(s);
    assert forall|i: int| 0 <= i < quoted(s).len() implies #[trigger] quoted(s)[i] >= ' ' by {
        if 0 < i < quoted(s).len() - 1 {
            assert(quoted(s)[i] == escaped(s)[i - 1]);
        }
    }
}

// ---------------------------------------------------------------------------
// Looking up
// ---------------------------------------------------------------------------

/// The value of the first field with that name.
pub open spec fn field(v: FieldsView, name: Seq<char>) -> Option<JsonView>
    decreases v.len(),
{
    if v.len() == 0 {
        None
    } else if v[0].0 == name {
        Some(v[0].1)
    } else {
        field(v.skip(1), name)
    }
}

/// The text that a field holds, where it holds one.
pub open spec fn text_field(v: FieldsView, name: Seq<char>) -> Option<Seq<char>> {
    match field(v, name) {
        Some(JsonView::Text(s)) => Some(s),
        _ => None,
    }
}

impl Json {
    pub fn get(&self, name: &str) -> (r: Option<&JsonValue>)
        ensures
            match r {
                Some(v) => field(self@, name@) == Some(v@),
                None => field(self@, name@) is None,
            },
    {
        assert(self@.skip(0) == self@);
        for i in 0..self.fields.len()
            invariant
                field(self@, name@) == field(self@.skip(i as int), name@),
        {
            let ghost rest = self@.skip(i as int);
            assert(rest[0] == (self.fields@[i as int].0@, self.fields@[i as int].1@));
            assert(rest.skip(1) == self@.skip(i + 1));
            if same(self.fields[i].0.as_str(), name) {
                return Some(&self.fields[i].1);
            }
        }
        None
    }

    pub fn text(&self, name: &str) -> (r: Option<&str>)
        ensures
            match r {
                Some(s) => text_field(self@, name@) == Some(s@),
                None => text_field(self@, name@) is None,
            },
    {
        match self.get(name) {
            Some(JsonValue::Text(s)) => Some(s.as_str()),
            _ => None,
        }
    }
}

/// A text as JSON holds every character of it: a plain one as it is, a quotation mark, a backslash, and
/// the control characters behind a backslash; and two texts in a row are written one after the other.
pub proof fn law_quoted_texts_hold_every_character(a: Seq<char>, b: Seq<char>, c: char)
    ensures
        quoted(a) == seq!['"'] + escaped(a) + seq!['"'],
        escaped(a + b) == escaped(a) + escaped(b),
        escaped(Seq::empty()).len() == 0,
        c >= ' ' && c != '"' && c != '\\' ==> escaped(seq![c]) == seq![c],
        escaped(seq!['"']) == seq!['\\', '"'],
        escaped(seq!['\\']) == seq!['\\', '\\'],
        escaped(seq!['\n']) == seq!['\\', 'n'],
        escaped(seq!['\r']) == seq!['\\', 'r'],
        escaped(seq!['\t']) == seq!['\\', 't'],
        c < ' ' ==> escaped(seq![c]).len() > 1 && escaped(seq![c])[0] == '\\',
    decreases b.len(),
{
    lemma_escaped_one(c);
    lemma_escaped_one('"');
    lemma_escaped_one('\\');
    lemma_escaped_one('\n');
    lemma_escaped_one('\r');
    lemma_escaped_one('\t');
    if b.len() == 0 {
        assert(a + b =~= a);
        assert(escaped(a) + escaped(b) =~= escaped(a));
    } else {
        law_quoted_texts_hold_every_character(a, b.drop_last(), c);
        assert((a + b).drop_last() =~= a + b.drop_last());
        assert((a + b).last() == b.last());
        assert(escaped(a + b) =~= escaped(a) + escaped(b));
    }
}

proof fn lemma_escaped_one(c: char)
    ensures
        escaped(seq![c]) == escaped_char(c),
{
    let one = seq![c];
    let none = Seq::<char>::empty();
    assert(one.drop_last() =~= none);
    assert(one.last() == c);
    assert(escaped(none) =~= none);
    assert(escaped(one) == escaped(none) + escaped_char(c));
    assert(escaped(one) =~= escaped_char(c));
}

/// Of the fields with a name the first counts, and a field with another name never does.
pub proof fn law_first_field_counts(v: FieldsView, name: Seq<char>)
    ensures
        field(v, name) is None <==> forall|i: int| 0 <= i < v.len() ==> (#[trigger] v[i]).0 != name,
        field(v, name) matches Some(x) ==> exists|i: int|
            0 <= i < v.len() && (#[trigger] v[i]) == (name, x) && forall|j: int|
                0 <= j < i ==> (#[trigger] v[j]).0 != name,
        text_field(v, name) matches Some(s) ==> field(v, name) == Some(JsonView::Text(s)),
        field(v, name) matches Some(JsonView::Text(s)) ==> text_field(v, name) == Some(s),
    decreases v.len(),
{
    if v.len() > 0 {
        let rest = v.skip(1);
        law_first_field_counts(rest, name);
        if v[0].0 == name {
            assert(v[0] == (name, v[0].1));
        } else {
            match field(rest, name) {
                Some(x) => {
                    let i = choose|i: int|
                        0 <= i < rest.len() && (#[trigger] rest[i]) == (name, x) && forall|j: int|
                            0 <= j < i ==> (#[trigger] rest[j]).0 != name;
                    assert(v[i + 1] == (name, x));
                    assert forall|j: int| 0 <= j < i + 1 implies (#[trigger] v[j]).0 != name by {
                        if j > 0 {
                            assert(rest[j - 1].0 != name);
                        }
                    }
                },
                None => {
                    assert forall|i: int| 0 <= i < v.len() implies (#[trigger] v[i]).0 != name by {
                        if i > 0 {
                            assert(rest[i - 1].0 != name);
                        }
                    }
                },
            }
            if forall|i: int| 0 <= i < v.len() ==> (#[trigger] v[i]).0 != name {
                assert forall|i: int| 0 <= i < rest.len() implies (#[trigger] rest[i]).0 != name by {
                    assert(v[i + 1].0 != name);
                }
            }
        }
    }
}

/// Contracts speak of every field of an object, and of the whole of its value.
pub proof fn law_objects_are_seen_whole(x: JsonValue, j: Json, v: Seq<(String, JsonValue)>)
    ensures
        x is Null ==> x@ is Null,
        x matches JsonValue::Bool(b) ==> x@ == JsonView::Bool(b),
        x matches JsonValue::Number(n) ==> x@ == JsonView::Number(n),
        x matches JsonValue::Text(s) ==> x@ == JsonView::Text(s@),
        x matches JsonValue::Nested(s) ==> x@ == JsonView::Nested(s@),
        j@ == field_views(j.fields@),
        field_views(v).len() == v.len(),
        forall|i: int| 0 <= i < v.len() ==> #[trigger] field_views(v)[i] == (v[i].0@, v[i].1@),
        json_result(Ok(j)) == Ok::<FieldsView, Seq<char>>(j@),
{
}

} // verus!
