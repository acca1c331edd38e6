//! Strings as sequences of characters: the operations that the other modules are written with.

use vstd::prelude::*;
use vstd::utf8;

verus! {

/// `String::push` of the standard library: appends one character to the end of the string.
pub assume_specification[ String::push ](s: &mut String, c: char)
    ensures
        final(s)@ == old(s)@.push(c),
;

/// The words in which `String::from_utf8` says what is wrong with bytes that are no valid UTF-8.
pub uninterp spec fn utf8_fault(bytes: Seq<u8>) -> Seq<char>;

/// `String::from_utf8` of the standard library: the text that the bytes encode, where they are valid
/// UTF-8; else its error in words. Of these the contract says only that they depend on the bytes alone.
#[verifier::external_body]
pub(crate) fn utf8_text(bytes: Vec<u8>) -> (r: Result<String, String>)
    ensures
        match r {
            Ok(s) => utf8::valid_utf8(bytes@) && s@ == utf8::decode_utf8(bytes@),
            Err(e) => !utf8::valid_utf8(bytes@) && e@ == utf8_fault(bytes@),
        },
{
    String::from_utf8(bytes).map_err(|e| e.to_string())
}

// ---------------------------------------------------------------------------
// Single characters
// ---------------------------------------------------------------------------

/// The ASCII lower-case form of a character; every other character is itself.
pub open spec fn lower_char(c: char) -> char {
    if 'A' <= c <= 'Z' {
        (c as u32 + 32) as char
    } else {
        c
    }
}

/// The ASCII upper-case form of a character; every other character is itself.
pub open spec fn upper_char(c: char) -> char {
    if 'a' <= c <= 'z' {
        (c as u32 - 32) as char
    } else {
        c
    }
}

/// The ASCII lower-case form of a text.
pub open spec fn lower(s: Seq<char>) -> Seq<char> {
    s.map_values(|c: char| lower_char(c))
}

/// The ASCII upper-case form of a text.
pub open spec fn upper(s: Seq<char>) -> Seq<char> {
    s.map_values(|c: char| upper_char(c))
}

/// The characters with the Unicode property `White_Space`.
pub open spec fn is_white(c: char) -> bool {
    let u = c as u32;
    ||| 0x09 <= u <= 0x0D
    ||| u == 0x20
    ||| u == 0x85
    ||| u == 0xA0
    ||| u == 0x1680
    ||| 0x2000 <= u <= 0x200A
    ||| 0x2028 <= u <= 0x2029
    ||| u == 0x202F
    ||| u == 0x205F
    ||| u == 0x3000
}

pub open spec fn is_digit(c: char) -> bool {
    '0' <= c <= '9'
}

pub open spec fn is_alphanumeric(c: char) -> bool {
    ('0' <= c <= '9') || ('A' <= c <= 'Z') || ('a' <= c <= 'z')
}

pub open spec fn is_hex_digit(c: char) -> bool {
    ('0' <= c <= '9') || ('A' <= c <= 'F') || ('a' <= c <= 'f')
}

pub fn to_lower_char(c: char) -> (r: char)
    ensures
        r == lower_char(c),
{
    if 'A' <= c && c <= 'Z' {
        let u: u8 = c as u8;
        (u + 32) as char
    } else {
        c
    }
}

pub fn to_upper_char(c: char) -> (r: char)
    ensures
        r == upper_char(c),
{
    if 'a' <= c && c <= 'z' {
        let u: u8 = c as u8;
        (u - 32) as char
    } else {
        c
    }
}

pub fn white(c: char) -> (r: bool)
    ensures
        r == is_white(c),
{
    let u: u32 = c as u32;
    (0x09 <= u && u <= 0x0D) || u == 0x20 || u == 0x85 || u == 0xA0 || u == 0x1680 || (0x2000 <= u
        && u <= 0x200A) || (0x2028 <= u && u <= 0x2029) || u == 0x202F || u == 0x205F || u == 0x3000
}

pub fn alphanumeric(c: char) -> (r: bool)
    ensures
        r == is_alphanumeric(c),
{
    ('0' <= c && c <= '9') || ('A' <= c && c <= 'Z') || ('a' <= c && c <= 'z')
}

pub fn hex_digit(c: char) -> (r: bool)
    ensures
        r == is_hex_digit(c),
{
    ('0' <= c && c <= '9') || ('A' <= c && c <= 'F') || ('a' <= c && c <= 'f')
}

// ---------------------------------------------------------------------------
// Between strings and vectors of characters
// ---------------------------------------------------------------------------

pub fn chars_of(s: &str) -> (r: Vec<char>)
    ensures
        r@ == s@,
{
    let mut v: Vec<char> = Vec::new();
    for c in it: s.chars()
        invariant
            v@ == s@.take(it.index() as int),
            it.seq() == s@,
    {
        v.push(c);
    }
    v
}

pub fn string_of(v: &Vec<char>) -> (r: String)
    ensures
        r@ == v@,
{
    let mut s = String::new();
    for i in 0..v.len()
        invariant
            s@ == v@.take(i as int),
    {
        s.push(v[i]);
    }
    assert(v@.take(v@.len() as int) == v@);
    s
}

/// The part of a vector from `from` up to, not including, `to`.
pub fn slice_of(v: &Vec<char>, from: usize, to: usize) -> (r: Vec<char>)
    requires
        from <= to <= v@.len(),
    ensures
        r@ == v@.subrange(from as int, to as int),
{
    let mut out: Vec<char> = Vec::new();
    for i in from..to
        invariant
            from <= to <= v@.len(),
            out@ == v@.subrange(from as int, i as int),
    {
        out.push(v[i]);
        assert(v@.subrange(from as int, i + 1) == v@.subrange(from as int, i as int).push(
            v@[i as int],
        ));
    }
    out
}

pub fn append_chars(out: &mut Vec<char>, v: &Vec<char>)
    ensures
        final(out)@ == old(out)@ + v@,
{
    for i in 0..v.len()
        invariant
            out@ == old(out)@ + v@.take(i as int),
    {
        out.push(v[i]);
        assert(v@.take(i + 1) == v@.take(i as int).push(v@[i as int]));
        assert(out@ == old(out)@ + v@.take(i + 1));
    }
    assert(v@.take(v@.len() as int) == v@);
}

pub fn append_str(out: &mut Vec<char>, s: &str)
    ensures
        final(out)@ == old(out)@ + s@,
{
    let v = chars_of(s);
    append_chars(out, &v);
}

// ---------------------------------------------------------------------------
// Comparing
// ---------------------------------------------------------------------------

pub fn same_chars(a: &Vec<char>, b: &Vec<char>) -> (r: bool)
    ensures
        r == (a@ == b@),
{
    if a.len() != b.len() {
        return false;
    }
    for i in 0..a.len()
        invariant
            a@.len() == b@.len(),
            forall|k: int| 0 <= k < i ==> a@[k] == b@[k],
    {
        if a[i] != b[i] {
            return false;
        }
    }
    assert(a@ =~= b@);
    true
}

pub fn same(a: &str, b: &str) -> (r: bool)
    ensures
        r == (a@ == b@),
{
    let x = chars_of(a);
    let y = chars_of(b);
    same_chars(&x, &y)
}

/// Whether `p` stands in `s` at position `i`.
pub open spec fn occurs_at(s: Seq<char>, p: Seq<char>, i: int) -> bool {
    0 <= i && i + p.len() <= s.len() && s.subrange(i, i + p.len()) == p
}

pub open spec fn starts_with(s: Seq<char>, p: Seq<char>) -> bool {
    occurs_at(s, p, 0)
}

pub open spec fn ends_with(s: Seq<char>, p: Seq<char>) -> bool {
    occurs_at(s, p, s.len() - p.len())
}

pub open spec fn contains_text(s: Seq<char>, p: Seq<char>) -> bool {
    exists|i: int| #[trigger] occurs_at(s, p, i)
}

pub fn at(s: &Vec<char>, p: &Vec<char>, i: usize) -> (r: bool)
    requires
        i <= s@.len(),
    ensures
        r == occurs_at(s@, p@, i as int),
{
    if s.len() - i < p.len() {
        return false;
    }
    for k in 0..p.len()
        invariant
            i + p.len() <= s.len(),
            forall|j: int| 0 <= j < k ==> s@[i + j] == p@[j],
    {
        if s[i + k] != p[k] {
            assert(s@.subrange(i as int, i + p@.len())[k as int] == s@[i + k]);
            return false;
        }
    }
    assert(s@.subrange(i as int, i + p@.len()) =~= p@);
    true
}

pub fn begins(s: &Vec<char>, p: &str) -> (r: bool)
    ensures
        r == starts_with(s@, p@),
{
    let v = chars_of(p);
    at(s, &v, 0)
}

pub fn ends(s: &Vec<char>, p: &str) -> (r: bool)
    ensures
        r == ends_with(s@, p@),
{
    let v = chars_of(p);
    if v.len() > s.len() {
        return false;
    }
    at(s, &v, s.len() - v.len())
}

pub fn has_text(s: &Vec<char>, p: &str) -> (r: bool)
    ensures
        r == contains_text(s@, p@),
{
    let v = chars_of(p);
    let mut i: usize = 0;
    while i <= s.len()
        invariant
            i <= s@.len() + 1,
            v@ == p@,
            forall|k: int| 0 <= k < i ==> !occurs_at(s@, p@, k),
        decreases s@.len() + 1 - i,
    {
        if at(s, &v, i) {
            return true;
        }
        if i == s.len() {
            assert forall|k: int| !occurs_at(s@, p@, k) by {}
            return false;
        }
        i += 1;
    }
    false
}

// ---------------------------------------------------------------------------
// Case
// ---------------------------------------------------------------------------

pub fn lowered(s: &Vec<char>) -> (r: Vec<char>)
    ensures
        r@ == lower(s@),
{
    let mut out: Vec<char> = Vec::new();
    for i in 0..s.len()
        invariant
            out@ == lower(s@.take(i as int)),
    {
        out.push(to_lower_char(s[i]));
        assert(lower(s@.take(i + 1)) == lower(s@.take(i as int)).push(lower_char(s@[i as int])));
    }
    assert(s@.take(s@.len() as int) == s@);
    out
}

pub fn uppered(s: &Vec<char>) -> (r: Vec<char>)
    ensures
        r@ == upper(s@),
{
    let mut out: Vec<char> = Vec::new();
    for i in 0..s.len()
        invariant
            out@ == upper(s@.take(i as int)),
    {
        out.push(to_upper_char(s[i]));
        assert(upper(s@.take(i + 1)) == upper(s@.take(i as int)).push(upper_char(s@[i as int])));
    }
    assert(s@.take(s@.len() as int) == s@);
    out
}

// ---------------------------------------------------------------------------
// Trimming
// ---------------------------------------------------------------------------

/// The text without the white space at its start.
pub open spec fn trim_start(s: Seq<char>) -> Seq<char>
    decreases s.len(),
{
    if s.len() > 0 && is_white(s[0]) {
        trim_start(s.skip(1))
    } else {
        s
    }
}

/// The text without the white space at its end.
pub open spec fn trim_end(s: Seq<char>) -> Seq<char>
    decreases s.len(),
{
    if s.len() > 0 && is_white(s.last()) {
        trim_end(s.drop_last())
    } else {
        s
    }
}

/// The text without the white space at either end.
pub open spec fn trim(s: Seq<char>) -> Seq<char> {
    trim_end(trim_start(s))
}

/// A text without white space at either end neither begins nor ends with any.
pub proof fn lemma_trim(s: Seq<char>)
    ensures
        trim(s).len() > 0 ==> !is_white(trim(s)[0]) && !is_white(trim(s).last()),
{
    lemma_trim_start(s);
    lemma_trim_end(trim_start(s));
}

proof fn lemma_trim_start(s: Seq<char>)
    ensures
        trim_start(s).len() > 0 ==> !is_white(trim_start(s)[0]),
    decreases s.len(),
{
    if s.len() > 0 && is_white(s[0]) {
        lemma_trim_start(s.skip(1));
    }
}

proof fn lemma_trim_end(s: Seq<char>)
    ensures
        trim_end(s).len() <= s.len(),
        trim_end(s).len() > 0 ==> !is_white(trim_end(s).last()) && trim_end(s)[0] == s[0],
    decreases s.len(),
{
    if s.len() > 0 && is_white(s.last()) {
        lemma_trim_end(s.drop_last());
    }
}

pub fn trimmed(s: &Vec<char>) -> (r: Vec<char>)
    ensures
        r@ == trim(s@),
{
    let mut i: usize = 0;
    assert(s@.skip(0) == s@);
    while i < s.len() && white(s[i])
        invariant
            i <= s@.len(),
            trim_start(s@) == trim_start(s@.skip(i as int)),
        decreases s@.len() - i,
    {
        assert(s@.skip(i as int).skip(1) == s@.skip(i + 1));
        i += 1;
    }
    let ghost t = s@.skip(i as int);
    assert(trim_start(s@) == t);
    let mut j: usize = s.len();
    assert(s@.subrange(i as int, j as int) == t);
    while j > i && white(s[j - 1])
        invariant
            i <= j <= s@.len(),
            trim_end(t) == trim_end(s@.subrange(i as int, j as int)),
        decreases j,
    {
        assert(s@.subrange(i as int, j as int).drop_last() == s@.subrange(i as int, j - 1));
        assert(s@.subrange(i as int, j as int).last() == s@[j - 1]);
        j -= 1;
    }
    assert(j > i ==> s@.subrange(i as int, j as int).last() == s@[j - 1]);
    slice_of(s, i, j)
}

/// The text without the copies of `p` at its end.
pub open spec fn trim_end_text(s: Seq<char>, p: Seq<char>) -> Seq<char>
    decreases s.len(),
{
    if p.len() > 0 && ends_with(s, p) {
        trim_end_text(s.take(s.len() - p.len()), p)
    } else {
        s
    }
}

pub fn trimmed_end_text(s: &Vec<char>, p: &str) -> (r: Vec<char>)
    ensures
        r@ == trim_end_text(s@, p@),
{
    let v = chars_of(p);
    let mut n: usize = s.len();
    assert(s@.take(n as int) == s@);
    if v.len() == 0 {
        return slice_of(s, 0, n);
    }
    while n >= v.len() && at_upto(s, &v, n)
        invariant
            n <= s@.len(),
            v@ == p@,
            v@.len() > 0,
            trim_end_text(s@, p@) == trim_end_text(s@.take(n as int), p@),
        decreases n,
    {
        assert(s@.take(n as int).take(n - v@.len()) == s@.take(n - v@.len()));
        n -= v.len();
    }
    slice_of(s, 0, n)
}

/// Whether the first `n` characters of `s` end in `p`.
fn at_upto(s: &Vec<char>, p: &Vec<char>, n: usize) -> (r: bool)
    requires
        p@.len() <= n <= s@.len(),
    ensures
        r == ends_with(s@.take(n as int), p@),
{
    let i: usize = n - p.len();
    assert(s@.take(n as int).subrange(i as int, n as int) == s@.subrange(i as int, i + p@.len()));
    at(s, p, i)
}

// ---------------------------------------------------------------------------
// Looking for a character, cutting, replacing
// ---------------------------------------------------------------------------

/// The position of the first `c` in `s`; the length of `s` where there is none.
pub open spec fn find(s: Seq<char>, c: char) -> int
    decreases s.len(),
{
    if s.len() == 0 || s[0] == c {
        0
    } else {
        1 + find(s.skip(1), c)
    }
}

pub proof fn lemma_find(s: Seq<char>, c: char)
    ensures
        0 <= find(s, c) <= s.len(),
        forall|k: int| 0 <= k < find(s, c) ==> s[k] != c,
        find(s, c) < s.len() ==> s[find(s, c)] == c,
        find(s, c) < s.len() <==> s.contains(c),
    decreases s.len(),
{
    if s.len() == 0 || s[0] == c {
    } else {
        let t = s.skip(1);
        lemma_find(t, c);
        assert forall|k: int| 0 <= k < find(s, c) implies s[k] != c by {
            if k > 0 {
                assert(s[k] == t[k - 1]);
            }
        }
        if find(s, c) < s.len() {
            assert(s[find(s, c)] == t[find(t, c)]);
        }
        if s.contains(c) {
            let k = choose|k: int| 0 <= k < s.len() && s[k] == c;
            assert(t[k - 1] == c);
        }
    }
}

/// What determines `find`.
pub proof fn lemma_find_is(s: Seq<char>, c: char, i: int)
    requires
        0 <= i <= s.len(),
        forall|k: int| 0 <= k < i ==> s[k] != c,
        i < s.len() ==> s[i] == c,
    ensures
        find(s, c) == i,
{
    lemma_find(s, c);
    let f = find(s, c);
    if f < i {
        assert(s[f] == c);
    }
    if f > i {
        assert(s[i] != c);
    }
}

pub fn position(s: &Vec<char>, c: char) -> (r: usize)
    ensures
        r == find(s@, c),
{
    let mut i: usize = 0;
    while i < s.len() && s[i] != c
        invariant
            i <= s@.len(),
            forall|k: int| 0 <= k < i ==> s@[k] != c,
        decreases s@.len() - i,
    {
        i += 1;
    }
    proof {
        lemma_find_is(s@, c, i as int);
    }
    i
}

/// The text up to the first `c`; all of it where there is none.
pub open spec fn before(s: Seq<char>, c: char) -> Seq<char> {
    s.take(find(s, c))
}

pub fn cut_before(s: &Vec<char>, c: char) -> (r: Vec<char>)
    ensures
        r@ == before(s@, c),
{
    let i = position(s, c);
    proof {
        lemma_find(s@, c);
    }
    assert(s@.subrange(0, i as int) == s@.take(i as int));
    slice_of(s, 0, i)
}

/// The pieces of the text between the occurrences of `c`.
pub open spec fn split(s: Seq<char>, c: char) -> Seq<Seq<char>>
    decreases s.len(),
{
    let i = find(s, c);
    if 0 <= i < s.len() {
        seq![s.take(i)] + split(s.skip(i + 1), c)
    } else {
        seq![s]
    }
}

/// The views of a vector of character vectors.
pub open spec fn pieces(v: Seq<Vec<char>>) -> Seq<Seq<char>> {
    v.map_values(|x: Vec<char>| x@)
}

pub fn split_on(s: &Vec<char>, c: char) -> (r: Vec<Vec<char>>)
    ensures
        pieces(r@) == split(s@, c),
        r@.len() > 0,
{
    let mut out: Vec<Vec<char>> = Vec::new();
    let mut i: usize = 0;
    assert(s@.skip(0) == s@);
    loop
        invariant_except_break
            i <= s@.len(),
            split(s@, c) == pieces(out@) + split(s@.skip(i as int), c),
        ensures
            pieces(out@) == split(s@, c),
            out@.len() > 0,
        decreases s@.len() - i,
    {
        let mut j: usize = i;
        while j < s.len() && s[j] != c
            invariant
                i <= j <= s@.len(),
                forall|k: int| i <= k < j ==> s@[k] != c,
            decreases s@.len() - j,
        {
            j += 1;
        }
        let ghost t = s@.skip(i as int);
        proof {
            assert forall|k: int| 0 <= k < j - i implies t[k] != c by {}
            lemma_find_is(t, c, j - i);
            assert(t.take(j - i) == s@.subrange(i as int, j as int));
        }
        let ghost prev = out@;
        out.push(slice_of(s, i, j));
        assert(pieces(out@) == pieces(prev).push(t.take(j - i)));
        if j == s.len() {
            assert(t.take(j - i) == t);
            assert(pieces(out@) == pieces(prev) + seq![t]);
            break ;
        }
        assert(t.skip(j - i + 1) == s@.skip(j + 1));
        assert(pieces(prev) + (seq![t.take(j - i)] + split(s@.skip(j + 1), c)) == pieces(out@)
            + split(s@.skip(j + 1), c));
        i = j + 1;
    }
    out
}

/// The text with every `from` (taken from the left, none overlapping another) replaced by `to`.
pub open spec fn replace(s: Seq<char>, from: Seq<char>, to: Seq<char>) -> Seq<char>
    decreases s.len(),
{
    if s.len() == 0 || from.len() == 0 {
        s
    } else if starts_with(s, from) {
        to + replace(s.skip(from.len() as int), from, to)
    } else {
        seq![s[0]] + replace(s.skip(1), from, to)
    }
}

pub fn replaced(s: &Vec<char>, from: &str, to: &Vec<char>) -> (r: Vec<char>)
    requires
        from@.len() > 0,
    ensures
        r@ == replace(s@, from@, to@),
{
    let f = chars_of(from);
    let mut out: Vec<char> = Vec::new();
    let mut i: usize = 0;
    assert(s@.skip(0) == s@);
    while i < s.len()
        invariant
            i <= s@.len(),
            f@ == from@,
            f@.len() > 0,
            replace(s@, from@, to@) == out@ + replace(s@.skip(i as int), from@, to@),
        decreases s@.len() - i,
    {
        let ghost t = s@.skip(i as int);
        let ghost prev = out@;
        if at(s, &f, i) {
            assert(t.subrange(0, f@.len() as int) == s@.subrange(i as int, i + f@.len()));
            assert(t.skip(f@.len() as int) == s@.skip(i + f@.len()));
            append_chars(&mut out, to);
            assert(prev + (to@ + replace(s@.skip(i + f@.len()), from@, to@)) == out@ + replace(
                s@.skip(i + f@.len()),
                from@,
                to@,
            ));
            i += f.len();
        } else {
            assert(starts_with(t, from@) ==> t.subrange(0, f@.len() as int) == s@.subrange(
                i as int,
                i + f@.len(),
            ));
            assert(t.skip(1) == s@.skip(i + 1));
            out.push(s[i]);
            assert(prev + (seq![t[0]] + replace(s@.skip(i + 1), from@, to@)) == out@ + replace(
                s@.skip(i + 1),
                from@,
                to@,
            ));
            i += 1;
        }
    }
    assert(s@.skip(s@.len() as int) =~= Seq::<char>::empty());
    assert(out@ + Seq::<char>::empty() == out@);
    out
}

// ---------------------------------------------------------------------------
// Words and joining
// ---------------------------------------------------------------------------

/// The pieces with `sep` between each two of them.
pub open spec fn join(parts: Seq<Seq<char>>, sep: Seq<char>) -> Seq<char>
    decreases parts.len(),
{
    if parts.len() == 0 {
        Seq::empty()
    } else if parts.len() == 1 {
        parts[0]
    } else {
        join(parts.drop_last(), sep) + sep + parts.last()
    }
}

pub fn joined(parts: &Vec<Vec<char>>, sep: &str) -> (r: Vec<char>)
    ensures
        r@ == join(pieces(parts@), sep@),
{
    let v = chars_of(sep);
    let ghost all = pieces(parts@);
    let mut out: Vec<char> = Vec::new();
    for i in 0..parts.len()
        invariant
            v@ == sep@,
            all == pieces(parts@),
            out@ == join(all.take(i as int), sep@),
    {
        let ghost t = all.take(i + 1);
        assert(t.drop_last() == all.take(i as int));
        assert(t.last() == parts@[i as int]@);
        if i > 0 {
            append_chars(&mut out, &v);
        } else {
            assert(all.take(0).len() == 0);
            assert(out@ + t[0] == t[0]);
        }
        append_chars(&mut out, &parts[i]);
    }
    assert(all.take(all.len() as int) == all);
    out
}

/// The length of the run of characters without white space that the text starts with.
pub open spec fn word_len(s: Seq<char>) -> int
    decreases s.len(),
{
    if s.len() == 0 || is_white(s[0]) {
        0
    } else {
        1 + word_len(s.skip(1))
    }
}

pub proof fn lemma_word_len(s: Seq<char>)
    ensures
        0 <= word_len(s) <= s.len(),
    decreases s.len(),
{
    if s.len() == 0 || is_white(s[0]) {
    } else {
        lemma_word_len(s.skip(1));
    }
}

proof fn lemma_word_len_is(s: Seq<char>, n: int)
    requires
        0 <= n <= s.len(),
        forall|k: int| 0 <= k < n ==> !is_white(s[k]),
        n < s.len() ==> is_white(s[n]),
    ensures
        word_len(s) == n,
    decreases s.len(),
{
    if n > 0 {
        let t = s.skip(1);
        assert forall|k: int| 0 <= k < n - 1 implies !is_white(t[k]) by {
            assert(t[k] == s[k + 1]);
        }
        assert(n < s.len() ==> t[n - 1] == s[n]);
        lemma_word_len_is(t, n - 1);
    }
}

/// The words of a text: its longest runs of characters without white space.
pub open spec fn words(s: Seq<char>) -> Seq<Seq<char>>
    decreases s.len(),
{
    if s.len() == 0 {
        Seq::empty()
    } else if is_white(s[0]) {
        words(s.skip(1))
    } else {
        let n = word_len(s);
        if 0 < n <= s.len() {
            seq![s.take(n)] + words(s.skip(n))
        } else {
            Seq::empty()
        }
    }
}

pub fn words_of(s: &Vec<char>) -> (r: Vec<Vec<char>>)
    ensures
        pieces(r@) == words(s@),
{
    let mut out: Vec<Vec<char>> = Vec::new();
    let mut i: usize = 0;
    assert(s@.skip(0) == s@);
    assert(pieces(out@) + words(s@) == words(s@));
    while i < s.len()
        invariant
            i <= s@.len(),
            words(s@) == pieces(out@) + words(s@.skip(i as int)),
        decreases s@.len() - i,
    {
        let ghost t = s@.skip(i as int);
        if white(s[i]) {
            assert(t.skip(1) == s@.skip(i + 1));
            i += 1;
        } else {
            let mut j: usize = i + 1;
            while j < s.len() && !white(s[j])
                invariant
                    i < j <= s@.len(),
                    forall|k: int| i <= k < j ==> !is_white(s@[k]),
                decreases s@.len() - j,
            {
                j += 1;
            }
            proof {
                lemma_word_len_is(t, j - i);
                assert(t.take(j - i) == s@.subrange(i as int, j as int));
                assert(t.skip(j - i) == s@.skip(j as int));
            }
            let ghost prev = out@;
            out.push(slice_of(s, i, j));
            assert(pieces(out@) == pieces(prev).push(t.take(j - i)));
            assert(pieces(prev) + (seq![t.take(j - i)] + words(s@.skip(j as int))) == pieces(out@)
                + words(s@.skip(j as int)));
            i = j;
        }
    }
    assert(s@.skip(s@.len() as int).len() == 0);
    assert(pieces(out@) + Seq::<Seq<char>>::empty() == pieces(out@));
    out
}

/// The text with every run of white space made one blank, and none at its ends.
pub open spec fn squeeze(s: Seq<char>) -> Seq<char> {
    join(words(s), seq![' '])
}

pub fn squeezed(s: &Vec<char>) -> (r: Vec<char>)
    ensures
        r@ == squeeze(s@),
{
    let w = words_of(s);
    proof {
        reveal_strlit(" ");
        assert(" "@ =~= seq![' ']);
    }
    joined(&w, " ")
}

// ---------------------------------------------------------------------------
// Vectors of strings
// ---------------------------------------------------------------------------

/// The texts that a vector of strings holds.
pub open spec fn texts(v: Seq<String>) -> Seq<Seq<char>> {
    v.map_values(|x: String| x@)
}

pub fn copy_strings(v: &Vec<String>) -> (r: Vec<String>)
    ensures
        texts(r@) == texts(v@),
{
    let mut out: Vec<String> = Vec::new();
    for i in 0..v.len()
        invariant
            texts(out@) == texts(v@).take(i as int),
    {
        let ghost prev = out@;
        out.push(v[i].clone());
        assert(texts(out@) == texts(prev).push(v@[i as int]@));
        assert(texts(v@).take(i + 1) == texts(v@).take(i as int).push(v@[i as int]@));
    }
    assert(texts(v@).take(v@.len() as int) == texts(v@));
    out
}

pub fn has_string(v: &Vec<String>, s: &str) -> (r: bool)
    ensures
        r == texts(v@).contains(s@),
{
    for i in 0..v.len()
        invariant
            forall|k: int| 0 <= k < i ==> texts(v@)[k] != s@,
    {
        if same(v[i].as_str(), s) {
            assert(texts(v@)[i as int] == s@);
            return true;
        }
    }
    false
}

/// The strings joined with `sep`.
pub fn joined_strings(v: &Vec<String>, sep: &str) -> (r: String)
    ensures
        r@ == join(texts(v@), sep@),
{
    let mut parts: Vec<Vec<char>> = Vec::new();
    for i in 0..v.len()
        invariant
            pieces(parts@) == texts(v@).take(i as int),
    {
        let ghost prev = parts@;
        parts.push(chars_of(v[i].as_str()));
        assert(pieces(parts@) == pieces(prev).push(v@[i as int]@));
        assert(texts(v@).take(i + 1) == texts(v@).take(i as int).push(v@[i as int]@));
    }
    assert(texts(v@).take(v@.len() as int) == texts(v@));
    let out = joined(&parts, sep);
    string_of(&out)
}

// ---------------------------------------------------------------------------
// Numbers
// ---------------------------------------------------------------------------

/// The decimal digit of a number below ten.
pub open spec fn digit(n: int) -> char {
    (48 + n) as char
}

/// A number written in decimal.
pub open spec fn decimal(n: nat) -> Seq<char>
    decreases n,
{
    if n < 10 {
        seq![digit(n as int)]
    } else {
        decimal(n / 10).push(digit((n % 10) as int))
    }
}

pub fn decimal_of(n: u64) -> (r: Vec<char>)
    ensures
        r@ == decimal(n as nat),
    decreases n,
{
    if n < 10 {
        let d: u8 = 48 + n as u8;
        let mut out: Vec<char> = Vec::new();
        out.push(d as char);
        assert(out@ =~= seq![digit(n as int)]);
        out
    } else {
        let mut out = decimal_of(n / 10);
        let d: u8 = 48 + (n % 10) as u8;
        out.push(d as char);
        out
    }
}

pub proof fn lemma_decimal_digits(n: nat)
    ensures
        all_digits(decimal(n)),
    decreases n,
{
    if n >= 10 {
        lemma_decimal_digits(n / 10);
    }
}

/// The number that a run of decimal digits writes.
pub open spec fn number(s: Seq<char>) -> nat
    decreases s.len(),
{
    if s.len() == 0 {
        0
    } else {
        number(s.drop_last()) * 10 + (s.last() as nat - 48) as nat
    }
}

pub open spec fn all_digits(s: Seq<char>) -> bool {
    forall|k: int| 0 <= k < s.len() ==> is_digit(#[trigger] s[k])
}

/// The number that the text writes: an optional `+`, then at least one decimal digit, the value
/// within 64 bits.
pub open spec fn parse_u64(s: Seq<char>) -> Option<u64> {
    let d = if s.len() > 0 && s[0] == '+' {
        s.skip(1)
    } else {
        s
    };
    if d.len() > 0 && all_digits(d) && number(d) <= u64::MAX {
        Some(number(d) as u64)
    } else {
        None
    }
}

pub fn parsed_u64(s: &Vec<char>) -> (r: Option<u64>)
    ensures
        r == parse_u64(s@),
{
    let start: usize = if s.len() > 0 && s[0] == '+' {
        1
    } else {
        0
    };
    let ghost d = s@.skip(start as int);
    assert(start == 0 ==> d == s@);
    if start == s.len() {
        return None;
    }
    let mut i: usize = start;
    let mut n: u64 = 0;
    assert(d.take(0).len() == 0);
    let mut over: bool = false;
    while i < s.len()
        invariant
            start <= i <= s@.len(),
            d == s@.skip(start as int),
            d == (if s@.len() > 0 && s@[0] == '+' {
                s@.skip(1)
            } else {
                s@
            }),
            all_digits(d.take(i - start)),
            !over ==> n == number(d.take(i - start)),
            over ==> number(d.take(i - start)) > u64::MAX,
        decreases s@.len() - i,
    {
        let c = s[i];
        assert(d[i - start] == c);
        let ghost before_it = d.take(i - start);
        let ghost with_it = d.take(i - start + 1);
        assert(with_it.drop_last() == before_it);
        assert(with_it.last() == c);
        if !('0' <= c && c <= '9') {
            assert(!all_digits(d));
            return None;
        }
        let v: u64 = (c as u8 - 48) as u64;
        assert(number(with_it) == number(before_it) * 10 + v);
        if !over {
            if n > (u64::MAX - v) / 10 {
                over = true;
            } else {
                n = n * 10 + v;
            }
        }
        assert forall|k: int| 0 <= k < with_it.len() implies is_digit(#[trigger] with_it[k]) by {
            if k < before_it.len() {
                assert(with_it[k] == before_it[k]);
            }
        }
        i += 1;
    }
    assert(d.take(d.len() as int) == d);
    if over {
        None
    } else {
        Some(n)
    }
}

// ---------------------------------------------------------------------------
// The order of texts
// ---------------------------------------------------------------------------

/// Whether `a` comes before `b`: by the first character in which they differ, else the shorter one
/// first.
pub open spec fn text_less(a: Seq<char>, b: Seq<char>) -> bool
    decreases a.len(),
{
    if b.len() == 0 {
        false
    } else if a.len() == 0 {
        true
    } else if a[0] == b[0] {
        text_less(a.skip(1), b.skip(1))
    } else {
        a[0] < b[0]
    }
}

pub proof fn lemma_less_total(a: Seq<char>, b: Seq<char>)
    ensures
        text_less(a, b) || text_less(b, a) || a == b,
        !(text_less(a, b) && text_less(b, a)),
        !text_less(a, a),
    decreases a.len(),
{
    if a.len() > 0 && b.len() > 0 {
        lemma_less_total(a.skip(1), b.skip(1));
        if a[0] == b[0] && a.skip(1) == b.skip(1) {
            assert(a =~= seq![a[0]] + a.skip(1));
            assert(b =~= seq![b[0]] + b.skip(1));
        }
    } else if a.len() == 0 && b.len() == 0 {
        assert(a =~= b);
    }
    if a.len() > 0 {
        lemma_less_total(a.skip(1), a.skip(1));
    }
}

pub proof fn lemma_less_transitive(a: Seq<char>, b: Seq<char>, c: Seq<char>)
    requires
        text_less(a, b),
        text_less(b, c),
    ensures
        text_less(a, c),
    decreases a.len(),
{
    if a.len() > 0 && b.len() > 0 && c.len() > 0 && a[0] == b[0] && b[0] == c[0] {
        lemma_less_transitive(a.skip(1), b.skip(1), c.skip(1));
    }
}

pub fn less(a: &Vec<char>, b: &Vec<char>) -> (r: bool)
    ensures
        r == text_less(a@, b@),
{
    let mut i: usize = 0;
    assert(a@.skip(0) == a@ && b@.skip(0) == b@);
    while i < a.len() && i < b.len() && a[i] == b[i]
        invariant
            i <= a@.len(),
            i <= b@.len(),
            text_less(a@, b@) == text_less(a@.skip(i as int), b@.skip(i as int)),
        decreases a@.len() - i,
    {
        assert(a@.skip(i as int).skip(1) == a@.skip(i + 1));
        assert(b@.skip(i as int).skip(1) == b@.skip(i + 1));
        i += 1;
    }
    if i == b.len() {
        false
    } else if i == a.len() {
        true
    } else {
        a[i] < b[i]
    }
}

// ---------------------------------------------------------------------------
// Laws
// ---------------------------------------------------------------------------

/// In lower case a text has the same length, and differs only in the letters from `A` to `Z`, which
/// stand 32 places further on; in upper case it is the other way round.
pub proof fn law_case_changes_letters_only(s: Seq<char>, i: int)
    requires
        0 <= i < s.len(),
    ensures
        lower(s).len() == s.len(),
        upper(s).len() == s.len(),
        lower(s)[i] as u32 == if 65 <= s[i] as u32 <= 90 {
            s[i] as u32 + 32
        } else {
            s[i] as u32 as int
        },
        upper(s)[i] as u32 == if 97 <= s[i] as u32 <= 122 {
            s[i] as u32 - 32
        } else {
            s[i] as u32 as int
        },
{
}

/// No visible character of ASCII is white space; the blank, the tab, the ends of lines and the
/// ideographic blank are.
pub proof fn law_white_space(c: char)
    ensures
        33 <= c as u32 <= 126 ==> !is_white(c),
        c == ' ' || c == '\t' || c == '\n' || c == '\r' || c == '\u{a0}' || c == '\u{3000}' ==> is_white(
            c,
        ),
{
}

/// Trimming takes a run of white space from the start and one from the end, and nothing else.
pub proof fn law_trimming_takes_white_space_only(s: Seq<char>) -> (r: (Seq<char>, Seq<char>))
    ensures
        s == r.0 + trim(s) + r.1,
        forall|i: int| 0 <= i < r.0.len() ==> is_white(#[trigger] r.0[i]),
        forall|i: int| 0 <= i < r.1.len() ==> is_white(#[trigger] r.1[i]),
        trim(s).len() > 0 ==> !is_white(trim(s)[0]) && !is_white(trim(s).last()),
{
    let a = lemma_trim_start_parts(s);
    let b = lemma_trim_end_parts(trim_start(s));
    lemma_trim(s);
    assert(s =~= a + trim(s) + b);
    (a, b)
}

proof fn lemma_trim_start_parts(s: Seq<char>) -> (a: Seq<char>)
    ensures
        s == a + trim_start(s),
        forall|i: int| 0 <= i < a.len() ==> is_white(#[trigger] a[i]),
    decreases s.len(),
{
    if s.len() > 0 && is_white(s[0]) {
        let a = lemma_trim_start_parts(s.skip(1));
        let r = seq![s[0]] + a;
        assert(s =~= seq![s[0]] + s.skip(1));
        assert(trim_start(s) == trim_start(s.skip(1)));
        assert(s =~= r + trim_start(s));
        r
    } else {
        assert(s =~= Seq::<char>::empty() + s);
        Seq::empty()
    }
}

proof fn lemma_trim_end_parts(s: Seq<char>) -> (b: Seq<char>)
    ensures
        s == trim_end(s) + b,
        forall|i: int| 0 <= i < b.len() ==> is_white(#[trigger] b[i]),
    decreases s.len(),
{
    if s.len() > 0 && is_white(s.last()) {
        let b = lemma_trim_end_parts(s.drop_last());
        let r = b.push(s.last());
        assert(s =~= s.drop_last().push(s.last()));
        assert(trim_end(s) == trim_end(s.drop_last()));
        assert(s =~= trim_end(s) + r);
        r
    } else {
        assert(s =~= s + Seq::<char>::empty());
        Seq::empty()
    }
}

/// What stands before the first `c` does not hold it; and it is the whole text, or what follows it
/// begins with `c`.
pub proof fn law_before_the_first(s: Seq<char>, c: char)
    ensures
        !before(s, c).contains(c),
        before(s, c).len() <= s.len(),
        s == before(s, c) + s.skip(before(s, c).len() as int),
        s.contains(c) ==> before(s, c).len() < s.len() && s[before(s, c).len() as int] == c,
        !s.contains(c) ==> before(s, c) == s,
{
    lemma_find(s, c);
    let b = before(s, c);
    assert(s =~= b + s.skip(b.len() as int));
    if !s.contains(c) {
        assert(b =~= s);
    }
    assert(!b.contains(c)) by {
        if b.contains(c) {
            let k = choose|k: int| 0 <= k < b.len() && b[k] == c;
            assert(s[k] == c);
        }
    }
}

/// A text that is split at every `c` is the pieces with `c` between them, and no piece holds `c`.
pub proof fn law_split_pieces_make_the_text(s: Seq<char>, c: char)
    ensures
        split(s, c).len() > 0,
        join(split(s, c), seq![c]) == s,
        forall|i: int| 0 <= i < split(s, c).len() ==> !(#[trigger] split(s, c)[i]).contains(c),
    decreases s.len(),
{
    lemma_find(s, c);
    let i = find(s, c);
    law_before_the_first(s, c);
    if 0 <= i < s.len() {
        let rest = split(s.skip(i + 1), c);
        law_split_pieces_make_the_text(s.skip(i + 1), c);
        law_joining_in_parts(seq![s.take(i)], rest, seq![c]);
        assert(join(seq![s.take(i)], seq![c]) == s.take(i));
        assert(s =~= s.take(i) + seq![c] + s.skip(i + 1));
        assert forall|k: int| 0 <= k < split(s, c).len() implies !(
        #[trigger] split(s, c)[k]).contains(c) by {
            if k > 0 {
                assert(split(s, c)[k] == rest[k - 1]);
            } else {
                assert(split(s, c)[0] == before(s, c));
            }
        }
    } else {
        assert(split(s, c) == seq![s]);
        assert(before(s, c) == s);
    }
}

/// One piece is joined to itself; two lists of pieces in a row are joined like each of them, with the
/// separator between.
pub proof fn law_joining_in_parts(a: Seq<Seq<char>>, b: Seq<Seq<char>>, sep: Seq<char>)
    ensures
        a.len() == 0 ==> join(a, sep).len() == 0,
        a.len() == 1 ==> join(a, sep) == a[0],
        a.len() > 0 && b.len() > 0 ==> join(a + b, sep) == join(a, sep) + sep + join(b, sep),
    decreases b.len(),
{
    if a.len() > 0 && b.len() > 0 {
        let all = a + b;
        assert(all.last() == b.last());
        assert(all.drop_last() =~= a + b.drop_last());
        if b.len() > 1 {
            law_joining_in_parts(a, b.drop_last(), sep);
            assert(join(all, sep) =~= join(a, sep) + sep + join(b, sep));
        } else {
            assert(all.drop_last() =~= a);
            assert(join(all, sep) =~= join(a, sep) + sep + join(b, sep));
        }
    }
}

/// A text in which `from` does not occur is left as it is.
pub proof fn law_nothing_to_replace(s: Seq<char>, from: Seq<char>, to: Seq<char>)
    requires
        !contains_text(s, from),
    ensures
        replace(s, from, to) == s,
    decreases s.len(),
{
    if s.len() > 0 && from.len() > 0 {
        assert(!occurs_at(s, from, 0));
        let t = s.skip(1);
        assert forall|i: int| !#[trigger] occurs_at(t, from, i) by {
            if occurs_at(t, from, i) {
                assert(s.subrange(i + 1, i + 1 + from.len()) =~= t.subrange(i, i + from.len()));
                assert(occurs_at(s, from, i + 1));
            }
        }
        law_nothing_to_replace(t, from, to);
        assert(s =~= seq![s[0]] + t);
    }
}

/// What stands before the first character that `from` could begin with is left as it is.
pub proof fn law_replacing_starts_at_the_first(
    a: Seq<char>,
    rest: Seq<char>,
    from: Seq<char>,
    to: Seq<char>,
)
    requires
        from.len() > 0,
        !a.contains(from[0]),
    ensures
        replace(a + rest, from, to) == a + replace(rest, from, to),
        replace(from + rest, from, to) == to + replace(rest, from, to),
    decreases a.len(),
{
    let x = from + rest;
    assert(x.subrange(0, from.len() as int) =~= from);
    assert(x.skip(from.len() as int) =~= rest);
    assert(occurs_at(x, from, 0));
    if a.len() == 0 {
        assert(a + rest =~= rest);
        assert(a + replace(rest, from, to) =~= replace(rest, from, to));
    } else {
        let s = a + rest;
        let b = a.skip(1);
        assert(a.contains(a[0]));
        assert(s[0] == a[0]);
        if occurs_at(s, from, 0) {
            assert(s.subrange(0, from.len() as int)[0] == s[0]);
        }
        assert(s.skip(1) =~= b + rest);
        assert(!b.contains(from[0])) by {
            if b.contains(from[0]) {
                let k = choose|k: int| 0 <= k < b.len() && b[k] == from[0];
                assert(a[k + 1] == from[0]);
            }
        }
        law_replacing_starts_at_the_first(b, rest, from, to);
        assert(seq![a[0]] + (b + replace(rest, from, to)) =~= a + replace(rest, from, to));
    }
}

/// What is left where `p` is taken from the end, as often as it stands there, does not end in it; and
/// with `p` put back as often it is the text.
pub proof fn law_trimmed_ends(s: Seq<char>, p: Seq<char>) -> (n: nat)
    requires
        p.len() > 0,
    ensures
        !ends_with(trim_end_text(s, p), p),
        s == trim_end_text(s, p) + times(p, n),
    decreases s.len(),
{
    if ends_with(s, p) {
        let t = s.take(s.len() - p.len());
        let n = law_trimmed_ends(t, p);
        assert(s =~= t + p);
        assert(s =~= trim_end_text(s, p) + times(p, n + 1));
        n + 1
    } else {
        assert(s =~= s + times(p, 0));
        0
    }
}

/// A text, so many times in a row.
pub open spec fn times(p: Seq<char>, n: nat) -> Seq<char>
    decreases n,
{
    if n == 0 {
        Seq::empty()
    } else {
        times(p, (n - 1) as nat) + p
    }
}

proof fn lemma_words_of_one(s: Seq<char>)
    requires
        s.len() > 0,
        forall|i: int| 0 <= i < s.len() ==> !is_white(#[trigger] s[i]),
    ensures
        words(s) == seq![s],
{
    lemma_word_len_is(s, s.len() as int);
    assert(s.take(s.len() as int) =~= s);
    assert(s.skip(s.len() as int).len() == 0);
    assert(words(s.skip(s.len() as int)) =~= Seq::<Seq<char>>::empty());
    assert(!is_white(s[0]));
    assert(words(s) =~= seq![s]);
}

/// A text without white space is one word; and the words of two texts with white space between them
/// are those of the one and then those of the other.
pub proof fn law_words_stand_between_white_space(a: Seq<char>, w: char, b: Seq<char>)
    requires
        is_white(w),
    ensures
        words(a + seq![w] + b) == words(a) + words(b),
        a.len() > 0 && (forall|i: int| 0 <= i < a.len() ==> !is_white(#[trigger] a[i])) ==> words(a)
            == seq![a],
        a.len() == 0 ==> words(a).len() == 0,
    decreases a.len(),
{
    let s = a + seq![w] + b;
    if a.len() > 0 && (forall|i: int| 0 <= i < a.len() ==> !is_white(#[trigger] a[i])) {
        lemma_words_of_one(a);
    }
    if a.len() == 0 {
        assert(s[0] == w);
        assert(s.skip(1) =~= b);
        assert(words(a) + words(b) =~= words(b));
    } else if is_white(a[0]) {
        assert(s[0] == a[0]);
        assert(s.skip(1) =~= a.skip(1) + seq![w] + b);
        law_words_stand_between_white_space(a.skip(1), w, b);
    } else {
        let n = word_len(a);
        lemma_word_len(a);
        lemma_word_len_parts(a);
        assert(s[0] == a[0]);
        assert forall|k: int| 0 <= k < n implies !is_white(s[k]) by {
            assert(s[k] == a[k]);
        }
        assert(n < s.len());
        assert(s[n] == if n < a.len() {
            a[n]
        } else {
            w
        });
        lemma_word_len_is(s, n);
        assert(s.take(n) =~= a.take(n));
        assert(n > 0);
        assert(s.skip(n) =~= a.skip(n) + seq![w] + b);
        law_words_stand_between_white_space(a.skip(n), w, b);
        assert(words(a) == seq![a.take(n)] + words(a.skip(n)));
        assert(words(s) =~= words(a) + words(b));
    }
}

proof fn lemma_word_len_parts(s: Seq<char>)
    ensures
        0 <= word_len(s) <= s.len(),
        forall|k: int| 0 <= k < word_len(s) ==> !is_white(s[k]),
        word_len(s) < s.len() ==> is_white(s[word_len(s)]),
    decreases s.len(),
{
    if s.len() == 0 || is_white(s[0]) {
    } else {
        let t = s.skip(1);
        lemma_word_len_parts(t);
        assert forall|k: int| 0 <= k < word_len(s) implies !is_white(s[k]) by {
            if k > 0 {
                assert(t[k - 1] == s[k]);
            }
        }
        if word_len(s) < s.len() {
            assert(t[word_len(t)] == s[word_len(s)]);
        }
    }
}

/// Whether a text holds something else than white space.
pub open spec fn says_something(s: Seq<char>) -> bool {
    exists|i: int| 0 <= i < s.len() && !is_white(#[trigger] s[i])
}

proof fn lemma_words_of_blank(s: Seq<char>)
    ensures
        words(s).len() > 0 <==> says_something(s),
    decreases s.len(),
{
    if s.len() > 0 {
        if is_white(s[0]) {
            let t = s.skip(1);
            lemma_words_of_blank(t);
            if says_something(s) {
                let i = choose|i: int| 0 <= i < s.len() && !is_white(#[trigger] s[i]);
                assert(!is_white(t[i - 1]));
            }
            if says_something(t) {
                let i = choose|i: int| 0 <= i < t.len() && !is_white(#[trigger] t[i]);
                assert(!is_white(s[i + 1]));
            }
        } else {
            lemma_word_len(s);
            assert(word_len(s) > 0) by {
                lemma_word_len(s.skip(1));
            }
            assert(!is_white(s[0]));
        }
    }
}

/// Evening out white space keeps every word: a text without white space is left as it is, blank texts
/// come to nothing, and two texts with white space between them come to the two with one blank between
/// them.
pub proof fn law_squeezing_keeps_every_word(a: Seq<char>, w: char, b: Seq<char>)
    requires
        is_white(w),
    ensures
        says_something(a) <==> squeeze(a).len() > 0,
        (forall|i: int| 0 <= i < a.len() ==> !is_white(#[trigger] a[i])) ==> squeeze(a) == a,
        squeeze(a + seq![w] + b) == if says_something(a) && says_something(b) {
            squeeze(a) + seq![' '] + squeeze(b)
        } else if says_something(a) {
            squeeze(a)
        } else {
            squeeze(b)
        },
{
    law_words_stand_between_white_space(a, w, b);
    law_joining_in_parts(words(a), words(b), seq![' ']);
    lemma_words_of_blank(a);
    lemma_words_of_blank(b);
    lemma_joined_words(a);
    if forall|i: int| 0 <= i < a.len() ==> !is_white(#[trigger] a[i]) {
        if a.len() > 0 {
            lemma_words_of_one(a);
        } else {
            assert(squeeze(a) =~= a);
        }
    }
    assert(words(a) + Seq::<Seq<char>>::empty() =~= words(a));
    assert(Seq::<Seq<char>>::empty() + words(b) =~= words(b));
    if !says_something(a) {
        assert(words(a) =~= Seq::<Seq<char>>::empty());
    }
    if !says_something(b) {
        assert(words(b) =~= Seq::<Seq<char>>::empty());
    }
}

proof fn lemma_joined_words(s: Seq<char>)
    ensures
        squeeze(s).len() > 0 <==> words(s).len() > 0,
{
    lemma_words_are_words(s);
    let w = words(s);
    if w.len() > 0 {
        assert(is_word(w[w.len() - 1]));
        lemma_join_len(w, seq![' ']);
    }
}

proof fn lemma_join_len(parts: Seq<Seq<char>>, sep: Seq<char>)
    requires
        parts.len() > 0,
    ensures
        join(parts, sep).len() >= parts.last().len(),
{
}

/// The words of a text with its white space evened out are the words of the text.
pub proof fn law_squeezed_texts_have_the_same_words(s: Seq<char>)
    ensures
        words(squeeze(s)) == words(s),
    decreases s.len(),
{
    lemma_words_of_join(words(s));
    lemma_words_are_words(s);
}

proof fn lemma_words_are_words(s: Seq<char>)
    ensures
        forall|i: int|
            0 <= i < words(s).len() ==> is_word(#[trigger] words(s)[i]),
    decreases s.len(),
{
    if s.len() > 0 {
        if is_white(s[0]) {
            lemma_words_are_words(s.skip(1));
            assert(words(s) == words(s.skip(1)));
        } else {
            lemma_word_len_parts(s);
            let n = word_len(s);
            if 0 < n <= s.len() {
                lemma_words_are_words(s.skip(n));
                assert(is_word(s.take(n)));
                assert forall|i: int| 0 <= i < words(s).len() implies is_word(
                    #[trigger] words(s)[i],
                ) by {
                    if i > 0 {
                        assert(words(s)[i] == words(s.skip(n))[i - 1]);
                    } else {
                        assert(words(s)[0] == s.take(n));
                    }
                }
            } else {
                assert(words(s).len() == 0);
            }
        }
    }
}

/// Whether a text is one word.
pub open spec fn is_word(s: Seq<char>) -> bool {
    s.len() > 0 && forall|k: int| 0 <= k < s.len() ==> !is_white(#[trigger] s[k])
}

proof fn lemma_words_of_join(v: Seq<Seq<char>>)
    ensures
        (forall|i: int| 0 <= i < v.len() ==> is_word(#[trigger] v[i])) ==> words(
            join(v, seq![' ']),
        ) == v,
    decreases v.len(),
{
    if forall|i: int| 0 <= i < v.len() ==> is_word(#[trigger] v[i]) {
        if v.len() == 0 {
            assert(words(join(v, seq![' '])) =~= v);
        } else if v.len() == 1 {
            assert(is_word(v[0]));
            lemma_words_of_one(v[0]);
            assert(v =~= seq![v[0]]);
        } else {
            let prev = v.drop_last();
            assert forall|i: int| 0 <= i < prev.len() implies is_word(#[trigger] prev[i]) by {
                assert(prev[i] == v[i]);
            }
            lemma_words_of_join(prev);
            assert(is_word(v[v.len() - 1]));
            lemma_words_of_one(v.last());
            law_words_stand_between_white_space(join(prev, seq![' ']), ' ', v.last());
            assert(v =~= prev + seq![v.last()]);
        }
    }
}

/// A number that is written in decimal is read as that number, and is written without a leading zero.
pub proof fn law_numbers_are_read_back(n: u64)
    ensures
        parse_u64(decimal(n as nat)) == Some(n),
        parse_u64(seq!['+'] + decimal(n as nat)) == Some(n),
        n > 0 ==> decimal(n as nat)[0] != '0',
        decimal(n as nat).len() > 0,
{
    lemma_number_of_decimal(n as nat);
    lemma_decimal_digits(n as nat);
    let d = decimal(n as nat);
    assert(is_digit(d[0]));
    assert((seq!['+'] + d).skip(1) =~= d);
}

proof fn lemma_number_of_decimal(n: nat)
    ensures
        number(decimal(n)) == n,
        decimal(n).len() > 0,
        n > 0 ==> decimal(n)[0] != '0',
    decreases n,
{
    if n < 10 {
        let d = decimal(n);
        assert(d.drop_last().len() == 0);
        assert(number(d.drop_last()) == 0);
        assert(d.last() == digit(n as int));
    } else {
        lemma_number_of_decimal(n / 10);
        let d = decimal(n);
        assert(d.drop_last() =~= decimal(n / 10));
        assert(d[0] == decimal(n / 10)[0]);
    }
}

/// What is read as a number is digits, after a `+` at most, and every digit counts: with one digit more
/// the number is ten times as large, and that digit.
pub proof fn law_every_digit_counts(s: Seq<char>, d: char)
    requires
        '0' <= d <= '9',
        parse_u64(s) is Some,
        parse_u64(s)->Some_0 * 10 + 9 <= u64::MAX,
    ensures
        parse_u64(s.push(d)) == Some((parse_u64(s)->Some_0 * 10 + (d as u32 - 48)) as u64),
        forall|i: int| 0 <= i < s.len() ==> is_digit(#[trigger] s[i]) || (i == 0 && s[i] == '+'),
{
    let t = s.push(d);
    let a = if s.len() > 0 && s[0] == '+' {
        s.skip(1)
    } else {
        s
    };
    let b = if t.len() > 0 && t[0] == '+' {
        t.skip(1)
    } else {
        t
    };
    assert(s.len() > 0);
    assert(t[0] == s[0]);
    assert(b =~= a.push(d));
    assert(b.drop_last() =~= a);
    assert(all_digits(b)) by {
        assert forall|k: int| 0 <= k < b.len() implies is_digit(#[trigger] b[k]) by {
            if k < a.len() {
                assert(b[k] == a[k]);
            }
        }
    }
    assert forall|i: int| 0 <= i < s.len() implies is_digit(#[trigger] s[i]) || (i == 0 && s[i]
        == '+') by {
        if s[0] == '+' {
            if i > 0 {
                assert(is_digit(a[i - 1]));
            }
        } else {
            assert(is_digit(a[i]));
        }
    }
}

/// One text comes before another exactly where, after a start that they share, it ends first, or has the
/// smaller character.
pub proof fn law_texts_are_ordered_by_their_first_difference(a: Seq<char>, b: Seq<char>, k: int)
    requires
        0 <= k <= a.len(),
        k <= b.len(),
        a.take(k) == b.take(k),
        k < a.len() && k < b.len() ==> a[k] != b[k],
    ensures
        text_less(a, b) <==> k < b.len() && (k == a.len() || a[k] < b[k]),
    decreases k,
{
    if k > 0 {
        assert(a.take(k)[0] == b.take(k)[0]);
        let (x, y) = (a.skip(1), b.skip(1));
        assert(x.take(k - 1) =~= a.take(k).skip(1));
        assert(y.take(k - 1) =~= b.take(k).skip(1));
        assert(k < a.len() ==> x[k - 1] == a[k]);
        assert(k < b.len() ==> y[k - 1] == b[k]);
        assert(a[0] == b[0]) by {
            assert(a.take(k)[0] == a[0] && b.take(k)[0] == b[0]);
        }
        law_texts_are_ordered_by_their_first_difference(x, y, k - 1);
    }
}

/// A text occurs in another exactly where the other is something, that text, and something more.
pub proof fn law_occurring(a: Seq<char>, p: Seq<char>, b: Seq<char>)
    ensures
        contains_text(a + p + b, p),
        starts_with(p + b, p),
        ends_with(a + p, p),
        contains_text(a, p) <==> exists|x: Seq<char>, y: Seq<char>| a == #[trigger] (x + p + y),
        starts_with(a, p) <==> exists|y: Seq<char>| a == #[trigger] (p + y),
        ends_with(a, p) <==> exists|x: Seq<char>| a == #[trigger] (x + p),
{
    assert((a + p + b).subrange(a.len() as int, (a.len() + p.len()) as int) =~= p);
    assert(occurs_at(a + p + b, p, a.len() as int));
    assert((p + b).subrange(0, p.len() as int) =~= p);
    assert((a + p).subrange(a.len() as int, (a.len() + p.len()) as int) =~= p);
    if contains_text(a, p) {
        let i = choose|i: int| #[trigger] occurs_at(a, p, i);
        assert(a =~= a.take(i) + p + a.skip(i + p.len()));
    }
    if exists|x: Seq<char>, y: Seq<char>| a == #[trigger] (x + p + y) {
        let (x, y) = choose|x: Seq<char>, y: Seq<char>| a == #[trigger] (x + p + y);
        assert(a.subrange(x.len() as int, (x.len() + p.len()) as int) =~= p);
        assert(occurs_at(a, p, x.len() as int));
    }
    if starts_with(a, p) {
        assert(a =~= p + a.skip(p.len() as int));
    }
    if exists|y: Seq<char>| a == #[trigger] (p + y) {
        let y = choose|y: Seq<char>| a == #[trigger] (p + y);
        assert(a.subrange(0, p.len() as int) =~= p);
    }
    if ends_with(a, p) {
        assert(a =~= a.take(a.len() - p.len()) + p);
    }
    if exists|x: Seq<char>| a == #[trigger] (x + p) {
        let x = choose|x: Seq<char>| a == #[trigger] (x + p);
        assert(a.subrange(a.len() - p.len(), a.len() as int) =~= p);
    }
}

/// The first occurrence of `from` is replaced, and then those that follow it.
pub proof fn law_first_occurrence_is_replaced(
    a: Seq<char>,
    rest: Seq<char>,
    from: Seq<char>,
    to: Seq<char>,
)
    requires
        from.len() > 0,
        !contains_text(a + from.drop_last(), from),
    ensures
        replace(a + from + rest, from, to) == a + to + replace(rest, from, to),
    decreases a.len(),
{
    let s = a + from + rest;
    if a.len() == 0 {
        assert(s =~= from + rest);
        assert(!Seq::<char>::empty().contains(from[0]));
        law_replacing_starts_at_the_first(Seq::empty(), rest, from, to);
        assert(a + to + replace(rest, from, to) =~= to + replace(rest, from, to));
    } else {
        let b = a.skip(1);
        let x = a + from.drop_last();
        let y = b + from.drop_last();
        if occurs_at(s, from, 0) {
            assert(x.subrange(0, from.len() as int) =~= s.subrange(0, from.len() as int));
            assert(occurs_at(x, from, 0));
        }
        assert forall|i: int| !#[trigger] occurs_at(y, from, i) by {
            if occurs_at(y, from, i) {
                assert(x.subrange(i + 1, i + 1 + from.len()) =~= y.subrange(i, i + from.len()));
                assert(occurs_at(x, from, i + 1));
            }
        }
        assert(s.skip(1) =~= b + from + rest);
        law_first_occurrence_is_replaced(b, rest, from, to);
        assert(s[0] == a[0]);
        assert(seq![a[0]] + (b + to + replace(rest, from, to)) =~= a + to + replace(
            rest,
            from,
            to,
        ));
    }
}

/// Pieces that do not hold `c` are found again where they are joined with it and split at it.
pub proof fn law_joined_pieces_are_split_again(parts: Seq<Seq<char>>, c: char)
    requires
        parts.len() > 0,
        forall|i: int| 0 <= i < parts.len() ==> !(#[trigger] parts[i]).contains(c),
    ensures
        split(join(parts, seq![c]), c) == parts,
    decreases parts.len(),
{
    let s = join(parts, seq![c]);
    let p = parts[0];
    if parts.len() == 1 {
        law_before_the_first(p, c);
        lemma_find(p, c);
        assert(split(p, c) =~= parts);
    } else {
        let rest = parts.skip(1);
        assert forall|i: int| 0 <= i < rest.len() implies !(#[trigger] rest[i]).contains(c) by {
            assert(rest[i] == parts[i + 1]);
        }
        law_joined_pieces_are_split_again(rest, c);
        law_joining_in_parts(seq![p], rest, seq![c]);
        assert(seq![p] + rest =~= parts);
        let tail = join(rest, seq![c]);
        assert(s == p + seq![c] + tail);
        assert forall|k: int| 0 <= k < p.len() implies s[k] != c by {
            assert(p.contains(p[k]));
            assert(s[k] == p[k]);
        }
        assert(s[p.len() as int] == c);
        lemma_find_is(s, c, p.len() as int);
        assert(s.take(p.len() as int) =~= p);
        assert(s.skip((p.len() + 1) as int) =~= tail);
        assert(split(s, c) == seq![p] + split(tail, c));
    }
}

/// Contracts speak of every text of a list, and of the whole of it.
pub proof fn law_lists_of_texts_are_seen_whole(v: Seq<String>, w: Seq<Vec<char>>)
    ensures
        texts(v).len() == v.len(),
        forall|i: int| 0 <= i < v.len() ==> #[trigger] texts(v)[i] == v[i]@,
        pieces(w).len() == w.len(),
        forall|i: int| 0 <= i < w.len() ==> #[trigger] pieces(w)[i] == w[i]@,
{
}

} // verus!
