//! The storage format of a book: one small JSON object.
//!
//! A book is written as `{"name":...,"author":...,"published":...}`, the
//! three values as JSON string literals, the date in its ISO-8601 form. The
//! reader accepts whitespace between tokens and the three members in any
//! order, each exactly once, and rejects everything else: a malformed text,
//! a missing or unknown member, a duplicated member, or a value that is not
//! a valid calendar date. `lemma_decode_encode` proves that reading an
//! encoded book always returns the book unchanged.

use vstd::prelude::*;

use crate::date::{date_valid, spec_date_str, spec_parse_date, Date};
use crate::jsontext::{
    escape_str, is_json_ws, parse_string_body, plain_char, skip_ws,
};

verus! {

/// One book: its name, its author, and its publication date.
pub struct Book {
    pub name: String,
    pub author: String,
    pub published: Date,
}

/// A well-formed book: its date is a real calendar date.
pub open spec fn book_wf(b: Book) -> bool {
    date_valid(b.published)
}

/// The key of the name member.
pub open spec fn key_name() -> Seq<char> {
    seq!['n', 'a', 'm', 'e']
}

/// The key of the author member.
pub open spec fn key_author() -> Seq<char> {
    seq!['a', 'u', 't', 'h', 'o', 'r']
}

/// The key of the published member.
pub open spec fn key_published() -> Seq<char> {
    seq!['p', 'u', 'b', 'l', 'i', 's', 'h', 'e', 'd']
}

/// The text up to and including the opening quote of the name value.
pub open spec fn enc_head() -> Seq<char> {
    seq!['{', '"', 'n', 'a', 'm', 'e', '"', ':', '"']
}

/// The text between the name value and the author value.
pub open spec fn enc_mid1() -> Seq<char> {
    seq!['"', ',', '"', 'a', 'u', 't', 'h', 'o', 'r', '"', ':', '"']
}

/// The text between the author value and the date value.
pub open spec fn enc_mid2() -> Seq<char> {
    seq!['"', ',', '"', 'p', 'u', 'b', 'l', 'i', 's', 'h', 'e', 'd', '"', ':', '"']
}

/// The closing text after the date value.
pub open spec fn enc_tail() -> Seq<char> {
    seq!['"', '}']
}

/// The full encoded text of a book with name `n`, author `a` and date `d`.
pub open spec fn spec_encode_book(n: Seq<char>, a: Seq<char>, d: Date) -> Seq<char> {
    enc_head() + escape_str(n) + enc_mid1() + escape_str(a) + enc_mid2() + spec_date_str(d)
        + enc_tail()
}

/// Reading one `"key" : "value"` member from position `i`, which must hold
/// the opening quote of the key; trailing whitespace is consumed.
pub open spec fn parse_member(s: Seq<char>, i: int) -> Option<(Seq<char>, Seq<char>, int)> {
    if !(0 <= i < s.len() && s[i] == '"') {
        None
    } else {
        match parse_string_body(s, i + 1) {
            None => None,
            Some((k, j)) => {
                let j2 = skip_ws(s, j);
                if !(0 <= j2 < s.len() && s[j2] == ':') {
                    None
                } else {
                    let j3 = skip_ws(s, j2 + 1);
                    if !(0 <= j3 < s.len() && s[j3] == '"') {
                        None
                    } else {
                        match parse_string_body(s, j3 + 1) {
                            None => None,
                            Some((v, j4)) => Some((k, v, skip_ws(s, j4))),
                        }
                    }
                }
            },
        }
    }
}

/// The value bound to `key` among three read members, first match first.
pub open spec fn field_value(
    k1: Seq<char>,
    v1: Seq<char>,
    k2: Seq<char>,
    v2: Seq<char>,
    k3: Seq<char>,
    v3: Seq<char>,
    key: Seq<char>,
) -> Option<Seq<char>> {
    if k1 == key {
        Some(v1)
    } else if k2 == key {
        Some(v2)
    } else if k3 == key {
        Some(v3)
    } else {
        None
    }
}

/// Three read members make a book text when their keys are pairwise
/// distinct and are exactly the three expected keys.
pub open spec fn assemble_fields(
    k1: Seq<char>,
    v1: Seq<char>,
    k2: Seq<char>,
    v2: Seq<char>,
    k3: Seq<char>,
    v3: Seq<char>,
) -> Option<(Seq<char>, Seq<char>, Seq<char>)> {
    if k1 != k2 && k1 != k3 && k2 != k3 {
        match (
            field_value(k1, v1, k2, v2, k3, v3, key_name()),
            field_value(k1, v1, k2, v2, k3, v3, key_author()),
            field_value(k1, v1, k2, v2, k3, v3, key_published()),
        ) {
            (Some(n), Some(a), Some(p)) => Some((n, a, p)),
            _ => None,
        }
    } else {
        None
    }
}

/// Reading a whole book text: the name, author and published values as raw
/// texts, or nothing where the text is not a book object.
pub open spec fn parse_book_text(s: Seq<char>) -> Option<(Seq<char>, Seq<char>, Seq<char>)> {
    let i0 = skip_ws(s, 0);
    if !(0 <= i0 < s.len() && s[i0] == '{') {
        None
    } else {
        match parse_member(s, skip_ws(s, i0 + 1)) {
            None => None,
            Some((k1, v1, p1)) => {
                if !(0 <= p1 < s.len() && s[p1] == ',') {
                    None
                } else {
                    match parse_member(s, skip_ws(s, p1 + 1)) {
                        None => None,
                        Some((k2, v2, p2)) => {
                            if !(0 <= p2 < s.len() && s[p2] == ',') {
                                None
                            } else {
                                match parse_member(s, skip_ws(s, p2 + 1)) {
                                    None => None,
                                    Some((k3, v3, p3)) => {
                                        if !(0 <= p3 < s.len() && s[p3] == '}') {
                                            None
                                        } else if skip_ws(s, p3 + 1) != s.len() {
                                            None
                                        } else {
                                            assemble_fields(k1, v1, k2, v2, k3, v3)
                                        }
                                    },
                                }
                            }
                        },
                    }
                }
            },
        }
    }
}

/// What decoding a text yields: the name, the author and the parsed date,
/// or nothing where the text is rejected.
pub open spec fn spec_decode_book(s: Seq<char>) -> Option<(Seq<char>, Seq<char>, Date)> {
    match parse_book_text(s) {
        None => None,
        Some((n, a, p)) => match spec_parse_date(p) {
            None => None,
            Some(d) => Some((n, a, d)),
        },
    }
}

/// Encode `b` as its storage text.
#[verifier::rlimit(30)]
pub fn encode_book(b: &Book) -> (r: String)
    requires
        book_wf(*b),
    ensures
        r@ == spec_encode_book(b.name@, b.author@, b.published),
{
    let mut out: Vec<char> = Vec::new();
    out.push('{');
    out.push('"');
    out.push('n');
    out.push('a');
    out.push('m');
    out.push('e');
    out.push('"');
    out.push(':');
    out.push('"');
    proof {
        assert(out@ =~= enc_head());
    }
    crate::jsontext::push_escaped(&mut out, b.name.as_str());
    let ghost s1 = out@;
    out.push('"');
    out.push(',');
    out.push('"');
    out.push('a');
    out.push('u');
    out.push('t');
    out.push('h');
    out.push('o');
    out.push('r');
    out.push('"');
    out.push(':');
    out.push('"');
    proof {
        assert(out@ =~= s1 + enc_mid1());
    }
    crate::jsontext::push_escaped(&mut out, b.author.as_str());
    let ghost s2 = out@;
    out.push('"');
    out.push(',');
    out.push('"');
    out.push('p');
    out.push('u');
    out.push('b');
    out.push('l');
    out.push('i');
    out.push('s');
    out.push('h');
    out.push('e');
    out.push('d');
    out.push('"');
    out.push(':');
    out.push('"');
    proof {
        assert(out@ =~= s2 + enc_mid2());
    }
    crate::date::push_date(&mut out, &b.published);
    let ghost s3 = out@;
    out.push('"');
    out.push('}');
    proof {
        assert(out@ =~= s3 + enc_tail());
        assert(out@ =~= spec_encode_book(b.name@, b.author@, b.published));
    }
    crate::strutil::chars_to_string(&out)
}

/// The failure of decoding: the text is not a well-formed book object.
#[derive(Clone, Copy, PartialEq, Eq, Structural, Debug)]
pub struct DecodeError;

/// Whether the characters of `k` spell exactly `lit`.
fn chars_match(k: &Vec<char>, lit: &str) -> (r: bool)
    ensures
        r == (k@ == lit@),
{
    let n = lit.unicode_len();
    if k.len() != n {
        proof {
            assert(k@.len() != lit@.len());
        }
        return false;
    }
    let mut i: usize = 0;
    while i < n
        invariant
            n == lit@.len(),
            k@.len() == n,
            i <= n,
            forall|j: int| 0 <= j < i ==> k@[j] == lit@[j],
        decreases n - i,
    {
        if k[i] != lit.get_char(i) {
            proof {
                assert(k@[i as int] != lit@[i as int]);
            }
            return false;
        }
        i = i + 1;
    }
    proof {
        assert(k@ =~= lit@);
    }
    true
}

/// Whether two character vectors hold the same characters.
fn chars_eq(x: &Vec<char>, y: &Vec<char>) -> (r: bool)
    ensures
        r == (x@ == y@),
{
    if x.len() != y.len() {
        proof {
            assert(x@.len() != y@.len());
        }
        return false;
    }
    let n = x.len();
    let mut i: usize = 0;
    while i < n
        invariant
            x@.len() == n,
            y@.len() == n,
            i <= n,
            forall|j: int| 0 <= j < i ==> x@[j] == y@[j],
        decreases n - i,
    {
        if x[i] != y[i] {
            proof {
                assert(x@[i as int] != y@[i as int]);
            }
            return false;
        }
        i = i + 1;
    }
    proof {
        assert(x@ =~= y@);
    }
    true
}

/// Read one `"key" : "value"` member starting at position `i`.
fn read_member(s: &str, i: usize) -> (r: Option<(Vec<char>, Vec<char>, usize)>)
    ensures
        match r {
            Some(m) => parse_member(s@, i as int) == Some((m.0@, m.1@, m.2 as int)),
            None => parse_member(s@, i as int) is None,
        },
{
    let len = s.unicode_len();
    if !(i < len) {
        return None;
    }
    if s.get_char(i) != '"' {
        return None;
    }
    let (k, j) = match crate::jsontext::parse_string_chars(s, i + 1) {
        Some(p) => p,
        None => {
            return None;
        },
    };
    proof {
        crate::jsontext::lemma_parse_string_body_bounds(s@, i as int + 1);
    }
    let j2 = crate::jsontext::ws_end(s, j);
    if !(j2 < len) {
        return None;
    }
    if s.get_char(j2) != ':' {
        return None;
    }
    let j3 = crate::jsontext::ws_end(s, j2 + 1);
    if !(j3 < len) {
        return None;
    }
    if s.get_char(j3) != '"' {
        return None;
    }
    let (v, j4) = match crate::jsontext::parse_string_chars(s, j3 + 1) {
        Some(p) => p,
        None => {
            return None;
        },
    };
    let j5 = crate::jsontext::ws_end(s, j4);
    Some((k, v, j5))
}

/// Decode a storage text into a book, or report why not as one rejection.
pub fn decode_book(s: &str) -> (r: Result<Book, DecodeError>)
    ensures
        match spec_decode_book(s@) {
            Some(t) => r matches Ok(b) && b.name@ == t.0 && b.author@ == t.1 && b.published
                == t.2,
            None => r matches Err(_),
        },
        r matches Ok(b) ==> book_wf(b),
{
    let len = s.unicode_len();
    let i0 = crate::jsontext::ws_end(s, 0);
    proof {
        crate::jsontext::lemma_skip_ws_bounds(s@, 0);
    }
    if !(i0 < len) {
        return Err(DecodeError);
    }
    if s.get_char(i0) != '{' {
        return Err(DecodeError);
    }
    let i1 = crate::jsontext::ws_end(s, i0 + 1);
    let (k1, v1, p1) = match read_member(s, i1) {
        Some(m) => m,
        None => {
            return Err(DecodeError);
        },
    };
    if !(p1 < len) {
        return Err(DecodeError);
    }
    if s.get_char(p1) != ',' {
        return Err(DecodeError);
    }
    let i2 = crate::jsontext::ws_end(s, p1 + 1);
    let (k2, v2, p2) = match read_member(s, i2) {
        Some(m) => m,
        None => {
            return Err(DecodeError);
        },
    };
    if !(p2 < len) {
        return Err(DecodeError);
    }
    if s.get_char(p2) != ',' {
        return Err(DecodeError);
    }
    let i3 = crate::jsontext::ws_end(s, p2 + 1);
    let (k3, v3, p3) = match read_member(s, i3) {
        Some(m) => m,
        None => {
            return Err(DecodeError);
        },
    };
    if !(p3 < len) {
        return Err(DecodeError);
    }
    if s.get_char(p3) != '}' {
        return Err(DecodeError);
    }
    if crate::jsontext::ws_end(s, p3 + 1) != len {
        return Err(DecodeError);
    }
    if chars_eq(&k1, &k2) || chars_eq(&k1, &k3) || chars_eq(&k2, &k3) {
        return Err(DecodeError);
    }
    proof {
        reveal_strlit("name");
        reveal_strlit("author");
        reveal_strlit("published");
        assert("name"@ =~= key_name());
        assert("author"@ =~= key_author());
        assert("published"@ =~= key_published());
    }
    let nv: &Vec<char> = if chars_match(&k1, "name") {
        &v1
    } else if chars_match(&k2, "name") {
        &v2
    } else if chars_match(&k3, "name") {
        &v3
    } else {
        return Err(DecodeError);
    };
    let av: &Vec<char> = if chars_match(&k1, "author") {
        &v1
    } else if chars_match(&k2, "author") {
        &v2
    } else if chars_match(&k3, "author") {
        &v3
    } else {
        return Err(DecodeError);
    };
    let pv: &Vec<char> = if chars_match(&k1, "published") {
        &v1
    } else if chars_match(&k2, "published") {
        &v2
    } else if chars_match(&k3, "published") {
        &v3
    } else {
        return Err(DecodeError);
    };
    let d = match crate::date::parse_date(pv) {
        Some(d) => d,
        None => {
            return Err(DecodeError);
        },
    };
    Ok(Book { name: crate::strutil::chars_to_string(nv), author: crate::strutil::chars_to_string(av), published: d })
}

/// Peeling a known prefix off a suffix of `s`.
proof fn lemma_suffix_at(s: Seq<char>, i: int, pre: Seq<char>, suf: Seq<char>)
    requires
        0 <= i <= s.len(),
        s.skip(i) == pre + suf,
    ensures
        s.skip(i + pre.len()) =~= suf,
        i + pre.len() + suf.len() == s.len(),
{
    assert(s.skip(i).len() == s.len() - i);
    assert forall|j: int| 0 <= j < suf.len() implies s.skip(i + pre.len() as int)[j] == suf[j] by {
        assert(s.skip(i + pre.len() as int)[j] == s[i + pre.len() + j]);
        assert(s.skip(i)[pre.len() + j] == s[i + pre.len() + j]);
        assert((pre + suf)[pre.len() + j] == suf[j]);
    }
}

/// A lower-case letter passes through the escaper unchanged.
proof fn lemma_letter_plain(c: char)
    requires
        97 <= c as u32 <= 122,
    ensures
        plain_char(c),
{
    if c == '"' {
        assert('"' as u32 == 34);
    }
    if c == '\\' {
        assert('\\' as u32 == 92);
    }
}

/// A decimal digit passes through the escaper unchanged.
proof fn lemma_digit_plain(v: int)
    requires
        0 <= v <= 9,
    ensures
        plain_char(crate::date::digit_char(v)),
{
    let c = crate::date::digit_char(v);
    assert((48 + v) as u8 as char as u32 == 48 + v);
    if c == '"' {
        assert('"' as u32 == 34);
    }
    if c == '\\' {
        assert('\\' as u32 == 92);
    }
}

/// The three member keys hold only characters the escaper keeps.
proof fn lemma_keys_plain()
    ensures
        forall|j: int| 0 <= j < key_name().len() ==> plain_char(#[trigger] key_name()[j]),
        forall|j: int| 0 <= j < key_author().len() ==> plain_char(#[trigger] key_author()[j]),
        forall|j: int|
            0 <= j < key_published().len() ==> plain_char(#[trigger] key_published()[j]),
{
    assert('n' as u32 == 110 && 'a' as u32 == 97 && 'm' as u32 == 109 && 'e' as u32 == 101);
    assert('u' as u32 == 117 && 't' as u32 == 116 && 'h' as u32 == 104 && 'o' as u32 == 111);
    assert('r' as u32 == 114 && 'p' as u32 == 112 && 'b' as u32 == 98 && 'l' as u32 == 108);
    assert('i' as u32 == 105 && 's' as u32 == 115 && 'd' as u32 == 100);
    assert forall|j: int| 0 <= j < key_name().len() implies plain_char(
        #[trigger] key_name()[j],
    ) by {
        lemma_letter_plain(key_name()[j]);
    }
    assert forall|j: int| 0 <= j < key_author().len() implies plain_char(
        #[trigger] key_author()[j],
    ) by {
        lemma_letter_plain(key_author()[j]);
    }
    assert forall|j: int| 0 <= j < key_published().len() implies plain_char(
        #[trigger] key_published()[j],
    ) by {
        lemma_letter_plain(key_published()[j]);
    }
}

/// The date text holds only characters the escaper keeps.
proof fn lemma_date_text_plain(d: Date)
    requires
        date_valid(d),
    ensures
        forall|j: int|
            0 <= j < spec_date_str(d).len() ==> plain_char(#[trigger] spec_date_str(d)[j]),
{
    let ds = spec_date_str(d);
    assert(0 <= d.year as int / 1000 <= 9) by (nonlinear_arith)
        requires
            d.year <= 9999,
    ;
    assert(0 <= (d.year as int / 100) % 10 <= 9);
    assert(0 <= (d.year as int / 10) % 10 <= 9);
    assert(0 <= d.year as int % 10 <= 9);
    assert(0 <= d.month as int / 10 <= 9);
    assert(0 <= d.month as int % 10 <= 9);
    assert(0 <= d.day as int / 10 <= 9);
    assert(0 <= d.day as int % 10 <= 9);
    assert forall|j: int| 0 <= j < ds.len() implies plain_char(#[trigger] ds[j]) by {
        if j == 4 || j == 7 {
            assert(ds[j] == '-');
            assert('-' as u32 == 45);
        } else if j == 0 {
            lemma_digit_plain(d.year as int / 1000);
        } else if j == 1 {
            lemma_digit_plain((d.year as int / 100) % 10);
        } else if j == 2 {
            lemma_digit_plain((d.year as int / 10) % 10);
        } else if j == 3 {
            lemma_digit_plain(d.year as int % 10);
        } else if j == 5 {
            lemma_digit_plain(d.month as int / 10);
        } else if j == 6 {
            lemma_digit_plain(d.month as int % 10);
        } else if j == 8 {
            lemma_digit_plain(d.day as int / 10);
        } else {
            lemma_digit_plain(d.day as int % 10);
        }
    }
}

/// Reading one canonically written member: the text from `i` on holds the
/// quoted `key`, a colon, the quoted escaped `val`, and then `rest`, whose
/// first character is no whitespace; the read returns `key` and `val` and
/// stops at the start of `rest`.
#[verifier::rlimit(50)]
proof fn lemma_parse_member_canon(
    s: Seq<char>,
    i: int,
    key: Seq<char>,
    val: Seq<char>,
    rest: Seq<char>,
)
    requires
        0 <= i <= s.len(),
        s.skip(i) == seq!['"'] + key + seq!['"', ':', '"'] + escape_str(val) + seq!['"'] + rest,
        forall|j: int| 0 <= j < key.len() ==> plain_char(#[trigger] key[j]),
        rest.len() > 0,
        !is_json_ws(rest[0]),
    ensures
        parse_member(s, i) == Some((key, val, i + key.len() + escape_str(val).len() + 5)),
{
    let ev = escape_str(val);
    let tail = s.skip(i);
    crate::jsontext::lemma_escape_plain(key);
    assert(tail.len() == s.len() - i);
    assert(s[i] == tail[0]);
    assert(tail[0] == '"');
    let restk = seq![':', '"'] + ev + seq!['"'] + rest;
    assert(tail =~= seq!['"'] + (escape_str(key) + seq!['"'] + restk));
    lemma_suffix_at(s, i, seq!['"'], escape_str(key) + seq!['"'] + restk);
    crate::jsontext::lemma_parse_escaped(s, i + 1, key, restk);
    let j = i + key.len() + 2;
    assert(parse_string_body(s, i + 1) == Some((key, j)));
    assert(s.skip(i + 1) =~= (escape_str(key) + seq!['"']) + restk);
    lemma_suffix_at(s, i + 1, escape_str(key) + seq!['"'], restk);
    assert(s.skip(j) =~= restk);
    assert(s[j] == s.skip(j)[0]);
    assert(s[j] == ':');
    assert(skip_ws(s, j) == j);
    assert(j + 1 < s.len());
    assert(s[j + 1] == s.skip(j)[1]);
    assert(s[j + 1] == '"');
    assert(skip_ws(s, j + 1) == j + 1);
    assert(s.skip(j) =~= seq![':', '"'] + (ev + seq!['"'] + rest));
    lemma_suffix_at(s, j, seq![':', '"'], ev + seq!['"'] + rest);
    crate::jsontext::lemma_parse_escaped(s, j + 2, val, rest);
    let j4 = j + 2 + ev.len() + 1;
    assert(parse_string_body(s, j + 2) == Some((val, j4)));
    assert(s.skip(j + 2) =~= (ev + seq!['"']) + rest);
    lemma_suffix_at(s, j + 2, ev + seq!['"'], rest);
    assert(s.skip(j4) =~= rest);
    assert(s[j4] == s.skip(j4)[0]);
    assert(s[j4] == rest[0]);
    assert(skip_ws(s, j4) == j4);
    assert(parse_member(s, i) == Some((key, val, j4)));
}

/// Decoding inverts encoding: the storage text of any book reads back as
/// exactly that book, whatever its name and author hold.
#[verifier::rlimit(100)]
pub proof fn lemma_decode_encode(n: Seq<char>, a: Seq<char>, d: Date)
    requires
        date_valid(d),
    ensures
        spec_decode_book(spec_encode_book(n, a, d)) == Some((n, a, d)),
{
    let s = spec_encode_book(n, a, d);
    let e1 = escape_str(n);
    let e2 = escape_str(a);
    let ds = spec_date_str(d);
    lemma_keys_plain();
    lemma_date_text_plain(d);
    crate::jsontext::lemma_escape_plain(ds);
    assert(escape_str(ds) == ds);
    assert(ds.len() == 10);
    let rest1 = seq![','] + seq!['"'] + key_author() + seq!['"', ':', '"'] + e2 + seq!['"']
        + seq![','] + seq!['"'] + key_published() + seq!['"', ':', '"'] + ds + seq!['"']
        + seq!['}'];
    let rest2 = seq![','] + seq!['"'] + key_published() + seq!['"', ':', '"'] + ds + seq!['"']
        + seq!['}'];
    assert(s[0] == '{');
    assert(s.skip(1) =~= seq!['"'] + key_name() + seq!['"', ':', '"'] + e1 + seq!['"'] + rest1);
    assert(rest1[0] == ',');
    lemma_parse_member_canon(s, 1, key_name(), n, rest1);
    let q1: int = 1 + key_name().len() as int + e1.len() as int + 5;
    assert(parse_member(s, 1) == Some((key_name(), n, q1)));
    assert(s.skip(1) =~= (seq!['"'] + key_name() + seq!['"', ':', '"'] + e1 + seq!['"']) + rest1);
    lemma_suffix_at(s, 1, seq!['"'] + key_name() + seq!['"', ':', '"'] + e1 + seq!['"'], rest1);
    assert(s.skip(q1) =~= rest1);
    assert(s[q1] == s.skip(q1)[0]);
    assert(s[q1] == ',');
    assert(s.skip(q1) =~= seq![','] + (seq!['"'] + key_author() + seq!['"', ':', '"'] + e2
        + seq!['"'] + rest2));
    lemma_suffix_at(
        s,
        q1,
        seq![','],
        seq!['"'] + key_author() + seq!['"', ':', '"'] + e2 + seq!['"'] + rest2,
    );
    assert(s.skip(q1 + 1) =~= seq!['"'] + key_author() + seq!['"', ':', '"'] + e2 + seq!['"']
        + rest2);
    assert(s[q1 + 1] == s.skip(q1 + 1)[0]);
    assert(s[q1 + 1] == '"');
    assert(skip_ws(s, q1 + 1) == q1 + 1);
    lemma_parse_member_canon(s, q1 + 1, key_author(), a, rest2);
    let q2: int = q1 + 1 + key_author().len() as int + e2.len() as int + 5;
    assert(parse_member(s, q1 + 1) == Some((key_author(), a, q2)));
    assert(s.skip(q1 + 1) =~= (seq!['"'] + key_author() + seq!['"', ':', '"'] + e2 + seq!['"'])
        + rest2);
    lemma_suffix_at(
        s,
        q1 + 1,
        seq!['"'] + key_author() + seq!['"', ':', '"'] + e2 + seq!['"'],
        rest2,
    );
    assert(s.skip(q2) =~= rest2);
    assert(s[q2] == s.skip(q2)[0]);
    assert(s[q2] == ',');
    assert(s.skip(q2) =~= seq![','] + (seq!['"'] + key_published() + seq!['"', ':', '"'] + ds
        + seq!['"'] + seq!['}']));
    lemma_suffix_at(
        s,
        q2,
        seq![','],
        seq!['"'] + key_published() + seq!['"', ':', '"'] + ds + seq!['"'] + seq!['}'],
    );
    assert(s.skip(q2 + 1) =~= seq!['"'] + key_published() + seq!['"', ':', '"'] + ds + seq!['"']
        + seq!['}']);
    assert(s[q2 + 1] == s.skip(q2 + 1)[0]);
    assert(s[q2 + 1] == '"');
    assert(skip_ws(s, q2 + 1) == q2 + 1);
    assert(seq!['}'][0] == '}');
    lemma_parse_member_canon(s, q2 + 1, key_published(), ds, seq!['}']);
    let q3: int = q2 + 1 + key_published().len() as int + ds.len() as int + 5;
    assert(parse_member(s, q2 + 1) == Some((key_published(), ds, q3)));
    assert(s.skip(q2 + 1) =~= (seq!['"'] + key_published() + seq!['"', ':', '"'] + ds
        + seq!['"']) + seq!['}']);
    lemma_suffix_at(
        s,
        q2 + 1,
        seq!['"'] + key_published() + seq!['"', ':', '"'] + ds + seq!['"'],
        seq!['}'],
    );
    assert(s.skip(q3) =~= seq!['}']);
    assert(s[q3] == s.skip(q3)[0]);
    assert(s[q3] == '}');
    assert(q3 + 1 == s.len());
    assert(skip_ws(s, q3 + 1) == s.len());
    assert(skip_ws(s, 0) == 0);
    assert(s[1] == s.skip(1)[0]);
    assert(s[1] == '"');
    assert(skip_ws(s, 1) == 1);
    assert(key_name() != key_author()) by {
        assert(key_name().len() == 4 && key_author().len() == 6);
    }
    assert(key_name() != key_published()) by {
        assert(key_name().len() == 4 && key_published().len() == 9);
    }
    assert(key_author() != key_published()) by {
        assert(key_author().len() == 6 && key_published().len() == 9);
    }
    assert(parse_book_text(s) == Some((n, a, ds)));
    crate::date::lemma_date_round_trip(d);
    assert(spec_decode_book(s) == Some((n, a, d)));
}

} // verus!
