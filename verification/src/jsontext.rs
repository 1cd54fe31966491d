//! JSON string escaping and scanning, at the level of characters.
//!
//! The storage format keeps a book as one small JSON object. This module
//! holds the character-level half of that format: how a text is escaped when
//! it is written into a JSON string literal, and how a JSON string literal is
//! read back. The central result is `lemma_parse_escaped`: reading an escaped
//! text returns exactly the original text, whatever characters it held.
//!
//! The escaper writes `\"` and `\\` for quote and backslash and a `\u00XX`
//! form for control characters. The reader additionally accepts the short
//! escapes `\/`, `\b`, `\f`, `\n`, `\r`, `\t` and any `\u00XX`, and rejects
//! unescaped control characters, as JSON requires.

use vstd::prelude::*;

verus! {

/// The whitespace characters JSON allows between tokens.
pub open spec fn is_json_ws(c: char) -> bool {
    c == ' ' || c == '\t' || c == '\n' || c == '\r'
}

/// A control character, which may not stand unescaped in a JSON string.
pub open spec fn is_ctl_char(c: char) -> bool {
    (c as u32) < 32
}

/// A character the escaper passes through unchanged.
pub open spec fn plain_char(c: char) -> bool {
    c != '"' && c != '\\' && !is_ctl_char(c)
}

/// The first position at or after `i` that does not hold whitespace.
pub open spec fn skip_ws(s: Seq<char>, i: int) -> int
    decreases s.len() - i,
{
    if 0 <= i < s.len() && is_json_ws(s[i]) {
        skip_ws(s, i + 1)
    } else {
        i
    }
}

/// `skip_ws` never moves backwards and never leaves the text.
pub proof fn lemma_skip_ws_bounds(s: Seq<char>, i: int)
    requires
        0 <= i <= s.len(),
    ensures
        i <= skip_ws(s, i) <= s.len(),
    decreases s.len() - i,
{
    if i < s.len() && is_json_ws(s[i]) {
        lemma_skip_ws_bounds(s, i + 1);
    }
}

/// The lower-case hexadecimal digit for a value between 0 and 15.
pub open spec fn hex_char(n: int) -> char {
    if n < 10 {
        ((48 + n) as u8) as char
    } else {
        ((87 + n) as u8) as char
    }
}

/// A hexadecimal digit, in either case.
pub open spec fn is_hex_digit(c: char) -> bool {
    48 <= c as int <= 57 || 97 <= c as int <= 102 || 65 <= c as int <= 70
}

/// The value of a hexadecimal digit.
pub open spec fn hex_value(c: char) -> int {
    if 48 <= c as int <= 57 {
        c as int - 48
    } else if 97 <= c as int <= 102 {
        c as int - 87
    } else {
        c as int - 55
    }
}

/// The character a short escape `\c` stands for, if `c` forms one.
pub open spec fn short_escape(c: char) -> Option<char> {
    if c == '"' {
        Some('"')
    } else if c == '\\' {
        Some('\\')
    } else if c == '/' {
        Some('/')
    } else if c == 'b' {
        Some((8u8) as char)
    } else if c == 'f' {
        Some((12u8) as char)
    } else if c == 'n' {
        Some('\n')
    } else if c == 'r' {
        Some('\r')
    } else if c == 't' {
        Some('\t')
    } else {
        None
    }
}

/// How one character is written inside a JSON string literal.
pub open spec fn escape_char(c: char) -> Seq<char> {
    if c == '"' {
        seq!['\\', '"']
    } else if c == '\\' {
        seq!['\\', '\\']
    } else if is_ctl_char(c) {
        seq!['\\', 'u', '0', '0', hex_char((c as u32) as int / 16), hex_char((c as u32) as int % 16)]
    } else {
        seq![c]
    }
}

/// How a whole text is written inside a JSON string literal.
pub open spec fn escape_str(s: Seq<char>) -> Seq<char>
    decreases s.len(),
{
    if s.len() == 0 {
        Seq::<char>::empty()
    } else {
        escape_char(s[0]) + escape_str(s.skip(1))
    }
}

/// Reading a JSON string literal from position `i`, which stands just after
/// the opening quote: the text the literal denotes, and the position just
/// after the closing quote.
pub open spec fn parse_string_body(s: Seq<char>, i: int) -> Option<(Seq<char>, int)>
    decreases s.len() - i,
{
    if i < 0 || i >= s.len() {
        None
    } else if s[i] == '"' {
        Some((Seq::<char>::empty(), i + 1))
    } else if s[i] == '\\' {
        if i + 1 >= s.len() {
            None
        } else if s[i + 1] == 'u' {
            if i + 6 <= s.len() && s[i + 2] == '0' && s[i + 3] == '0' && is_hex_digit(s[i + 4])
                && is_hex_digit(s[i + 5]) {
                let c = ((hex_value(s[i + 4]) * 16 + hex_value(s[i + 5])) as u8) as char;
                match parse_string_body(s, i + 6) {
                    Some((t, j)) => Some((seq![c] + t, j)),
                    None => None,
                }
            } else {
                None
            }
        } else {
            match short_escape(s[i + 1]) {
                Some(c) => match parse_string_body(s, i + 2) {
                    Some((t, j)) => Some((seq![c] + t, j)),
                    None => None,
                },
                None => None,
            }
        }
    } else if is_ctl_char(s[i]) {
        None
    } else {
        match parse_string_body(s, i + 1) {
            Some((t, j)) => Some((seq![s[i]] + t, j)),
            None => None,
        }
    }
}

/// A successful read ends after `i`, within the text.
pub proof fn lemma_parse_string_body_bounds(s: Seq<char>, i: int)
    ensures
        match parse_string_body(s, i) {
            Some(p) => i < p.1 <= s.len(),
            None => true,
        },
    decreases s.len() - i,
{
    if 0 <= i < s.len() {
        if s[i] == '"' {
        } else if s[i] == '\\' {
            if i + 1 < s.len() {
                if s[i + 1] == 'u' {
                    if i + 6 <= s.len() {
                        lemma_parse_string_body_bounds(s, i + 6);
                    }
                } else {
                    lemma_parse_string_body_bounds(s, i + 2);
                }
            }
        } else {
            lemma_parse_string_body_bounds(s, i + 1);
        }
    }
}

/// Escaping a text of plain characters changes nothing.
pub proof fn lemma_escape_plain(s: Seq<char>)
    requires
        forall|j: int| 0 <= j < s.len() ==> plain_char(s[j]),
    ensures
        escape_str(s) == s,
    decreases s.len(),
{
    if s.len() == 0 {
        assert(escape_str(s) =~= s);
    } else {
        lemma_escape_plain(s.skip(1));
        assert(escape_char(s[0]) == seq![s[0]]);
        assert(escape_str(s) =~= s);
    }
}

/// Escaping distributes over appending one character at the end.
pub proof fn lemma_escape_snoc(s: Seq<char>, c: char)
    ensures
        escape_str(s.push(c)) == escape_str(s) + escape_char(c),
    decreases s.len(),
{
    let p = s.push(c);
    if s.len() == 0 {
        assert(p.skip(1) =~= Seq::<char>::empty());
        assert(escape_str(Seq::<char>::empty()) =~= Seq::<char>::empty());
        assert(p[0] == c);
        assert(escape_str(p) == escape_char(c) + escape_str(p.skip(1)));
        assert(escape_str(p) =~= escape_str(s) + escape_char(c));
    } else {
        assert(p[0] == s[0]);
        assert(p.skip(1) =~= s.skip(1).push(c));
        lemma_escape_snoc(s.skip(1), c);
        assert(escape_str(p) == escape_char(s[0]) + escape_str(s.skip(1).push(c)));
        assert(escape_str(s) == escape_char(s[0]) + escape_str(s.skip(1)));
        vstd::seq_lib::lemma_concat_associative::<char>(
            escape_char(s[0]),
            escape_str(s.skip(1)),
            escape_char(c),
        );
        assert(escape_str(p) =~= escape_str(s) + escape_char(c));
    }
}

/// Skipping `k` positions after `i` is skipping `i` and then `k`.
proof fn lemma_skip_shift(s: Seq<char>, i: int, k: int)
    requires
        0 <= i,
        0 <= k,
        i + k <= s.len(),
    ensures
        s.skip(i + k) =~= s.skip(i).skip(k),
{
}

/// Reading an escaped text returns exactly that text: if the characters from
/// position `i` on are the escaped form of `x`, then a closing quote, then
/// anything, the read succeeds, denotes `x`, and stops just after the quote.
pub proof fn lemma_parse_escaped(s: Seq<char>, i: int, x: Seq<char>, rest: Seq<char>)
    requires
        0 <= i <= s.len(),
        s.skip(i) == escape_str(x) + seq!['"'] + rest,
    ensures
        parse_string_body(s, i) == Some((x, i + escape_str(x).len() + 1)),
    decreases x.len(),
{
    let tail = s.skip(i);
    let e = escape_str(x);
    assert(tail.len() == s.len() - i);
    if x.len() == 0 {
        assert(e =~= Seq::<char>::empty());
        assert(tail[0] == '"');
        assert(s[i] == '"');
        assert(x =~= Seq::<char>::empty());
        assert(parse_string_body(s, i) == Some((x, i + e.len() + 1)));
    } else {
        let c = x[0];
        let xs = x.skip(1);
        let ec = escape_char(c);
        assert(e == ec + escape_str(xs));
        assert(seq![c] + xs =~= x);
        let r2 = escape_str(xs) + seq!['"'] + rest;
        assert(tail =~= ec + r2);
        let i2 = i + ec.len() as int;
        assert(ec.len() >= 1);
        lemma_skip_shift(s, i, ec.len() as int);
        assert forall|j: int| 0 <= j < r2.len() implies s.skip(i2)[j] == r2[j] by {
            assert(s.skip(i2)[j] == tail[ec.len() + j]);
            assert(tail[ec.len() + j] == r2[j]);
        }
        assert(s.skip(i2) =~= r2);
        assert(forall|k: int| 0 <= k < ec.len() ==> s[i + k] == ec[k]) by {
            assert forall|k: int| 0 <= k < ec.len() implies s[i + k] == ec[k] by {
                assert(s[i + k] == tail[k]);
                assert(tail[k] == ec[k]);
            }
        }
        if c == '"' {
            assert(ec =~= seq!['\\', '"']);
            assert(s[i] == '\\' && s[i + 1] == '"');
            lemma_parse_escaped(s, i + 2, xs, rest);
            assert(short_escape('"') == Some('"'));
            assert(parse_string_body(s, i) == Some((x, i + e.len() + 1)));
        } else if c == '\\' {
            assert(ec =~= seq!['\\', '\\']);
            assert(s[i] == '\\' && s[i + 1] == '\\');
            lemma_parse_escaped(s, i + 2, xs, rest);
            assert(short_escape('\\') == Some('\\'));
            assert(parse_string_body(s, i) == Some((x, i + e.len() + 1)));
        } else if is_ctl_char(c) {
            let u = c as u32;
            let cv = u as int;
            let hi = cv / 16;
            let lo = cv % 16;
            assert(0 <= cv < 32);
            assert(0 <= hi < 2 && 0 <= lo < 16) by (nonlinear_arith)
                requires
                    0 <= cv < 32,
                    hi == cv / 16,
                    lo == cv % 16,
            ;
            assert(ec =~= seq!['\\', 'u', '0', '0', hex_char(hi), hex_char(lo)]);
            assert(s[i] == '\\' && s[i + 1] == 'u' && s[i + 2] == '0' && s[i + 3] == '0');
            assert(s[i + 4] == hex_char(hi) && s[i + 5] == hex_char(lo));
            assert(is_hex_digit(hex_char(hi)) && hex_value(hex_char(hi)) == hi) by {
                assert((48 + hi) as u8 as char as int == 48 + hi);
            }
            assert(is_hex_digit(hex_char(lo)) && hex_value(hex_char(lo)) == lo) by {
                if lo < 10 {
                    assert((48 + lo) as u8 as char as int == 48 + lo);
                } else {
                    assert((87 + lo) as u8 as char as int == 87 + lo);
                }
            }
            assert(hi * 16 + lo == cv) by (nonlinear_arith)
                requires
                    hi == cv / 16,
                    lo == cv % 16,
                    0 <= cv < 32,
            ;
            assert(((hi * 16 + lo) as u8) as char == c) by {
                vstd::utf8::char_u32_cast(c, u);
                assert((hi * 16 + lo) as u8 == u as u8);
                assert(u as u8 as char == u as char);
            }
            assert(i + 6 <= s.len());
            lemma_parse_escaped(s, i + 6, xs, rest);
            assert(parse_string_body(s, i) == Some((x, i + e.len() + 1)));
        } else {
            assert(ec =~= seq![c]);
            assert(s[i] == c);
            lemma_parse_escaped(s, i + 1, xs, rest);
            assert(parse_string_body(s, i) == Some((x, i + e.len() + 1)));
        }
    }
}

/// The first position at or after `i` in `s` that holds no whitespace.
pub fn ws_end(s: &str, i: usize) -> (r: usize)
    ensures
        r == skip_ws(s@, i as int),
    decreases s@.len() - i,
{
    let len = s.unicode_len();
    if i < len {
        let c = s.get_char(i);
        if c == ' ' || c == '\t' || c == '\n' || c == '\r' {
            return ws_end(s, i + 1);
        }
    }
    i
}

/// The value of the hexadecimal digit `c`.
fn hex_digit_value(c: char) -> (r: u32)
    requires
        is_hex_digit(c),
    ensures
        r == hex_value(c),
{
    let v = c as u32;
    if 48 <= v && v <= 57 {
        v - 48
    } else if 97 <= v && v <= 102 {
        v - 87
    } else {
        v - 55
    }
}

/// Read the JSON string literal whose opening quote stands just before
/// position `i`: the text it denotes and the position after its closing
/// quote, or nothing where the literal is malformed.
pub fn parse_string_chars(s: &str, i: usize) -> (r: Option<(Vec<char>, usize)>)
    ensures
        match r {
            Some(p) => parse_string_body(s@, i as int) == Some((p.0@, p.1 as int)),
            None => parse_string_body(s@, i as int) is None,
        },
    decreases s@.len() - i,
{
    let len = s.unicode_len();
    if i >= len {
        return None;
    }
    let c0 = s.get_char(i);
    if c0 == '"' {
        let t: Vec<char> = Vec::new();
        proof {
            assert(t@ =~= Seq::<char>::empty());
        }
        return Some((t, i + 1));
    }
    if c0 == '\\' {
        if i + 1 >= len {
            return None;
        }
        let c1 = s.get_char(i + 1);
        if c1 == 'u' {
            if len - i >= 6 && s.get_char(i + 2) == '0' && s.get_char(i + 3) == '0' {
                let h1 = s.get_char(i + 4);
                let h2 = s.get_char(i + 5);
                let hex1 = {
                    let v = h1 as u32;
                    (48 <= v && v <= 57) || (97 <= v && v <= 102) || (65 <= v && v <= 70)
                };
                let hex2 = {
                    let v = h2 as u32;
                    (48 <= v && v <= 57) || (97 <= v && v <= 102) || (65 <= v && v <= 70)
                };
                if hex1 && hex2 {
                    let code = hex_digit_value(h1) * 16 + hex_digit_value(h2);
                    let c = (code as u8) as char;
                    match parse_string_chars(s, i + 6) {
                        Some(p) => {
                            let (mut t, j) = p;
                            let ghost tv = t@;
                            t.insert(0, c);
                            proof {
                                assert(t@ =~= seq![c] + tv);
                            }
                            Some((t, j))
                        },
                        None => None,
                    }
                } else {
                    None
                }
            } else {
                None
            }
        } else {
            let sc: Option<char> = if c1 == '"' {
                Some('"')
            } else if c1 == '\\' {
                Some('\\')
            } else if c1 == '/' {
                Some('/')
            } else if c1 == 'b' {
                Some((8u8) as char)
            } else if c1 == 'f' {
                Some((12u8) as char)
            } else if c1 == 'n' {
                Some('\n')
            } else if c1 == 'r' {
                Some('\r')
            } else if c1 == 't' {
                Some('\t')
            } else {
                None
            };
            proof {
                assert(sc == short_escape(s@[i + 1]));
            }
            match sc {
                Some(c) => match parse_string_chars(s, i + 2) {
                    Some(p) => {
                        let (mut t, j) = p;
                        let ghost tv = t@;
                        t.insert(0, c);
                        proof {
                            assert(t@ =~= seq![c] + tv);
                        }
                        Some((t, j))
                    },
                    None => None,
                },
                None => None,
            }
        }
    } else if (c0 as u32) < 32 {
        None
    } else {
        match parse_string_chars(s, i + 1) {
            Some(p) => {
                let (mut t, j) = p;
                let ghost tv = t@;
                t.insert(0, c0);
                proof {
                    assert(t@ =~= seq![c0] + tv);
                }
                Some((t, j))
            },
            None => None,
        }
    }
}

/// Append the escaped form of `s` to `out`.
pub fn push_escaped(out: &mut Vec<char>, s: &str)
    ensures
        final(out)@ == old(out)@ + escape_str(s@),
{
    let len = s.unicode_len();
    let mut i: usize = 0;
    proof {
        assert(s@.take(0) =~= Seq::<char>::empty());
        assert(escape_str(s@.take(0)) =~= Seq::<char>::empty());
        assert(out@ =~= old(out)@ + escape_str(s@.take(0)));
    }
    while i < len
        invariant
            len == s@.len(),
            i <= len,
            out@ == old(out)@ + escape_str(s@.take(i as int)),
        decreases len - i,
    {
        let c = s.get_char(i);
        if c == '"' {
            out.push('\\');
            out.push('"');
        } else if c == '\\' {
            out.push('\\');
            out.push('\\');
        } else if (c as u32) < 32 {
            let v = c as u32;
            out.push('\\');
            out.push('u');
            out.push('0');
            out.push('0');
            out.push((48 + (v / 16) as u8) as char);
            let low = v % 16;
            if low < 10 {
                out.push((48 + low as u8) as char);
            } else {
                out.push((87 + low as u8) as char);
            }
        } else {
            out.push(c);
        }
        proof {
            lemma_escape_snoc(s@.take(i as int), s@[i as int]);
            assert(s@.take(i + 1 as int) =~= s@.take(i as int).push(s@[i as int]));
            assert(out@ =~= old(out)@ + escape_str(s@.take(i + 1 as int)));
        }
        i = i + 1;
    }
    proof {
        assert(s@.take(len as int) =~= s@);
    }
}

} // verus!
