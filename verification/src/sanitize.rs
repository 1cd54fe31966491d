//! Mapping a book name to a filesystem path.
//!
//! The sanitizer replaces every space and every forward slash with an
//! underscore and leaves all other characters alone. It is a best-effort
//! mitigation, not a security boundary: `..` segments, backslashes and other
//! special names pass through unchanged, which is a known, documented gap.

use vstd::prelude::*;

verus! {

/// What the sanitizer does to a single character.
pub open spec fn sanitize_char(c: char) -> char {
    if c == ' ' || c == '/' {
        '_'
    } else {
        c
    }
}

/// The sanitized form of a whole name: each character mapped independently.
pub open spec fn spec_sanitize(s: Seq<char>) -> Seq<char> {
    s.map_values(|c: char| sanitize_char(c))
}

/// The path of the file that stores the book named `name`: the sanitized
/// name with the storage directory in front and the extension behind.
pub open spec fn spec_storage_path(name: Seq<char>) -> Seq<char> {
    seq!['.', '/', 'b', 'o', 'o', 'k', 's', '/'] + spec_sanitize(name) + seq![
        '.',
        'j',
        's',
        'o',
        'n',
    ]
}

/// Append the sanitized form of `name` to `out`.
pub fn push_sanitized(out: &mut Vec<char>, name: &str)
    ensures
        final(out)@ == old(out)@ + spec_sanitize(name@),
{
    let len = name.unicode_len();
    let mut i: usize = 0;
    proof {
        assert(out@ =~= old(out)@ + spec_sanitize(name@.take(0)));
    }
    while i < len
        invariant
            len == name@.len(),
            i <= len,
            out@ =~= old(out)@ + spec_sanitize(name@.take(i as int)),
        decreases len - i,
    {
        let c = name.get_char(i);
        if c == ' ' || c == '/' {
            out.push('_');
        } else {
            out.push(c);
        }
        proof {
            assert(out@ =~= old(out)@ + spec_sanitize(name@.take(i + 1 as int)));
        }
        i = i + 1;
    }
    proof {
        assert(name@.take(len as int) =~= name@);
    }
}

/// Replace every space and slash in `name` with an underscore.
pub fn sanitize_filename(name: &str) -> (r: String)
    ensures
        r@ == spec_sanitize(name@),
{
    let mut out: Vec<char> = Vec::new();
    push_sanitized(&mut out, name);
    crate::strutil::chars_to_string(&out)
}

/// The path of the file that stores the book named `name`.
pub fn storage_path(name: &str) -> (r: String)
    ensures
        r@ == spec_storage_path(name@),
{
    let mut out: Vec<char> = Vec::new();
    out.push('.');
    out.push('/');
    out.push('b');
    out.push('o');
    out.push('o');
    out.push('k');
    out.push('s');
    out.push('/');
    proof {
        assert(out@ =~= seq!['.', '/', 'b', 'o', 'o', 'k', 's', '/']);
    }
    push_sanitized(&mut out, name);
    let ghost mid = out@;
    out.push('.');
    out.push('j');
    out.push('s');
    out.push('o');
    out.push('n');
    proof {
        assert(out@ =~= mid + seq!['.', 'j', 's', 'o', 'n']);
        assert(out@ =~= spec_storage_path(name@));
    }
    crate::strutil::chars_to_string(&out)
}

} // verus!
