//! Paths as text, joined the way `Path::join` joins them on Unix.

use vstd::prelude::*;

use crate::text::{chars_of, extend_chars, string_of};

verus! {

/// `rel` is an absolute path: it starts at the root `/`.
pub open spec fn is_absolute(rel: Seq<char>) -> bool {
    rel.len() > 0 && rel[0] == '/'
}

/// `base` joined with `rel`: an absolute `rel` replaces `base`; otherwise `rel` is appended,
/// with a `/` in between unless `base` is empty or already ends with one.
pub open spec fn joined(base: Seq<char>, rel: Seq<char>) -> Seq<char> {
    if is_absolute(rel) {
        rel
    } else if base.len() == 0 || base.last() == '/' {
        base + rel
    } else {
        base + seq!['/'] + rel
    }
}

/// Joins `rel` onto `base`.
pub fn join_chars(base: &Vec<char>, rel: &Vec<char>) -> (r: Vec<char>)
    ensures
        r@ == joined(base@, rel@),
{
    if rel.len() > 0 && rel[0] == '/' {
        let mut out: Vec<char> = Vec::new();
        extend_chars(&mut out, rel);
        assert(out@ =~= rel@);
        return out;
    }
    let mut out: Vec<char> = Vec::new();
    extend_chars(&mut out, base);
    if base.len() > 0 && base[base.len() - 1] != '/' {
        out.push('/');
    }
    extend_chars(&mut out, rel);
    assert(out@ =~= joined(base@, rel@));
    out
}

/// Joins `rel` onto `base`, as `Path::new(base).join(rel)` does on Unix.
pub fn join_path(base: &str, rel: &str) -> (r: String)
    ensures
        r@ == joined(base@, rel@),
{
    let b = chars_of(base);
    let c = chars_of(rel);
    string_of(&join_chars(&b, &c))
}

} // verus!
