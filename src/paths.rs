//! Paths as text, with `/` as the separator.

use vstd::prelude::*;
use crate::text::same_text;

verus! {

/// Whether a path starts at the filesystem root.
pub open spec fn is_absolute(p: Seq<char>) -> bool {
    p.len() > 0 && p[0] == '/'
}

/// `rel` taken relative to `base`, as `Path::join` does it: an absolute `rel`
/// replaces `base`, and a separator is added only where `base` lacks one.
pub open spec fn join_path(base: Seq<char>, rel: Seq<char>) -> Seq<char> {
    if is_absolute(rel) {
        rel
    } else if base.len() == 0 || base.last() == '/' {
        base + rel
    } else {
        base + seq!['/'] + rel
    }
}

/// A path without its leading separators.
pub open spec fn trim_root(p: Seq<char>) -> Seq<char>
    decreases p.len(),
{
    if p.len() > 0 && p[0] == '/' {
        trim_root(p.drop_first())
    } else {
        p
    }
}

/// Whether `p` is `dir` itself or lies inside it.
pub open spec fn is_under(p: Seq<char>, dir: Seq<char>) -> bool {
    p == dir || (p.len() > dir.len() && p.take(dir.len() as int) == dir && p[dir.len() as int] == '/')
}

pub proof fn lemma_trim_root_relative(p: Seq<char>)
    ensures
        !is_absolute(trim_root(p)),
    decreases p.len(),
{
    if p.len() > 0 && p[0] == '/' {
        lemma_trim_root_relative(p.drop_first());
    }
}

/// Whether `p` is absolute.
pub fn path_is_absolute(p: &str) -> (r: bool)
    ensures
        r == is_absolute(p@),
{
    p.unicode_len() > 0 && p.get_char(0) == '/'
}

/// Joins `rel` onto `base`.
pub fn join(base: &str, rel: &str) -> (r: String)
    ensures
        r@ == join_path(base@, rel@),
{
    if path_is_absolute(rel) {
        return String::from_str(rel);
    }
    let b = base.unicode_len();
    let mut out = String::from_str(base);
    if !(b == 0 || base.get_char(b - 1) == '/') {
        proof {
            reveal_strlit("/");
        }
        out.append("/");
    }
    out.append(rel);
    out
}

/// `p` without its leading separators.
pub fn strip_root(p: &str) -> (r: &str)
    ensures
        r@ == trim_root(p@),
{
    let n = p.unicode_len();
    let mut i: usize = 0;
    proof {
        assert(p@.skip(0) =~= p@);
    }
    while i < n && p.get_char(i) == '/'
        invariant
            n == p@.len(),
            i <= n,
            trim_root(p@) == trim_root(p@.skip(i as int)),
        decreases n - i,
    {
        proof {
            assert(p@.skip(i as int).drop_first() =~= p@.skip(i + 1));
        }
        i = i + 1;
    }
    let r = p.substring_char(i, n);
    proof {
        assert(r@ =~= p@.skip(i as int));
    }
    r
}

/// Whether `p` is `dir` or lies inside it.
pub fn path_is_under(p: &str, dir: &str) -> (r: bool)
    ensures
        r == is_under(p@, dir@),
{
    let n = p.unicode_len();
    let d = dir.unicode_len();
    if same_text(p, dir) {
        return true;
    }
    if n <= d {
        return false;
    }
    same_text(p.substring_char(0, d), dir) && p.get_char(d) == '/'
}

} // verus!
