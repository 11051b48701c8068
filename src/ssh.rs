//! Where files go for a remote installation.
//!
//! Files bound for another machine are first placed in a local staging tree
//! with two subtrees: `home`, mirroring the remote user's home directory, and
//! `root`, mirroring the remote filesystem root. The tree is then sent in one
//! batch, so that missing directories are created on the far side.

use vstd::prelude::*;
use crate::paths::{
    is_absolute, is_under, join, join_path, lemma_trim_root_relative, path_is_absolute,
    path_is_under, strip_root, trim_root,
};

verus! {

/// Whether a path starts with `~` that names the home directory: followed by
/// `/` or by nothing.
pub open spec fn has_home_marker(p: Seq<char>) -> bool {
    p.len() > 0 && p[0] == '~' && (p.len() == 1 || p[1] == '/')
}

/// Tilde expansion: a home marker is replaced by `home`.
pub open spec fn tilde_expanded(p: Seq<char>, home: Seq<char>) -> Seq<char> {
    if has_home_marker(p) {
        home + p.drop_first()
    } else {
        p
    }
}

/// Relies on shellexpand::tilde_with_context, given `home` as the home
/// directory: a leading `~` followed by `/` or by the end of the text is
/// replaced by `home`, and any other text comes back unchanged (on Unix
/// targets, where `\` is no separator).
#[verifier::external_body]
fn expand_tilde(p: &str, home: &str) -> (r: String)
    ensures
        r@ == tilde_expanded(p@, home@),
{
    shellexpand::tilde_with_context(p, || Some(home)).into_owned()
}

/// What `resolve_path` gives: a relative path without a leading `~` is put
/// under `dir`; any other path is kept.
pub open spec fn resolved_path(src: Seq<char>, dir: Seq<char>) -> Seq<char> {
    if !(src.len() > 0 && src[0] == '~') && !is_absolute(src) {
        dir + seq!['/'] + src
    } else {
        src
    }
}

/// Makes a relative path absolute according to a base directory `dir`;
/// paths beginning with `~` count as absolute.
pub fn resolve_path(src: &str, dir: &str) -> (r: String)
    ensures
        r@ == resolved_path(src@, dir@),
{
    let tilde = src.unicode_len() > 0 && src.get_char(0) == '~';
    if !tilde && !path_is_absolute(src) {
        let mut out = String::from_str(dir);
        proof {
            reveal_strlit("/");
        }
        out.append("/");
        out.append(src);
        out
    } else {
        String::from_str(src)
    }
}

/// The `home` subtree of a staging tree.
pub open spec fn staging_home(staging: Seq<char>) -> Seq<char> {
    join_path(staging, "home"@)
}

/// The `root` subtree of a staging tree.
pub open spec fn staging_root(staging: Seq<char>) -> Seq<char> {
    join_path(staging, "root"@)
}

/// Where a file bound for `dst` on the remote machine is placed in the
/// staging tree `staging`:
/// - `~` names the `home` subtree;
/// - a relative path is taken under the `home` subtree;
/// - an absolute path already inside the `home` subtree is kept;
/// - any other absolute path loses its root and is taken under the `root`
///   subtree.
pub open spec fn staged_path(dst: Seq<char>, staging: Seq<char>) -> Seq<char> {
    let home = staging_home(staging);
    if has_home_marker(dst) {
        tilde_expanded(dst, home)
    } else if !is_absolute(dst) {
        join_path(home, dst)
    } else if is_under(dst, home) {
        dst
    } else {
        join_path(staging_root(staging), trim_root(dst))
    }
}

/// Resolves a remote destination to its place in the staging tree
/// `staging_dir`. Every destination has exactly one place.
pub fn staging_path(dst: &str, staging_dir: &str) -> (r: String)
    ensures
        r@ == staged_path(dst@, staging_dir@),
{
    let home = join(staging_dir, "home");
    let n = dst.unicode_len();
    if n > 0 && dst.get_char(0) == '~' && (n == 1 || dst.get_char(1) == '/') {
        expand_tilde(dst, home.as_str())
    } else if !path_is_absolute(dst) {
        join(home.as_str(), dst)
    } else if path_is_under(dst, home.as_str()) {
        String::from_str(dst)
    } else {
        let root = join(staging_dir, "root");
        join(root.as_str(), strip_root(dst))
    }
}

proof fn lemma_subtree_shape(staging: Seq<char>)
    ensures
        staging_home(staging).len() > 0,
        staging_home(staging).last() != '/',
        staging_root(staging).len() > 0,
        staging_root(staging).last() != '/',
{
    reveal_strlit("home");
    reveal_strlit("root");
}

/// A destination starting with `~/` lands in the `home` subtree.
pub proof fn lemma_staged_tilde(rest: Seq<char>, staging: Seq<char>)
    ensures
        staged_path(seq!['~', '/'] + rest, staging) == staging_home(staging) + seq!['/'] + rest,
{
    let p = seq!['~', '/'] + rest;
    assert(p.drop_first() =~= seq!['/'] + rest);
    assert(staging_home(staging) + p.drop_first() =~= staging_home(staging) + seq!['/'] + rest);
}

/// A relative destination lands in the `home` subtree.
pub proof fn lemma_staged_relative(dst: Seq<char>, staging: Seq<char>)
    requires
        !is_absolute(dst),
        !has_home_marker(dst),
    ensures
        staged_path(dst, staging) == staging_home(staging) + seq!['/'] + dst,
{
    lemma_subtree_shape(staging);
}

/// An absolute destination outside the `home` subtree loses its root and
/// lands in the `root` subtree.
pub proof fn lemma_staged_absolute(rest: Seq<char>, staging: Seq<char>)
    requires
        !is_under(seq!['/'] + rest, staging_home(staging)),
    ensures
        staged_path(seq!['/'] + rest, staging) == staging_root(staging) + seq!['/'] + trim_root(
            rest,
        ),
{
    let p = seq!['/'] + rest;
    assert(p.drop_first() =~= rest);
    lemma_subtree_shape(staging);
    lemma_trim_root_relative(rest);
}

} // verus!
