//! The manifest: ordered steps of copies, links and scripts, each step
//! labelled with tags.

use vstd::prelude::*;
use crate::tags::{all_hold, parsed_rule, rule_holds, rules_match, rules_match_with, TagRule};
use crate::text::{
    as_strs, lemma_lex_lt_total, lemma_lex_lt_transitive, lex_lt,
    same_text, strs, text_lt, texts,
};

verus! {

/// A copy or link entry: a source file and where it goes.
#[derive(Debug, PartialEq)]
pub struct CopyLinkOptions {
    /// The source file, relative to the manifest's directory.
    pub src: String,
    /// The destination: relative to the manifest's directory, absolute, or
    /// starting with `~`.
    pub dst: String,
}

/// A script entry: the script and the shell text around its invocation.
#[derive(Debug, PartialEq)]
pub struct RunOptions {
    /// The script, relative to the manifest's directory.
    pub src: String,
    /// Text placed before the script path.
    pub prefix: String,
    /// Text placed after the script path; `$COLIRU_RULES` in it stands for
    /// the active tag rules.
    pub postfix: String,
}

/// One manifest step.
#[derive(Debug, PartialEq)]
pub struct Step {
    pub copy: Vec<CopyLinkOptions>,
    pub link: Vec<CopyLinkOptions>,
    pub run: Vec<RunOptions>,
    pub tags: Vec<String>,
}

/// A manifest and the directory that its relative paths are taken from.
#[derive(Debug, PartialEq)]
pub struct Manifest {
    pub steps: Vec<Step>,
    pub base_dir: String,
}

/// Whether the tag rules, labels separated by `,`, select a step.
pub open spec fn step_selected(rules: Seq<Seq<char>>, step: Step) -> bool {
    rules_match(rules, texts(step.tags@), ',')
}

/// Checks if a list of tags matches a list of tag rules, each rule's labels
/// separated by `,`; an empty rule list matches every tag list.
pub fn tags_match(rules: &[&str], tags: &[&str]) -> (r: bool)
    ensures
        r == rules_match(strs(rules@), strs(tags@), ','),
{
    rules_match_with(rules, tags, ',')
}

/// Whether parsed tag rules, as `parse_rules` gives them for the rule texts
/// `texts`, select a step.
pub(crate) fn step_matches(rules: &[TagRule], step: &Step, texts_of_rules: Ghost<Seq<Seq<char>>>) -> (r: bool)
    requires
        rules@.len() == texts_of_rules@.len(),
        forall|i: int| 0 <= i < rules@.len() ==> #[trigger] rules@[i]@ == parsed_rule(texts_of_rules@[i], ','),
    ensures
        r == step_selected(texts_of_rules@, *step),
{
    let tags = as_strs(step.tags.as_slice());
    let r = all_hold(rules, tags.as_slice());
    proof {
        let rs = texts_of_rules@;
        if !r {
            let i = choose|i: int| 0 <= i < rules@.len() && !#[trigger] rule_holds(rules@[i]@, strs(tags@));
            assert(!rule_holds(parsed_rule(rs[i], ','), texts(step.tags@)));
        } else {
            assert forall|i: int| 0 <= i < rs.len() implies #[trigger] rule_holds(parsed_rule(rs[i], ','), texts(step.tags@)) by {
                assert(rule_holds(rules@[i]@, strs(tags@)));
            }
        }
    }
    r
}

/// Whether `t` is a tag of some step.
pub open spec fn is_manifest_tag(steps: Seq<Step>, t: Seq<char>) -> bool {
    exists|i: int, j: int| 0 <= i < steps.len() && 0 <= j < steps[i].tags@.len() && #[trigger] steps[i].tags@[j]@ == t
}

/// Whether a sequence is in strictly increasing order.
pub open spec fn strictly_sorted(v: Seq<Seq<char>>) -> bool {
    forall|a: int, b: int| 0 <= a < b < v.len() ==> lex_lt(#[trigger] v[a], #[trigger] v[b])
}

/// Adds `t` to a strictly sorted list unless it is there already.
fn insert_sorted(v: &mut Vec<String>, t: &String)
    requires
        strictly_sorted(texts(old(v)@)),
    ensures
        strictly_sorted(texts(final(v)@)),
        forall|u: Seq<char>| texts(final(v)@).contains(u) <==> (texts(old(v)@).contains(u) || u == t@),
{
    let ghost old_v = texts(v@);
    let mut p: usize = 0;
    while p < v.len() && text_lt(v[p].as_str(), t.as_str())
        invariant
            p <= v@.len(),
            texts(v@) == old_v,
            forall|q: int| 0 <= q < p ==> lex_lt(#[trigger] old_v[q], t@),
        decreases v@.len() - p,
    {
        p = p + 1;
    }
    if p < v.len() && same_text(v[p].as_str(), t.as_str()) {
        assert(old_v[p as int] == v@[p as int]@);
        assert(old_v.contains(t@));
        return;
    }
    proof {
        if p < v@.len() {
            lemma_lex_lt_total(old_v[p as int], t@);
        }
    }
    v.insert(p, t.clone());
    proof {
        let nv = texts(v@);
        assert(nv =~= old_v.insert(p as int, t@));
        assert forall|a: int, b: int| 0 <= a < b < nv.len() implies lex_lt(#[trigger] nv[a], #[trigger] nv[b]) by {
            if b < p {
            } else if b == p {
            } else if a < p {
                lemma_lex_lt_transitive(old_v[a], t@, old_v[p as int]);
                if b - 1 > p {
                    lemma_lex_lt_transitive(old_v[a], old_v[p as int], old_v[b - 1]);
                }
            } else if a == p {
                if b - 1 > p {
                    lemma_lex_lt_transitive(t@, old_v[p as int], old_v[b - 1]);
                }
            } else {
            }
        }
        assert forall|u: Seq<char>| nv.contains(u) <==> (old_v.contains(u) || u == t@) by {
            if old_v.contains(u) {
                let k = choose|k: int| 0 <= k < old_v.len() && old_v[k] == u;
                if k < p {
                    assert(nv[k] == u);
                } else {
                    assert(nv[k + 1] == u);
                }
            }
            if u == t@ {
                assert(nv[p as int] == u);
            }
            if nv.contains(u) {
                let k = choose|k: int| 0 <= k < nv.len() && nv[k] == u;
                if k < p {
                    assert(old_v[k] == u);
                } else if k > p {
                    assert(old_v[k - 1] == u);
                }
            }
        }
    }
}

/// Returns the tags of all steps, sorted and without repeats.
pub fn get_manifest_tags(manifest: Manifest) -> (r: Vec<String>)
    ensures
        strictly_sorted(texts(r@)),
        forall|t: Seq<char>| texts(r@).contains(t) <==> is_manifest_tag(manifest.steps@, t),
{
    let mut out: Vec<String> = Vec::new();
    let mut i: usize = 0;
    while i < manifest.steps.len()
        invariant
            i <= manifest.steps@.len(),
            strictly_sorted(texts(out@)),
            forall|t: Seq<char>| texts(out@).contains(t) <==> is_manifest_tag(manifest.steps@.take(i as int), t),
        decreases manifest.steps@.len() - i,
    {
        let step = &manifest.steps[i];
        let mut j: usize = 0;
        while j < step.tags.len()
            invariant
                i < manifest.steps@.len(),
                *step == manifest.steps@[i as int],
                j <= step.tags@.len(),
                strictly_sorted(texts(out@)),
                forall|t: Seq<char>| texts(out@).contains(t) <==> (is_manifest_tag(manifest.steps@.take(i as int), t)
                    || exists|jj: int| 0 <= jj < j && #[trigger] step.tags@[jj]@ == t),
            decreases step.tags@.len() - j,
        {
            insert_sorted(&mut out, &step.tags[j]);
            j = j + 1;
        }
        proof {
            let steps = manifest.steps@;
            assert forall|t: Seq<char>| texts(out@).contains(t) <==> is_manifest_tag(steps.take(i + 1), t) by {
                if is_manifest_tag(steps.take(i + 1), t) {
                    let (a, b) = choose|a: int, b: int| 0 <= a < steps.take(i + 1).len() && 0 <= b < steps.take(i + 1)[a].tags@.len() && #[trigger] steps.take(i + 1)[a].tags@[b]@ == t;
                    if a < i {
                        assert(steps.take(i as int)[a] == steps[a]);
                        assert(is_manifest_tag(steps.take(i as int), t));
                    }
                }
                if is_manifest_tag(steps.take(i as int), t) {
                    let (a, b) = choose|a: int, b: int| 0 <= a < steps.take(i as int).len() && 0 <= b < steps.take(i as int)[a].tags@.len() && #[trigger] steps.take(i as int)[a].tags@[b]@ == t;
                    assert(steps.take(i + 1)[a] == steps[a]);
                }
                if exists|jj: int| 0 <= jj < j && #[trigger] step.tags@[jj]@ == t {
                    let jj = choose|jj: int| 0 <= jj < j && #[trigger] step.tags@[jj]@ == t;
                    assert(steps.take(i + 1)[i as int] == steps[i as int]);
                    assert(steps.take(i + 1)[i as int].tags@[jj]@ == t);
                }
            }
        }
        i = i + 1;
    }
    proof {
        assert(manifest.steps@.take(i as int) =~= manifest.steps@);
    }
    out
}

} // verus!
