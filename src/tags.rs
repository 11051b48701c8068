//! Tag rules: which manifest steps a run selects.
//!
//! A rule is a string, optionally prefixed with `^` for negation, whose
//! remainder is one or more labels joined by a separator. A rule holds of a
//! tag list when some label of it is among the tags, or, for a negated rule,
//! when none is. A list of rules matches when every rule holds.

use vstd::prelude::*;
use crate::text::{as_strs, same_text, split_on, split_text, strs, texts, lemma_split_on_nonempty};

verus! {

/// A rule after parsing: its labels and whether it is negated.
pub struct TagRule {
    pub negated: bool,
    pub labels: Vec<String>,
}

/// The meaning of a parsed rule.
pub struct TagRuleView {
    pub negated: bool,
    pub labels: Seq<Seq<char>>,
}

impl View for TagRule {
    type V = TagRuleView;

    open spec fn view(&self) -> TagRuleView {
        TagRuleView { negated: self.negated, labels: texts(self.labels@) }
    }
}

/// Whether a rule's text starts with the negation marker `^`.
pub open spec fn rule_negated(rule: Seq<char>) -> bool {
    rule.len() > 0 && rule[0] == '^'
}

/// A rule's text without its negation marker.
pub open spec fn rule_body(rule: Seq<char>) -> Seq<char> {
    if rule_negated(rule) {
        rule.drop_first()
    } else {
        rule
    }
}

/// What parsing a rule's text with the label separator `sep` gives.
pub open spec fn parsed_rule(rule: Seq<char>, sep: char) -> TagRuleView {
    TagRuleView { negated: rule_negated(rule), labels: split_on(rule_body(rule), sep) }
}

/// Whether `label` is one of `tags` (exact, case-sensitive comparison).
pub open spec fn has_tag(tags: Seq<Seq<char>>, label: Seq<char>) -> bool {
    exists|j: int| 0 <= j < tags.len() && tags[j] == label
}

/// Whether some label is one of the tags.
pub open spec fn some_label_found(labels: Seq<Seq<char>>, tags: Seq<Seq<char>>) -> bool {
    exists|k: int| 0 <= k < labels.len() && has_tag(tags, labels[k])
}

/// Whether a parsed rule holds of a tag list.
pub open spec fn rule_holds(rule: TagRuleView, tags: Seq<Seq<char>>) -> bool {
    some_label_found(rule.labels, tags) != rule.negated
}

/// Whether every rule, its labels separated by `sep`, holds of the tags.
pub open spec fn rules_match(rules: Seq<Seq<char>>, tags: Seq<Seq<char>>, sep: char) -> bool {
    forall|i: int| 0 <= i < rules.len() ==> #[trigger] rule_holds(parsed_rule(rules[i], sep), tags)
}

impl TagRule {
    /// Parses a rule's text, with `sep` between its labels.
    pub fn parse(rule: &str, sep: char) -> (r: TagRule)
        ensures
            r@ == parsed_rule(rule@, sep),
    {
        let n = rule.unicode_len();
        let negated = n > 0 && rule.get_char(0) == '^';
        let labels = if negated {
            let body = rule.substring_char(1, n);
            proof {
                assert(body@ =~= rule@.drop_first());
            }
            split_text(body, sep)
        } else {
            split_text(rule, sep)
        };
        TagRule { negated, labels }
    }

    /// Whether this rule holds of the tags.
    pub fn holds(&self, tags: &[&str]) -> (r: bool)
        ensures
            r == rule_holds(self@, strs(tags@)),
    {
        let mut found = false;
        let mut k: usize = 0;
        while k < self.labels.len()
            invariant
                k <= self.labels@.len(),
                found == exists|kk: int| 0 <= kk < k && has_tag(strs(tags@), self@.labels[kk]),
            decreases self.labels@.len() - k,
        {
            let mut present = false;
            let mut j: usize = 0;
            while j < tags.len()
                invariant
                    k < self.labels@.len(),
                    j <= tags@.len(),
                    present == exists|jj: int|
                        0 <= jj < j && strs(tags@)[jj] == self@.labels[k as int],
                decreases tags@.len() - j,
            {
                proof {
                    assert(strs(tags@)[j as int] == tags@[j as int]@);
                    assert(self@.labels[k as int] == self.labels@[k as int]@);
                }
                if same_text(tags[j], self.labels[k].as_str()) {
                    present = true;
                }
                j = j + 1;
            }
            found = found || present;
            k = k + 1;
        }
        found != self.negated
    }
}

/// Parses every rule's text, with `sep` between labels.
pub fn parse_rules(rules: &[&str], sep: char) -> (r: Vec<TagRule>)
    ensures
        r@.len() == rules@.len(),
        forall|i: int| 0 <= i < rules@.len() ==> #[trigger] r@[i]@ == parsed_rule(rules@[i]@, sep),
{
    let mut out: Vec<TagRule> = Vec::new();
    let mut i: usize = 0;
    while i < rules.len()
        invariant
            i <= rules@.len(),
            out@.len() == i,
            forall|ii: int| 0 <= ii < i ==> #[trigger] out@[ii]@ == parsed_rule(rules@[ii]@, sep),
        decreases rules@.len() - i,
    {
        out.push(TagRule::parse(rules[i], sep));
        i = i + 1;
    }
    out
}

/// Whether every parsed rule holds of the tags.
pub fn all_hold(rules: &[TagRule], tags: &[&str]) -> (r: bool)
    ensures
        r == forall|i: int| 0 <= i < rules@.len() ==> #[trigger] rule_holds(rules@[i]@, strs(tags@)),
{
    let mut i: usize = 0;
    while i < rules.len()
        invariant
            i <= rules@.len(),
            forall|ii: int| 0 <= ii < i ==> #[trigger] rule_holds(rules@[ii]@, strs(tags@)),
        decreases rules@.len() - i,
    {
        if !rules[i].holds(tags) {
            return false;
        }
        i = i + 1;
    }
    true
}

/// Whether the rules, their labels separated by `sep`, match the tags.
pub fn rules_match_with(rules: &[&str], tags: &[&str], sep: char) -> (r: bool)
    ensures
        r == rules_match(strs(rules@), strs(tags@), sep),
{
    let parsed = parse_rules(rules, sep);
    let r = all_hold(parsed.as_slice(), tags);
    proof {
        if r {
            assert forall|i: int| 0 <= i < strs(rules@).len() implies #[trigger] rule_holds(
                parsed_rule(strs(rules@)[i], sep),
                strs(tags@),
            ) by {
                assert(parsed@[i]@ == parsed_rule(rules@[i]@, sep));
            }
        } else {
            let i = choose|i: int| 0 <= i < parsed@.len() && !#[trigger] rule_holds(parsed@[i]@, strs(tags@));
            assert(parsed@[i]@ == parsed_rule(rules@[i]@, sep));
            assert(!rule_holds(parsed_rule(strs(rules@)[i], sep), strs(tags@)));
        }
    }
    r
}

/// Checks whether a list of tags matches a list of tag rules, each rule's
/// labels separated by `|`; an empty rule list matches every tag list.
pub fn tags_match(rules: &[String], tags: &[String]) -> (r: bool)
    ensures
        r == rules_match(texts(rules@), texts(tags@), '|'),
{
    let rule_strs = as_strs(rules);
    let tag_strs = as_strs(tags);
    rules_match_with(rule_strs.as_slice(), tag_strs.as_slice(), '|')
}

/// With no rules, every tag list matches.
pub proof fn lemma_no_rules_match_all(tags: Seq<Seq<char>>, sep: char)
    ensures
        rules_match(Seq::empty(), tags, sep),
{
}

/// A rule that is not negated needs a tag: no rule list holding one matches an
/// empty tag list.
pub proof fn lemma_plain_rule_rejects_no_tags(rules: Seq<Seq<char>>, sep: char)
    requires
        exists|i: int| 0 <= i < rules.len() && !rule_negated(#[trigger] rules[i]),
    ensures
        !rules_match(rules, Seq::empty(), sep),
{
    let i = choose|i: int| 0 <= i < rules.len() && !rule_negated(#[trigger] rules[i]);
    assert(!rule_holds(parsed_rule(rules[i], sep), Seq::empty()));
}

/// Negated rules hold vacuously: a list of negated rules only matches an
/// empty tag list.
pub proof fn lemma_negated_rules_accept_no_tags(rules: Seq<Seq<char>>, sep: char)
    requires
        forall|i: int| 0 <= i < rules.len() ==> rule_negated(#[trigger] rules[i]),
    ensures
        rules_match(rules, Seq::empty(), sep),
{
    assert forall|i: int| 0 <= i < rules.len() implies #[trigger] rule_holds(
        parsed_rule(rules[i], sep),
        Seq::empty(),
    ) by {
        lemma_split_on_nonempty(rule_body(rules[i]), sep);
    }
}

} // verus!
