//! The installation plan: what a run does, step by step, in order.
//!
//! The plan is computed before anything is touched. Every entry that it holds
//! is carried out once, whatever became of the entries before it; a failure
//! is reported under its announcement and counted, and never stops the run.

use vstd::prelude::*;
use crate::manifest::{CopyLinkOptions, Manifest, RunOptions, Step, step_matches, step_selected};
use crate::ssh::{resolve_path, resolved_path, staged_path, staging_path};
use crate::tags::{parse_rules, parsed_rule};
use crate::text::{as_strs, join_with_spaces, join_words, replace_all, replace_text, strs, texts};

verus! {

/// What carrying out an announced action does to the world.
#[derive(Debug, PartialEq)]
pub enum Effect {
    /// Copies a local file.
    Copy { src: String, dst: String },
    /// Makes `dst` a symbolic link to `src`.
    Link { src: String, dst: String },
    /// Copies a local file into its place in the staging tree.
    Stage { src: String, staged: String },
    /// Runs a shell command on this machine.
    RunLocal { command: String },
    /// Runs a shell command on `host`.
    RunRemote { command: String, host: String },
}

/// The meaning of an `Effect`, over character sequences.
pub enum EffectView {
    Copy { src: Seq<char>, dst: Seq<char> },
    Link { src: Seq<char>, dst: Seq<char> },
    Stage { src: Seq<char>, staged: Seq<char> },
    RunLocal { command: Seq<char> },
    RunRemote { command: Seq<char>, host: Seq<char> },
}

impl View for Effect {
    type V = EffectView;

    open spec fn view(&self) -> EffectView {
        match self {
            Effect::Copy { src, dst } => EffectView::Copy { src: src@, dst: dst@ },
            Effect::Link { src, dst } => EffectView::Link { src: src@, dst: dst@ },
            Effect::Stage { src, staged } => EffectView::Stage { src: src@, staged: staged@ },
            Effect::RunLocal { command } => EffectView::RunLocal { command: command@ },
            Effect::RunRemote { command, host } => EffectView::RunRemote {
                command: command@,
                host: host@,
            },
        }
    }
}

/// One entry of the plan.
#[derive(Debug, PartialEq)]
pub enum Action {
    /// An action announced as `[step/total] text`; its effect is `None` on a
    /// dry run, where the announcement is all that happens.
    Announced { step: usize, total: usize, text: String, effect: Option<Effect> },
    /// Sends the staging tree to `host` and empties it.
    Flush { host: String },
}

/// The meaning of an `Action`, over character sequences.
pub enum ActionView {
    Announced { step: nat, total: nat, text: Seq<char>, effect: Option<EffectView> },
    Flush { host: Seq<char> },
}

impl View for Action {
    type V = ActionView;

    open spec fn view(&self) -> ActionView {
        match self {
            Action::Announced { step, total, text, effect } => ActionView::Announced {
                step: *step as nat,
                total: *total as nat,
                text: text@,
                effect: match effect {
                    Some(e) => Some(e@),
                    None => None,
                },
            },
            Action::Flush { host } => ActionView::Flush { host: host@ },
        }
    }
}

/// The settings of one run.
pub struct InstallOptions {
    /// The active tag rules; their labels are separated by `,`.
    pub tag_rules: Vec<String>,
    /// The remote host; empty for an installation on this machine.
    pub host: String,
    /// Announce every action without carrying any out.
    pub dry_run: bool,
    /// Copy the files that the manifest links.
    pub copy: bool,
    /// The local staging tree for a remote installation.
    pub staging_dir: String,
}

/// The meaning of `InstallOptions`.
pub struct OptionsView {
    pub rules: Seq<Seq<char>>,
    pub host: Seq<char>,
    pub dry_run: bool,
    pub copy: bool,
    pub staging: Seq<char>,
}

impl View for InstallOptions {
    type V = OptionsView;

    open spec fn view(&self) -> OptionsView {
        OptionsView {
            rules: texts(self.tag_rules@),
            host: self.host@,
            dry_run: self.dry_run,
            copy: self.copy,
            staging: self.staging_dir@,
        }
    }
}

/// The views of a list of actions.
pub open spec fn actions_view(v: Seq<Action>) -> Seq<ActionView> {
    v.map_values(|a: Action| a@)
}

/// Whether the run installs on another machine.
pub open spec fn is_remote(o: OptionsView) -> bool {
    o.host.len() > 0
}

/// Where a destination is shown and sent on a remote run: relative paths go
/// under the remote install directory `~/.coliru`.
pub open spec fn remote_dst(dst: Seq<char>) -> Seq<char> {
    resolved_path(dst, "~/.coliru"@)
}

/// The announced copy of `src` to `dst`.
pub open spec fn copy_action(src: Seq<char>, dst: Seq<char>, step: nat, total: nat, o: OptionsView) -> ActionView {
    let shown = if is_remote(o) { remote_dst(dst) } else { dst };
    let target = if is_remote(o) { o.host + ":"@ + shown } else { shown };
    ActionView::Announced {
        step,
        total,
        text: "Copy "@ + src + " to "@ + target,
        effect: if o.dry_run {
            None
        } else if is_remote(o) {
            Some(EffectView::Stage { src, staged: staged_path(shown, o.staging) })
        } else {
            Some(EffectView::Copy { src, dst })
        },
    }
}

/// The announced copies of a list of entries.
pub open spec fn copy_list_actions(pairs: Seq<(Seq<char>, Seq<char>)>, step: nat, total: nat, o: OptionsView) -> Seq<ActionView>
    decreases pairs.len(),
{
    if pairs.len() == 0 {
        Seq::empty()
    } else {
        copy_list_actions(pairs.drop_last(), step, total, o).push(
            copy_action(pairs.last().0, pairs.last().1, step, total, o),
        )
    }
}

/// The transfer that follows a list of copies on a remote run that is not a
/// dry run.
pub open spec fn flush_after(o: OptionsView) -> Seq<ActionView> {
    if is_remote(o) && !o.dry_run {
        seq![ActionView::Flush { host: o.host }]
    } else {
        Seq::empty()
    }
}

/// A list of copies, then the transfer of what they staged.
pub open spec fn copies_then_flush(pairs: Seq<(Seq<char>, Seq<char>)>, step: nat, total: nat, o: OptionsView) -> Seq<ActionView> {
    copy_list_actions(pairs, step, total, o) + flush_after(o)
}

/// The announced link of `dst` to `src`.
pub open spec fn link_action(src: Seq<char>, dst: Seq<char>, step: nat, total: nat, o: OptionsView) -> ActionView {
    ActionView::Announced {
        step,
        total,
        text: "Link "@ + src + " to "@ + dst,
        effect: if o.dry_run { None } else { Some(EffectView::Link { src, dst }) },
    }
}

/// The announced links of a list of entries.
pub open spec fn link_list_actions(pairs: Seq<(Seq<char>, Seq<char>)>, step: nat, total: nat, o: OptionsView) -> Seq<ActionView>
    decreases pairs.len(),
{
    if pairs.len() == 0 {
        Seq::empty()
    } else {
        link_list_actions(pairs.drop_last(), step, total, o).push(
            link_action(pairs.last().0, pairs.last().1, step, total, o),
        )
    }
}

/// Links become copies on a remote run, where symbolic links do not survive
/// the transfer, and when copies are asked for.
pub open spec fn links_as_copies(o: OptionsView) -> bool {
    is_remote(o) || o.copy
}

/// The shell command of a script entry: `prefix src postfix`, with each
/// `$COLIRU_RULES` in the postfix replaced by the rules joined with spaces.
pub open spec fn run_command(prefix: Seq<char>, src: Seq<char>, postfix: Seq<char>, rules: Seq<Seq<char>>) -> Seq<char> {
    prefix + " "@ + src + " "@ + replace_all(postfix, "$COLIRU_RULES"@, join_words(rules))
}

/// The announced run of a script entry.
pub open spec fn run_action(entry: (Seq<char>, Seq<char>, Seq<char>), step: nat, total: nat, o: OptionsView) -> ActionView {
    let command = run_command(entry.0, entry.1, entry.2, o.rules);
    ActionView::Announced {
        step,
        total,
        text: if is_remote(o) { "Run "@ + command + " on "@ + o.host } else { "Run "@ + command },
        effect: if o.dry_run {
            None
        } else if is_remote(o) {
            Some(EffectView::RunRemote { command: "cd .coliru && "@ + command, host: o.host })
        } else {
            Some(EffectView::RunLocal { command })
        },
    }
}

/// The announced runs of a list of script entries.
pub open spec fn run_list_actions(entries: Seq<(Seq<char>, Seq<char>, Seq<char>)>, step: nat, total: nat, o: OptionsView) -> Seq<ActionView>
    decreases entries.len(),
{
    if entries.len() == 0 {
        Seq::empty()
    } else {
        run_list_actions(entries.drop_last(), step, total, o).push(
            run_action(entries.last(), step, total, o),
        )
    }
}

/// The source and destination of each entry.
pub open spec fn copy_pairs(es: Seq<CopyLinkOptions>) -> Seq<(Seq<char>, Seq<char>)> {
    es.map_values(|e: CopyLinkOptions| (e.src@, e.dst@))
}

/// On a remote run each script is first sent to the install directory.
pub open spec fn script_pairs(rs: Seq<RunOptions>) -> Seq<(Seq<char>, Seq<char>)> {
    rs.map_values(|r: RunOptions| (r.src@, r.src@))
}

/// The prefix, script and postfix of each entry.
pub open spec fn run_entries(rs: Seq<RunOptions>) -> Seq<(Seq<char>, Seq<char>, Seq<char>)> {
    rs.map_values(|r: RunOptions| (r.prefix@, r.src@, r.postfix@))
}

/// The plan of one selected step, number `step` of `total`: its copies, its
/// links, then its scripts.
pub open spec fn step_actions(s: Step, step: nat, total: nat, o: OptionsView) -> Seq<ActionView> {
    copies_then_flush(copy_pairs(s.copy@), step, total, o) + (if links_as_copies(o) {
        copies_then_flush(copy_pairs(s.link@), step, total, o)
    } else {
        link_list_actions(copy_pairs(s.link@), step, total, o)
    }) + (if is_remote(o) {
        copies_then_flush(script_pairs(s.run@), step, total, o)
    } else {
        Seq::empty()
    }) + run_list_actions(run_entries(s.run@), step, total, o)
}

/// The steps that the rules select, in manifest order.
pub open spec fn selected_steps(steps: Seq<Step>, rules: Seq<Seq<char>>) -> Seq<Step>
    decreases steps.len(),
{
    if steps.len() == 0 {
        Seq::empty()
    } else if step_selected(rules, steps.last()) {
        selected_steps(steps.drop_last(), rules).push(steps.last())
    } else {
        selected_steps(steps.drop_last(), rules)
    }
}

/// The plans of selected steps, numbered from 1 out of `total`.
pub open spec fn steps_actions(sel: Seq<Step>, total: nat, o: OptionsView) -> Seq<ActionView>
    decreases sel.len(),
{
    if sel.len() == 0 {
        Seq::empty()
    } else {
        steps_actions(sel.drop_last(), total, o) + step_actions(sel.last(), sel.len(), total, o)
    }
}

/// The plan of a whole run.
pub open spec fn install_actions(steps: Seq<Step>, o: OptionsView) -> Seq<ActionView> {
    let sel = selected_steps(steps, o.rules);
    steps_actions(sel, sel.len(), o)
}

fn copy_action_of(src: &str, dst: &str, step: usize, total: usize, options: &InstallOptions) -> (r: Action)
    ensures
        r@ == copy_action(src@, dst@, step as nat, total as nat, options@),
{
    let remote = options.host.as_str().unicode_len() > 0;
    let shown = if remote {
        resolve_path(dst, "~/.coliru")
    } else {
        String::from_str(dst)
    };
    let mut text = String::from_str("Copy ");
    text.append(src);
    text.append(" to ");
    if remote {
        text.append(options.host.as_str());
        text.append(":");
    }
    text.append(shown.as_str());
    let effect = if options.dry_run {
        None
    } else if remote {
        Some(
            Effect::Stage {
                src: String::from_str(src),
                staged: staging_path(shown.as_str(), options.staging_dir.as_str()),
            },
        )
    } else {
        Some(Effect::Copy { src: String::from_str(src), dst: String::from_str(dst) })
    };
    proof {
        if remote {
            assert(text@ =~= "Copy "@ + src@ + " to "@ + (options.host@ + ":"@ + shown@));
        } else {
            assert(text@ =~= "Copy "@ + src@ + " to "@ + shown@);
        }
    }
    Action::Announced { step, total, text, effect }
}

/// Appends the copies of `entries`, then, on a remote run that is not a dry
/// run, the transfer of what they staged.
fn push_copies(
    out: &mut Vec<Action>,
    entries: &[CopyLinkOptions],
    step: usize,
    total: usize,
    options: &InstallOptions,
)
    ensures
        actions_view(final(out)@) == actions_view(old(out)@) + copies_then_flush(
            copy_pairs(entries@),
            step as nat,
            total as nat,
            options@,
        ),
{
    let ghost start = actions_view(out@);
    let mut j: usize = 0;
    while j < entries.len()
        invariant
            j <= entries@.len(),
            actions_view(out@) == start + copy_list_actions(
                copy_pairs(entries@.take(j as int)),
                step as nat,
                total as nat,
                options@,
            ),
        decreases entries@.len() - j,
    {
        let e = &entries[j];
        let a = copy_action_of(e.src.as_str(), e.dst.as_str(), step, total, options);
        let ghost prev = out@;
        out.push(a);
        proof {
            assert(copy_pairs(entries@.take(j + 1)).drop_last() =~= copy_pairs(entries@.take(j as int)));
            assert(copy_pairs(entries@.take(j + 1)).last() == (e.src@, e.dst@));
            assert(actions_view(out@) =~= actions_view(prev).push(a@));
        }
        j = j + 1;
    }
    proof {
        assert(entries@.take(j as int) =~= entries@);
    }
    let ghost listed = actions_view(out@);
    if options.host.as_str().unicode_len() > 0 && !options.dry_run {
        out.push(Action::Flush { host: options.host.clone() });
        proof {
            assert(actions_view(out@) =~= listed.push(ActionView::Flush { host: options.host@ }));
        }
    }
    proof {
        assert(actions_view(out@) =~= start + copies_then_flush(
            copy_pairs(entries@),
            step as nat,
            total as nat,
            options@,
        ));
    }
}

/// Appends the links of `entries`.
fn push_links(
    out: &mut Vec<Action>,
    entries: &[CopyLinkOptions],
    step: usize,
    total: usize,
    options: &InstallOptions,
)
    ensures
        actions_view(final(out)@) == actions_view(old(out)@) + link_list_actions(
            copy_pairs(entries@),
            step as nat,
            total as nat,
            options@,
        ),
{
    let ghost start = actions_view(out@);
    let mut j: usize = 0;
    while j < entries.len()
        invariant
            j <= entries@.len(),
            actions_view(out@) == start + link_list_actions(
                copy_pairs(entries@.take(j as int)),
                step as nat,
                total as nat,
                options@,
            ),
        decreases entries@.len() - j,
    {
        let e = &entries[j];
        let mut text = String::from_str("Link ");
        text.append(e.src.as_str());
        text.append(" to ");
        text.append(e.dst.as_str());
        let effect = if options.dry_run {
            None
        } else {
            Some(Effect::Link { src: e.src.clone(), dst: e.dst.clone() })
        };
        let a = Action::Announced { step, total, text, effect };
        let ghost prev = out@;
        out.push(a);
        proof {
            assert(text@ =~= "Link "@ + e.src@ + " to "@ + e.dst@);
            assert(copy_pairs(entries@.take(j + 1)).drop_last() =~= copy_pairs(entries@.take(j as int)));
            assert(copy_pairs(entries@.take(j + 1)).last() == (e.src@, e.dst@));
            assert(actions_view(out@) =~= actions_view(prev).push(a@));
        }
        j = j + 1;
    }
    proof {
        assert(entries@.take(j as int) =~= entries@);
    }
}

/// The shell command of a script entry, with `rules` the active rules
/// already joined by spaces.
pub fn command_of(entry: &RunOptions, rules: &str) -> (r: String)
    ensures
        r@ == entry.prefix@ + " "@ + entry.src@ + " "@ + replace_all(
            entry.postfix@,
            "$COLIRU_RULES"@,
            rules@,
        ),
{
    proof {
        reveal_strlit("$COLIRU_RULES");
    }
    let postfix = replace_text(entry.postfix.as_str(), "$COLIRU_RULES", rules);
    let mut command = entry.prefix.clone();
    command.append(" ");
    command.append(entry.src.as_str());
    command.append(" ");
    command.append(postfix.as_str());
    proof {
        assert(command@ =~= entry.prefix@ + " "@ + entry.src@ + " "@ + postfix@);
    }
    command
}

/// Appends the runs of `entries`, each rule marker replaced by `rules`.
fn push_runs(
    out: &mut Vec<Action>,
    entries: &[RunOptions],
    rules: &String,
    step: usize,
    total: usize,
    options: &InstallOptions,
)
    requires
        rules@ == join_words(options@.rules),
    ensures
        actions_view(final(out)@) == actions_view(old(out)@) + run_list_actions(
            run_entries(entries@),
            step as nat,
            total as nat,
            options@,
        ),
{
    let ghost start = actions_view(out@);
    let remote = options.host.as_str().unicode_len() > 0;
    let mut j: usize = 0;
    while j < entries.len()
        invariant
            j <= entries@.len(),
            rules@ == join_words(options@.rules),
            remote == is_remote(options@),
            actions_view(out@) == start + run_list_actions(
                run_entries(entries@.take(j as int)),
                step as nat,
                total as nat,
                options@,
            ),
        decreases entries@.len() - j,
    {
        let e = &entries[j];
        let command = command_of(e, rules.as_str());
        let mut text = String::from_str("Run ");
        text.append(command.as_str());
        if remote {
            text.append(" on ");
            text.append(options.host.as_str());
        }
        let effect = if options.dry_run {
            None
        } else if remote {
            let mut remote_command = String::from_str("cd .coliru && ");
            remote_command.append(command.as_str());
            Some(Effect::RunRemote { command: remote_command, host: options.host.clone() })
        } else {
            Some(Effect::RunLocal { command })
        };
        let a = Action::Announced { step, total, text, effect };
        let ghost prev = out@;
        out.push(a);
        proof {
            assert(run_entries(entries@.take(j + 1)).drop_last() =~= run_entries(entries@.take(j as int)));
            assert(run_entries(entries@.take(j + 1)).last() == (e.prefix@, e.src@, e.postfix@));
            assert(a@ == run_action((e.prefix@, e.src@, e.postfix@), step as nat, total as nat, options@));
            assert(actions_view(out@) =~= actions_view(prev).push(a@));
        }
        j = j + 1;
    }
    proof {
        assert(entries@.take(j as int) =~= entries@);
    }
}

/// The copies that send each script to the install directory.
fn script_copies(entries: &[RunOptions]) -> (r: Vec<CopyLinkOptions>)
    ensures
        copy_pairs(r@) == script_pairs(entries@),
{
    let mut out: Vec<CopyLinkOptions> = Vec::new();
    let mut j: usize = 0;
    while j < entries.len()
        invariant
            j <= entries@.len(),
            copy_pairs(out@) == script_pairs(entries@.take(j as int)),
        decreases entries@.len() - j,
    {
        let ghost prev = out@;
        out.push(CopyLinkOptions { src: entries[j].src.clone(), dst: entries[j].src.clone() });
        proof {
            assert(copy_pairs(out@) =~= copy_pairs(prev).push((entries@[j as int].src@, entries@[j as int].src@)));
            assert(script_pairs(entries@.take(j + 1)) =~= script_pairs(entries@.take(j as int)).push(
                (entries@[j as int].src@, entries@[j as int].src@),
            ));
        }
        j = j + 1;
    }
    proof {
        assert(entries@.take(j as int) =~= entries@);
    }
    out
}

/// Appends the plan of one selected step.
fn push_step(
    out: &mut Vec<Action>,
    s: &Step,
    rules: &String,
    step: usize,
    total: usize,
    options: &InstallOptions,
)
    requires
        rules@ == join_words(options@.rules),
    ensures
        actions_view(final(out)@) == actions_view(old(out)@) + step_actions(
            *s,
            step as nat,
            total as nat,
            options@,
        ),
{
    let ghost start = actions_view(out@);
    let remote = options.host.as_str().unicode_len() > 0;
    push_copies(out, s.copy.as_slice(), step, total, options);
    if remote || options.copy {
        push_copies(out, s.link.as_slice(), step, total, options);
    } else {
        push_links(out, s.link.as_slice(), step, total, options);
    }
    if remote {
        let scripts = script_copies(s.run.as_slice());
        push_copies(out, scripts.as_slice(), step, total, options);
    }
    push_runs(out, s.run.as_slice(), rules, step, total, options);
    proof {
        assert(actions_view(out@) =~= start + step_actions(*s, step as nat, total as nat, options@));
    }
}

/// Plans a run: the steps that the tag rules select, in manifest order, each
/// numbered out of the number of selected steps.
pub fn plan_install(manifest: &Manifest, options: &InstallOptions) -> (r: Vec<Action>)
    ensures
        actions_view(r@) == install_actions(manifest.steps@, options@),
{
    let ghost steps = manifest.steps@;
    let ghost o = options@;
    let rule_texts = as_strs(options.tag_rules.as_slice());
    let rules = parse_rules(rule_texts.as_slice(), ',');
    proof {
        assert forall|q: int| 0 <= q < rules@.len() implies #[trigger] rules@[q]@ == parsed_rule(o.rules[q], ',') by {
            assert(o.rules[q] == strs(rule_texts@)[q]);
        }
    }
    let mut chosen: Vec<usize> = Vec::new();
    let mut i: usize = 0;
    while i < manifest.steps.len()
        invariant
            steps == manifest.steps@,
            o == options@,
            i <= steps.len(),
            rules@.len() == o.rules.len(),
            forall|q: int| 0 <= q < rules@.len() ==> #[trigger] rules@[q]@ == parsed_rule(o.rules[q], ','),
            chosen@.len() == selected_steps(steps.take(i as int), o.rules).len(),
            forall|k: int| 0 <= k < chosen@.len() ==> #[trigger] chosen@[k] < i && steps[chosen@[k] as int]
                == selected_steps(steps.take(i as int), o.rules)[k],
        decreases steps.len() - i,
    {
        let ghost before = selected_steps(steps.take(i as int), o.rules);
        proof {
            assert(steps.take(i + 1).drop_last() =~= steps.take(i as int));
            assert(steps.take(i + 1).last() == steps[i as int]);
        }
        if step_matches(rules.as_slice(), &manifest.steps[i], Ghost(o.rules)) {
            chosen.push(i);
            proof {
                assert(selected_steps(steps.take(i + 1), o.rules) == before.push(steps[i as int]));
            }
        }
        i = i + 1;
    }
    proof {
        assert(steps.take(i as int) =~= steps);
    }
    let ghost sel = selected_steps(steps, o.rules);
    let total = chosen.len();
    let joined = join_with_spaces(options.tag_rules.as_slice());
    let mut out: Vec<Action> = Vec::new();
    let mut k: usize = 0;
    proof {
        assert(sel.take(0) =~= Seq::<Step>::empty());
        assert(actions_view(out@) =~= Seq::<ActionView>::empty());
    }
    while k < total
        invariant
            steps == manifest.steps@,
            o == options@,
            sel == selected_steps(steps, o.rules),
            total == chosen@.len(),
            total == sel.len(),
            k <= total,
            joined@ == join_words(o.rules),
            forall|q: int| 0 <= q < chosen@.len() ==> #[trigger] chosen@[q] < steps.len() && steps[chosen@[q] as int]
                == sel[q],
            actions_view(out@) == steps_actions(sel.take(k as int), total as nat, o),
        decreases total - k,
    {
        let idx = chosen[k];
        assert(chosen@[k as int] < steps.len());
        push_step(&mut out, &manifest.steps[idx], &joined, k + 1, total, options);
        proof {
            assert(sel.take(k + 1).drop_last() =~= sel.take(k as int));
            assert(sel.take(k + 1).last() == sel[k as int]);
        }
        k = k + 1;
    }
    proof {
        assert(sel.take(k as int) =~= sel);
    }
    out
}

/// The exit status of a completed run, from whether each action failed:
/// 1 where some action failed, however many, and 0 otherwise.
pub fn exit_code(failed: &[bool]) -> (r: i32)
    ensures
        r == (if exists|i: int| 0 <= i < failed@.len() && failed@[i] { 1i32 } else { 0i32 }),
{
    let mut i: usize = 0;
    while i < failed.len()
        invariant
            i <= failed@.len(),
            forall|j: int| 0 <= j < i ==> !failed@[j],
        decreases failed@.len() - i,
    {
        if failed[i] {
            return 1;
        }
        i = i + 1;
    }
    0
}

proof fn lemma_selected_append(a: Seq<Step>, b: Seq<Step>, rules: Seq<Seq<char>>)
    ensures
        selected_steps(a + b, rules) == selected_steps(a, rules) + selected_steps(b, rules),
    decreases b.len(),
{
    if b.len() == 0 {
        assert(a + b =~= a);
        assert(selected_steps(a, rules) + selected_steps(b, rules) =~= selected_steps(a, rules));
    } else {
        assert((a + b).drop_last() =~= a + b.drop_last());
        assert((a + b).last() == b.last());
        lemma_selected_append(a, b.drop_last(), rules);
        if step_selected(rules, b.last()) {
            assert(selected_steps(a + b, rules) =~= selected_steps(a, rules) + selected_steps(b, rules));
        }
    }
}

/// A step that the rules do not select has no part in a run: taking it out
/// of the manifest leaves the plan, announcements and step numbers included,
/// exactly as it was.
pub proof fn lemma_unselected_step_changes_nothing(steps: Seq<Step>, k: int, o: OptionsView)
    requires
        0 <= k < steps.len(),
        !step_selected(o.rules, steps[k]),
    ensures
        install_actions(steps.remove(k), o) == install_actions(steps, o),
{
    let front = steps.take(k);
    let back = steps.skip(k + 1);
    let one = seq![steps[k]];
    assert(steps =~= front + one + back);
    assert(steps.remove(k) =~= front + back);
    assert(one.drop_last() =~= Seq::<Step>::empty());
    assert(one.last() == steps[k]);
    assert(selected_steps(Seq::<Step>::empty(), o.rules) == Seq::<Step>::empty());
    assert(selected_steps(one, o.rules) == selected_steps(one.drop_last(), o.rules));
    assert(selected_steps(one, o.rules) =~= Seq::<Step>::empty());
    lemma_selected_append(front + one, back, o.rules);
    lemma_selected_append(front, one, o.rules);
    lemma_selected_append(front, back, o.rules);
    assert(selected_steps(front, o.rules) + Seq::<Step>::empty() =~= selected_steps(front, o.rules));
}

/// Whether every entry is an announcement with nothing to carry out.
pub open spec fn announcements_only(v: Seq<ActionView>) -> bool {
    forall|i: int| 0 <= i < v.len() ==> (#[trigger] v[i] matches ActionView::Announced { effect: None, .. })
}

proof fn lemma_announcements_concat(a: Seq<ActionView>, b: Seq<ActionView>)
    requires
        announcements_only(a),
        announcements_only(b),
    ensures
        announcements_only(a + b),
{
    assert forall|i: int| 0 <= i < (a + b).len() implies (#[trigger] (a + b)[i] matches ActionView::Announced { effect: None, .. }) by {
        if i >= a.len() {
            assert((a + b)[i] == b[i - a.len()]);
        }
    }
}

proof fn lemma_dry_copies(pairs: Seq<(Seq<char>, Seq<char>)>, step: nat, total: nat, o: OptionsView)
    requires
        o.dry_run,
    ensures
        announcements_only(copies_then_flush(pairs, step, total, o)),
    decreases pairs.len(),
{
    if pairs.len() > 0 {
        lemma_dry_copies(pairs.drop_last(), step, total, o);
    }
    assert(copies_then_flush(pairs, step, total, o) =~= copy_list_actions(pairs, step, total, o));
}

proof fn lemma_dry_links(pairs: Seq<(Seq<char>, Seq<char>)>, step: nat, total: nat, o: OptionsView)
    requires
        o.dry_run,
    ensures
        announcements_only(link_list_actions(pairs, step, total, o)),
    decreases pairs.len(),
{
    if pairs.len() > 0 {
        lemma_dry_links(pairs.drop_last(), step, total, o);
    }
}

proof fn lemma_dry_runs(entries: Seq<(Seq<char>, Seq<char>, Seq<char>)>, step: nat, total: nat, o: OptionsView)
    requires
        o.dry_run,
    ensures
        announcements_only(run_list_actions(entries, step, total, o)),
    decreases entries.len(),
{
    if entries.len() > 0 {
        lemma_dry_runs(entries.drop_last(), step, total, o);
    }
}

proof fn lemma_dry_steps(sel: Seq<Step>, total: nat, o: OptionsView)
    requires
        o.dry_run,
    ensures
        announcements_only(steps_actions(sel, total, o)),
    decreases sel.len(),
{
    if sel.len() > 0 {
        lemma_dry_steps(sel.drop_last(), total, o);
        let s = sel.last();
        let n = sel.len();
        lemma_dry_copies(copy_pairs(s.copy@), n, total, o);
        lemma_dry_copies(copy_pairs(s.link@), n, total, o);
        lemma_dry_links(copy_pairs(s.link@), n, total, o);
        lemma_dry_copies(script_pairs(s.run@), n, total, o);
        lemma_dry_runs(run_entries(s.run@), n, total, o);
        let links = if links_as_copies(o) {
            copies_then_flush(copy_pairs(s.link@), n, total, o)
        } else {
            link_list_actions(copy_pairs(s.link@), n, total, o)
        };
        let scripts = if is_remote(o) {
            copies_then_flush(script_pairs(s.run@), n, total, o)
        } else {
            Seq::empty()
        };
        lemma_announcements_concat(copies_then_flush(copy_pairs(s.copy@), n, total, o), links);
        lemma_announcements_concat(copies_then_flush(copy_pairs(s.copy@), n, total, o) + links, scripts);
        lemma_announcements_concat(
            copies_then_flush(copy_pairs(s.copy@), n, total, o) + links + scripts,
            run_list_actions(run_entries(s.run@), n, total, o),
        );
        lemma_announcements_concat(steps_actions(sel.drop_last(), total, o), step_actions(s, n, total, o));
    }
}

/// A dry run only announces: no entry of its plan copies, links, stages,
/// transfers or runs anything, so nothing can fail.
pub proof fn lemma_dry_run_only_announces(steps: Seq<Step>, o: OptionsView)
    requires
        o.dry_run,
    ensures
        announcements_only(install_actions(steps, o)),
{
    let sel = selected_steps(steps, o.rules);
    lemma_dry_steps(sel, sel.len(), o);
}

proof fn lemma_run_list_entries(entries: Seq<(Seq<char>, Seq<char>, Seq<char>)>, step: nat, total: nat, o: OptionsView)
    ensures
        run_list_actions(entries, step, total, o).len() == entries.len(),
        forall|i: int| 0 <= i < entries.len() ==> #[trigger] run_list_actions(entries, step, total, o)[i]
            == run_action(entries[i], step, total, o),
    decreases entries.len(),
{
    if entries.len() > 0 {
        lemma_run_list_entries(entries.drop_last(), step, total, o);
    }
}

/// Every script entry of a step is run in its own action, in order, at the
/// end of the step's plan: a failing script keeps none of the others from
/// being run.
pub proof fn lemma_each_script_runs(s: Step, step: nat, total: nat, o: OptionsView)
    ensures
        ({
            let v = step_actions(s, step, total, o);
            let n = s.run@.len();
            n <= v.len() && forall|i: int| 0 <= i < n ==> #[trigger] v[v.len() - n + i] == run_action(
                (s.run@[i].prefix@, s.run@[i].src@, s.run@[i].postfix@),
                step,
                total,
                o,
            )
        }),
{
    let entries = run_entries(s.run@);
    lemma_run_list_entries(entries, step, total, o);
    let v = step_actions(s, step, total, o);
    let runs = run_list_actions(entries, step, total, o);
    assert(v == v.subrange(0, v.len() - runs.len()) + runs) by {
        let before = copies_then_flush(copy_pairs(s.copy@), step, total, o) + (if links_as_copies(o) {
            copies_then_flush(copy_pairs(s.link@), step, total, o)
        } else {
            link_list_actions(copy_pairs(s.link@), step, total, o)
        }) + (if is_remote(o) {
            copies_then_flush(script_pairs(s.run@), step, total, o)
        } else {
            Seq::empty()
        });
        assert(v == before + runs);
        assert(v.subrange(0, v.len() - runs.len()) =~= before);
    }
    assert forall|i: int| 0 <= i < s.run@.len() implies #[trigger] v[v.len() - s.run@.len() + i] == run_action(
        (s.run@[i].prefix@, s.run@[i].src@, s.run@[i].postfix@),
        step,
        total,
        o,
    ) by {
        assert(entries[i] == (s.run@[i].prefix@, s.run@[i].src@, s.run@[i].postfix@));
        assert(runs[i] == run_action(entries[i], step, total, o));
    }
}

} // verus!
