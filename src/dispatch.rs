//! What runs: for each rule, its commands in order, each with the staged
//! paths that the rule matches; and what the run as a whole comes to once the
//! processes have finished.
use vstd::prelude::*;
use crate::command::{split_command, words};
use crate::config::{matched, RslintStagedConfig, RslintStagedConfigItem};
use crate::staged::{
    absolutes, dedup_by_absolute, delta_paths, pair_views, under_root, views, FileDelta, Repo, StagedPath,
};

verus! {

/// The options of a run.
pub struct CliOptions {
    /// The working tree, where the commands run.
    pub cwd: String,
    /// Whether to log what is done.
    pub debug: bool,
    /// Whether a run with no staged files succeeds instead of failing.
    pub quiet: bool,
}

/// One process to start: the program, the arguments that the command names,
/// then the matched paths.
pub struct Invocation {
    pub executable: String,
    pub static_args: Vec<String>,
    pub paths: Vec<String>,
}

/// The processes of one rule, to be run one after the other, each after the
/// previous one has finished.
pub struct RulePlan {
    pub invocations: Vec<Invocation>,
}

/// How a started command ended.
#[derive(Debug, Clone, Copy, PartialEq, Eq, Structural)]
pub enum CommandOutcome {
    /// It ran to the end with this exit code; `0` is success.
    Exited(i32),
    /// It was ended by a signal.
    Killed,
    /// It could not be started.
    SpawnError,
}

/// A command that did not succeed: its rule, its place among the rule's
/// commands, and how it ended.
#[derive(Debug, Clone, Copy, PartialEq, Eq, Structural)]
pub struct FailedCommand {
    pub rule: usize,
    pub command: usize,
    pub outcome: CommandOutcome,
}

/// Why a run did not succeed.
#[derive(Debug)]
pub enum DispatchError {
    /// Nothing is staged, and quiet mode is off.
    EmptyStagedSet,
    /// These commands failed, rule by rule, each rule's in order.
    CommandsFailed(Vec<FailedCommand>),
}

/// The whole run: its rules, options and working tree.
pub struct RslintStaged {
    pub config: RslintStagedConfig,
    pub cli_options: CliOptions,
    pub repo: Repo,
}

/// The invocation runs the command on the paths: its first word is the
/// program, the other words are the first arguments, and the paths follow.
/// A command without words gives an empty program name, which cannot start.
pub open spec fn invokes(inv: Invocation, command: Seq<char>, paths: Seq<Seq<char>>) -> bool {
    let w = words(command);
    &&& inv.executable@ == (if w.len() > 0 { w[0] } else { Seq::empty() })
    &&& views(inv.static_args@) == (if w.len() > 0 { w.drop_first() } else { Seq::empty() })
    &&& views(inv.paths@) == paths
}

/// The plan runs each of the rule's commands, in order, on the absolute paths
/// of the staged files that the rule matches by their relative paths; a rule
/// that matches nothing runs nothing.
pub open spec fn plans_rule(plan: RulePlan, item: RslintStagedConfigItem, staged: Seq<(Seq<char>, Seq<char>)>) -> bool {
    let m = matched(item.path_matcher.pattern(), staged);
    &&& plan.invocations.len() == (if m.len() == 0 { 0 } else { item.commands.len() })
    &&& forall|j: int|
        0 <= j < plan.invocations.len() ==> invokes(
            #[trigger] plan.invocations@[j],
            item.commands@[j]@,
            absolutes(m),
        )
}

/// One plan per rule, in the order of the rules.
pub open spec fn plans_all(plans: Seq<RulePlan>, cfg: RslintStagedConfig, staged: Seq<(Seq<char>, Seq<char>)>) -> bool {
    &&& plans.len() == cfg.items.len()
    &&& forall|i: int| 0 <= i < plans.len() ==> plans_rule(#[trigger] plans[i], cfg.items@[i], staged)
}

/// What a successful run comes to: nothing when there is nothing staged
/// (quiet mode), else one plan per rule.
pub open spec fn dispatched(
    r: Result<Vec<RulePlan>, DispatchError>,
    cfg: RslintStagedConfig,
    staged: Seq<(Seq<char>, Seq<char>)>,
    quiet: bool,
) -> bool {
    if staged.len() == 0 {
        if quiet {
            r is Ok && r->Ok_0.len() == 0
        } else {
            r is Err && r->Err_0 is EmptyStagedSet
        }
    } else {
        r is Ok && plans_all(r->Ok_0@, cfg, staged)
    }
}

/// Whether the command succeeded.
pub open spec fn succeeded(o: CommandOutcome) -> bool {
    o == CommandOutcome::Exited(0)
}

/// The failed commands of one rule, in order.
pub open spec fn rule_failures(rule: int, os: Seq<CommandOutcome>) -> Seq<FailedCommand>
    decreases os.len(),
{
    if os.len() == 0 {
        Seq::empty()
    } else {
        let f = rule_failures(rule, os.drop_last());
        if succeeded(os.last()) {
            f
        } else {
            f.push(FailedCommand { rule: rule as usize, command: (os.len() - 1) as usize, outcome: os.last() })
        }
    }
}

/// The failed commands of all rules, rule by rule.
pub open spec fn all_failures(os: Seq<Vec<CommandOutcome>>) -> Seq<FailedCommand>
    decreases os.len(),
{
    if os.len() == 0 {
        Seq::empty()
    } else {
        all_failures(os.drop_last()) + rule_failures(os.len() - 1, os.last()@)
    }
}

/// Every command of every rule succeeded.
pub open spec fn all_succeeded(os: Seq<Vec<CommandOutcome>>) -> bool {
    forall|i: int, j: int| 0 <= i < os.len() && 0 <= j < os[i]@.len() ==> succeeded(#[trigger] os[i]@[j])
}

/// The run of one command on the absolute paths of the staged files.
fn invocation_for(command: &String, paths: &Vec<StagedPath>) -> (r: Invocation)
    ensures
        invokes(r, command@, absolutes(pair_views(paths@))),
{
    let w = split_command(command.as_str());
    let ghost ws = views(w@);
    let mut executable = String::new();
    let mut static_args: Vec<String> = Vec::new();
    if w.len() > 0 {
        executable = w[0].clone();
        let mut k: usize = 1;
        while k < w.len()
            invariant
                1 <= k <= w.len(),
                ws == views(w@),
                views(static_args@) == ws.subrange(1, k as int),
            decreases w.len() - k,
        {
            let ghost before = static_args@;
            static_args.push(w[k].clone());
            assert(views(static_args@) =~= views(before).push(w@[k as int]@));
            assert(ws.subrange(1, k + 1) =~= ws.subrange(1, k as int).push(ws[k as int]));
            k += 1;
        }
        assert(ws.subrange(1, w.len() as int) =~= ws.drop_first());
    } else {
        assert(views(static_args@) =~= Seq::<Seq<char>>::empty());
    }
    let mut copied: Vec<String> = Vec::new();
    let mut k: usize = 0;
    while k < paths.len()
        invariant
            k <= paths.len(),
            views(copied@) =~= absolutes(pair_views(paths@)).take(k as int),
        decreases paths.len() - k,
    {
        let ghost before = copied@;
        copied.push(paths[k].absolute.clone());
        assert(views(copied@) =~= views(before).push(paths@[k as int].absolute@));
        assert(absolutes(pair_views(paths@)).take(k + 1) =~= absolutes(pair_views(paths@)).take(k as int).push(
            paths@[k as int].absolute@,
        ));
        k += 1;
    }
    assert(absolutes(pair_views(paths@)).take(paths.len() as int) =~= absolutes(pair_views(paths@)));
    Invocation { executable, static_args, paths: copied }
}

/// The runs of one rule: each command, in order, on the staged paths that the
/// rule matches. A rule that matches no staged path runs nothing, so that no
/// tool is started without files (many would take that as "all files").
pub fn plan_rule(item: &RslintStagedConfigItem, staged: &Vec<StagedPath>) -> (r: RulePlan)
    ensures
        plans_rule(r, *item, pair_views(staged@)),
{
    let filtered = item.match_all(staged);
    let mut invocations: Vec<Invocation> = Vec::new();
    assert(pair_views(filtered@).len() == filtered@.len());
    if filtered.len() > 0 {
        let mut j: usize = 0;
        while j < item.commands.len()
            invariant
                j <= item.commands.len(),
                pair_views(filtered@) == matched(item.path_matcher.pattern(), pair_views(staged@)),
                invocations.len() == j,
                forall|k: int|
                    0 <= k < j ==> invokes(
                        #[trigger] invocations@[k],
                        item.commands@[k]@,
                        absolutes(pair_views(filtered@)),
                    ),
            decreases item.commands.len() - j,
        {
            invocations.push(invocation_for(&item.commands[j], &filtered));
            j += 1;
        }
    }
    RulePlan { invocations }
}

/// Plans a run over the staged paths: with none it fails with
/// `EmptyStagedSet`, unless quiet, when it plans nothing; otherwise it plans
/// every rule, in the order of the rules.
pub fn dispatch(config: &RslintStagedConfig, staged: &Vec<StagedPath>, quiet: bool) -> (r: Result<
    Vec<RulePlan>,
    DispatchError,
>)
    ensures
        dispatched(r, *config, pair_views(staged@), quiet),
{
    assert(pair_views(staged@).len() == staged@.len());
    if staged.len() == 0 {
        if quiet {
            return Ok(Vec::new());
        } else {
            return Err(DispatchError::EmptyStagedSet);
        }
    }
    let mut plans: Vec<RulePlan> = Vec::new();
    let mut i: usize = 0;
    while i < config.items.len()
        invariant
            i <= config.items.len(),
            staged@.len() > 0,
            plans.len() == i,
            forall|k: int| 0 <= k < i ==> plans_rule(#[trigger] plans@[k], config.items@[k], pair_views(staged@)),
        decreases config.items.len() - i,
    {
        plans.push(plan_rule(&config.items[i], staged));
        i += 1;
    }
    Ok(plans)
}

/// The failed commands of a rule, after those already in `out`.
fn push_rule_failures(rule: usize, os: &Vec<CommandOutcome>, out: &mut Vec<FailedCommand>)
    ensures
        final(out)@ == old(out)@ + rule_failures(rule as int, os@),
{
    let ghost start = out@;
    let mut j: usize = 0;
    while j < os.len()
        invariant
            j <= os.len(),
            out@ == start + rule_failures(rule as int, os@.take(j as int)),
        decreases os.len() - j,
    {
        assert(os@.take(j + 1).drop_last() =~= os@.take(j as int));
        let o = os[j];
        if !(o == CommandOutcome::Exited(0)) {
            out.push(FailedCommand { rule, command: j, outcome: o });
        }
        assert(out@ =~= start + rule_failures(rule as int, os@.take(j + 1)));
        j += 1;
    }
    assert(os@.take(os.len() as int) =~= os@);
}

/// A rule has failures exactly when one of its commands did not succeed.
proof fn lemma_rule_failures_empty(rule: int, os: Seq<CommandOutcome>)
    ensures
        rule_failures(rule, os).len() == 0 <==> forall|j: int| 0 <= j < os.len() ==> succeeded(#[trigger] os[j]),
    decreases os.len(),
{
    if os.len() > 0 {
        lemma_rule_failures_empty(rule, os.drop_last());
        if forall|j: int| 0 <= j < os.len() ==> succeeded(#[trigger] os[j]) {
            assert forall|j: int| 0 <= j < os.drop_last().len() implies succeeded(#[trigger] os.drop_last()[j]) by {
                assert(succeeded(os[j]));
            }
        } else if rule_failures(rule, os).len() == 0 {
            let j = choose|j: int| 0 <= j < os.len() && !succeeded(#[trigger] os[j]);
            if j < os.len() - 1 {
                assert(!succeeded(os.drop_last()[j]));
            }
        }
    }
}

/// The run has failures exactly when some command of some rule did not
/// succeed.
pub proof fn lemma_failures_empty_iff_all_succeeded(os: Seq<Vec<CommandOutcome>>)
    ensures
        all_failures(os).len() == 0 <==> all_succeeded(os),
    decreases os.len(),
{
    if os.len() > 0 {
        let t = os.drop_last();
        lemma_failures_empty_iff_all_succeeded(t);
        lemma_rule_failures_empty(os.len() - 1, os.last()@);
        if all_succeeded(os) {
            assert forall|i: int, j: int| 0 <= i < t.len() && 0 <= j < t[i]@.len() implies succeeded(
                #[trigger] t[i]@[j],
            ) by {
                assert(os[i] == t[i]);
                assert(succeeded(os[i]@[j]));
            }
            assert forall|j: int| 0 <= j < os.last()@.len() implies succeeded(#[trigger] os.last()@[j]) by {
                assert(succeeded(os[os.len() - 1]@[j]));
            }
        } else if all_failures(os).len() == 0 {
            let (i, j) = choose|i: int, j: int|
                0 <= i < os.len() && 0 <= j < os[i]@.len() && !succeeded(#[trigger] os[i]@[j]);
            if i < t.len() {
                assert(t[i] == os[i]);
                assert(!succeeded(t[i]@[j]));
            } else {
                assert(!succeeded(os.last()@[j]));
            }
        }
    }
}

/// A failed command of a rule is among the rule's failures.
proof fn lemma_rule_failure_listed(rule: int, os: Seq<CommandOutcome>, j: int)
    requires
        0 <= j < os.len(),
        !succeeded(os[j]),
    ensures
        rule_failures(rule, os).contains(FailedCommand { rule: rule as usize, command: j as usize, outcome: os[j] }),
    decreases os.len(),
{
    let f = FailedCommand { rule: rule as usize, command: j as usize, outcome: os[j] };
    let t = os.drop_last();
    if j < os.len() - 1 {
        assert(t[j] == os[j]);
        lemma_rule_failure_listed(rule, t, j);
        let k = choose|k: int| 0 <= k < rule_failures(rule, t).len() && rule_failures(rule, t)[k] == f;
        if !succeeded(os.last()) {
            assert(rule_failures(rule, os)[k] == f);
        }
    } else {
        let g = rule_failures(rule, t);
        assert(rule_failures(rule, os)[g.len() as int] == f);
    }
}

/// A failed command of any rule is among the run's failures.
proof fn lemma_failure_listed(os: Seq<Vec<CommandOutcome>>, i: int, j: int)
    requires
        0 <= i < os.len(),
        0 <= j < os[i]@.len(),
        !succeeded(os[i]@[j]),
    ensures
        all_failures(os).contains(FailedCommand { rule: i as usize, command: j as usize, outcome: os[i]@[j] }),
    decreases os.len(),
{
    let f = FailedCommand { rule: i as usize, command: j as usize, outcome: os[i]@[j] };
    let t = os.drop_last();
    if i < os.len() - 1 {
        assert(t[i] == os[i]);
        lemma_failure_listed(t, i, j);
        let k = choose|k: int| 0 <= k < all_failures(t).len() && all_failures(t)[k] == f;
        assert(all_failures(os)[k] == f);
    } else {
        lemma_rule_failure_listed(i, os[i]@, j);
        let r = rule_failures(i, os[i]@);
        let k = choose|k: int| 0 <= k < r.len() && r[k] == f;
        assert(all_failures(os)[all_failures(t).len() + k] == f);
    }
}

/// A failed command hides no other. Before anything runs, every rule that
/// matches a staged file has all of its commands planned, whatever happens
/// to any of them; once they have ended, the run fails exactly when one of
/// them failed, and each failed command is listed with its rule and place.
pub proof fn lemma_failure_hides_no_other(
    plans: Seq<RulePlan>,
    cfg: RslintStagedConfig,
    staged: Seq<(Seq<char>, Seq<char>)>,
    outcomes: Seq<Vec<CommandOutcome>>,
)
    requires
        plans_all(plans, cfg, staged),
        outcomes.len() == plans.len(),
        forall|k: int| 0 <= k < outcomes.len() ==> #[trigger] outcomes[k]@.len() == plans[k].invocations.len(),
    ensures
        forall|k: int|
            0 <= k < plans.len() && matched(cfg.items@[k].path_matcher.pattern(), staged).len() > 0
                ==> #[trigger] outcomes[k]@.len() == cfg.items@[k].commands.len(),
        all_failures(outcomes).len() == 0 <==> all_succeeded(outcomes),
        forall|i: int, j: int|
            0 <= i < outcomes.len() && 0 <= j < outcomes[i]@.len() && !succeeded(#[trigger] outcomes[i]@[j])
                ==> all_failures(outcomes).contains(
                FailedCommand { rule: i as usize, command: j as usize, outcome: outcomes[i]@[j] },
            ),
{
    lemma_failures_empty_iff_all_succeeded(outcomes);
    assert forall|k: int|
        0 <= k < plans.len() && matched(cfg.items@[k].path_matcher.pattern(), staged).len() > 0
            implies #[trigger] outcomes[k]@.len() == cfg.items@[k].commands.len() by {
        assert(plans_rule(plans[k], cfg.items@[k], staged));
    }
    assert forall|i: int, j: int|
        0 <= i < outcomes.len() && 0 <= j < outcomes[i]@.len() && !succeeded(#[trigger] outcomes[i]@[j])
            implies all_failures(outcomes).contains(
            FailedCommand { rule: i as usize, command: j as usize, outcome: outcomes[i]@[j] },
        ) by {
        lemma_failure_listed(outcomes, i, j);
    }
}

/// What the run comes to once every planned command has ended, given how each
/// ended, rule by rule: success when every command succeeded, otherwise the
/// list of the failed ones.
pub fn run_status(outcomes: &Vec<Vec<CommandOutcome>>) -> (r: Result<(), DispatchError>)
    ensures
        r is Ok <==> all_succeeded(outcomes@),
        r is Err ==> r->Err_0 is CommandsFailed && r->Err_0->CommandsFailed_0@ == all_failures(outcomes@),
{
    let mut failed: Vec<FailedCommand> = Vec::new();
    let mut i: usize = 0;
    while i < outcomes.len()
        invariant
            i <= outcomes.len(),
            failed@ == all_failures(outcomes@.take(i as int)),
        decreases outcomes.len() - i,
    {
        assert(outcomes@.take(i + 1).drop_last() =~= outcomes@.take(i as int));
        push_rule_failures(i, &outcomes[i], &mut failed);
        i += 1;
    }
    assert(outcomes@.take(outcomes.len() as int) =~= outcomes@);
    proof {
        lemma_failures_empty_iff_all_succeeded(outcomes@);
    }
    if failed.len() == 0 {
        Ok(())
    } else {
        Err(DispatchError::CommandsFailed(failed))
    }
}

impl RslintStaged {
    /// Plans the run over what the deltas stage: the staged files are both
    /// sides of each delta, each with its form joined onto the repository
    /// root, without repeated joined forms; rules match the relative form,
    /// and commands receive the joined one.
    pub fn exec(&self, deltas: &Vec<FileDelta>) -> (r: Result<Vec<RulePlan>, DispatchError>)
        ensures
            dispatched(
                r,
                self.config,
                dedup_by_absolute(under_root(self.repo.root@, delta_paths(deltas@))),
                self.cli_options.quiet,
            ),
    {
        let staged_files = self.repo.staged_paths(deltas);
        dispatch(&self.config, &staged_files, self.cli_options.quiet)
    }
}

} // verus!
