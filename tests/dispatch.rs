use rslint_staged::config::{ConfigValue, RslintStagedConfig};
use rslint_staged::dispatch::{
    dispatch, run_status, CliOptions, CommandOutcome, DispatchError, FailedCommand, RslintStaged,
};
use rslint_staged::staged::{FileDelta, Repo, StagedPath};

fn strings(v: &[&str]) -> Vec<String> {
    v.iter().map(|s| s.to_string()).collect()
}

fn staged(rels: &[&str]) -> Vec<StagedPath> {
    rels.iter()
        .map(|r| StagedPath { relative: r.to_string(), absolute: format!("/w/{}", r) })
        .collect()
}

fn config(entries: Vec<(&str, ConfigValue)>) -> RslintStagedConfig {
    RslintStagedConfig::from_json(ConfigValue::Object(
        entries.into_iter().map(|(k, v)| (k.to_string(), v)).collect(),
    ))
    .unwrap()
}

fn text(s: &str) -> ConfigValue {
    ConfigValue::Text(s.to_string())
}

#[test]
fn echo_runs_once_on_the_js_file_only() {
    let cfg = config(vec![("*.js", text("echo"))]);
    let plans = dispatch(&cfg, &staged(&["a.js", "b.txt"]), false).unwrap();
    assert_eq!(plans.len(), 1);
    assert_eq!(plans[0].invocations.len(), 1);
    let inv = &plans[0].invocations[0];
    assert_eq!(inv.executable, "echo");
    assert!(inv.static_args.is_empty());
    assert_eq!(inv.paths, strings(&["/w/a.js"]));
}

#[test]
fn commands_of_a_rule_run_in_declared_order() {
    let cfg = config(vec![("*.ts", ConfigValue::List(vec![text("fmt"), text("lint")]))]);
    let plans = dispatch(&cfg, &staged(&["x.ts"]), false).unwrap();
    let invs = &plans[0].invocations;
    assert_eq!(invs.len(), 2);
    assert_eq!(invs[0].executable, "fmt");
    assert_eq!(invs[0].paths, strings(&["/w/x.ts"]));
    assert_eq!(invs[1].executable, "lint");
    assert_eq!(invs[1].paths, strings(&["/w/x.ts"]));
}

#[test]
fn static_arguments_come_before_the_paths() {
    let cfg = config(vec![("*.rs", text("rustfmt --edition 2021"))]);
    let plans = dispatch(&cfg, &staged(&["a.rs", "b.rs"]), false).unwrap();
    let inv = &plans[0].invocations[0];
    assert_eq!(inv.executable, "rustfmt");
    assert_eq!(inv.static_args, strings(&["--edition", "2021"]));
    assert_eq!(inv.paths, strings(&["/w/a.rs", "/w/b.rs"]));
}

#[test]
fn a_failing_rule_does_not_hide_the_other() {
    let cfg = config(vec![("*.js", text("false")), ("*.css", text("true"))]);
    let plans = dispatch(&cfg, &staged(&["a.js", "b.css"]), false).unwrap();
    assert_eq!(plans.len(), 2);
    assert_eq!(plans[0].invocations[0].paths, strings(&["/w/a.js"]));
    assert_eq!(plans[1].invocations[0].paths, strings(&["/w/b.css"]));
    let outcomes = vec![vec![CommandOutcome::Exited(1)], vec![CommandOutcome::Exited(0)]];
    match run_status(&outcomes) {
        Err(DispatchError::CommandsFailed(f)) => assert_eq!(
            f,
            vec![FailedCommand { rule: 0, command: 0, outcome: CommandOutcome::Exited(1) }]
        ),
        _ => panic!("expected a failure"),
    }
}

#[test]
fn empty_staged_set_is_fatal_unless_quiet() {
    let cfg = config(vec![("*.js", text("echo"))]);
    assert!(matches!(dispatch(&cfg, &Vec::new(), false), Err(DispatchError::EmptyStagedSet)));
    let plans = dispatch(&cfg, &Vec::new(), true).unwrap();
    assert!(plans.is_empty());
}

#[test]
fn rule_without_matches_runs_nothing() {
    let cfg = config(vec![("*.py", text("black")), ("*.js", text("echo"))]);
    let plans = dispatch(&cfg, &staged(&["a.js"]), false).unwrap();
    assert_eq!(plans.len(), 2);
    assert!(plans[0].invocations.is_empty());
    assert_eq!(plans[1].invocations.len(), 1);
}

#[test]
fn file_matching_two_rules_runs_under_both() {
    let cfg = config(vec![("*.js", text("a")), ("a.*", text("b"))]);
    let plans = dispatch(&cfg, &staged(&["a.js"]), false).unwrap();
    assert_eq!(plans[0].invocations[0].paths, strings(&["/w/a.js"]));
    assert_eq!(plans[1].invocations[0].paths, strings(&["/w/a.js"]));
}

#[test]
fn blank_command_gives_an_empty_program() {
    let cfg = config(vec![("*.js", text("   "))]);
    let plans = dispatch(&cfg, &staged(&["a.js"]), false).unwrap();
    assert_eq!(plans[0].invocations[0].executable, "");
    assert!(plans[0].invocations[0].static_args.is_empty());
}

#[test]
fn all_succeeded_is_success() {
    let outcomes = vec![vec![CommandOutcome::Exited(0), CommandOutcome::Exited(0)], vec![]];
    assert!(run_status(&outcomes).is_ok());
    assert!(run_status(&Vec::new()).is_ok());
}

#[test]
fn every_failure_kind_is_reported_in_order() {
    let outcomes = vec![
        vec![CommandOutcome::Exited(0), CommandOutcome::SpawnError],
        vec![CommandOutcome::Killed, CommandOutcome::Exited(0), CommandOutcome::Exited(2)],
    ];
    match run_status(&outcomes) {
        Err(DispatchError::CommandsFailed(f)) => assert_eq!(
            f,
            vec![
                FailedCommand { rule: 0, command: 1, outcome: CommandOutcome::SpawnError },
                FailedCommand { rule: 1, command: 0, outcome: CommandOutcome::Killed },
                FailedCommand { rule: 1, command: 2, outcome: CommandOutcome::Exited(2) },
            ]
        ),
        _ => panic!("expected failures"),
    }
}

#[test]
fn exec_plans_over_the_staged_deltas() {
    let run = RslintStaged {
        config: config(vec![("*.js", text("eslint"))]),
        cli_options: CliOptions { cwd: "/w".to_string(), debug: false, quiet: false },
        repo: Repo { root: "/w".to_string() },
    };
    let deltas = vec![
        FileDelta { old_path: Some("a.js".to_string()), new_path: Some("a.js".to_string()) },
        FileDelta { old_path: None, new_path: Some("b.txt".to_string()) },
    ];
    let plans = run.exec(&deltas).unwrap();
    assert_eq!(plans[0].invocations[0].paths, strings(&["/w/a.js"]));
    assert!(matches!(run.exec(&Vec::new()), Err(DispatchError::EmptyStagedSet)));
}

#[test]
fn exec_matches_relative_paths_and_passes_absolute_ones() {
    let run = RslintStaged {
        config: config(vec![("src/*.js", text("eslint"))]),
        cli_options: CliOptions { cwd: "/repo".to_string(), debug: false, quiet: false },
        repo: Repo { root: "/repo".to_string() },
    };
    let deltas = vec![
        FileDelta { old_path: Some("src/a.js".to_string()), new_path: Some("src/a.js".to_string()) },
        FileDelta { old_path: None, new_path: Some("lib/b.js".to_string()) },
    ];
    let plans = run.exec(&deltas).unwrap();
    assert_eq!(plans[0].invocations.len(), 1);
    assert_eq!(plans[0].invocations[0].paths, strings(&["/repo/src/a.js"]));
}
