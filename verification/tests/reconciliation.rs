//! End-to-end exercises of the reconciliation core against a scripted
//! transport: the diff engine, the read executor, the lifecycle steps and
//! the import parser, on concrete declarations.

use std::cell::RefCell;

use cmdrecon::blocks::{CmdSpec, KeySet, ReadSpec, UpdateSpec};
use cmdrecon::connection::{CommandTask, Connection, ExecutionResult, TransportError};
use cmdrecon::data_source::GenericCmdDataSource;
use cmdrecon::diag::{AttrPath, Diagnostics, PathStep};
use cmdrecon::diff::{find_modified, find_update};
use cmdrecon::dict::Dict;
use cmdrecon::read::{apply_read_outcome, read_all};
use cmdrecon::resource::GenericCmdResource;
use cmdrecon::state::{DataSourceState, ResourceState};
use cmdrecon::text::{i32_to_string, u64_to_string};
use cmdrecon::value::Value;

/// A transport that interprets a tiny command language:
/// `echo X` prints `X` and a newline, `noop` succeeds silently, `fail`
/// exits 3 with stderr, `lost` is a transport failure, `noisy` succeeds
/// with stderr.  Every call and every batch concurrency bound is
/// recorded.
struct ShellMock {
    calls: RefCell<Vec<(String, Vec<(String, String)>)>>,
    batches: RefCell<Vec<u64>>,
}

impl ShellMock {
    fn new() -> Self {
        ShellMock { calls: RefCell::new(Vec::new()), batches: RefCell::new(Vec::new()) }
    }

    fn run(&self, task: &CommandTask) -> Result<ExecutionResult, TransportError> {
        self.calls.borrow_mut().push((task.cmd.clone(), task.env.clone()));
        if let Some(rest) = task.cmd.strip_prefix("echo ") {
            Ok(ExecutionResult {
                status: 0,
                stdout: format!("{}\n", rest),
                stderr: String::new(),
            })
        } else if task.cmd == "noop" {
            Ok(ExecutionResult { status: 0, stdout: String::new(), stderr: String::new() })
        } else if task.cmd == "fail" {
            Ok(ExecutionResult { status: 3, stdout: String::new(), stderr: "boom".to_string() })
        } else if task.cmd == "lost" {
            Err(TransportError { message: "no route to host".to_string() })
        } else if task.cmd == "noisy" {
            Ok(ExecutionResult {
                status: 0,
                stdout: "out\n".to_string(),
                stderr: "grumble".to_string(),
            })
        } else {
            Ok(ExecutionResult { status: 0, stdout: String::new(), stderr: String::new() })
        }
    }
}

impl Connection for ShellMock {
    fn execute(
        &self,
        _config: &Value<Dict<Value<String>>>,
        task: &CommandTask,
    ) -> Result<ExecutionResult, TransportError> {
        self.run(task)
    }

    fn execute_all(
        &self,
        _config: &Value<Dict<Value<String>>>,
        tasks: &Vec<CommandTask>,
        concurrency: u64,
    ) -> Vec<Result<ExecutionResult, TransportError>> {
        self.batches.borrow_mut().push(concurrency);
        tasks.iter().map(|t| self.run(t)).collect()
    }

    fn validate(&self, config: &Value<Dict<Value<String>>>) -> Diagnostics {
        let mut d = Diagnostics::new();
        if let Value::Known(dict) = config {
            for (k, v) in dict.entries.iter() {
                if k == "host" {
                    if let Value::Known(h) = v {
                        if h.is_empty() {
                            d.error(
                                "`host` cannot be empty".to_string(),
                                String::new(),
                                AttrPath::new("host"),
                            );
                        }
                    }
                }
            }
        }
        d
    }
}

fn kstr(s: &str) -> Value<String> {
    Value::Known(s.to_string())
}

fn smap(pairs: &[(&str, &str)]) -> Value<Dict<Value<String>>> {
    Value::Known(Dict {
        entries: pairs.iter().map(|(k, v)| (k.to_string(), kstr(v))).collect(),
    })
}

fn rspec(cmd: &str, strip: bool, faillible: bool) -> Value<ReadSpec> {
    Value::Known(ReadSpec {
        cmd: kstr(cmd),
        dir: Value::Null,
        env: Value::Null,
        strip_trailing_newline: Value::Known(strip),
        faillible: Value::Known(faillible),
    })
}

fn rmap(pairs: &[(&str, &str)]) -> Value<Dict<Value<ReadSpec>>> {
    Value::Known(Dict {
        entries: pairs
            .iter()
            .map(|(k, cmd)| (k.to_string(), rspec(cmd, true, false)))
            .collect(),
    })
}

fn keyset(keys: &[&str]) -> KeySet {
    KeySet { keys: keys.iter().map(|k| k.to_string()).collect() }
}

fn update_block(cmd: &str, triggers: Option<&[&str]>, reloads: &[&str]) -> Value<UpdateSpec> {
    Value::Known(UpdateSpec {
        cmd: kstr(cmd),
        dir: Value::Null,
        env: Value::Null,
        triggers: match triggers {
            Some(t) => Value::Known(keyset(t)),
            None => Value::Null,
        },
        reloads: if reloads.is_empty() { Value::Null } else { Value::Known(keyset(reloads)) },
        update_triggered: Value::Null,
    })
}

fn cmd_block(cmd: &str) -> Value<CmdSpec> {
    Value::Known(CmdSpec { cmd: kstr(cmd), dir: Value::Null, env: Value::Null })
}

fn base_state(
    inputs: &[(&str, &str)],
    reads: &[(&str, &str)],
    updates: Vec<Value<UpdateSpec>>,
) -> ResourceState {
    ResourceState {
        id: kstr("res-1"),
        inputs: smap(inputs),
        state: Value::Unknown,
        read: rmap(reads),
        create: Value::Null,
        destroy: Value::Null,
        update: Value::Known(updates),
        connect: Value::Null,
        command_concurrency: Value::Null,
    }
}

fn outputs_of(state: &ResourceState) -> Vec<(String, Value<String>)> {
    match &state.state {
        Value::Known(d) => d.entries.clone(),
        _ => panic!("outputs are not a known mapping"),
    }
}

fn value_str(v: &Value<String>) -> Option<&str> {
    match v {
        Value::Known(s) => Some(s.as_str()),
        _ => None,
    }
}

// --- diff engine ---

#[test]
fn modified_keys_union_of_changes() {
    let prior = smap(&[("a", "1"), ("b", "2"), ("keep", "x")]);
    let plan = smap(&[("b", "3"), ("c", "4"), ("keep", "x")]);
    let m = find_modified(&prior, &plan);
    assert_eq!(m, vec!["a".to_string(), "b".to_string(), "c".to_string()]);
}

#[test]
fn modified_keys_symmetric_on_concrete_maps() {
    let prior = smap(&[("a", "1"), ("b", "2")]);
    let plan = smap(&[("b", "9"), ("z", "4")]);
    let one = find_modified(&prior, &plan);
    let two = find_modified(&plan, &prior);
    assert_eq!(one, two);
}

#[test]
fn modified_keys_empty_iff_equal_maps() {
    let prior = smap(&[("a", "1"), ("b", "2")]);
    let plan = smap(&[("b", "2"), ("a", "1")]);
    assert!(find_modified(&prior, &plan).is_empty());
    let changed = smap(&[("a", "1"), ("b", "3")]);
    assert!(!find_modified(&prior, &changed).is_empty());
}

#[test]
fn modified_keys_conservative_when_one_side_absent() {
    let known = smap(&[("a", "1"), ("b", "2")]);
    let m = find_modified(&Value::Null, &known);
    assert_eq!(m, vec!["a".to_string(), "b".to_string()]);
    let m2 = find_modified(&known, &Value::Unknown);
    assert_eq!(m2, vec!["a".to_string(), "b".to_string()]);
    let m3: Vec<String> = find_modified(&Value::Null, &Value::Unknown);
    assert!(m3.is_empty());
}

#[test]
fn modified_keys_sorted_lexicographically() {
    let prior = smap(&[("zeta", "1"), ("alpha", "2"), ("mid", "3")]);
    let plan = smap(&[]);
    let m = find_modified(&prior, &plan);
    assert_eq!(m, vec!["alpha".to_string(), "mid".to_string(), "zeta".to_string()]);
}

#[test]
fn update_selection_prefers_most_specific() {
    let blocks = Value::Known(vec![
        update_block("wide", Some(&["a", "b", "c"]), &[]),
        update_block("narrow", Some(&["a", "b"]), &[]),
    ]);
    let modified = vec!["a".to_string(), "b".to_string()];
    assert_eq!(find_update(&blocks, &modified), Some(1));
}

#[test]
fn update_selection_is_deterministic() {
    let blocks = Value::Known(vec![
        update_block("wide", Some(&["a", "b", "c"]), &[]),
        update_block("narrow", Some(&["a", "b"]), &[]),
        update_block("other", Some(&["a", "b"]), &[]),
    ]);
    let modified = vec!["b".to_string(), "a".to_string()];
    let first = find_update(&blocks, &modified);
    let second = find_update(&blocks, &modified);
    assert_eq!(first, second);
    assert_eq!(first, Some(1));
}

#[test]
fn update_selection_catch_all_wins_by_weight() {
    let blocks = Value::Known(vec![
        update_block("all", None, &[]),
        update_block("narrow", Some(&["a"]), &[]),
    ]);
    let modified = vec!["a".to_string()];
    assert_eq!(find_update(&blocks, &modified), Some(0));
}

#[test]
fn update_selection_none_without_cover() {
    let blocks = Value::Known(vec![update_block("narrow", Some(&["b"]), &[])]);
    let modified = vec!["a".to_string()];
    assert_eq!(find_update(&blocks, &modified), None);
    assert_eq!(find_update(&Value::Null, &modified), None);
}

// --- read executor ---

#[test]
fn executor_partial_failure_resolves_every_output() {
    let mock = ShellMock::new();
    let mut diags = Diagnostics::new();
    let reads = rmap(&[
        ("k1", "echo v"),
        ("k2", "echo v"),
        ("k3", "echo v"),
        ("k4", "fail"),
        ("k5", "lost"),
    ]);
    let mut outputs = Value::Known(Dict {
        entries: ["k1", "k2", "k3", "k4", "k5"]
            .iter()
            .map(|k| (k.to_string(), Value::<String>::Unknown))
            .collect(),
    });
    let env: Vec<(String, String)> = Vec::new();
    let r = read_all(
        &mut diags,
        &mock,
        &Value::Null,
        &reads,
        &mut outputs,
        &env,
        false,
        &Value::Known(2),
    );
    assert!(r.is_some());
    let outs = match &outputs {
        Value::Known(d) => &d.entries,
        _ => panic!("outputs lost"),
    };
    assert_eq!(outs.len(), 5);
    let known = outs.iter().filter(|(_, v)| matches!(v, Value::Known(_))).count();
    let null = outs.iter().filter(|(_, v)| matches!(v, Value::Null)).count();
    let unknown = outs.iter().filter(|(_, v)| matches!(v, Value::Unknown)).count();
    assert_eq!(known, 3);
    assert_eq!(null, 2);
    assert_eq!(unknown, 0);
    assert_eq!(diags.errors.len(), 2);
    for err in diags.errors.iter() {
        assert!(matches!(&err.path.steps[0], PathStep::Attribute(a) if a == "read"));
        assert!(matches!(&err.path.steps[1], PathStep::Key(k) if k == "k4" || k == "k5"));
        assert!(matches!(&err.path.steps[2], PathStep::Attribute(a) if a == "cmd"));
    }
    assert_eq!(mock.batches.borrow().as_slice(), &[2]);
}

#[test]
fn executor_downgrades_failures_when_faillible() {
    let mock = ShellMock::new();
    let mut diags = Diagnostics::new();
    let reads = Value::Known(Dict {
        entries: vec![
            ("k1".to_string(), rspec("fail", true, true)),
            ("k2".to_string(), rspec("lost", true, true)),
        ],
    });
    let mut outputs = Value::Known(Dict {
        entries: vec![
            ("k1".to_string(), Value::<String>::Unknown),
            ("k2".to_string(), Value::<String>::Unknown),
        ],
    });
    let env: Vec<(String, String)> = Vec::new();
    read_all(&mut diags, &mock, &Value::Null, &reads, &mut outputs, &env, false, &Value::Null);
    assert_eq!(diags.errors.len(), 0);
    assert_eq!(diags.warnings.len(), 2);
    assert_eq!(mock.batches.borrow().as_slice(), &[4]);
}

#[test]
fn executor_errors_on_unknown_output_without_rule() {
    let mock = ShellMock::new();
    let mut diags = Diagnostics::new();
    let reads = rmap(&[]);
    let mut outputs = Value::Known(Dict {
        entries: vec![("orphan".to_string(), Value::<String>::Unknown)],
    });
    let env: Vec<(String, String)> = Vec::new();
    read_all(&mut diags, &mock, &Value::Null, &reads, &mut outputs, &env, false, &Value::Null);
    assert_eq!(diags.errors.len(), 1);
    let err = &diags.errors[0];
    assert_eq!(err.summary.as_str(), "Unknown output has no `read` block associated");
    assert_eq!(err.path.steps.len(), 2);
    assert!(matches!(&err.path.steps[0], PathStep::Attribute(a) if a == "state"));
    assert!(matches!(&err.path.steps[1], PathStep::Key(k) if k == "orphan"));
    match &outputs {
        Value::Known(d) => assert!(matches!(d.entries[0].1, Value::Null)),
        _ => panic!("outputs lost"),
    }
}

#[test]
fn outcome_success_strips_one_trailing_newline() {
    let mut diags = Diagnostics::new();
    let ok = Ok(ExecutionResult {
        status: 0,
        stdout: "val\n".to_string(),
        stderr: String::new(),
    });
    let v = apply_read_outcome(&mut diags, AttrPath::root(), &ok, false, true);
    assert_eq!(value_str(&v), Some("val"));
    let kept = apply_read_outcome(&mut diags, AttrPath::root(), &ok, false, false);
    assert_eq!(value_str(&kept), Some("val\n"));
    assert!(diags.errors.is_empty() && diags.warnings.is_empty());
}

#[test]
fn outcome_success_on_empty_stdout() {
    let mut diags = Diagnostics::new();
    let ok = Ok(ExecutionResult { status: 0, stdout: String::new(), stderr: String::new() });
    let v = apply_read_outcome(&mut diags, AttrPath::root(), &ok, false, true);
    assert_eq!(value_str(&v), Some(""));
}

#[test]
fn outcome_failure_is_null_with_status_message() {
    let mut diags = Diagnostics::new();
    let bad = Ok(ExecutionResult {
        status: 3,
        stdout: String::new(),
        stderr: "boom".to_string(),
    });
    let v = apply_read_outcome(&mut diags, AttrPath::root(), &bad, false, true);
    assert!(matches!(v, Value::Null));
    assert_eq!(diags.errors.len(), 1);
    assert_eq!(diags.errors[0].summary.as_str(), "`read` failed with status code: 3");
    assert_eq!(diags.errors[0].detail.as_str(), "boom");
}

#[test]
fn outcome_noisy_success_warns() {
    let mut diags = Diagnostics::new();
    let noisy = Ok(ExecutionResult {
        status: 0,
        stdout: "out\n".to_string(),
        stderr: "grumble".to_string(),
    });
    let v = apply_read_outcome(&mut diags, AttrPath::root(), &noisy, false, true);
    assert_eq!(value_str(&v), Some("out"));
    assert!(diags.errors.is_empty());
    assert_eq!(diags.warnings.len(), 1);
}

#[test]
fn outcome_transport_error_is_null() {
    let mut diags = Diagnostics::new();
    let err = Err(TransportError { message: "no route to host".to_string() });
    let v = apply_read_outcome(&mut diags, AttrPath::root(), &err, true, true);
    assert!(matches!(v, Value::Null));
    assert!(diags.errors.is_empty());
    assert_eq!(diags.warnings.len(), 1);
    assert_eq!(diags.warnings[0].detail.as_str(), "no route to host");
}

// --- normalizer ---

#[test]
fn normalize_fixes_degenerate_states() {
    let mut state = ResourceState {
        id: Value::Null,
        inputs: Value::Null,
        state: Value::Unknown,
        read: rmap(&[("out", "echo v")]),
        create: Value::Null,
        destroy: Value::Null,
        update: Value::Null,
        connect: Value::Null,
        command_concurrency: Value::Null,
    };
    state.normalize();
    assert!(matches!(state.id, Value::Unknown));
    match &state.inputs {
        Value::Known(d) => assert!(d.entries.is_empty()),
        _ => panic!("inputs not defaulted"),
    }
    let outs = outputs_of(&state);
    assert_eq!(outs.len(), 1);
    assert_eq!(outs[0].0.as_str(), "out");
    assert!(matches!(outs[0].1, Value::Unknown));
}

// --- lifecycle: plan ---

#[test]
fn plan_create_marks_everything_unknown() {
    let mock = ShellMock::new();
    let res = GenericCmdResource::new(mock);
    let mut diags = Diagnostics::new();
    let proposed = base_state(&[("a", "1")], &[("out", "echo v")], vec![]);
    let (planned, version) = res.plan_create(&mut diags, proposed).unwrap();
    assert!(matches!(version, Value::Null));
    assert!(matches!(planned.id, Value::Unknown));
    let outs = outputs_of(&planned);
    assert_eq!(outs.len(), 1);
    assert!(matches!(outs[0].1, Value::Unknown));
}

#[test]
fn plan_update_selects_matching_block() {
    let mock = ShellMock::new();
    let res = GenericCmdResource::new(mock);
    let mut diags = Diagnostics::new();
    let mut prior = base_state(&[("a", "1")], &[("out", "echo v")], vec![]);
    prior.state = smap(&[("out", "seen")]);
    let proposed = base_state(
        &[("a", "2")],
        &[("out", "echo v")],
        vec![update_block("noop", Some(&["a"]), &[])],
    );
    let (planned, _, replace) = res
        .plan_update(&mut diags, prior, proposed, Value::Known(1))
        .unwrap();
    assert!(replace.is_empty());
    match &planned.update {
        Value::Known(blocks) => match &blocks[0] {
            Value::Known(u) => assert!(matches!(u.update_triggered, Value::Unknown)),
            _ => panic!("block lost"),
        },
        _ => panic!("update list lost"),
    }
    let outs = outputs_of(&planned);
    assert_eq!(value_str(&outs[0].1), Some("seen"));
}

#[test]
fn plan_update_invalidates_reload_keys() {
    let mock = ShellMock::new();
    let res = GenericCmdResource::new(mock);
    let mut diags = Diagnostics::new();
    let mut prior = base_state(&[("a", "1")], &[("out", "echo v"), ("aux", "echo w")], vec![]);
    prior.state = smap(&[("out", "seen"), ("aux", "kept")]);
    let proposed = base_state(
        &[("a", "2")],
        &[("out", "echo v"), ("aux", "echo w")],
        vec![update_block("noop", Some(&["a"]), &["out"])],
    );
    let (planned, _, _) = res
        .plan_update(&mut diags, prior, proposed, Value::Known(1))
        .unwrap();
    let outs = outputs_of(&planned);
    assert!(matches!(outs[0].1, Value::Unknown));
    assert_eq!(value_str(&outs[1].1), Some("kept"));
}

#[test]
fn plan_update_requires_replace_without_block() {
    let mock = ShellMock::new();
    let res = GenericCmdResource::new(mock);
    let mut diags = Diagnostics::new();
    let mut prior = base_state(&[("a", "1")], &[], vec![]);
    prior.state = smap(&[]);
    let proposed = base_state(&[("a", "2")], &[], vec![]);
    let (_, _, replace) = res
        .plan_update(&mut diags, prior, proposed, Value::Known(1))
        .unwrap();
    assert_eq!(replace.len(), 1);
    let steps = &replace[0].steps;
    assert_eq!(steps.len(), 2);
    assert!(matches!(&steps[0], PathStep::Attribute(a) if a == "inputs"));
    assert!(matches!(&steps[1], PathStep::Key(k) if k == "a"));
}

#[test]
fn plan_update_is_idempotent() {
    let make_prior = || {
        let mut p = base_state(&[("a", "1"), ("b", "2")], &[], vec![]);
        p.state = smap(&[]);
        p
    };
    let make_proposed = || base_state(&[("a", "9"), ("b", "8")], &[], vec![]);
    let mock = ShellMock::new();
    let res = GenericCmdResource::new(mock);
    let mut diags = Diagnostics::new();
    let (_, _, replace1) = res
        .plan_update(&mut diags, make_prior(), make_proposed(), Value::Known(1))
        .unwrap();
    let (_, _, replace2) = res
        .plan_update(&mut diags, make_prior(), make_proposed(), Value::Known(1))
        .unwrap();
    let paths1: Vec<Vec<String>> = replace1
        .iter()
        .map(|p| p.steps.iter().map(|s| format!("{:?}", s)).collect())
        .collect();
    let paths2: Vec<Vec<String>> = replace2
        .iter()
        .map(|p| p.steps.iter().map(|s| format!("{:?}", s)).collect())
        .collect();
    assert_eq!(paths1, paths2);
    assert_eq!(paths1.len(), 2);
}

#[test]
fn plan_update_keeps_output_only_when_read_rule_unchanged() {
    let mock = ShellMock::new();
    let res = GenericCmdResource::new(mock);
    let mut diags = Diagnostics::new();
    let mut prior = base_state(&[("a", "1")], &[("out", "echo old")], vec![]);
    prior.state = smap(&[("out", "seen")]);
    let proposed = base_state(&[("a", "1")], &[("out", "echo new")], vec![]);
    let (planned, _, _) = res
        .plan_update(&mut diags, prior, proposed, Value::Known(1))
        .unwrap();
    let outs = outputs_of(&planned);
    assert!(matches!(outs[0].1, Value::Unknown));
}

#[test]
fn plan_update_drops_output_without_prior_read_rule() {
    // A prior output whose key has no prior read rule cannot be trusted:
    // it must be read again, even though the key existed before.
    let mock = ShellMock::new();
    let res = GenericCmdResource::new(mock);
    let mut diags = Diagnostics::new();
    let mut prior = base_state(&[("a", "1")], &[], vec![]);
    prior.state = smap(&[("out", "seen")]);
    let proposed = base_state(&[("a", "1")], &[("out", "echo v")], vec![]);
    let (planned, _, _) = res
        .plan_update(&mut diags, prior, proposed, Value::Known(1))
        .unwrap();
    let outs = outputs_of(&planned);
    assert_eq!(outs[0].0.as_str(), "out");
    assert!(matches!(outs[0].1, Value::Unknown));
}

#[test]
fn plan_update_fires_explicit_empty_trigger_set_without_changes() {
    // An update rule declared with an explicitly empty trigger set is an
    // unconditional refresh action: it fires even when nothing changed.
    let mock = ShellMock::new();
    let res = GenericCmdResource::new(mock);
    let mut diags = Diagnostics::new();
    let mut prior = base_state(&[("a", "1")], &[], vec![]);
    prior.state = smap(&[]);
    let proposed = base_state(&[("a", "1")], &[], vec![update_block("noop", Some(&[]), &[])]);
    let (planned, _, replace) = res
        .plan_update(&mut diags, prior, proposed, Value::Known(1))
        .unwrap();
    assert!(replace.is_empty());
    match &planned.update {
        Value::Known(blocks) => match &blocks[0] {
            Value::Known(u) => assert!(matches!(u.update_triggered, Value::Unknown)),
            _ => panic!("block lost"),
        },
        _ => panic!("update list lost"),
    }
}

#[test]
fn plan_update_does_not_fire_absent_trigger_set_without_changes() {
    // A rule whose trigger set is absent (not explicitly empty) is still
    // selected as a catch-all, but does not fire when nothing changed.
    let mock = ShellMock::new();
    let res = GenericCmdResource::new(mock);
    let mut diags = Diagnostics::new();
    let mut prior = base_state(&[("a", "1")], &[], vec![]);
    prior.state = smap(&[]);
    let proposed = base_state(&[("a", "1")], &[], vec![update_block("noop", None, &[])]);
    let (planned, _, replace) = res
        .plan_update(&mut diags, prior, proposed, Value::Known(1))
        .unwrap();
    assert!(replace.is_empty());
    match &planned.update {
        Value::Known(blocks) => match &blocks[0] {
            Value::Known(u) => assert!(matches!(u.update_triggered, Value::Null)),
            _ => panic!("block lost"),
        },
        _ => panic!("update list lost"),
    }
}

#[test]
fn plan_update_after_import_diffs_against_baseline_read() {
    // A freshly imported resource (version unknown) gets a baseline read
    // first; an unknown proposed input is stripped from that baseline, so
    // it counts as modified and, without a matching rule, forces a
    // replace.
    let mock = ShellMock::new();
    let res = GenericCmdResource::new(mock);
    let mut diags = Diagnostics::new();
    let mut prior = base_state(&[], &[], vec![]);
    prior.state = smap(&[]);
    let mut proposed = base_state(&[], &[], vec![]);
    proposed.inputs = Value::Known(Dict {
        entries: vec![("a".to_string(), Value::Unknown)],
    });
    let (_, version, replace) = res
        .plan_update(&mut diags, prior, proposed, Value::Unknown)
        .unwrap();
    assert!(matches!(version, Value::Unknown));
    assert_eq!(replace.len(), 1);
    assert!(matches!(&replace[0].steps[1], PathStep::Key(k) if k == "a"));
}

#[test]
fn plan_destroy_warns_only_after_import() {
    let mock = ShellMock::new();
    let res = GenericCmdResource::new(mock);
    let mut diags = Diagnostics::new();
    let v = res.plan_destroy(&mut diags, Value::Known(2)).unwrap();
    assert!(matches!(v, Value::Known(2)));
    assert!(diags.warnings.is_empty());
    let v2 = res.plan_destroy(&mut diags, Value::Unknown).unwrap();
    assert!(matches!(v2, Value::Unknown));
    assert_eq!(diags.warnings.len(), 1);
    assert_eq!(
        diags.warnings[0].summary.as_str(),
        "Destroy ignored on newly imported resource",
    );
    assert!(diags.warnings[0].path.steps.is_empty());
}

// --- lifecycle: apply ---

#[test]
fn create_read_destroy_round_trip() {
    let mock = ShellMock::new();
    let res = GenericCmdResource::new(mock);
    let mut diags = Diagnostics::new();
    let mut proposed = base_state(&[("greeting", "hello")], &[("out", "echo val")], vec![]);
    proposed.create = cmd_block("echo made");
    proposed.destroy = cmd_block("echo gone");
    let (planned, version) = res.plan_create(&mut diags, proposed).unwrap();
    let (created, version) = res.create(&mut diags, planned, version).unwrap();
    assert!(matches!(version, Value::Known(1)));
    let outs = outputs_of(&created);
    assert_eq!(value_str(&outs[0].1), Some("val"));
    assert_eq!(diags.warnings.len(), 1, "create stdout should be surfaced as a warning");
    let (read_back, version) = res.read(&mut diags, created, version).unwrap();
    let outs = outputs_of(&read_back);
    assert_eq!(value_str(&outs[0].1), Some("val"));
    assert!(res.destroy(&mut diags, read_back, version).is_some());
    assert!(diags.errors.is_empty());
}

#[test]
fn create_generates_a_30_character_id() {
    let mock = ShellMock::new();
    let res = GenericCmdResource::new(mock);
    let mut diags = Diagnostics::new();
    let proposed = base_state(&[], &[], vec![]);
    let (planned, version) = res.plan_create(&mut diags, proposed).unwrap();
    let (created, _) = res.create(&mut diags, planned, version).unwrap();
    match &created.id {
        Value::Known(id) => assert_eq!(id.chars().count(), 30),
        _ => panic!("id not settled"),
    }
}

#[test]
fn create_failure_aborts_without_state() {
    let mock = ShellMock::new();
    let res = GenericCmdResource::new(mock);
    let mut diags = Diagnostics::new();
    let mut proposed = base_state(&[], &[], vec![]);
    proposed.create = cmd_block("fail");
    let (planned, version) = res.plan_create(&mut diags, proposed).unwrap();
    assert!(res.create(&mut diags, planned, version).is_none());
    assert_eq!(diags.errors.len(), 1);
    assert_eq!(diags.errors[0].summary.as_str(), "`create` failed with status code: 3");
    assert_eq!(diags.errors[0].detail.as_str(), "boom");
    let steps = &diags.errors[0].path.steps;
    assert!(matches!(&steps[0], PathStep::Attribute(a) if a == "create"));
    assert!(matches!(&steps[1], PathStep::Index(0)));
    assert!(matches!(&steps[2], PathStep::Attribute(a) if a == "cmd"));
}

#[test]
fn create_injects_input_id_and_version_env() {
    let mock = ShellMock::new();
    let res = GenericCmdResource::new(mock);
    let mut diags = Diagnostics::new();
    let mut proposed = base_state(&[("color", "blue")], &[], vec![]);
    proposed.id = kstr("fixed-id");
    proposed.create = cmd_block("noop");
    let (created, _) = res.create(&mut diags, proposed, Value::Null).unwrap();
    assert!(matches!(&created.id, Value::Known(s) if s == "fixed-id"));
    let calls = res.transport().calls.borrow();
    let env = &calls[0].1;
    assert!(env.contains(&("INPUT_color".to_string(), "blue".to_string())));
    assert!(env.contains(&("ID".to_string(), "fixed-id".to_string())));
    assert!(env.contains(&("VERSION".to_string(), "1".to_string())));
}

#[test]
fn update_runs_triggered_blocks_in_order_and_resets_markers() {
    let mock = ShellMock::new();
    let res = GenericCmdResource::new(mock);
    let mut diags = Diagnostics::new();
    let mut prior = base_state(&[("a", "1")], &[], vec![]);
    prior.state = smap(&[]);
    let mut first = update_block("echo one", Some(&["a"]), &[]);
    if let Value::Known(u) = &mut first {
        u.update_triggered = Value::Unknown;
    }
    let second = update_block("echo two", Some(&["b"]), &[]);
    let mut third = update_block("echo three", None, &[]);
    if let Value::Known(u) = &mut third {
        u.update_triggered = Value::Unknown;
    }
    let mut planned = base_state(&[("a", "2")], &[], vec![first, second, third]);
    planned.state = smap(&[]);
    let (updated, version) = res
        .update(&mut diags, prior, planned, Value::Known(1))
        .unwrap();
    assert!(matches!(version, Value::Known(2)));
    let calls = res.transport().calls.borrow();
    let cmds: Vec<&str> = calls.iter().map(|(c, _)| c.as_str()).collect();
    assert_eq!(cmds, vec!["echo one", "echo three"]);
    match &updated.update {
        Value::Known(blocks) => {
            for b in blocks.iter() {
                if let Value::Known(u) = b {
                    assert!(!matches!(u.update_triggered, Value::Unknown));
                }
            }
        },
        _ => panic!("update list lost"),
    }
}

#[test]
fn update_with_empty_triggered_command_is_fatal() {
    let mock = ShellMock::new();
    let res = GenericCmdResource::new(mock);
    let mut diags = Diagnostics::new();
    let mut prior = base_state(&[], &[], vec![]);
    prior.state = smap(&[]);
    let mut block = update_block("", Some(&["a"]), &[]);
    if let Value::Known(u) = &mut block {
        u.update_triggered = Value::Unknown;
    }
    let mut planned = base_state(&[], &[], vec![block]);
    planned.state = smap(&[]);
    assert!(res.update(&mut diags, prior, planned, Value::Known(1)).is_none());
    assert_eq!(diags.errors.len(), 1);
    let err = &diags.errors[0];
    assert_eq!(err.summary.as_str(), "`update` cmd should not be null or empty");
    assert_eq!(err.detail.as_str(), "");
    assert!(matches!(&err.path.steps[0], PathStep::Attribute(a) if a == "update"));
    assert!(matches!(&err.path.steps[1], PathStep::Index(0)));
    assert!(matches!(&err.path.steps[2], PathStep::Attribute(a) if a == "cmd"));
}

#[test]
fn destroy_failure_does_not_block_removal() {
    let mock = ShellMock::new();
    let res = GenericCmdResource::new(mock);
    let mut diags = Diagnostics::new();
    let mut state = base_state(&[], &[], vec![]);
    state.state = smap(&[]);
    state.destroy = cmd_block("fail");
    assert!(res.destroy(&mut diags, state, Value::Known(2)).is_some());
    assert_eq!(diags.errors.len(), 1);
}

#[test]
fn read_passes_through_freshly_imported_state() {
    let mock = ShellMock::new();
    let res = GenericCmdResource::new(mock);
    let mut diags = Diagnostics::new();
    let mut state = base_state(&[], &[("out", "echo v")], vec![]);
    state.state = smap(&[("out", "stale")]);
    let (back, version) = res.read(&mut diags, state, Value::Unknown).unwrap();
    assert!(matches!(version, Value::Unknown));
    let outs = outputs_of(&back);
    assert_eq!(value_str(&outs[0].1), Some("stale"));
    assert!(res.transport().calls.borrow().is_empty());
}

// --- validate ---

#[test]
fn validate_rejects_empty_update_command() {
    let mock = ShellMock::new();
    let res = GenericCmdResource::new(mock);
    let mut diags = Diagnostics::new();
    let config = base_state(&[], &[], vec![update_block("", Some(&["a"]), &[])]);
    assert!(res.validate(&mut diags, &config).is_none());
    assert_eq!(diags.errors.len(), 1);
}

#[test]
fn validate_delegates_to_transport() {
    let mock = ShellMock::new();
    let res = GenericCmdResource::new(mock);
    let mut diags = Diagnostics::new();
    let mut config = base_state(&[], &[], vec![]);
    config.connect = smap(&[("host", "")]);
    assert!(res.validate(&mut diags, &config).is_none());
    let mut ok_diags = Diagnostics::new();
    let mut ok_config = base_state(&[], &[], vec![]);
    ok_config.connect = smap(&[("host", "somewhere")]);
    assert!(res.validate(&mut ok_diags, &ok_config).is_some());
}

// --- import ---

#[test]
fn import_parses_key_value_list() {
    let mock = ShellMock::new();
    let res = GenericCmdResource::new(mock);
    let mut diags = Diagnostics::new();
    let (state, version) = res
        .import(&mut diags, "id=srv-7,name=web,bare".to_string())
        .unwrap();
    assert!(matches!(version, Value::Unknown));
    assert!(matches!(&state.id, Value::Known(s) if s == "srv-7"));
    let outs = outputs_of(&state);
    let mut found = std::collections::BTreeMap::new();
    for (k, v) in outs.iter() {
        found.insert(k.clone(), value_str(v).unwrap().to_string());
    }
    assert_eq!(found.get("id").map(String::as_str), Some("srv-7"));
    assert_eq!(found.get("name").map(String::as_str), Some("web"));
    assert_eq!(found.get("bare").map(String::as_str), Some(""));
}

#[test]
fn import_without_id_key_generates_token() {
    let mock = ShellMock::new();
    let res = GenericCmdResource::new(mock);
    let mut diags = Diagnostics::new();
    let (state, _) = res.import(&mut diags, "name=web".to_string()).unwrap();
    match &state.id {
        Value::Known(id) => assert_eq!(id.chars().count(), 30),
        _ => panic!("id not settled"),
    }
}

#[test]
fn import_of_empty_identifier_has_no_outputs() {
    let mock = ShellMock::new();
    let res = GenericCmdResource::new(mock);
    let mut diags = Diagnostics::new();
    let (state, version) = res.import(&mut diags, String::new()).unwrap();
    assert!(matches!(version, Value::Unknown));
    assert!(outputs_of(&state).is_empty());
    match &state.id {
        Value::Known(id) => assert_eq!(id.chars().count(), 30),
        _ => panic!("id not settled"),
    }
}

#[test]
fn import_keeps_last_value_of_repeated_key() {
    let mock = ShellMock::new();
    let res = GenericCmdResource::new(mock);
    let mut diags = Diagnostics::new();
    let (state, _) = res.import(&mut diags, "k=1,k=2".to_string()).unwrap();
    let outs = outputs_of(&state);
    assert_eq!(outs.len(), 1);
    assert_eq!(value_str(&outs[0].1), Some("2"));
}

// --- data source ---

#[test]
fn data_source_read_resolves_all_outputs() {
    let mock = ShellMock::new();
    let ds = GenericCmdDataSource::new(mock);
    let mut diags = Diagnostics::new();
    let config = DataSourceState {
        inputs: smap(&[("q", "x")]),
        outputs: Value::Unknown,
        read: rmap(&[("good", "echo fine"), ("bad", "fail")]),
        connect: Value::Null,
        command_concurrency: Value::Known(1),
    };
    let state = ds.read(&mut diags, config).unwrap();
    let outs = match &state.outputs {
        Value::Known(d) => &d.entries,
        _ => panic!("outputs lost"),
    };
    assert_eq!(value_str(&outs[0].1), Some("fine"));
    assert!(matches!(outs[1].1, Value::Null));
    assert_eq!(diags.errors.len(), 1);
}

// --- text ---

#[test]
fn decimal_rendering() {
    assert_eq!(u64_to_string(0).as_str(), "0");
    assert_eq!(u64_to_string(7).as_str(), "7");
    assert_eq!(u64_to_string(1234).as_str(), "1234");
    assert_eq!(u64_to_string(u64::MAX).as_str(), "18446744073709551615");
    assert_eq!(i32_to_string(-5).as_str(), "-5");
    assert_eq!(i32_to_string(i32::MIN).as_str(), "-2147483648");
    assert_eq!(i32_to_string(42).as_str(), "42");
}

// --- provider ---

#[test]
fn provider_shell_always_succeeds() {
    let p = cmdrecon::provider::GenericProvider::new();
    assert_eq!(p.schema_version(), 1);
    assert!(p.validate().is_some());
    assert!(p.configure().is_some());
}

// --- tri-state helpers ---

#[test]
fn value_state_testers() {
    let k = kstr("x");
    assert!(k.known() && !k.null() && !k.unknown());
    assert_eq!(k.as_option().map(|s| s.as_str()), Some("x"));
    let n: Value<String> = Value::Null;
    assert!(n.null() && n.as_option().is_none());
    let u: Value<String> = Value::Unknown;
    assert!(u.unknown());
    assert!(k.same(&kstr("x")));
    assert!(!k.same(&kstr("y")));
    assert!(!k.same(&Value::Null));
}
