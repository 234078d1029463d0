use mobile_steps::script::{expand_script_steps, flatten_script, ScriptErrorKind, ScriptFile};
use mobile_steps::steps::{AndroidNormalStep, AndroidStep};

fn log(m: &str) -> AndroidStep {
    AndroidStep::AndroidNormalStep(AndroidNormalStep::LogStep { log: m.to_string() })
}

fn inc(p: &str) -> AndroidStep {
    AndroidStep::AndroidStepFile { step_file: p.to_string() }
}

fn file(p: &str, steps: Vec<AndroidStep>) -> ScriptFile {
    ScriptFile { path: p.to_string(), steps }
}

fn messages(steps: &[AndroidNormalStep]) -> Vec<String> {
    steps
        .iter()
        .map(|s| match s {
            AndroidNormalStep::LogStep { log } => log.clone(),
            _ => panic!("not a log step"),
        })
        .collect()
}

#[test]
fn two_level_includes_expand_depth_first() {
    let files = vec![
        file("a.json", vec![log("a1"), inc("b.json"), log("a2")]),
        file("b.json", vec![log("b1"), inc("c.json"), log("b2")]),
        file("c.json", vec![log("c1"), log("c2")]),
    ];
    let flat = flatten_script(&files, &"a.json".to_string()).ok().unwrap();
    assert_eq!(messages(&flat), vec!["a1", "b1", "c1", "c2", "b2", "a2"]);
    let places = expand_script_steps(&files, &"a.json".to_string()).ok().unwrap();
    assert_eq!(places, vec![(0, 0), (1, 0), (2, 0), (2, 1), (1, 2), (0, 2)]);
}

#[test]
fn same_file_included_twice_is_no_cycle() {
    let files = vec![
        file("main", vec![inc("common"), log("mid"), inc("common")]),
        file("common", vec![log("c")]),
    ];
    let flat = flatten_script(&files, &"main".to_string()).ok().unwrap();
    assert_eq!(messages(&flat), vec!["c", "mid", "c"]);
}

#[test]
fn self_inclusion_is_a_script_error() {
    let files = vec![file("loop", vec![log("x"), inc("loop")])];
    let e = flatten_script(&files, &"loop".to_string()).err().unwrap();
    assert_eq!(e.kind, ScriptErrorKind::InclusionCycle);
    assert_eq!(e.path, "loop");
    assert_eq!(e.location, None);
}

#[test]
fn transitive_self_inclusion_is_a_script_error() {
    let files = vec![
        file("a", vec![inc("b")]),
        file("b", vec![inc("c")]),
        file("c", vec![log("c"), inc("a")]),
    ];
    let e = expand_script_steps(&files, &"a".to_string()).err().unwrap();
    assert_eq!(e.kind, ScriptErrorKind::InclusionCycle);
    assert_eq!(e.path, "a");
}

#[test]
fn cycle_below_the_root_is_a_script_error() {
    let files = vec![
        file("main", vec![log("m"), inc("x")]),
        file("x", vec![inc("y")]),
        file("y", vec![inc("x")]),
    ];
    let e = flatten_script(&files, &"main".to_string()).err().unwrap();
    assert_eq!(e.kind, ScriptErrorKind::InclusionCycle);
    assert_eq!(e.path, "x");
}

#[test]
fn missing_include_is_a_script_error() {
    let files = vec![file("a", vec![log("x"), inc("gone")])];
    let e = flatten_script(&files, &"a".to_string()).err().unwrap();
    assert_eq!(e.kind, ScriptErrorKind::MissingFile);
    assert_eq!(e.path, "gone");
    let e = flatten_script(&files, &"nowhere".to_string()).err().unwrap();
    assert_eq!(e.kind, ScriptErrorKind::MissingFile);
}

#[test]
fn empty_script_expands_to_nothing() {
    let files = vec![file("a", vec![])];
    assert!(flatten_script(&files, &"a".to_string()).ok().unwrap().is_empty());
}
