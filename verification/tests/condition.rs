use tali::condition::{
    condition_probes, evaluate, validate_syntax, ConditionContext, ConditionError, ConditionFacts,
    PathFact, Probe,
};

fn context(values: Vec<(String, String)>) -> ConditionContext {
    ConditionContext { project_root: "/tmp/project".to_string(), values, allow_outside_cwd: false, windows: false }
}

fn no_facts() -> ConditionFacts {
    ConditionFacts { os: "linux".to_string(), paths: Vec::new(), env_vars: Vec::new() }
}

#[test]
fn validates_syntax() {
    assert!(validate_syntax("os_is('linux') || os_is('macos')").is_ok());
    assert!(validate_syntax("unknown").is_err());
    assert!(validate_syntax("file_exists(config)").is_err());
}

#[test]
fn evaluates_file_and_dir_conditions() {
    let ctx = context(Vec::new());
    let facts = ConditionFacts {
        os: "linux".to_string(),
        paths: vec![
            ("/tmp/project/config/app.toml".to_string(), PathFact::Inside { is_file: true, is_dir: false }),
            ("/tmp/project/config".to_string(), PathFact::Inside { is_file: false, is_dir: true }),
            ("/tmp/project/missing".to_string(), PathFact::Inside { is_file: false, is_dir: false }),
        ],
        env_vars: Vec::new(),
    };
    assert!(evaluate("file_exists('config/app.toml')", &ctx, &facts).unwrap());
    assert!(evaluate("dir_exists(\"config\")", &ctx, &facts).unwrap());
    assert!(!evaluate("file_exists('missing')", &ctx, &facts).unwrap());
}

#[test]
fn evaluates_inputs_and_boolean_operators() {
    let ctx = context(vec![("target".to_string(), "preview".to_string())]);
    let facts = no_facts();
    assert!(evaluate("input_exists('target')", &ctx, &facts).unwrap());
    assert!(evaluate("input_equals('target', 'preview')", &ctx, &facts).unwrap());
    assert!(evaluate(
        "input_equals('target', 'preview') && not input_equals('target', 'prod')",
        &ctx,
        &facts
    )
    .unwrap());
    assert!(!evaluate(
        "input_equals('target', 'prod') || input_equals('missing', 'x')",
        &ctx,
        &facts
    )
    .unwrap());
}

#[test]
fn rejects_path_traversal_conditions() {
    let ctx = context(Vec::new());
    assert!(evaluate("file_exists('../secret')", &ctx, &no_facts()).is_err());
}

#[test]
fn probes_name_the_paths_and_variables_a_condition_reads() {
    let ctx = context(Vec::new());
    let probes = condition_probes("file_exists('a.txt') && env_exists('HOME')", &ctx).unwrap();
    assert_eq!(
        probes,
        vec![Probe::Path("/tmp/project/a.txt".to_string()), Probe::Env("HOME".to_string())]
    );
}

#[test]
fn os_and_env_conditions_use_the_facts() {
    let ctx = context(Vec::new());
    let facts = ConditionFacts {
        os: "macos".to_string(),
        paths: Vec::new(),
        env_vars: vec![("HOME".to_string(), true), ("NOPE".to_string(), false)],
    };
    assert!(evaluate("os_is('macos') && env_exists('HOME')", &ctx, &facts).unwrap());
    assert!(!evaluate("env_exists('NOPE')", &ctx, &facts).unwrap());
    assert!(evaluate("not (os_is('linux'))", &ctx, &facts).unwrap());
}

#[test]
fn reports_unknown_helpers_and_arity() {
    assert!(matches!(validate_syntax("frobnicate('x')"), Err(ConditionError::UnknownFunction(_))));
    assert!(validate_syntax("input_equals('a')").is_err());
    assert!(validate_syntax("os_is('linux') extra").is_err());
}

#[test]
fn valid_conditions_fail_only_for_missing_answers_or_paths() {
    let ctx = context(Vec::new());
    let condition = "file_exists('a.txt') || os_is('linux')";
    assert!(validate_syntax(condition).is_ok());
    assert!(matches!(evaluate(condition, &ctx, &no_facts()), Err(ConditionError::MissingFact(_))));
    let mut facts = no_facts();
    for probe in condition_probes(condition, &ctx).unwrap() {
        if let Probe::Path(p) = probe {
            facts.paths.push((p, PathFact::Inside { is_file: false, is_dir: false }));
        }
    }
    assert!(evaluate(condition, &ctx, &facts).unwrap());
}

#[test]
fn conditions_compose_under_not_and_or() {
    let ctx = context(vec![("target".to_string(), "preview".to_string())]);
    let facts = no_facts();
    let conditions = ["os_is('linux')", " input_equals('target', 'prod') ", "not input_exists('x') || os_is('mac')"];
    for a in conditions.iter() {
        let x = evaluate(a, &ctx, &facts).unwrap();
        assert_eq!(evaluate(&format!("not ({a})"), &ctx, &facts), Ok(!x));
        assert_eq!(evaluate(&format!("({a})"), &ctx, &facts), Ok(x));
        for b in conditions.iter() {
            let y = evaluate(b, &ctx, &facts).unwrap();
            assert_eq!(evaluate(&format!("({a}) && ({b})"), &ctx, &facts), Ok(x && y));
            assert_eq!(evaluate(&format!("({a}) || ({b})"), &ctx, &facts), Ok(x || y));
        }
    }
}
