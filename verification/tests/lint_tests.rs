use sdk_lints::lint::{
    aggregate_violations, execution_mode, ok, plan_fixes, selected_checks, selected_fixes,
    CheckArgs, ExecutionMode, FixArgs, FixOutcome, LintError, LintKind, LintViolation,
};

fn violation(lint: LintKind, path: &str, message: &str) -> LintViolation {
    LintViolation {
        lint,
        path: path.as_bytes().to_vec(),
        message: message.as_bytes().to_vec(),
        suggested_fix: None,
    }
}

#[test]
fn ok_succeeds_only_on_empty_aggregate() {
    let none: Vec<LintViolation> = Vec::new();
    assert!(ok(none).is_ok());
    let some = vec![violation(LintKind::ReadmesExist, "a", "missing README")];
    assert_eq!(ok(some), Err(LintError::ViolationsFound));
}

#[test]
fn check_all_selects_every_lint_in_fixed_order() {
    let args = CheckArgs {
        all: true,
        readme: false,
        cargo_toml: false,
        docsrs_metadata: false,
        changelog: false,
        license: false,
        todos: false,
    };
    let kinds = selected_checks(&args);
    assert_eq!(
        kinds,
        vec![
            LintKind::ReadmesExist,
            LintKind::ReadmesHaveFooters,
            LintKind::CrateAuthor,
            LintKind::CrateLicense,
            LintKind::DocsRs,
            LintKind::CopyrightHeader,
            LintKind::ChangelogNext,
            LintKind::TodosHaveContext,
        ]
    );
}

#[test]
fn check_selection_is_per_category() {
    let args = CheckArgs {
        all: false,
        readme: true,
        cargo_toml: false,
        docsrs_metadata: false,
        changelog: true,
        license: false,
        todos: false,
    };
    let kinds = selected_checks(&args);
    assert_eq!(
        kinds,
        vec![LintKind::ReadmesExist, LintKind::ReadmesHaveFooters, LintKind::ChangelogNext]
    );
}

#[test]
fn fix_selection_covers_correctable_lints() {
    let args = FixArgs { all: true, readme: false, docsrs_metadata: false, dry_run: None };
    assert_eq!(selected_fixes(&args), vec![LintKind::ReadmesHaveFooters, LintKind::DocsRs]);
    let none = FixArgs { all: false, readme: false, docsrs_metadata: false, dry_run: None };
    assert!(selected_fixes(&none).is_empty());
}

#[test]
fn execution_mode_defaults_to_persist() {
    assert_eq!(execution_mode(None), ExecutionMode::Persist);
    assert_eq!(execution_mode(Some(false)), ExecutionMode::Persist);
    assert_eq!(execution_mode(Some(true)), ExecutionMode::DryRun);
}

#[test]
fn aggregate_keeps_every_violation_in_order() {
    let results = vec![
        vec![violation(LintKind::ReadmesExist, "a", "one")],
        vec![],
        vec![
            violation(LintKind::CrateAuthor, "b", "two"),
            violation(LintKind::CrateLicense, "c", "three"),
        ],
    ];
    let agg = aggregate_violations(results);
    let messages: Vec<&[u8]> = agg.iter().map(|v| v.message.as_slice()).collect();
    assert_eq!(messages, vec![b"one".as_slice(), b"two".as_slice(), b"three".as_slice()]);
}

fn sample_outcomes() -> Vec<FixOutcome> {
    vec![
        FixOutcome {
            path: b"crate-a/README.md".to_vec(),
            violations: vec![violation(
                LintKind::ReadmesHaveFooters,
                "crate-a/README.md",
                "missing footer",
            )],
            corrected: Some(b"readme with footer\n".to_vec()),
        },
        FixOutcome {
            path: b"crate-b/Cargo.toml".to_vec(),
            violations: vec![violation(LintKind::DocsRs, "crate-b/Cargo.toml", "not fixable")],
            corrected: None,
        },
    ]
}

#[test]
fn dry_run_reports_the_same_violations_as_persist() {
    let dry = plan_fixes(sample_outcomes(), ExecutionMode::DryRun);
    let wet = plan_fixes(sample_outcomes(), ExecutionMode::Persist);
    let dry_messages: Vec<Vec<u8>> = dry.violations.iter().map(|v| v.message.clone()).collect();
    let wet_messages: Vec<Vec<u8>> = wet.violations.iter().map(|v| v.message.clone()).collect();
    assert_eq!(dry_messages, wet_messages);
    assert_eq!(dry_messages.len(), 2);
}

#[test]
fn dry_run_withholds_every_write() {
    let dry = plan_fixes(sample_outcomes(), ExecutionMode::DryRun);
    assert!(dry.writes.is_empty());
}

#[test]
fn persist_writes_exactly_the_computed_corrections() {
    let wet = plan_fixes(sample_outcomes(), ExecutionMode::Persist);
    assert_eq!(wet.writes.len(), 1);
    assert_eq!(wet.writes[0].path, b"crate-a/README.md".to_vec());
    assert_eq!(wet.writes[0].content, b"readme with footer\n".to_vec());
}

#[test]
fn check_run_leaves_fixture_contents_unchanged() {
    // A check run only selects lints and aggregates their findings as data;
    // every fixture byte is identical before and after.
    let fixture = vec![
        (b"crate-a/README.md".to_vec(), b"hello\n".to_vec()),
        (b"crate-a/Cargo.toml".to_vec(), b"[package]\n".to_vec()),
    ];
    let before = fixture.clone();
    let args = CheckArgs {
        all: true,
        readme: false,
        cargo_toml: false,
        docsrs_metadata: false,
        changelog: false,
        license: false,
        todos: false,
    };
    let kinds = selected_checks(&args);
    let mut results: Vec<Vec<LintViolation>> = Vec::new();
    for kind in kinds {
        // A stand-in scan: it reads the fixture and reports one violation per
        // file for one of the lints, touching nothing.
        let mut found = Vec::new();
        if kind == LintKind::ReadmesExist {
            for (path, content) in fixture.iter() {
                if content.is_empty() {
                    found.push(LintViolation {
                        lint: kind,
                        path: path.clone(),
                        message: b"empty file".to_vec(),
                        suggested_fix: None,
                    });
                }
            }
        }
        results.push(found);
    }
    let agg = aggregate_violations(results);
    assert!(ok(agg).is_ok());
    assert_eq!(fixture, before);
}
