//! Command lines, baseline gating and recording, and the printed reports.

use modou::{
    Constitution, CrateBoundary, Line, Outcome, Request, Step, Stream, Workspace,
    baseline_to_write, baseline_written, check, coverage, gate, listing, next_step,
    no_manifest_found, parse_args, report, respond, usage,
};

const REGISTRY: &str = "registry+https://github.com/rust-lang/crates.io-index";

fn fixture(name: &str) -> String {
    format!("/fixtures/{name}/Cargo.toml")
}

/// The observed workspace behind each fixture manifest: `clean` has no external
/// dependency, `violating` depends on `serde`, and `layered` has no
/// `example-core` package at all.
fn observe(manifest: &str) -> Workspace {
    let packages = if manifest.contains("layered") {
        format!(
            r#"{{"name":"domain","manifest_path":"/fixtures/layered/domain/Cargo.toml","dependencies":[]}},{{"name":"adapters","manifest_path":"/fixtures/layered/adapters/Cargo.toml","dependencies":[]}}"#
        )
    } else {
        let dependencies = if manifest.contains("violating") {
            format!(r#"{{"name":"serde","source":"{REGISTRY}","kind":null}}"#)
        } else {
            String::new()
        };
        format!(
            r#"{{"name":"example-core","manifest_path":"{manifest}","dependencies":[{dependencies}]}}"#
        )
    };
    Workspace {
        manifest: manifest.to_string(),
        metadata: Ok(format!(r#"{{"packages":[{packages}]}}"#)),
        sources: Vec::new(),
    }
}

/// The directory a manifest search started from when it found no `Cargo.toml`.
const EMPTY_DIR: &str = "/tmp/modou-cli-no-manifest";

fn example_constitution() -> Constitution {
    Constitution::new("example").boundary(
        CrateBoundary::crate_("example-core")
            .deny_external_dependencies()
            .because("example-core must stay dependency-light"),
    )
}

fn args(items: &[&str]) -> Vec<String> {
    items.iter().map(|s| s.to_string()).collect()
}

/// The exit code of a command line decided while reading it, before any
/// workspace is observed: a usage error exits 2 and `list` exits 0.
fn run_args(items: &[&str]) -> u8 {
    match parse_args(&args(items)) {
        Err(message) => {
            let (code, lines) = usage(&message);
            assert_eq!(lines.len(), 2);
            code
        }
        Ok(Request::List { json }) => {
            let (code, lines) = listing(&example_constitution(), json);
            assert_eq!(lines.len(), 1);
            code
        }
        Ok(Request::Check {
            manifest_path: None,
            ..
        }) => {
            // No `Cargo.toml` at or above the directory the search started from.
            let (code, lines) = no_manifest_found(EMPTY_DIR);
            assert_eq!(lines.len(), 1);
            code
        }
        Ok(request) => panic!("a check would observe a workspace: {request:?}"),
    }
}

/// The exit code and the lines of a full `check` command line without baseline
/// flags; an absent `--manifest-path` finds `nearest`, the nearest `Cargo.toml`.
fn run_check_from(items: &[&str], nearest: &str) -> (u8, Vec<Line>) {
    match parse_args(&args(items)).expect("a valid command line") {
        Request::Check {
            manifest_path,
            baseline,
            write_baseline,
            json,
            warn_uncovered,
        } => {
            let manifest = manifest_path.unwrap_or_else(|| nearest.to_string());
            let constitution = example_constitution();
            let workspace = observe(&manifest);
            let outcome = check(&constitution, &workspace);
            let covered = coverage(&constitution, &workspace);
            match next_step(
                &outcome,
                covered.as_ref(),
                baseline.as_deref(),
                write_baseline.as_deref(),
                json,
                warn_uncovered,
            ) {
                Step::Answer(code, lines) => (code, lines),
                other => panic!("expected an answer, got {other:?}"),
            }
        }
        other => panic!("expected a check, got {other:?}"),
    }
}

/// The exit code and the lines of a full `check` command line.
fn run_check(items: &[&str]) -> (u8, Vec<Line>) {
    run_check_from(items, "/nowhere/Cargo.toml")
}

fn stdout_text(lines: &[Line]) -> String {
    lines
        .iter()
        .filter(|l| l.stream == Stream::Stdout)
        .map(|l| l.text.clone())
        .collect::<Vec<_>>()
        .join("\n")
}

fn stderr_text(lines: &[Line]) -> String {
    lines
        .iter()
        .filter(|l| l.stream == Stream::Stderr)
        .map(|l| l.text.clone())
        .collect::<Vec<_>>()
        .join("\n")
}

#[test]
fn missing_manifest_path_exits_2() {
    assert_eq!(run_args(&["modou", "check"]), 2);
}

#[test]
fn both_baseline_flags_exit_2() {
    assert_eq!(
        run_args(&[
            "modou",
            "check",
            "--manifest-path",
            &fixture("clean"),
            "--baseline",
            "a.json",
            "--write-baseline",
            "b.json",
        ]),
        2
    );
}

#[test]
fn unknown_format_exits_2() {
    assert_eq!(
        run_args(&[
            "modou",
            "check",
            "--manifest-path",
            &fixture("clean"),
            "--format",
            "yaml",
        ]),
        2
    );
}

#[test]
fn flag_missing_its_value_is_a_usage_error() {
    for flag in [
        "--manifest-path",
        "--baseline",
        "--write-baseline",
        "--format",
    ] {
        assert_eq!(
            run_args(&["modou", "check", "--manifest-path", &fixture("clean"), flag]),
            2,
            "{flag} without a value must exit 2",
        );
    }
}

#[test]
fn list_needs_no_manifest_path_and_exits_0() {
    assert_eq!(run_args(&["modou", "list"]), 0);
}

#[test]
fn list_json_exits_0() {
    assert_eq!(run_args(&["modou", "list", "--format", "json"]), 0);
}

#[test]
fn list_unknown_format_is_a_usage_error() {
    assert_eq!(run_args(&["modou", "list", "--format", "yaml"]), 2);
}

#[test]
fn misspelled_flag_fails_loud_instead_of_being_ignored() {
    assert_eq!(
        run_args(&[
            "modou",
            "check",
            "--manifest-path",
            &fixture("violating"),
            "--write-baselin",
            "out.json",
        ]),
        2
    );
}

#[test]
fn unknown_flag_exits_2() {
    assert_eq!(
        run_args(&[
            "modou",
            "check",
            "--manifest-path",
            &fixture("clean"),
            "--frobnicate",
        ]),
        2
    );
}

#[test]
fn stray_positional_exits_2() {
    assert_eq!(
        run_args(&[
            "modou",
            "check",
            "stray",
            "--manifest-path",
            &fixture("clean")
        ]),
        2
    );
}

#[test]
fn list_unknown_flag_exits_2() {
    assert_eq!(run_args(&["modou", "list", "--bogus"]), 2);
}

#[test]
fn usage_errors_name_the_mistake() {
    let cases: [(&[&str], &str); 6] = [
        (
            &["modou", "list", "--manifest-path", "Cargo.toml"],
            "--manifest-path applies only to check",
        ),
        (&["modou", "check", "--format"], "--format requires a value"),
        (&["modou", "--bogus"], "unrecognized argument '--bogus'"),
        (
            &["modou", "check", "--manifest-path", "m", "--format=yaml"],
            "unknown --format 'yaml' (expected text or json)",
        ),
        (
            &["modou", "check", "--manifest-path=m", "--baseline=a", "--write-baseline", "b"],
            "--baseline and --write-baseline are mutually exclusive",
        ),
        (&["modou", "list", "--format="], "unknown --format '' (expected text or json)"),
    ];
    for (line, message) in cases {
        assert_eq!(parse_args(&args(line)).unwrap_err(), message, "{line:?}");
    }
    let (code, lines) = usage("--manifest-path applies only to check");
    assert_eq!(code, 2);
    assert_eq!(lines.len(), 2);
    assert!(lines.iter().all(|l| l.stream == Stream::Stderr));
    assert!(lines[0].text.starts_with("usage:\n  modou check [--manifest-path"));
    assert_eq!(lines[1].text, "error: --manifest-path applies only to check");
}

#[test]
fn a_leading_flag_means_check_and_later_settings_win() {
    match parse_args(&args(&[
        "modou",
        "--manifest-path",
        "first",
        "--manifest-path=second",
        "--format",
        "text",
        "--baseline",
        "base.json",
    ]))
    .expect("valid")
    {
        Request::Check {
            manifest_path,
            baseline,
            write_baseline,
            json,
            warn_uncovered,
        } => {
            assert_eq!(manifest_path.as_deref(), Some("second"));
            assert_eq!(baseline.as_deref(), Some("base.json"));
            assert!(write_baseline.is_none());
            assert!(!json);
            assert!(!warn_uncovered);
        }
        other => panic!("expected a check, got {other:?}"),
    }
}

#[test]
fn check_clean_target_exits_0() {
    let (code, lines) = run_check(&["modou", "check", "--manifest-path", &fixture("clean")]);
    assert_eq!(code, 0);
    assert_eq!(stdout_text(&lines), "");
    assert!(stderr_text(&lines).starts_with("Modou: clean — no boundary violated"));
}

#[test]
fn check_violating_target_exits_1_with_report() {
    let (code, lines) = run_check(&["modou", "check", "--manifest-path", &fixture("violating")]);
    assert_eq!(code, 1);
    let stderr = stderr_text(&lines);
    assert!(
        stderr.contains("serde") && stderr.contains("violation"),
        "expected a violation report naming serde, got: {stderr}"
    );
    assert!(stderr.contains("Reaction:\n  CI failed."), "{stderr}");
}

#[test]
fn equals_form_of_manifest_path_is_accepted() {
    let (code, _) = run_check(&[
        "modou",
        "check",
        &format!("--manifest-path={}", fixture("clean")),
    ]);
    assert_eq!(code, 0);
}

#[test]
fn json_format_emits_a_parseable_violations_document() {
    let (code, lines) = run_check(&[
        "modou",
        "check",
        "--manifest-path",
        &fixture("violating"),
        "--format",
        "json",
    ]);
    assert_eq!(code, 1);
    let doc: serde_json::Value = serde_json::from_str(&stdout_text(&lines)).expect("stdout is valid JSON");
    assert_eq!(doc["outcome"], "violations");
    assert_eq!(doc["violations"][0]["kind"], "crate");
    assert_eq!(doc["violations"][0]["finding"], "serde");
}

#[test]
fn equals_form_of_json_format_is_accepted() {
    let (code, lines) = run_check(&[
        "modou",
        "check",
        "--manifest-path",
        &fixture("clean"),
        "--format=json",
    ]);
    assert_eq!(code, 0);
    let doc: serde_json::Value = serde_json::from_str(&stdout_text(&lines)).expect("stdout is valid JSON");
    assert_eq!(doc["outcome"], "clean");
}

#[test]
fn write_baseline_exits_0_and_creates_a_parseable_file() {
    let outcome = check(&example_constitution(), &observe(&fixture("violating")));
    let (text, count) = baseline_to_write(&outcome).expect("a baseline is written");
    assert_eq!(count, 1);
    let doc: serde_json::Value = serde_json::from_str(&text).expect("baseline is JSON");
    assert_eq!(doc["version"], 1);
    assert!(text.contains("serde"), "baseline should record serde, got: {text}");
}

#[test]
fn gate_against_written_baseline_exits_0() {
    let outcome = check(&example_constitution(), &observe(&fixture("violating")));
    let (text, _) = baseline_to_write(&outcome).expect("a baseline is written");
    let outcome = check(&example_constitution(), &observe(&fixture("violating")));
    let (code, lines) = gate(outcome, Ok(text), "base.json", false, None, false);
    assert_eq!(code, 0, "all violations are pre-existing");
    assert_eq!(
        stderr_text(&lines),
        "Modou: 1 pre-existing violation(s) suppressed by baseline"
    );
}

#[test]
fn gate_fails_on_a_violation_absent_from_the_baseline() {
    let outcome = check(&example_constitution(), &observe(&fixture("violating")));
    let (code, _) = gate(
        outcome,
        Ok(r#"{"version":1,"violations":[]}"#.to_string()),
        "empty.json",
        false,
        None,
        false,
    );
    assert_eq!(code, 1, "serde is new relative to an empty baseline");
}

#[test]
fn a_malformed_baseline_exits_2() {
    let outcome = check(&example_constitution(), &observe(&fixture("violating")));
    let (code, lines) = gate(outcome, Ok("not json".to_string()), "bad.json", false, None, false);
    assert_eq!(code, 2);
    assert!(stderr_text(&lines).starts_with("Modou: invalid baseline bad.json: "));
}

#[test]
fn an_unreadable_baseline_exits_2() {
    let outcome = check(&example_constitution(), &observe(&fixture("violating")));
    let (code, lines) = gate(
        outcome,
        Err("No such file or directory (os error 2)".to_string()),
        "gone.json",
        true,
        None,
        false,
    );
    assert_eq!(code, 2);
    assert_eq!(
        stderr_text(&lines),
        "Modou: cannot read baseline gone.json: No such file or directory (os error 2)"
    );
}

#[test]
fn gate_mode_json_reflects_baseline_and_stale_entries() {
    let outcome = check(&example_constitution(), &observe(&fixture("violating")));
    let (text, _) = baseline_to_write(&outcome).expect("a baseline is written");
    let mut doc: serde_json::Value = serde_json::from_str(&text).expect("baseline is JSON");
    let mut ghost = doc["violations"][0].clone();
    ghost["finding"] = serde_json::Value::String("ghost-not-violated".to_string());
    doc["violations"].as_array_mut().expect("violations array").push(ghost);
    let rewritten = serde_json::to_string(&doc).expect("serialize");

    let outcome = check(&example_constitution(), &observe(&fixture("violating")));
    let (code, lines) = gate(outcome, Ok(rewritten), "base.json", true, None, false);
    assert_eq!(code, 0, "all real violations baselined -> exit 0");
    let report: serde_json::Value = serde_json::from_str(&stdout_text(&lines)).expect("stdout is valid JSON");
    let serde = &report["violations"][0];
    assert_eq!(serde["finding"], "serde", "the real violation is present");
    assert_eq!(serde["baselined"], true, "got: {report}");
    let stale = report["stale_baseline"].as_array().expect("stale array");
    assert_eq!(stale.len(), 1);
    assert_eq!(
        stale[0]["finding"], "ghost-not-violated",
        "the no-longer-violated baseline entry must be reported stale, got: {report}"
    );
}

#[test]
fn gate_text_reports_stale_entries_and_constitution_errors() {
    let outcome = check(&example_constitution(), &observe(&fixture("clean")));
    let baseline = r#"{"version":1,"violations":[{"target":"example-core","rule":"deny external dependencies","finding":"gone"}]}"#;
    let (code, lines) = gate(outcome, Ok(baseline.to_string()), "base.json", false, None, false);
    assert_eq!(code, 0);
    assert_eq!(stdout_text(&lines), "");
    assert_eq!(
        stderr_text(&lines),
        "Modou: clean — no boundary violated\nModou: stale baseline entry (no longer violated): example-core / deny external dependencies / gone"
    );

    let error = Outcome::ConstitutionError("target crate 'x' not found in the workspace".to_string());
    let (code, lines) = gate(error, Ok(baseline.to_string()), "base.json", false, None, false);
    assert_eq!(code, 2);
    assert_eq!(
        stderr_text(&lines),
        "Modou constitution error: target crate 'x' not found in the workspace"
    );
}

#[test]
fn a_constitution_error_is_not_pinned_as_a_baseline() {
    let error = Outcome::ConstitutionError("cannot read target workspace at /x/Cargo.toml: boom".to_string());
    let (code, lines) = baseline_to_write(&error).expect_err("no baseline from an unevaluated constitution");
    assert_eq!(code, 2);
    assert_eq!(lines.len(), 2);
    assert_eq!(
        lines[0].text,
        "Modou constitution error: cannot read target workspace at /x/Cargo.toml: boom"
    );
    assert_eq!(
        lines[1].text,
        "refusing to write a baseline from a constitution that could not be evaluated"
    );
}

#[test]
fn the_text_report_shows_warn_as_advisory() {
    let constitution = Constitution::new("advisory").boundary(
        CrateBoundary::crate_("example-core")
            .deny_external_dependencies()
            .warn()
            .because("observe before enforcing"),
    );
    let outcome = check(&constitution, &observe(&fixture("violating")));
    let lines = report(&outcome);
    let texts: Vec<&str> = lines.iter().map(|l| l.text.as_str()).collect();
    assert_eq!(
        texts,
        vec![
            "",
            "Modou advisory",
            "",
            "Boundary:\n  example-core",
            "Rule:\n  deny external dependencies",
            "Found:\n  serde",
            "Reason:\n  observe before enforcing",
            "Reaction:\n  warning only — CI not failed.",
        ]
    );
    assert!(lines.iter().all(|l| l.stream == Stream::Stderr));
    assert_eq!(outcome.exit_code(), 0);
}

#[test]
fn writing_a_baseline_reports_the_count_or_the_failure() {
    let (code, lines) = baseline_written(3, "base.json", Ok(()));
    assert_eq!(code, 0);
    assert_eq!(stderr_text(&lines), "Modou: wrote 3 violation(s) to baseline base.json");
    let (code, lines) = baseline_written(3, "/ro/base.json", Err("Read-only file system (os error 30)".to_string()));
    assert_eq!(code, 2);
    assert_eq!(
        stderr_text(&lines),
        "Modou: cannot write baseline /ro/base.json: Read-only file system (os error 30)"
    );
}

#[test]
fn both_baseline_flags_is_a_usage_error() {
    assert_eq!(
        run_args(&[
            "modou",
            "check",
            "--manifest-path",
            &fixture("violating"),
            "--baseline",
            "x.json",
            "--write-baseline",
            "y.json",
        ]),
        2
    );
}

#[test]
fn unknown_format_is_a_usage_error() {
    assert_eq!(
        run_args(&["modou", "check", "--manifest-path", &fixture("clean"), "--format", "yaml"]),
        2
    );
}

#[test]
fn empty_equals_form_value_is_a_usage_error() {
    // `--format=` (equals form, empty value) must fail loud, not fall back to a
    // default.
    assert_eq!(
        run_args(&["modou", "check", "--manifest-path", &fixture("clean"), "--format="]),
        2
    );
}

#[test]
fn absent_manifest_path_defaults_to_the_nearest_workspace() {
    // Run from inside the clean fixture: the nearest Cargo.toml is the fixture's.
    let (code, _) = run_check_from(&["modou", "check"], &fixture("clean"));
    assert_eq!(
        code, 0,
        "an absent --manifest-path must default to the nearest Cargo.toml"
    );
    let (explicit, _) = run_check(&["modou", "check", "--manifest-path", &fixture("clean")]);
    assert_eq!(code, explicit);
}

#[test]
fn absent_manifest_path_with_no_cargo_toml_exits_2() {
    assert_eq!(
        run_args(&["modou", "check"]),
        2,
        "no Cargo.toml found must exit 2, never 0"
    );
    let (_, lines) = no_manifest_found(EMPTY_DIR);
    assert_eq!(
        stderr_text(&lines),
        "Modou scan error: no Cargo.toml found in /tmp/modou-cli-no-manifest or any parent directory"
    );
}

#[test]
fn coverage_is_reported_in_text_output() {
    // The text report (coverage included) is on stderr as a single stream; stdout is
    // reserved for machine output (`--format json`) and the `list` projection.
    let (_, lines) = run_check(&["modou", "check", "--manifest-path", &fixture("clean")]);
    let stderr = stderr_text(&lines);
    assert!(
        stderr.contains("coverage"),
        "expected a coverage line on stderr, got: {stderr}"
    );
    assert_eq!(stdout_text(&lines), "");
}

#[test]
fn coverage_object_is_in_the_json_report() {
    let (_, lines) = run_check(&[
        "modou",
        "check",
        "--manifest-path",
        &fixture("clean"),
        "--format",
        "json",
    ]);
    let doc: serde_json::Value =
        serde_json::from_str(&stdout_text(&lines)).expect("stdout is valid JSON");
    assert!(
        doc["coverage"]["workspace_crates"].is_number(),
        "expected a coverage object, got: {doc}"
    );
    // The `uncovered` array is the load-bearing half of the coverage object — a
    // regression emitting the count but dropping the list would otherwise pass.
    assert!(
        doc["coverage"]["uncovered"].is_array(),
        "coverage must carry an `uncovered` array, got: {doc}"
    );
}

#[test]
fn warn_uncovered_does_not_change_a_clean_exit() {
    let (code, _) = run_check(&[
        "modou",
        "check",
        "--manifest-path",
        &fixture("clean"),
        "--warn-uncovered",
    ]);
    assert_eq!(code, 0, "an advisory flag must not fail a clean run");
}

#[test]
fn warn_uncovered_does_not_mask_an_enforced_violation() {
    let (code, _) = run_check(&[
        "modou",
        "check",
        "--manifest-path",
        &fixture("violating"),
        "--warn-uncovered",
    ]);
    assert_eq!(
        code, 1,
        "an enforced violation must still fail under --warn-uncovered"
    );
}

#[test]
fn constitution_error_omits_coverage_text() {
    // The sample constitution targets `example-core`, absent from the `layered`
    // workspace, so the run is a constitution error (exit 2). Coverage is omitted: the
    // error is the whole story, not a coverage report over an un-evaluated constitution.
    let (code, lines) = run_check(&["modou", "check", "--manifest-path", &fixture("layered")]);
    assert_eq!(code, 2);
    let stdout = stdout_text(&lines);
    assert!(
        !stdout.contains("coverage"),
        "a constitution error must omit coverage, got stdout: {stdout}"
    );
    assert!(!stderr_text(&lines).contains("coverage"));
}

#[test]
fn constitution_error_omits_coverage_json() {
    let (code, lines) = run_check(&[
        "modou",
        "check",
        "--manifest-path",
        &fixture("layered"),
        "--format",
        "json",
    ]);
    assert_eq!(code, 2);
    let doc: serde_json::Value =
        serde_json::from_str(&stdout_text(&lines)).expect("stdout is valid JSON");
    assert_eq!(doc["outcome"], "constitution_error");
    assert!(
        doc.get("coverage").is_none(),
        "a constitution error must omit the coverage object, got: {doc}"
    );
}

#[test]
fn coverage_counts_and_names_the_uncovered_crates() {
    let constitution = example_constitution();
    let workspace = observe(&fixture("layered"));
    let covered = coverage(&constitution, &workspace).expect("metadata is readable");
    assert_eq!(covered.workspace_crates, 2);
    assert_eq!(covered.uncovered, vec!["domain".to_string(), "adapters".to_string()]);
    let (code, lines) = respond(&Outcome::Clean, false, Some(&covered), true);
    assert_eq!(code, 0);
    assert_eq!(
        stderr_text(&lines),
        "Modou: clean — no boundary violated\n\
         Modou: coverage — 2 of 2 workspace crate(s) have no boundary\n\
         Modou advisory: workspace crate 'domain' has no boundary (warning only — CI not failed.)\n\
         Modou advisory: workspace crate 'adapters' has no boundary (warning only — CI not failed.)"
    );
    let clean = check(&constitution, &observe(&fixture("clean")));
    let covered = coverage(&constitution, &observe(&fixture("clean"))).expect("readable");
    assert_eq!(covered.workspace_crates, 1);
    assert!(covered.uncovered.is_empty());
    assert_eq!(clean.exit_code(), 0);
}

#[test]
fn list_rejects_check_only_flags() {
    for flag in ["--manifest-path", "--baseline", "--write-baseline"] {
        assert_eq!(run_args(&["modou", "list", flag, "Cargo.toml"]), 2, "{flag}");
    }
    assert_eq!(run_args(&["modou", "list", "--warn-uncovered"]), 2);
    assert_eq!(
        parse_args(&args(&["modou", "list", "--warn-uncovered"])).unwrap_err(),
        "--warn-uncovered applies only to check"
    );
}

#[test]
fn a_constitution_error_is_reported_before_the_baseline_is_read() {
    let error = Outcome::ConstitutionError("target crate 'x' not found in the workspace".to_string());
    match next_step(&error, None, Some("missing.json"), None, false, false) {
        Step::Answer(code, lines) => {
            assert_eq!(code, 2);
            assert_eq!(
                stderr_text(&lines),
                "Modou constitution error: target crate 'x' not found in the workspace"
            );
        }
        other => panic!("the baseline must not be read, got {other:?}"),
    }
    let error = Outcome::ConstitutionError("boom".to_string());
    let (code, _) = gate(error, Err("gone".to_string()), "missing.json", false, None, false);
    assert_eq!(code, 2);
    let outcome = check(&example_constitution(), &observe(&fixture("violating")));
    match next_step(&outcome, None, Some("base.json"), None, false, false) {
        Step::ReadBaseline(path) => assert_eq!(path, "base.json"),
        other => panic!("expected to read the baseline, got {other:?}"),
    }
    match next_step(&outcome, None, None, Some("out.json"), false, false) {
        Step::WriteBaseline { path, text, count } => {
            assert_eq!(path, "out.json");
            assert_eq!(count, 1);
            assert!(text.contains("serde"));
        }
        other => panic!("expected to write the baseline, got {other:?}"),
    }
}
