use rpg2java_transpiler::cli::{
    batch_complete_line, batch_result, batch_tally, snapshot_mismatch_message, snapshot_step, SnapshotStep,
    check_strict, class_name_from_stem, classify_failure_reason, collect_failure_categories, count_todos, csv_escape,
    is_batch_source, javac_detail, min_jobs, parse_args, parse_mode, parse_usize, perf_report_file_name,
    render_summary, round_robin_buckets, size_band, slow_tail_threshold, truncate_detail, Cli, CliCommand,
    FailedRun, RateCheck,
};
use rpg2java_transpiler::ir::build_ir;
use rpg2java_transpiler::parser::{parse_program_with_mode, ParseMode};
use rpg2java_transpiler::transpiler::JavaTarget;

fn rate_check(s: &str) -> RateCheck {
    match s.parse::<f64>() {
        Ok(v) if (0.0..=1.0).contains(&v) => RateCheck::Valid,
        Ok(_) => RateCheck::OutOfRange,
        Err(_) => RateCheck::Invalid,
    }
}

fn run(v: &[&str]) -> Result<CliCommand, String> {
    let mut args = vec![String::from("rpg2java-transpiler")];
    args.extend(v.iter().map(|s| s.to_string()));
    let checks: Vec<RateCheck> = args.iter().map(|a| rate_check(a)).collect();
    parse_args(&args, &checks)
}

fn run_ok(v: &[&str]) -> Cli {
    match run(v) {
        Ok(CliCommand::Run(c)) => c,
        other => panic!("unexpected {:?}", other),
    }
}

fn run_err(v: &[&str]) -> String {
    match run(v) {
        Err(e) => e,
        other => panic!("unexpected {:?}", other),
    }
}

#[test]
fn single_file_defaults() {
    let c = run_ok(&["--input", "a.rpg"]);
    assert_eq!(c.input.as_deref(), Some("a.rpg"));
    assert_eq!(c.batch_dir, None);
    assert_eq!(c.class_name, "MainProgram");
    assert_eq!(c.javac_cmd, "javac");
    assert_eq!(c.jobs, 1);
    assert_eq!(c.java_target, JavaTarget::Java21);
    assert!(matches!(c.mode, ParseMode::Auto));
    assert!(!c.strict && !c.dry_run && !c.javac_check && !c.update_snapshots);
    assert_eq!(c.fail_on_todo_rate, None);
}

#[test]
fn single_file_options_after_subcommand() {
    let c = run_ok(&[
        "convert", "-i", "a.rpg", "-o", "A.java", "--class-name", "A", "--mode", "FIXED", "--java-target",
        "java25-stable", "--strict", "--fail-on-todo-rate", "0.25", "--report-json", "r.json", "--report-md",
        "r.md", "--report-html", "r.html", "--source-map", "m.json", "--snapshot-dir", "snaps",
        "--update-snapshots", "--dry-run", "--redact", "--sarif", "x.sarif", "--javac-check", "--javac-cmd",
        "javac -Xlint",
    ]);
    assert_eq!(c.input.as_deref(), Some("a.rpg"));
    assert_eq!(c.output.as_deref(), Some("A.java"));
    assert_eq!(c.class_name, "A");
    assert!(matches!(c.mode, ParseMode::Fixed));
    assert_eq!(c.java_target, JavaTarget::Java25Stable);
    assert!(c.strict && c.dry_run && c.update_snapshots && c.javac_check);
    assert_eq!(c.fail_on_todo_rate.as_deref(), Some("0.25"));
    assert_eq!(c.report_json.as_deref(), Some("r.json"));
    assert_eq!(c.report_md.as_deref(), Some("r.md"));
    assert_eq!(c.report_html.as_deref(), Some("r.html"));
    assert_eq!(c.source_map.as_deref(), Some("m.json"));
    assert_eq!(c.snapshot_dir.as_deref(), Some("snaps"));
    assert_eq!(c.javac_cmd, "javac -Xlint");
}

#[test]
fn batch_options() {
    let c = run_ok(&[
        "batch", "--batch-dir", "d", "--output-dir", "out", "--jobs", "+4", "--html-report", "--source-map-report",
        "--metrics-csv", "m.csv", "--perf-report-json", "p.json",
    ]);
    assert_eq!(c.batch_dir.as_deref(), Some("d"));
    assert_eq!(c.output_dir.as_deref(), Some("out"));
    assert_eq!(c.jobs, 4);
    assert!(c.html_report && c.source_map_report);
    assert_eq!(c.metrics_csv.as_deref(), Some("m.csv"));
    assert_eq!(c.perf_report_json.as_deref(), Some("p.json"));
}

#[test]
fn later_values_win() {
    let c = run_ok(&["--input", "a", "--input", "b", "--jobs", "2", "--jobs", "3"]);
    assert_eq!(c.input.as_deref(), Some("b"));
    assert_eq!(c.jobs, 3);
}

#[test]
fn doctor_and_help() {
    assert!(matches!(run(&["doctor", "--bogus"]), Ok(CliCommand::Doctor)));
    assert!(matches!(run(&["--input", "a", "--help", "--bogus"]), Ok(CliCommand::Help)));
    assert!(matches!(run(&["-h"]), Ok(CliCommand::Help)));
    assert_eq!(run_err(&["--bogus", "--help"]), "unknown argument: --bogus");
    assert_eq!(run_err(&["--input", "a", "doctor"]), "unknown argument: doctor");
}

#[test]
fn missing_values() {
    assert_eq!(run_err(&["--input"]), "missing value for --input");
    assert_eq!(run_err(&["-i"]), "missing value for --input");
    assert_eq!(run_err(&["--input", "a", "--config"]), "missing value for --config");
    assert_eq!(run_err(&["--input", "a", "--jobs"]), "missing value for --jobs");
}

#[test]
fn invalid_values() {
    assert_eq!(run_err(&["--input", "a", "--jobs", "0"]), "--jobs must be >= 1");
    assert_eq!(run_err(&["--input", "a", "--jobs", "x"]), "invalid --jobs 'x'");
    assert_eq!(run_err(&["--input", "a", "--jobs", "-1"]), "invalid --jobs '-1'");
    assert_eq!(run_err(&["--input", "a", "--fail-on-todo-rate", "abc"]), "invalid --fail-on-todo-rate 'abc'");
    assert_eq!(
        run_err(&["--input", "a", "--fail-on-todo-rate", "1.5"]),
        "--fail-on-todo-rate must be between 0.0 and 1.0"
    );
    assert_eq!(run_err(&["--input", "a", "--mode", "weird"]), "invalid mode 'weird', expected auto|free|fixed");
    assert_eq!(
        run_err(&["--input", "a", "--java-target", "java8"]),
        "invalid --java-target 'java8', expected java21|java25-stable"
    );
    assert_eq!(run_err(&["--fail-on-todo-rate", "2", "--bogus"]), "--fail-on-todo-rate must be between 0.0 and 1.0");
}

#[test]
fn mode_combinations_are_checked() {
    assert_eq!(run_err(&[]), "either --input or --batch-dir is required");
    assert_eq!(run_err(&["--input", "a", "--batch-dir", "d"]), "--input and --batch-dir are mutually exclusive");
    assert_eq!(
        run_err(&["--batch-dir", "d", "--output", "o"]),
        "--output is not used in --batch-dir mode, use --output-dir"
    );
    assert_eq!(
        run_err(&["--batch-dir", "d", "--report-md", "r"]),
        "--report-json/--report-md are per-file in batch mode and auto-generated to --output-dir"
    );
    assert_eq!(
        run_err(&["--batch-dir", "d", "--report-html", "r"]),
        "--report-html is per-file in batch mode and auto-generated when --html-report is used"
    );
    assert_eq!(
        run_err(&["--batch-dir", "d", "--source-map", "r"]),
        "--source-map is per-file in batch mode and auto-generated when --source-map-report is used"
    );
    assert_eq!(run_err(&["--input", "a", "--metrics-csv", "m"]), "--metrics-csv is available only in --batch-dir mode");
    assert_eq!(
        run_err(&["--input", "a", "--perf-report-json", "p"]),
        "--perf-report-json is available only in --batch-dir mode"
    );
    assert_eq!(run_err(&["--input", "a", "--javac-check"]), "--javac-check requires --output in single-file mode");
    let c = run_ok(&["--batch-dir", "d", "--javac-check"]);
    assert!(c.javac_check);
}

#[test]
fn modes_parse_in_any_case() {
    assert!(matches!(parse_mode("Free"), Ok(ParseMode::Free)));
    assert!(matches!(parse_mode("AUTO"), Ok(ParseMode::Auto)));
    assert!(matches!(parse_mode("fixed"), Ok(ParseMode::Fixed)));
    assert_eq!(parse_mode("fixd").unwrap_err(), "invalid mode 'fixd', expected auto|free|fixed");
}

#[test]
fn unsigned_numbers() {
    assert_eq!(parse_usize("42"), Some(42));
    assert_eq!(parse_usize("+7"), Some(7));
    assert_eq!(parse_usize("007"), Some(7));
    assert_eq!(parse_usize(""), None);
    assert_eq!(parse_usize("+"), None);
    assert_eq!(parse_usize("-1"), None);
    assert_eq!(parse_usize("1a"), None);
    assert_eq!(parse_usize(" 1"), None);
    assert_eq!(parse_usize(&usize::MAX.to_string()), Some(usize::MAX));
    assert_eq!(parse_usize(&format!("{}0", usize::MAX)), None);
}

#[test]
fn class_names_from_file_stems() {
    assert_eq!(class_name_from_stem(Some("order-entry_v2")), "OrderEntryV2");
    assert_eq!(class_name_from_stem(Some("abc")), "Abc");
    assert_eq!(class_name_from_stem(Some("a1b2")), "A1b2");
    assert_eq!(class_name_from_stem(Some("x.y z")), "XYZ");
    assert_eq!(class_name_from_stem(Some("--")), "MainProgram");
    assert_eq!(class_name_from_stem(None), "MainProgram");
}

#[test]
fn size_bands() {
    assert_eq!(size_band(0), "<1KiB");
    assert_eq!(size_band(1023), "<1KiB");
    assert_eq!(size_band(1024), "1-10KiB");
    assert_eq!(size_band(10_239), "1-10KiB");
    assert_eq!(size_band(10_240), "10-100KiB");
    assert_eq!(size_band(102_399), "10-100KiB");
    assert_eq!(size_band(102_400), "100KiB-1MiB");
    assert_eq!(size_band(1_048_575), "100KiB-1MiB");
    assert_eq!(size_band(1_048_576), ">=1MiB");
}

#[test]
fn csv_fields() {
    assert_eq!(csv_escape("plain"), "plain");
    assert_eq!(csv_escape("a,b"), "\"a,b\"");
    assert_eq!(csv_escape("say \"hi\""), "\"say \"\"hi\"\"\"");
    assert_eq!(csv_escape("l1\nl2"), "\"l1\nl2\"");
    assert_eq!(csv_escape(""), "");
}

#[test]
fn truncation() {
    assert_eq!(truncate_detail("abc", 3), "abc");
    assert_eq!(truncate_detail("abcdef", 3), "abc ...<truncated>");
    assert_eq!(truncate_detail("日本語テキスト", 2), "日本 ...<truncated>");
    assert_eq!(truncate_detail("", 0), "");
}

#[test]
fn compiler_detail() {
    assert_eq!(javac_detail("  err \n", " out "), "err\nout");
    assert_eq!(javac_detail("", " out "), "out");
    assert_eq!(javac_detail("e", "\t"), "e");
    assert_eq!(javac_detail("", ""), "");
    let long = "x".repeat(1300);
    assert_eq!(javac_detail(&long, ""), format!("{} ...<truncated>", "x".repeat(1200)));
}

#[test]
fn perf_report_names_and_batch_sources() {
    assert_eq!(perf_report_file_name(Some("metrics-2024")), "metrics-2024.summary.json");
    assert_eq!(perf_report_file_name(None), "metrics.summary.json");
    assert!(is_batch_source(Some("RPG")));
    assert!(is_batch_source(Some("txt")));
    assert!(!is_batch_source(Some("rpgle")));
    assert!(!is_batch_source(None));
}

#[test]
fn failure_reasons() {
    assert_eq!(classify_failure_reason("snapshot mismatch: x"), ("snapshot_mismatch", "snapshot mismatch"));
    assert_eq!(
        classify_failure_reason("javac check failed for A.java with command 'javac': x"),
        ("javac_check_failed", "javac check failed")
    );
    assert_eq!(
        classify_failure_reason("read failed a.rpg: stream did not contain valid UTF-8"),
        ("input_decode", "input decode")
    );
    assert_eq!(classify_failure_reason("read failed x: permission denied"), ("input_read", "input read"));
    assert_eq!(classify_failure_reason("write failed o.java: disk full"), ("output_write", "output write"));
    assert_eq!(classify_failure_reason("failed to write JSON report"), ("output_write", "output write"));
    assert_eq!(classify_failure_reason("stat failed x: gone"), ("input_stat", "input stat"));
    assert_eq!(classify_failure_reason("worker thread panicked"), ("worker_panic", "worker panic"));
    assert_eq!(classify_failure_reason("boom"), ("other", "other"));
}

fn failed(input: &str, error: Option<&str>) -> FailedRun {
    FailedRun { input: input.to_string(), error: error.map(|e| e.to_string()) }
}

#[test]
fn failure_categories_by_key() {
    let rows = vec![
        failed("a.rpg", Some("read failed a.rpg: stream did not contain valid UTF-8")),
        failed("b.rpg", Some("snapshot mismatch: b")),
        failed("c.rpg", None),
        failed("d.rpg", Some("read failed d: valid utf-8")),
        failed("e", Some("valid UTF-8 e")),
        failed("f", Some("Valid utf-8 f")),
    ];
    let cats = collect_failure_categories(&rows);
    let keys: Vec<&str> = cats.iter().map(|c| c.key.as_str()).collect();
    assert_eq!(keys, vec!["input_decode", "other", "snapshot_mismatch"]);
    assert_eq!(cats[0].label, "input decode");
    assert_eq!(cats[0].count, 4);
    assert_eq!(
        cats[0].samples,
        vec![
            String::from("a.rpg: read failed a.rpg: stream did not contain valid UTF-8"),
            String::from("d.rpg: read failed d: valid utf-8"),
            String::from("e: valid UTF-8 e"),
        ]
    );
    assert_eq!(cats[1].count, 1);
    assert_eq!(cats[1].samples, vec![String::from("c.rpg: unknown error")]);
    assert_eq!(cats[2].samples, vec![String::from("b.rpg: snapshot mismatch: b")]);
    let total: usize = cats.iter().map(|c| c.count).sum();
    assert_eq!(total, rows.len());
    assert!(collect_failure_categories(&vec![]).is_empty());
}

#[test]
fn failure_samples_are_cut() {
    let long = "x".repeat(200);
    let cats = collect_failure_categories(&vec![failed("z", Some(&long))]);
    assert_eq!(cats[0].samples[0], format!("z: {} ...<truncated>", "x".repeat(160)));
}

#[test]
fn todo_policies() {
    let ir = build_ir(&parse_program_with_mode(
        "EVAL A = 1\nCHAIN K F\nDSPLY X\n",
        ParseMode::Free,
    ));
    assert_eq!(count_todos(&ir), 2);
    assert_eq!(check_strict(true, 2), Err(String::from("strict mode violation: unsupported operations found (2 TODO item(s))")));
    assert_eq!(check_strict(true, 0), Ok(()));
    assert_eq!(check_strict(false, 5), Ok(()));
}

#[test]
fn performance_thresholds() {
    assert_eq!(slow_tail_threshold(0), 20);
    assert_eq!(slow_tail_threshold(5), 20);
    assert_eq!(slow_tail_threshold(15), 30);
    assert_eq!(slow_tail_threshold(u128::MAX), u128::MAX);
    assert_eq!(min_jobs(3), 1);
    assert_eq!(min_jobs(4), 2);
}

#[test]
fn files_are_dealt_round_robin() {
    assert_eq!(round_robin_buckets(5, 2), vec![vec![0, 2, 4], vec![1, 3]]);
    assert_eq!(round_robin_buckets(2, 8), vec![vec![0], vec![1]]);
    assert_eq!(round_robin_buckets(0, 3), vec![Vec::<usize>::new()]);
    assert_eq!(round_robin_buckets(3, 0), vec![vec![0, 1, 2]]);
    let buckets = round_robin_buckets(10, 3);
    let mut all: Vec<usize> = buckets.concat();
    all.sort();
    assert_eq!(all, (0..10).collect::<Vec<usize>>());
}

#[test]
fn run_summary_text() {
    let p = parse_program_with_mode(
        "**FREE\nEVAL TOTAL = PRICE * QTY\nIF TOTAL > 100\nWRITE ORDER_REC\nENDIF\nCHAIN KEY MASTER\nEXSR LOGERR\nDSPLY 'HI'\n",
        ParseMode::Free,
    );
    let ir = build_ir(&p);
    let mut expected = String::from("java target: java21\noperation matrix:\n");
    for (name, level) in [
        ("CHAIN", "stub"),
        ("ENDIF", "implemented"),
        ("EVAL", "implemented"),
        ("EXSR", "stub"),
        ("IF", "implemented"),
        ("WRITE", "implemented"),
    ] {
        expected.push_str(&format!("  - {:<10} count=1 level={}\n", name, level));
    }
    expected.push_str("subroutine routes:\n  - MAIN -> LOGERR (line 7)\nsymbols:\n");
    for (name, ty) in [
        ("100", "number"),
        ("KEY", "unknown"),
        ("LOGERR", "unknown"),
        ("MASTER", "unknown"),
        ("ORDER_REC", "unknown"),
        ("PRICE", "number"),
        ("QTY", "number"),
        ("TOTAL", "number"),
        ("file", "unknown"),
        ("key", "unknown"),
        ("subroutine", "unknown"),
    ] {
        expected.push_str(&format!("  - {:<20} {}\n", name, ty));
    }
    assert_eq!(render_summary(&p, &ir, JavaTarget::Java21), expected);

    let fixed = parse_program_with_mode("     H X\n", ParseMode::Fixed);
    let fixed_ir = build_ir(&fixed);
    assert_eq!(
        render_summary(&fixed, &fixed_ir, JavaTarget::Java25Stable),
        "java target: java25-stable\ndiagnostics:\n  - [warning][PARSER_FIXED_UNSUPPORTED_SPEC] line 1: unsupported fixed spec 'H'\n"
    );
}

#[test]
fn snapshots_are_written_compared_or_refused() {
    assert_eq!(snapshot_step(false, None, "x"), SnapshotStep::Write);
    assert_eq!(snapshot_step(true, Some("old"), "x"), SnapshotStep::Write);
    assert_eq!(snapshot_step(false, Some("x"), "x"), SnapshotStep::Matches);
    assert_eq!(snapshot_step(false, Some("old"), "x"), SnapshotStep::Mismatch);
    assert_eq!(
        snapshot_mismatch_message("snap/A.java"),
        "snapshot mismatch: snap/A.java (run with --update-snapshots to refresh)"
    );
}

#[test]
fn batch_outcome_counts_and_fails_on_any_failure() {
    assert_eq!(batch_tally(&vec![true, false, true]), (2, 1));
    assert_eq!(batch_tally(&vec![]), (0, 0));
    assert_eq!(batch_result(0), Ok(()));
    assert_eq!(batch_result(2), Err(String::from("batch finished with 2 failure(s)")));
    assert_eq!(batch_complete_line(1, 1, "out", 2), "batch complete: success=1 failed=1 output=out jobs=2");
}
