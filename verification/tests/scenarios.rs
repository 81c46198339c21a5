use rpg2java_transpiler::cli::{check_strict, count_todos, FailedRun};
use rpg2java_transpiler::ir::build_ir;
use rpg2java_transpiler::parser::{parse_program_with_mode, ParseMode};
use rpg2java_transpiler::perf::{render_perf_report, PerfFile, PerfSummary};
use rpg2java_transpiler::report::{render_json, render_markdown};
use rpg2java_transpiler::transpiler::{parse_java_target, to_java_with_source_map, JavaTarget};

/// The Java, JSON report and Markdown report of a source, as a run of the program writes them.
fn convert(source: &str, mode: ParseMode, class_name: &str) -> (String, String, String) {
    let p = parse_program_with_mode(source, mode);
    let ir = build_ir(&p);
    let out = to_java_with_source_map(&ir, class_name, JavaTarget::Java21);
    let json = render_json(&p, &ir, "java21", None, &out.source_map);
    let md = render_markdown(&p, &ir, "java21", None, &out.source_map);
    (out.java, json, md)
}

#[test]
fn fixed_exsr_routes_are_reported_in_json_and_markdown() {
    let (_, json, md) = convert(
        "000100C                   EXSR      LOGERR\n000200C                   EXSR      RETRY01\n",
        ParseMode::Fixed,
        "FixedExsr",
    );
    assert!(json.contains("\"subroutine_routes\""), "json={json}");
    assert!(json.contains("\"caller\":\"MAIN\",\"callee\":\"LOGERR\",\"line\":1"), "json={json}");
    assert!(json.contains("\"caller\":\"MAIN\",\"callee\":\"RETRY01\",\"line\":2"), "json={json}");
    assert!(md.contains("## Subroutine Routes"), "md={md}");
    assert!(md.contains("MAIN -> LOGERR (line 1)"), "md={md}");
    assert!(md.contains("MAIN -> RETRY01 (line 2)"), "md={md}");
}

#[test]
fn free_exsr_route_is_reported() {
    let (_, json, _) = convert("EXSR RECOVER\n", ParseMode::Free, "FreeExsr");
    assert!(json.contains("\"caller\":\"MAIN\",\"callee\":\"RECOVER\",\"line\":1"), "json={json}");
}

#[test]
fn fixed_mode_reports_misaligned_opcode_column() {
    let (_, json, _) = convert("000100C EVAL      PRICE + TAX    TOTAL\n", ParseMode::Fixed, "Misaligned");
    assert!(json.contains("outside fixed opcode field"), "json={json}");
    assert!(json.contains("\"severity\":\"warning\""), "json={json}");
    assert!(json.contains("\"code\":\"PARSER_FIXED_OPCODE_MISALIGNED\""), "json={json}");
    assert!(json.contains("\"line\":1"), "json={json}");
}

#[test]
fn fixed_mode_reports_short_c_spec_line() {
    let (_, json, md) = convert("000100C\n", ParseMode::Fixed, "Short");
    assert!(json.contains("\"code\":\"PARSER_FIXED_SHORT_LINE\""), "json={json}");
    assert!(json.contains("\"line\":1"), "json={json}");
    assert!(json.contains("\"column\":26"), "json={json}");
    assert!(json.contains("too short for opcode field"), "json={json}");
    assert!(md.contains("[warning][PARSER_FIXED_SHORT_LINE] line 1 col 26"), "md={md}");
}

#[test]
fn fixed_stub_operations_use_stable_named_todo_args() {
    let (_, json, _) = convert(
        "000100C     CUSTKEY       SETLL     CUSTOMER\n000200C     CUSTKEY       CHAIN     CUSTOMER\n000300C                   READE     CUSTOMER\n000400C                   EXSR      LOGERR\n",
        ParseMode::Fixed,
        "FixedStub",
    );
    assert!(json.contains("SETLL: key=CUSTKEY, file=CUSTOMER"), "json={json}");
    assert!(json.contains("CHAIN: key=CUSTKEY, file=CUSTOMER"), "json={json}");
    assert!(json.contains("READE: file=CUSTOMER"), "json={json}");
    assert!(json.contains("EXSR: subroutine=LOGERR"), "json={json}");
}

#[test]
fn free_stub_operations_are_counted_in_operation_matrix() {
    let (_, json, _) =
        convert("CHAIN CUSTKEY CUSTOMER\nSETLL CUSTKEY CUSTOMER\nREADE CUSTOMER\nEXSR LOGERR\n", ParseMode::Free, "FreeStub");
    for name in ["CHAIN", "SETLL", "READE", "EXSR"] {
        assert!(json.contains(&format!("\"name\": \"{name}\"")), "json={json}");
    }
}

#[test]
fn report_includes_symbol_assignment_and_reference_lines() {
    let (_, json, md) = convert(
        "EVAL A = 1\nEVAL B = A\nIF B *GT 0\nEVAL A = B\nENDIF\nWRITE A\n",
        ParseMode::Free,
        "Symbols",
    );
    assert!(json.contains("\"symbols\""), "json={json}");
    assert!(
        json.contains("\"name\":\"A\",\"type\":\"number\",\"assigned_lines\":[1,4],\"referenced_lines\":[2,6]"),
        "json={json}"
    );
    assert!(
        json.contains("\"name\":\"B\",\"type\":\"number\",\"assigned_lines\":[2],\"referenced_lines\":[3,4]"),
        "json={json}"
    );
    assert!(md.contains("## Symbols"), "md={md}");
    assert!(md.contains("| A | number | 1,4 | 2,6 |"), "md={md}");
    assert!(md.contains("| B | number | 2 | 3,4 |"), "md={md}");
}

#[test]
fn dangerous_class_name_is_sanitized_in_java_output() {
    let (java, _, _) = convert("EVAL A = 1\n", ParseMode::Free, "../../Bad;Name$(rm -rf /)");
    let class_line = java.lines().find(|l| l.starts_with("public class ")).unwrap_or("");
    assert!(!class_line.is_empty(), "missing class declaration: {java}");
    assert!(!class_line.contains(".."), "class line={class_line}");
    assert!(!class_line.contains('/'), "class line={class_line}");
    assert!(!class_line.contains(';'), "class line={class_line}");
    assert!(!class_line.contains("$("), "class line={class_line}");
    assert_eq!(class_line, "public class ______Bad_Name__rm__rf___ {");
}

#[test]
fn very_long_input_line_is_handled_without_crash() {
    let mut expr = String::from("1");
    for _ in 0..4000 {
        expr.push_str(" + 1");
    }
    let (java, _, _) = convert(&format!("EVAL TOTAL = {expr}\n"), ParseMode::Free, "LongLine");
    assert!(java.contains(&format!("        TOTAL = {expr};\n")));
}

#[test]
fn invalid_java_target_returns_error() {
    let err = parse_java_target("java99").unwrap_err();
    assert!(err.contains("invalid --java-target"), "err={err}");
}

#[test]
fn strict_mode_fails_on_unsupported_operation_single() {
    let ir = build_ir(&parse_program_with_mode("SETLL KEY FILE\n", ParseMode::Auto));
    let err = check_strict(true, count_todos(&ir)).unwrap_err();
    assert!(err.contains("strict mode violation"), "err={err}");
    assert!(err.contains("unsupported operations found"), "err={err}");
    assert_eq!(check_strict(false, count_todos(&ir)), Ok(()));
}

fn perf_summary(total: usize, failed: usize, jobs: usize) -> PerfSummary {
    PerfSummary {
        total,
        success: total - failed,
        failed,
        jobs,
        p50_ms: 3,
        p95_ms: 4,
        p99_ms: 4,
        avg_ms: String::from("3.000"),
        avg_todo_rate: String::from("0.0000"),
        avg_ms_per_kib: String::from("1.0000"),
        high_todo: false,
    }
}

#[test]
fn perf_summary_includes_failure_categories() {
    let ok = PerfFile {
        class_name: String::from("Ok"),
        input: String::from("in/ok.rpg"),
        elapsed_ms: 3,
        todo_rate: String::from("0.0000"),
        statements: 1,
        todos: 0,
    };
    let failures = vec![FailedRun {
        input: String::from("in/bad_utf8.rpg"),
        error: Some(String::from("read failed in/bad_utf8.rpg: stream did not contain valid UTF-8")),
    }];
    let body = render_perf_report(&perf_summary(2, 1, 1), &vec![ok.clone()], &vec![ok], &failures);
    assert!(body.contains("\"failure_categories\""), "body={body}");
    assert!(body.contains("\"key\":\"input_decode\""), "body={body}");
    assert!(body.contains("\"count\":1"), "body={body}");
}

#[test]
fn perf_summary_contains_thresholds_and_signals() {
    let body = render_perf_report(&perf_summary(0, 0, 1), &vec![], &vec![], &vec![]);
    for key in ["\"summary\"", "\"avg_ms_per_kib\"", "\"thresholds\"", "\"signals\"", "\"p95_ms_warn\"", "\"low_parallelism\""] {
        assert!(body.contains(key), "body={body}");
    }
}
