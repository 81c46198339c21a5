use rpg2java_transpiler::cli::{snapshot_step, SnapshotStep};
use rpg2java_transpiler::ir::build_ir;
use rpg2java_transpiler::parser::{parse_program_with_mode, ParseMode, SupportLevel};
use rpg2java_transpiler::perf::{render_perf_report, PerfSummary};
use rpg2java_transpiler::report::{render_html, render_json, render_markdown, top_unsupported_operations, JavacCheckSummary};
use std::collections::HashMap;

const SOURCE: &str = "**FREE\nEVAL TOTAL = PRICE * QTY\nCHAIN KEY MASTER\nEXSR LOGERR\nREADE K F\nCHAIN K2 F2\nEXSR FIN\n";

fn perf_summary(total: usize, jobs: usize, p50: u128, p95: u128) -> PerfSummary {
    PerfSummary {
        total,
        success: total,
        failed: 0,
        jobs,
        p50_ms: p50,
        p95_ms: p95,
        p99_ms: p95,
        avg_ms: String::from("1.000"),
        avg_todo_rate: String::from("0.0000"),
        avg_ms_per_kib: String::from("1.0000"),
        high_todo: false,
    }
}

#[test]
fn perf_thresholds_follow_the_median_and_the_file_count() {
    let doc = render_perf_report(&perf_summary(6, 1, 40, 90), &vec![], &vec![], &vec![]);
    assert!(doc.starts_with("{\n  \"summary\": {\n    \"total\": 6,\n    \"success\": 6,\n    \"failed\": 0,\n    \"jobs\": 1"));
    assert!(doc.contains("\"failed_max\": 0,\n    \"p95_ms_warn\": 80,"));
    assert!(doc.contains("\"jobs_min\": 2\n"));
    assert!(doc.contains("\"has_failures\": false,\n    \"slow_tail\": true,"));
    assert!(doc.contains("\"low_parallelism\": true\n"));
    let small = render_perf_report(&perf_summary(3, 1, 5, 20), &vec![], &vec![], &vec![]);
    assert!(small.contains("\"p95_ms_warn\": 20,"));
    assert!(small.contains("\"jobs_min\": 1\n"));
    assert!(small.contains("\"slow_tail\": false,"));
    assert!(small.contains("\"low_parallelism\": false\n"));
}

#[test]
fn json_report_is_one_object_with_keys_in_order() {
    let p = parse_program_with_mode(SOURCE, ParseMode::Free);
    let ir = build_ir(&p);
    let json = render_json(&p, &ir, "java21", None, &vec![]);
    assert!(json.starts_with("{\n"));
    assert!(json.ends_with("\n}\n"));
    let keys = [
        "java_target",
        "javac_check",
        "total_statements",
        "total_symbols",
        "symbols",
        "operation_summary",
        "top_unsupported_operations",
        "operations",
        "todos",
        "subroutine_routes",
        "source_map",
        "diagnostics",
    ];
    let mut last = 0;
    for key in keys {
        let at = json.find(&format!("\n  \"{}\": ", key)).unwrap();
        assert!(at >= last);
        last = at + 1;
    }
    assert!(json.contains("\n  \"java_target\": \"java21\",\n"));
    assert!(json.contains("\n  \"javac_check\": null,\n"));
    let check = JavacCheckSummary { command: String::from("javac"), success: true, exit_code: Some(0), detail: String::new() };
    let with_check = render_json(&p, &ir, "java21", Some(&check), &vec![]);
    assert!(with_check.contains("\n  \"javac_check\": {\n"));
    assert!(with_check.contains("\"success\": true"));
}

#[test]
fn markdown_lists_routes_and_says_none_for_empty_sections() {
    let p = parse_program_with_mode(SOURCE, ParseMode::Free);
    let ir = build_ir(&p);
    let md = render_markdown(&p, &ir, "java21", None, &vec![]);
    assert!(md.contains("- Javac Check: skipped\n"));
    assert!(md.contains("\n## Subroutine Routes\n\n- MAIN -> LOGERR (line 4)\n- MAIN -> FIN (line 7)\n"));
    assert!(md.contains("\n## Source Map\n\n- none\n"));
    assert!(md.ends_with("\n## Diagnostics\n\n- none\n"));
    let fixed = parse_program_with_mode("     H X\n", ParseMode::Fixed);
    let fixed_ir = build_ir(&fixed);
    let check = JavacCheckSummary { command: String::from("javac"), success: false, exit_code: None, detail: String::new() };
    let md2 = render_markdown(&fixed, &fixed_ir, "java21", Some(&check), &vec![]);
    assert!(md2.contains("- Javac Check: failed (command: javac, exit_code: n/a)\n"));
    assert!(md2.contains("- [warning][PARSER_FIXED_UNSUPPORTED_SPEC] line 1: unsupported fixed spec 'H'\n"));
    assert!(md2.contains("\n## Subroutine Routes\n\n- none\n"));
    assert!(md2.contains("\n## Top Unsupported Operations\n\n- none\n"));
}

#[test]
fn html_page_has_its_headings_and_every_risk() {
    let p = parse_program_with_mode(SOURCE, ParseMode::Free);
    let ir = build_ir(&p);
    let html = render_html(&p, &ir, "java21", None, &vec![], "50.00");
    assert!(html.starts_with("<!doctype html>"));
    for part in [
        "<h1>RPG2Java Migration Report</h1>",
        "<h2>Operation Summary</h2>",
        "<h2>Top Unsupported Operations</h2>",
        "<h2>TODO Items</h2>",
        "<h2>Source Map</h2>",
        "<h2>Diagnostics</h2>",
    ] {
        assert!(html.contains(part), "{part}");
    }
    for s in p.op_stats.iter().filter(|s| s.level != SupportLevel::Implemented) {
        assert!(html.contains(&format!("<span class=\"risk\">{}</span>", s.name)));
    }
}

#[test]
fn free_format_keeps_code_lines_only() {
    let src = "**FREE\n\n  * comment\nEVAL A = 1\n   \n*also\nDSPLY A\n";
    let p = parse_program_with_mode(src, ParseMode::Free);
    assert!(p.diagnostics.is_empty());
    assert_eq!(p.statement_lines, vec![4, 7]);
    assert_eq!(p.statements.len(), 2);
    let auto = parse_program_with_mode(src, ParseMode::Auto);
    assert!(auto.diagnostics.is_empty());
    assert_eq!(auto.statement_lines, vec![4, 7]);
}

#[test]
fn one_route_per_exsr_in_order() {
    let p = parse_program_with_mode(SOURCE, ParseMode::Free);
    let routes: Vec<(String, String, usize)> =
        p.subroutine_routes.iter().map(|r| (r.caller.clone(), r.callee.clone(), r.line)).collect();
    assert_eq!(
        routes,
        vec![(String::from("MAIN"), String::from("LOGERR"), 4), (String::from("MAIN"), String::from("FIN"), 7)]
    );
    let none = parse_program_with_mode("EXSR\nEVAL A = 1\n", ParseMode::Free);
    assert!(none.subroutine_routes.is_empty());
}

#[test]
fn top_unsupported_holds_each_unsupported_operation_once() {
    let p = parse_program_with_mode(SOURCE, ParseMode::Free);
    let top = top_unsupported_operations(&p);
    let mut listed: Vec<(String, usize)> = top.iter().map(|s| (s.name.clone(), s.count)).collect();
    let mut expected: Vec<(String, usize)> = p
        .op_stats
        .iter()
        .filter(|s| s.level != SupportLevel::Implemented)
        .map(|s| (s.name.clone(), s.count))
        .collect();
    listed.sort();
    expected.sort();
    assert_eq!(listed, expected);
    assert_eq!(top[0].name, "CHAIN");
    assert_eq!(top[0].count, 2);
}

#[test]
fn snapshot_written_then_matched() {
    let mut dir: HashMap<String, String> = HashMap::new();
    let path = String::from("Main.java");
    for (update, content, want) in [
        (false, "class A {}", SnapshotStep::Write),
        (false, "class A {}", SnapshotStep::Matches),
        (false, "class B {}", SnapshotStep::Mismatch),
        (true, "class B {}", SnapshotStep::Write),
        (false, "class B {}", SnapshotStep::Matches),
    ] {
        let step = snapshot_step(update, dir.get(&path).map(|s| s.as_str()), content);
        assert_eq!(step, want);
        if step == SnapshotStep::Write {
            dir.insert(path.clone(), content.to_string());
        }
    }
    assert_eq!(dir.get(&path).map(|s| s.as_str()), Some("class B {}"));
}
