use rpg2java_transpiler::ir::build_ir;
use rpg2java_transpiler::parser::{parse_program_with_mode, ParseMode, Program};
use rpg2java_transpiler::report::{
    collect_todos, escape_html_str, escape_json_str, format_diagnostic_markdown, lines_for_md, render_html,
    render_json, render_lines_json, render_markdown, render_reports, render_source_map_json,
    top_unsupported_operations, JavacCheckSummary, ReportOutputs,
};
use rpg2java_transpiler::transpiler::{to_java_with_source_map, JavaTarget, SourceMapEntry};
use std::path::Path;

const FREE_SOURCE: &str = "**FREE\nEVAL TOTAL = PRICE * QTY\nIF TOTAL > 100\nWRITE ORDER_REC\nENDIF\nCHAIN KEY MASTER\nEXSR LOGERR\nDSPLY 'HI'\n";

fn cat(parts: &[&str]) -> String {
    parts.concat()
}

fn text(v: Vec<char>) -> String {
    v.into_iter().collect()
}

fn entry(rpg_line: usize, java_line: usize, kind: &str, note: &str) -> SourceMapEntry {
    SourceMapEntry { rpg_line, java_line, kind: kind.to_string(), note: note.to_string() }
}

fn cspec(factor1: &str, opcode: &str, factor2: &str, result: &str) -> String {
    format!("     C     {:<14}{:<10}{:<14}{}", factor1, opcode, factor2, result)
}

fn map_rows(map: &[SourceMapEntry]) -> Vec<(usize, usize, String, String)> {
    map.iter().map(|e| (e.rpg_line, e.java_line, e.kind.clone(), e.note.clone())).collect()
}

fn free_program() -> Program {
    parse_program_with_mode(FREE_SOURCE, ParseMode::Free)
}

#[test]
fn json_report_of_free_program() {
    let p = free_program();
    let ir = build_ir(&p);
    let json = render_json(&p, &ir, "java21", None, &vec![]);
    let expected = cat(&[
        "{\n",
        "  \"java_target\": \"java21\",\n",
        "  \"javac_check\": null,\n",
        "  \"total_statements\": 7,\n",
        "  \"total_symbols\": 11,\n",
        "  \"symbols\": [\n",
        "    {\"name\":\"100\",\"type\":\"number\",\"assigned_lines\":[],\"referenced_lines\":[]},\n",
        "    {\"name\":\"KEY\",\"type\":\"unknown\",\"assigned_lines\":[],\"referenced_lines\":[6]},\n",
        "    {\"name\":\"LOGERR\",\"type\":\"unknown\",\"assigned_lines\":[],\"referenced_lines\":[7]},\n",
        "    {\"name\":\"MASTER\",\"type\":\"unknown\",\"assigned_lines\":[],\"referenced_lines\":[6]},\n",
        "    {\"name\":\"ORDER_REC\",\"type\":\"unknown\",\"assigned_lines\":[],\"referenced_lines\":[4]},\n",
        "    {\"name\":\"PRICE\",\"type\":\"number\",\"assigned_lines\":[],\"referenced_lines\":[2]},\n",
        "    {\"name\":\"QTY\",\"type\":\"number\",\"assigned_lines\":[],\"referenced_lines\":[2]},\n",
        "    {\"name\":\"TOTAL\",\"type\":\"number\",\"assigned_lines\":[2],\"referenced_lines\":[3]},\n",
        "    {\"name\":\"file\",\"type\":\"unknown\",\"assigned_lines\":[],\"referenced_lines\":[6]},\n",
        "    {\"name\":\"key\",\"type\":\"unknown\",\"assigned_lines\":[],\"referenced_lines\":[6]},\n",
        "    {\"name\":\"subroutine\",\"type\":\"unknown\",\"assigned_lines\":[],\"referenced_lines\":[7]}\n",
        "  ],\n",
        "  \"operation_summary\": {\n",
        "    \"implemented\": 4,\n",
        "    \"stub\": 2,\n",
        "    \"planned\": 0\n",
        "  },\n",
        "  \"top_unsupported_operations\": [\n",
        "    {\"name\":\"CHAIN\",\"count\":1,\"level\":\"stub\"},\n",
        "    {\"name\":\"EXSR\",\"count\":1,\"level\":\"stub\"}\n",
        "  ],\n",
        "  \"operations\": [\n",
        "    {\"name\": \"CHAIN\", \"count\": 1, \"level\": \"stub\"},\n",
        "    {\"name\": \"ENDIF\", \"count\": 1, \"level\": \"implemented\"},\n",
        "    {\"name\": \"EVAL\", \"count\": 1, \"level\": \"implemented\"},\n",
        "    {\"name\": \"EXSR\", \"count\": 1, \"level\": \"stub\"},\n",
        "    {\"name\": \"IF\", \"count\": 1, \"level\": \"implemented\"},\n",
        "    {\"name\": \"WRITE\", \"count\": 1, \"level\": \"implemented\"}\n",
        "  ],\n",
        "  \"todos\": [\n",
        "    \"CHAIN: key=KEY, file=MASTER\",\n",
        "    \"EXSR: subroutine=LOGERR\",\n",
        "    \"DSPLY 'HI'\"\n",
        "  ],\n",
        "  \"subroutine_routes\": [\n",
        "    {\"caller\":\"MAIN\",\"callee\":\"LOGERR\",\"line\":7}\n",
        "  ],\n",
        "  \"source_map\": [\n",
        "  ],\n",
        "  \"diagnostics\": [\n",
        "  ]\n",
        "}\n"
    ]);
    assert_eq!(json, expected);
}

#[test]
fn json_report_with_javac_check_and_diagnostics() {
    let p = parse_program_with_mode("     H X\n", ParseMode::Fixed);
    let ir = build_ir(&p);
    let check = JavacCheckSummary {
        command: String::from("javac -d \"out\""),
        success: false,
        exit_code: Some(-2),
        detail: String::from("line1\nline2"),
    };
    let json = render_json(&p, &ir, "java25-stable", Some(&check), &vec![entry(1, 12, "todo", "say \"hi\"")]);
    assert!(json.contains(&cat(&[
        "  \"javac_check\": {\n",
        "    \"command\": \"javac -d \\\"out\\\"\",\n",
        "    \"success\": false,\n",
        "    \"exit_code\": -2,\n",
        "    \"detail\": \"line1\\nline2\"\n",
        "  },\n"
    ])));
    assert!(json.contains(&cat(&[
        "  \"source_map\": [\n",
        "    {\"rpg_line\":1,\"java_line\":12,\"kind\":\"todo\",\"note\":\"say \\\"hi\\\"\"}\n",
        "  ],\n"
    ])));
    assert!(json.contains(&cat(&[
        "  \"diagnostics\": [\n",
        "    {\"severity\":\"warning\",\"code\":\"PARSER_FIXED_UNSUPPORTED_SPEC\",\"line\":1,\"column\":null,\"message\":\"unsupported fixed spec 'H'\"}\n",
        "  ]\n"
    ])));
    assert!(json.contains("  \"todos\": [\n    \"H X\"\n  ],\n"));
    let with_null_exit = JavacCheckSummary { exit_code: None, success: true, ..check };
    let json2 = render_json(&p, &ir, "java21", Some(&with_null_exit), &vec![]);
    assert!(json2.contains("    \"success\": true,\n    \"exit_code\": null,\n"));
}

#[test]
fn markdown_report_of_free_program() {
    let p = free_program();
    let ir = build_ir(&p);
    let check = JavacCheckSummary {
        command: String::from("javac"),
        success: false,
        exit_code: Some(1),
        detail: String::from("err"),
    };
    let md = render_markdown(&p, &ir, "java21", Some(&check), &vec![entry(2, 14, "assign", "a|b")]);
    let expected = cat(&[
        "# RPG to Java Migration Report\n\n## Summary\n\n",
        "- Java Target: java21\n",
        "- Javac Check: failed (command: javac, exit_code: 1)\n",
        "- Javac Detail: err\n",
        "- Statements: 7\n- Symbols: 11\n- Diagnostics: 0\n\n",
        "## Operation Matrix\n\n| Operation | Count | Level |\n|---|---:|---|\n",
        "| CHAIN | 1 | stub |\n| ENDIF | 1 | implemented |\n| EVAL | 1 | implemented |\n",
        "| EXSR | 1 | stub |\n| IF | 1 | implemented |\n| WRITE | 1 | implemented |\n\n",
        "## Top Unsupported Operations\n\n- CHAIN: 1 (stub)\n- EXSR: 1 (stub)\n\n",
        "## Symbols\n\n| Symbol | Type | Assigned Lines | Referenced Lines |\n|---|---|---|---|\n",
        "| 100 | number | - | - |\n| KEY | unknown | - | 6 |\n| LOGERR | unknown | - | 7 |\n",
        "| MASTER | unknown | - | 6 |\n| ORDER_REC | unknown | - | 4 |\n| PRICE | number | - | 2 |\n",
        "| QTY | number | - | 2 |\n| TOTAL | number | 2 | 3 |\n| file | unknown | - | 6 |\n",
        "| key | unknown | - | 6 |\n| subroutine | unknown | - | 7 |\n\n",
        "## Unsupported / TODO Items\n\n- CHAIN: key=KEY, file=MASTER\n- EXSR: subroutine=LOGERR\n- DSPLY 'HI'\n\n",
        "## Subroutine Routes\n\n- MAIN -> LOGERR (line 7)\n\n",
        "## Source Map\n\n| RPG Line | Java Line | Kind | Note |\n|---:|---:|---|---|\n| 2 | 14 | assign | a\\|b |\n\n",
        "## Diagnostics\n\n- none\n"
    ]);
    assert_eq!(md, expected);
}

#[test]
fn markdown_matches_ile_free_snapshot() {
    let src = "**FREE\nEVAL IDX = 1\nDOU IDX *GT 3\nCALLP PROCESS_ROW\nEVAL IDX = IDX + 1\nENDDO\n";
    let p = parse_program_with_mode(src, ParseMode::Free);
    let ir = build_ir(&p);
    let map = vec![
        entry(2, 7, "assign", "IDX"),
        entry(3, 8, "loop", "IDX *GT 3"),
        entry(4, 9, "call", "PROCESS_ROW"),
        entry(5, 10, "assign", "IDX"),
        entry(6, 11, "enddo", ""),
    ];
    let generated = to_java_with_source_map(&ir, "IleRpgFreeProc", JavaTarget::Java21).source_map;
    assert_eq!(map_rows(&generated), map_rows(&map));
    assert_eq!(render_markdown(&p, &ir, "java21", None, &generated), SNAP_ILE);
}

#[test]
fn markdown_matches_hybrid_snapshot() {
    let src = "CHAIN KEY MASTER\nIF *IN90\nEXSR LOGERR\nELSE\nEVAL CNT = CNT + 1\nENDIF\n";
    let p = parse_program_with_mode(src, ParseMode::Auto);
    let ir = build_ir(&p);
    let map = vec![
        entry(1, 13, "todo", "CHAIN"),
        entry(2, 14, "if", "*IN90"),
        entry(3, 15, "todo", "EXSR"),
        entry(4, 16, "else", ""),
        entry(5, 17, "assign", "CNT"),
        entry(6, 18, "endif", ""),
    ];
    let generated = to_java_with_source_map(&ir, "As400HybridStyle", JavaTarget::Java21).source_map;
    assert_eq!(map_rows(&generated), map_rows(&map));
    assert_eq!(render_markdown(&p, &ir, "java21", None, &generated), SNAP_HYBRID);
}

#[test]
fn markdown_matches_fixed_snapshot() {
    let src = [
        cspec("", "EVAL", "PRICE * TAX", "TOTAL"),
        cspec("", "IF", "LIMIT", ""),
        cspec("", "WRITE", "ORDER_REC", ""),
        cspec("", "ENDIF", "", ""),
    ]
    .join("\n");
    let p = parse_program_with_mode(&src, ParseMode::Fixed);
    let ir = build_ir(&p);
    let map = vec![
        entry(1, 10, "assign", "TOTAL"),
        entry(2, 11, "if", "LIMIT"),
        entry(3, 12, "write", "ORDER_REC"),
        entry(4, 13, "endif", ""),
    ];
    let generated = to_java_with_source_map(&ir, "Rpg3FixedCalc", JavaTarget::Java21).source_map;
    assert_eq!(map_rows(&generated), map_rows(&map));
    assert_eq!(render_markdown(&p, &ir, "java21", None, &generated), SNAP_FIXED);
}

#[test]
fn html_report_of_free_program() {
    let p = free_program();
    let ir = build_ir(&p);
    let html = render_html(&p, &ir, "java<21>", None, &vec![entry(8, 20, "todo", "<raw>")], "42.86");
    assert!(html.starts_with("<!doctype html><html lang=\"en\"><head><meta charset=\"utf-8\"><title>RPG2Java Migration Report</title><style>"));
    assert!(html.contains("<div class=\"card\"><b>Java Target</b><br>java&lt;21&gt;</div>"));
    assert!(html.contains("<div class=\"card\"><b>Statements</b><br>7</div><div class=\"card\"><b>TODOs</b><br>3</div>"));
    assert!(html.contains("<div class=\"card\"><b>TODO Rate</b><br>42.86%</div><div class=\"card\"><b>Javac</b><br>skipped</div></div>"));
    assert!(html.contains("<h2>Operation Summary</h2><p>implemented=4 stub=2 planned=0</p>"));
    assert!(html.contains("<tr><td>CHAIN</td><td>1</td><td>stub</td></tr><tr><td>ENDIF</td><td>1</td><td>implemented</td></tr>"));
    assert!(html.contains("<h2>Top Unsupported Operations</h2><ol><li><span class=\"risk\">CHAIN</span>: 1 (stub)</li><li><span class=\"risk\">EXSR</span>: 1 (stub)</li></ol>"));
    assert!(html.contains("<li>DSPLY 'HI'</li></ul>"));
    assert!(html.contains("<tr><td>8</td><td>20</td><td>todo</td><td>&lt;raw&gt;</td></tr></table>"));
    assert!(html.ends_with("<h2>Diagnostics</h2><ul></ul></body></html>\n"));
}

#[test]
fn source_map_document() {
    let doc = render_source_map_json(&vec![entry(1, 10, "assign", "X"), entry(2, 11, "if", "")]);
    assert_eq!(
        doc,
        "{\n  \"version\": \"rpg2java-source-map.v1\",\n  \"mappings\": [\n    {\"rpg_line\":1,\"java_line\":10,\"kind\":\"assign\",\"note\":\"X\"},\n    {\"rpg_line\":2,\"java_line\":11,\"kind\":\"if\",\"note\":\"\"}\n  ]\n}\n"
    );
    assert_eq!(render_source_map_json(&vec![]), "{\n  \"version\": \"rpg2java-source-map.v1\",\n  \"mappings\": [\n  ]\n}\n");
}

#[test]
fn escaping_and_small_renderings() {
    assert_eq!(text(escape_json_str("a\\b\"c\nd")), "a\\\\b\\\"c\\nd");
    assert_eq!(text(escape_html_str("<a href=\"x\">&</a>")), "&lt;a href=&quot;x&quot;&gt;&amp;&lt;/a&gt;");
    assert_eq!(text(render_lines_json(&vec![])), "[]");
    assert_eq!(text(render_lines_json(&vec![3, 10, 42])), "[3,10,42]");
    assert_eq!(text(lines_for_md(&vec![])), "-");
    assert_eq!(text(lines_for_md(&vec![5, 7])), "5,7");
}

#[test]
fn diagnostic_markdown_form() {
    let p = parse_program_with_mode("     H X\n", ParseMode::Fixed);
    assert_eq!(
        text(format_diagnostic_markdown(&p.diagnostics[0])),
        "[warning][PARSER_FIXED_UNSUPPORTED_SPEC] line 1: unsupported fixed spec 'H'"
    );
}

#[test]
fn todos_list_unsupported_statements() {
    let ir = build_ir(&free_program());
    let todos: Vec<String> = collect_todos(&ir).into_iter().map(text).collect();
    assert_eq!(todos, vec!["CHAIN: key=KEY, file=MASTER", "EXSR: subroutine=LOGERR", "DSPLY 'HI'"]);
}

#[test]
fn top_unsupported_most_frequent_first() {
    let src = "SETLL K F\nFOO 1\nEXSR A\nFOO 2\nBAR 3\nSETLL K F\nEVAL X = 1\nFOO 3\n";
    let p = parse_program_with_mode(src, ParseMode::Free);
    let top: Vec<(String, usize)> =
        top_unsupported_operations(&p).iter().map(|s| (s.name.clone(), s.count)).collect();
    let names: Vec<String> = p.op_stats.iter().map(|s| s.name.clone()).collect();
    assert_eq!(names, vec!["EVAL", "EXSR", "SETLL"]);
    assert_eq!(top, vec![(String::from("SETLL"), 2), (String::from("EXSR"), 1)]);
}

#[test]
fn top_unsupported_ties_go_by_name() {
    let src = [
        cspec("", "DSPLY", "MSG", ""),
        cspec("K", "CHAIN", "F", ""),
        cspec("", "EXSR", "SUB1", ""),
        cspec("", "DSPLY", "MSG", ""),
        cspec("K", "CHAIN", "F", ""),
        cspec("", "EVAL", "1", "X"),
    ]
    .join("\n");
    let p = parse_program_with_mode(&src, ParseMode::Fixed);
    let top: Vec<(String, usize, &str)> = top_unsupported_operations(&p)
        .iter()
        .map(|s| (s.name.clone(), s.count, rpg2java_transpiler::report::level_name_str(s.level)))
        .collect();
    assert_eq!(
        top,
        vec![
            (String::from("CHAIN"), 2, "stub"),
            (String::from("DSPLY"), 2, "planned"),
            (String::from("EXSR"), 1, "stub"),
        ]
    );
}

#[test]
fn requested_reports_in_order() {
    let p = free_program();
    let ir = build_ir(&p);
    let outputs = ReportOutputs {
        json_path: Some(Path::new("r.json")),
        md_path: None,
        html_path: Some(Path::new("r.html")),
        source_map_path: Some(Path::new("r.map.json")),
    };
    let files = render_reports(&p, &ir, "java21", None, &vec![], outputs, "0.00");
    let paths: Vec<&Path> = files.iter().map(|f| f.0).collect();
    assert_eq!(paths, vec![Path::new("r.json"), Path::new("r.html"), Path::new("r.map.json")]);
    assert_eq!(files[0].1, render_json(&p, &ir, "java21", None, &vec![]));
    assert_eq!(files[1].1, render_html(&p, &ir, "java21", None, &vec![], "0.00"));
    assert_eq!(files[2].1, render_source_map_json(&vec![]));
}

const SNAP_ILE: &str = "# RPG to Java Migration Report\n\n## Summary\n\n- Java Target: java21\n- Javac Check: skipped\n- Statements: 5\n- Symbols: 2\n- Diagnostics: 0\n\n## Operation Matrix\n\n| Operation | Count | Level |\n|---|---:|---|\n| CALLP | 1 | implemented |\n| DOU | 1 | implemented |\n| ENDDO | 1 | implemented |\n| EVAL | 2 | implemented |\n\n## Top Unsupported Operations\n\n- none\n\n## Symbols\n\n| Symbol | Type | Assigned Lines | Referenced Lines |\n|---|---|---|---|\n| 3 | number | - | - |\n| IDX | number | 2,5 | 3,5 |\n\n## Unsupported / TODO Items\n\n- none\n\n## Subroutine Routes\n\n- none\n\n## Source Map\n\n| RPG Line | Java Line | Kind | Note |\n|---:|---:|---|---|\n| 2 | 7 | assign | IDX |\n| 3 | 8 | loop | IDX *GT 3 |\n| 4 | 9 | call | PROCESS_ROW |\n| 5 | 10 | assign | IDX |\n| 6 | 11 | enddo |  |\n\n## Diagnostics\n\n- none\n";

const SNAP_HYBRID: &str = "# RPG to Java Migration Report\n\n## Summary\n\n- Java Target: java21\n- Javac Check: skipped\n- Statements: 6\n- Symbols: 8\n- Diagnostics: 0\n\n## Operation Matrix\n\n| Operation | Count | Level |\n|---|---:|---|\n| CHAIN | 1 | stub |\n| ELSE | 1 | implemented |\n| ENDIF | 1 | implemented |\n| EVAL | 1 | implemented |\n| EXSR | 1 | stub |\n| IF | 1 | implemented |\n\n## Top Unsupported Operations\n\n- CHAIN: 1 (stub)\n- EXSR: 1 (stub)\n\n## Symbols\n\n| Symbol | Type | Assigned Lines | Referenced Lines |\n|---|---|---|---|\n| CNT | number | 5 | 5 |\n| IN90 | bool | - | 2 |\n| KEY | unknown | - | 1 |\n| LOGERR | unknown | - | 3 |\n| MASTER | unknown | - | 1 |\n| file | unknown | - | 1 |\n| key | unknown | - | 1 |\n| subroutine | unknown | - | 3 |\n\n## Unsupported / TODO Items\n\n- CHAIN: key=KEY, file=MASTER\n- EXSR: subroutine=LOGERR\n\n## Subroutine Routes\n\n- MAIN -> LOGERR (line 3)\n\n## Source Map\n\n| RPG Line | Java Line | Kind | Note |\n|---:|---:|---|---|\n| 1 | 13 | todo | CHAIN |\n| 2 | 14 | if | *IN90 |\n| 3 | 15 | todo | EXSR |\n| 4 | 16 | else |  |\n| 5 | 17 | assign | CNT |\n| 6 | 18 | endif |  |\n\n## Diagnostics\n\n- none\n";

const SNAP_FIXED: &str = "# RPG to Java Migration Report\n\n## Summary\n\n- Java Target: java21\n- Javac Check: skipped\n- Statements: 4\n- Symbols: 5\n- Diagnostics: 0\n\n## Operation Matrix\n\n| Operation | Count | Level |\n|---|---:|---|\n| ENDIF | 1 | implemented |\n| EVAL | 1 | implemented |\n| IF | 1 | implemented |\n| WRITE | 1 | implemented |\n\n## Top Unsupported Operations\n\n- none\n\n## Symbols\n\n| Symbol | Type | Assigned Lines | Referenced Lines |\n|---|---|---|---|\n| LIMIT | unknown | - | 2 |\n| ORDER_REC | unknown | - | 3 |\n| PRICE | number | - | 1 |\n| TAX | number | - | 1 |\n| TOTAL | number | 1 | - |\n\n## Unsupported / TODO Items\n\n- none\n\n## Subroutine Routes\n\n- none\n\n## Source Map\n\n| RPG Line | Java Line | Kind | Note |\n|---:|---:|---|---|\n| 1 | 10 | assign | TOTAL |\n| 2 | 11 | if | LIMIT |\n| 3 | 12 | write | ORDER_REC |\n| 4 | 13 | endif |  |\n\n## Diagnostics\n\n- none\n";
