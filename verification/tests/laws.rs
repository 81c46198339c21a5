use rpg2java_transpiler::cli::{class_name_from_stem, parse_args, round_robin_buckets, CliCommand, RateCheck};
use rpg2java_transpiler::ir::build_ir;
use rpg2java_transpiler::parser::{parse_program_with_mode, ParseMode, SupportLevel};
use rpg2java_transpiler::report::{collect_todos, count_level, escape_html_str, escape_json_str};
use rpg2java_transpiler::transpiler::{sanitize_ident, to_java_with_source_map, JavaTarget};

#[test]
fn statement_lines_increase_and_stay_in_the_source() {
    let src = "\n* note\nEVAL A = 1\n\n   \nIF A > 0\nENDIF\n";
    let p = parse_program_with_mode(src, ParseMode::Free);
    assert_eq!(p.statement_lines, vec![3, 6, 7]);
    assert_eq!(p.statements.len(), p.statement_lines.len());
    let count = src.lines().count();
    assert!(p.statement_lines.windows(2).all(|w| w[0] < w[1]));
    assert!(p.statement_lines.iter().all(|&n| 1 <= n && n <= count));
}

#[test]
fn level_counts_cover_all_operations() {
    let p = parse_program_with_mode("EVAL A = 1\nCHAIN K F\nIF A > 1\nENDIF\nEXSR S\n", ParseMode::Free);
    let total = count_level(&p.op_stats, SupportLevel::Implemented)
        + count_level(&p.op_stats, SupportLevel::Stub)
        + count_level(&p.op_stats, SupportLevel::Planned);
    assert_eq!(total, p.op_stats.len());
    assert_eq!(count_level(&p.op_stats, SupportLevel::Stub), 2);
}

#[test]
fn unsupported_statements_all_become_todos() {
    let p = parse_program_with_mode("FOO 1\nEVAL A = 1\nSETLL K F\nBAR\n", ParseMode::Free);
    let ir = build_ir(&p);
    let todos: Vec<String> = collect_todos(&ir).into_iter().map(|t| t.into_iter().collect()).collect();
    assert_eq!(todos, vec!["FOO 1", "SETLL: key=K, file=F", "BAR"]);
}

#[test]
fn escaped_text_is_safe() {
    let j: String = escape_json_str("a\nb\n\\\"").into_iter().collect();
    assert!(!j.contains('\n'));
    let h: String = escape_html_str("<script>\"x\"</script>").into_iter().collect();
    assert!(!h.contains('<') && !h.contains('>') && !h.contains('"'));
}

#[test]
fn identifiers_and_class_names_are_well_formed() {
    for raw in ["", "9", "a b", "ÄÖ", "x-1", "_ok"] {
        let s: String = sanitize_ident(&raw.chars().collect()).into_iter().collect();
        assert!(!s.is_empty());
        assert!(!s.chars().next().unwrap().is_ascii_digit());
        assert!(s.chars().all(|c| c.is_ascii_alphanumeric() || c == '_'));
    }
    for stem in [Some("-"), Some("ab-cd"), Some("ÄÖ"), None] {
        let c = class_name_from_stem(stem);
        assert!(!c.is_empty());
        assert!(c.chars().all(|ch| ch.is_ascii_alphanumeric()));
    }
}

#[test]
fn every_file_goes_to_exactly_one_worker() {
    let n = 11;
    let buckets = round_robin_buckets(n, 4);
    assert_eq!(buckets.len(), 4);
    for (b, bucket) in buckets.iter().enumerate() {
        assert!(bucket.windows(2).all(|w| w[0] < w[1]));
        assert!(bucket.iter().all(|&i| i % 4 == b));
    }
    let total: usize = buckets.iter().map(|b| b.len()).sum();
    assert_eq!(total, n);
}

#[test]
fn accepted_runs_are_consistent() {
    let args: Vec<String> = ["prog", "--batch-dir", "d", "--jobs", "2"].iter().map(|s| s.to_string()).collect();
    let checks = vec![RateCheck::Invalid; args.len()];
    match parse_args(&args, &checks) {
        Ok(CliCommand::Run(c)) => {
            assert!(c.input.is_none() && c.batch_dir.is_some());
            assert!(c.jobs >= 1);
            assert!(c.output.is_none());
        }
        other => panic!("unexpected {:?}", other),
    }
}

#[test]
fn source_map_rows_point_at_their_java_lines() {
    let src = "EVAL N = 1\nDOU N *GT 3\nCALLP STEP\nEVAL N = N + 1\nENDDO\nIF N *MYSTERY 2\nWRITE REC\nELSE\nREAD REC\nENDIF\nCHAIN K F\nDSPLY 'X'\n";
    let p = parse_program_with_mode(src, ParseMode::Free);
    let ir = build_ir(&p);
    let out = to_java_with_source_map(&ir, "Walk", JavaTarget::Java25Stable);
    let java_lines: Vec<&str> = out.java.lines().collect();
    assert_eq!(out.source_map.len(), ir.statements.len());
    let mut last = 0;
    for (row, rpg_line) in out.source_map.iter().zip(p.statement_lines.iter()) {
        assert_eq!(row.rpg_line, *rpg_line);
        assert!(row.java_line > last);
        last = row.java_line;
        let line = java_lines[row.java_line - 1].trim_start();
        let ok = match row.kind.as_str() {
            "assign" => line.starts_with(&format!("{} = ", row.note)),
            "loop" => line.starts_with("while (!("),
            "call" => line == "STEP();",
            "if" => line == "// TODO(FALLBACK_COND): N *MYSTERY 2",
            "write" => line == "writeRecord(REC);",
            "else" => line == "} else {",
            "read" => line == "readRecord(REC);",
            "endif" | "enddo" => line == "}",
            "todo" => line.starts_with("// TODO"),
            other => panic!("unexpected kind {other}"),
        };
        assert!(ok, "row {:?} -> {line}", (row.rpg_line, row.java_line, &row.kind));
    }
}

const JAVA_RESERVED: &[&str] = &[
    "abstract", "assert", "boolean", "break", "byte", "case", "catch", "char", "class", "const", "continue",
    "default", "do", "double", "else", "enum", "extends", "final", "finally", "float", "for", "goto", "if",
    "implements", "import", "instanceof", "int", "interface", "long", "native", "new", "package", "private",
    "protected", "public", "return", "short", "static", "strictfp", "super", "switch", "synchronized", "this",
    "throw", "throws", "transient", "try", "void", "volatile", "while", "true", "false", "null", "_",
];

fn legal(name: &str) -> bool {
    !name.is_empty()
        && !name.chars().next().unwrap().is_ascii_digit()
        && name.chars().all(|c| c.is_ascii_alphanumeric() || c == '_')
        && !JAVA_RESERVED.contains(&name)
}

#[test]
fn generated_names_are_legal_java_names() {
    let src = "EVAL class = 1\nEVAL 9x = class\nEVAL int = 9x\nEVAL main = int\nCALLP new\nCALLP main\nCALLP for-each\n";
    let ir = build_ir(&parse_program_with_mode(src, ParseMode::Free));
    let java = to_java_with_source_map(&ir, "void", JavaTarget::Java21).java;
    assert!(java.contains("public class void_v {"), "java={java}");
    let mut declared = Vec::new();
    for line in java.lines().skip(3).take(ir.symbols.len()) {
        let name = line.trim().split(' ').nth(1).unwrap().trim_end_matches(';');
        assert!(legal(name), "name {name} in {java}");
        declared.push(name.to_string());
    }
    assert_eq!(declared.len(), ir.symbols.len());
    for stub in ["new_v", "main_2", "for_each"] {
        assert!(java.contains(&format!("private static void {stub}() {{")), "java={java}");
        assert!(legal(stub));
    }
}

#[test]
fn auto_mode_gives_the_same_operation_table() {
    let src = "EVAL A = 1\nCHAIN K F\nIF A > 1\nENDIF\nCHAIN K G\n";
    let auto = parse_program_with_mode(src, ParseMode::Auto);
    let free = parse_program_with_mode(src, ParseMode::Free);
    let rows = |p: &rpg2java_transpiler::parser::Program| -> Vec<(String, usize)> {
        p.op_stats.iter().map(|s| (s.name.clone(), s.count)).collect()
    };
    assert_eq!(rows(&auto), rows(&free));
    assert_eq!(rows(&auto), rows(&parse_program_with_mode(src, ParseMode::Auto)));
}

#[test]
fn nested_blocks_give_balanced_braces() {
    let src = "IF A *GT 1\nDOU B *EQ 2\nIF C\nELSE\nEVAL X = 'Y'\nENDIF\nENDDO\nIF D *MYSTERY 3\nCALLP P1\nCHAIN K F\n";
    let ir = build_ir(&parse_program_with_mode(src, ParseMode::Free));
    for java in [rpg2java_transpiler::transpiler::to_java(&ir, "Nest"), to_java_with_source_map(&ir, "Nest", JavaTarget::Java21).java] {
        assert_eq!(java.matches('{').count(), java.matches('}').count(), "java={java}");
        assert_eq!(java.lines().last(), Some("}"));
    }
}

#[test]
fn collected_variables_are_names() {
    let src = "IF A *GT 5 *AND B *LT 30\nENDIF\nIF *IN90\nENDIF\nEVAL X = 'ABC' + *ON\n";
    let ir = build_ir(&parse_program_with_mode(src, ParseMode::Free));
    let names: Vec<String> = ir.symbols.iter().map(|s| s.name.clone()).collect();
    for n in ["A", "B", "IN90", "X"] {
        assert!(names.iter().any(|x| x == n), "names={names:?}");
    }
    for n in ["GT", "AND", "LT", "ON", "ABC", "*IN90"] {
        assert!(!names.iter().any(|x| x == n), "names={names:?}");
    }
}
