use rpg2java_transpiler::ir::{build_ir, IrProgram, IrStmt, SymbolInfo, ValueType};
use rpg2java_transpiler::parser::{parse_program_with_mode, ParseMode};
use rpg2java_transpiler::transpiler::{parse_java_target, sanitize_ident, to_java, to_java_with_source_map, JavaTarget};

const FREE_SOURCE: &str = "**FREE\nEVAL TOTAL = PRICE * QTY\nIF TOTAL > 100\nWRITE ORDER_REC\nENDIF\nCHAIN KEY MASTER\nEXSR LOGERR\nDSPLY 'HI'\n";

const HELPERS: &str = "    private static void writeRecord(Object rec) {\n        // TODO: replace with repository/output adapter\n    }\n\n    private static void readRecord(Object rec) {\n        // TODO: replace with repository/input adapter\n    }\n\n    private static boolean truthy(Object v) {\n        if (v == null) return false;\n        if (v instanceof Boolean) return (Boolean) v;\n        if (v instanceof Number) return ((Number) v).doubleValue() != 0.0;\n        return !v.toString().isBlank();\n    }\n}\n";

fn sanitize(s: &str) -> String {
    sanitize_ident(&s.chars().collect()).into_iter().collect()
}

fn symbol(name: &str, ty: ValueType) -> SymbolInfo {
    SymbolInfo { name: name.to_string(), ty, assigned_lines: vec![], referenced_lines: vec![] }
}

#[test]
fn free_program_to_java() {
    let ir = build_ir(&parse_program_with_mode(FREE_SOURCE, ParseMode::Free));
    let java = to_java(&ir, "Order");
    let expected = String::from(
        "public class Order {\n    public static void main(String[] args) {\n        double _100 = 0;\n        Object KEY;\n        Object LOGERR;\n        Object MASTER;\n        Object ORDER_REC;\n        double PRICE = 0;\n        double QTY = 0;\n        double TOTAL = 0;\n        Object file;\n        Object key;\n        Object subroutine;\n\n        TOTAL = PRICE * QTY;\n        if (TOTAL > 100) {\n            writeRecord(ORDER_REC);\n        }\n        // TODO(CHAIN): key=KEY, file=MASTER\n        // TODO(EXSR): subroutine=LOGERR\n        // TODO: DSPLY 'HI'\n    }\n\n",
    ) + HELPERS;
    assert_eq!(java, expected);
}

#[test]
fn empty_program_is_a_bare_class() {
    let ir = IrProgram { statements: vec![], statement_lines: vec![], symbols: vec![] };
    let java = to_java(&ir, "my-prog");
    let expected = String::from("public class my_prog {\n    public static void main(String[] args) {\n    }\n\n") + HELPERS;
    assert_eq!(java, expected);
}

#[test]
fn calls_get_one_stub_each_in_name_order_and_blocks_are_closed() {
    let ir = IrProgram {
        statements: vec![
            IrStmt::DoUntil { cond: String::from("N *GE 3") },
            IrStmt::Call { proc_name: String::from("zeta") },
            IrStmt::Call { proc_name: String::from("alpha-1") },
            IrStmt::Call { proc_name: String::from("zeta") },
            IrStmt::If { cond: String::from("FLAG") },
        ],
        statement_lines: vec![1, 2, 3, 4, 5],
        symbols: vec![symbol("N", ValueType::Number), symbol("FLAG", ValueType::Bool)],
    };
    let java = to_java(&ir, "Calls");
    let expected = String::from(
        "public class Calls {\n    public static void main(String[] args) {\n        double N = 0;\n        boolean FLAG = false;\n\n        while (!(N >= 3)) {\n            zeta();\n            alpha_1();\n            zeta();\n            if (truthy(FLAG)) {\n            }\n        }\n    }\n\n    private static void alpha_1() {\n        // TODO: migrated from CALLP\n    }\n\n    private static void zeta() {\n        // TODO: migrated from CALLP\n    }\n\n",
    ) + HELPERS;
    assert_eq!(java, expected);
}

#[test]
fn symbol_names_avoid_main_and_collisions() {
    let ir = IrProgram {
        statements: vec![IrStmt::Assign { left: String::from("A-B"), right: String::from("main + A_B") }],
        statement_lines: vec![1],
        symbols: vec![
            symbol("A-B", ValueType::Number),
            symbol("A_B", ValueType::Unknown),
            symbol("main", ValueType::Text),
        ],
    };
    let java = to_java(&ir, "Names");
    assert!(java.contains("        double A_B = 0;\n        Object A_B_2;\n        String mainValue = \"\";\n"));
    assert!(java.contains("        A_B = ((Number)mainValue).doubleValue() + ((Number)A_B_2).doubleValue();\n"));
}

#[test]
fn sanitize_makes_identifiers() {
    assert_eq!(sanitize("ORDER_REC"), "ORDER_REC");
    assert_eq!(sanitize("9lives"), "_9lives");
    assert_eq!(sanitize("a.b c"), "a_b_c");
    assert_eq!(sanitize(""), "value");
}

#[test]
fn java_targets_parse_by_name() {
    assert_eq!(parse_java_target("java21"), Ok(JavaTarget::Java21));
    assert_eq!(parse_java_target("java25-stable"), Ok(JavaTarget::Java25Stable));
    let err = parse_java_target("java8").unwrap_err();
    assert!(err.contains("invalid --java-target"));
    assert_eq!(err, "invalid --java-target 'java8', expected java21|java25-stable");
    assert_eq!(JavaTarget::Java25Stable.as_str(), "java25-stable");
    assert_eq!(JavaTarget::Java21.as_str(), "java21");
}

fn convert(source: &str, mode: ParseMode, class_name: &str, target: JavaTarget) -> String {
    let ir = build_ir(&parse_program_with_mode(source, mode));
    to_java_with_source_map(&ir, class_name, target).java
}

#[test]
fn logical_and_comparison_expression_translates_to_java_ops() {
    let java = convert(
        "EVAL A = 10\nEVAL B = 20\nIF A *GT 5 *AND B *LT 30\nCALLP OK_PROC\nENDIF\n",
        ParseMode::Free,
        "Logical",
        JavaTarget::Java21,
    );
    assert!(java.contains("if (A > 5 && B < 30) {"), "java={java}");
}

#[test]
fn string_condition_and_literals_become_valid_java_strings() {
    let java = convert(
        "EVAL STATUS = 'OK'\nIF STATUS *EQ 'OK' *OR STATUS *EQ 'WARN'\nCALLP HANDLE\nENDIF\nEVAL FLAG = *OFF\n",
        ParseMode::Free,
        "StringCond",
        JavaTarget::Java21,
    );
    assert!(java.contains("STATUS = \"OK\";"), "java={java}");
    assert!(java.contains("if (STATUS == \"OK\" || STATUS == \"WARN\") {"), "java={java}");
    assert!(java.contains("FLAG = false;"), "java={java}");
    assert!(!java.contains("((Number)STATUS).doubleValue()"), "java={java}");
}

#[test]
fn fixed_if_indicator_is_reflected_in_java_condition() {
    let java = convert(
        "000100C                   IF        *IN90\n000200C                   ENDIF\n",
        ParseMode::Fixed,
        "IfIn90",
        JavaTarget::Java21,
    );
    assert!(java.contains("if (truthy(IN90)) {"), "java={java}");
}

#[test]
fn fixed_if_negative_indicator_is_reflected_in_java_condition() {
    let java = convert(
        "000100C                   IF        N90\n000200C                   ENDIF\n",
        ParseMode::Fixed,
        "IfN90",
        JavaTarget::Java21,
    );
    assert!(java.contains("if (!truthy(IN90)) {"), "java={java}");
}

#[test]
fn java_target_is_reflected_in_output_and_report() {
    let java = convert(
        "EVAL class = 1\nCALLP switch\nIF class *GT 0\nWRITE rec\nENDIF\n",
        ParseMode::Auto,
        "class",
        JavaTarget::Java25Stable,
    );
    assert!(java.contains("target=java25-stable"), "java={java}");
    assert!(java.contains("public class class_v"), "java={java}");
    assert!(java.contains("double class_v = 0;"), "java={java}");
    assert!(java.contains("switch_v();"), "java={java}");
}

#[test]
fn symbols_do_not_collide_with_class_name_or_main_args() {
    let java = convert(
        "EVAL args = 1\nEVAL Collision = args\nIF Collision *GT 0\nENDIF\n",
        ParseMode::Free,
        "Collision",
        JavaTarget::Java21,
    );
    assert!(java.contains("public class Collision"), "java={java}");
    assert!(java.contains("double args_2 = 0;"), "java={java}");
    assert!(java.contains("double Collision_2 = 0;"), "java={java}");
    assert!(java.contains("Collision_2 = args_2;"), "java={java}");
}

#[test]
fn callp_method_names_do_not_collide_with_builtin_helpers() {
    let java = convert(
        "CALLP writeRecord\nCALLP readRecord\nCALLP truthy\nCALLP main\n",
        ParseMode::Free,
        "CallpCollision",
        JavaTarget::Java21,
    );
    for call in ["writeRecord_2();", "readRecord_2();", "truthy_2();", "main_2();"] {
        assert!(java.contains(call), "java={java}");
    }
    for stub in ["writeRecord_2", "readRecord_2", "truthy_2", "main_2"] {
        assert!(java.contains(&format!("private static void {stub}()")), "java={java}");
    }
    assert!(java.contains("private static void writeRecord(Object rec)"), "java={java}");
    assert!(java.contains("private static void readRecord(Object rec)"), "java={java}");
    assert!(java.contains("private static boolean truthy(Object v)"), "java={java}");
}

#[test]
fn unsupported_rpg_tokens_fallback_to_compilable_java_fragments() {
    let java = convert(
        "EVAL B = 0\nEVAL B = B *UNKNOWN 1\nIF B *MYSTERY 1\nWRITE B\nENDIF\n",
        ParseMode::Free,
        "Fallback",
        JavaTarget::Java21,
    );
    assert!(java.contains("// TODO(FALLBACK_EXPR): B *UNKNOWN 1"), "java={java}");
    assert!(java.contains("// TODO(FALLBACK_COND): B *MYSTERY 1"), "java={java}");
    assert!(java.contains("B = 0;"), "java={java}");
    assert!(java.contains("if (false) {"), "java={java}");
}

#[test]
fn cat_operator_is_translated_to_java_concat() {
    let java = convert("EVAL MSG = 'A' *CAT 'B'\n", ParseMode::Free, "Cat", JavaTarget::Java21);
    assert!(java.contains("String MSG = \"\";"), "java={java}");
    assert!(java.contains("MSG = \"A\" + \"B\";"), "java={java}");
}

#[test]
fn type_inference_propagates_number_text_bool_across_assignments() {
    let java = convert(
        "EVAL SRC_N = 10\nEVAL DST_N = SRC_N\nEVAL SRC_T = 'ABC'\nEVAL DST_T = SRC_T\nEVAL SRC_B = *ON\nEVAL DST_B = SRC_B\n",
        ParseMode::Free,
        "Propagation",
        JavaTarget::Java21,
    );
    assert!(java.contains("double SRC_N = 0;"), "java={java}");
    assert!(java.contains("double DST_N = 0;"), "java={java}");
    assert!(java.contains("String SRC_T = \"\";"), "java={java}");
    assert!(java.contains("String DST_T = \"\";"), "java={java}");
    assert!(java.contains("boolean SRC_B = false;"), "java={java}");
    assert!(java.contains("boolean DST_B = false;"), "java={java}");
    assert!(java.contains("SRC_B = true;"), "java={java}");
}

#[test]
fn eq_condition_with_string_literal_marks_symbol_as_text() {
    let java = convert("IF STATUS *EQ 'OK'\nENDIF\n", ParseMode::Free, "EqString", JavaTarget::Java21);
    assert!(java.contains("String STATUS = \"\";"), "java={java}");
    assert!(!java.contains("double STATUS = 0;"), "java={java}");
}

#[test]
fn source_map_follows_fallback_lines() {
    let ir = build_ir(&parse_program_with_mode("EVAL B = 0\nIF B *MYSTERY 1\nWRITE B\nENDIF\n", ParseMode::Free));
    let out = to_java_with_source_map(&ir, "Fallback", JavaTarget::Java21);
    // The target line, the class line, `main`, one line per symbol and a blank line.
    let base = 3 + ir.symbols.len() + 1;
    let rows: Vec<(usize, usize, String, String)> =
        out.source_map.iter().map(|e| (e.rpg_line, e.java_line, e.kind.clone(), e.note.clone())).collect();
    assert_eq!(
        rows,
        vec![
            (1, base + 1, String::from("assign"), String::from("B")),
            (2, base + 2, String::from("if"), String::from("B *MYSTERY 1")),
            (3, base + 4, String::from("write"), String::from("B")),
            (4, base + 5, String::from("endif"), String::new()),
        ]
    );
    let lines: Vec<&str> = out.java.lines().collect();
    assert_eq!(lines[base], "        B = 0;");
    assert_eq!(lines[base + 1], "        // TODO(FALLBACK_COND): B *MYSTERY 1");
    assert_eq!(lines[base + 2], "        if (false) {");
    assert_eq!(lines[base + 3], "            writeRecord(B);");
    assert_eq!(lines[base + 4], "        }");
}

#[test]
fn reserved_words_get_a_suffix() {
    let ir = IrProgram {
        statements: vec![IrStmt::Assign { left: String::from("new"), right: String::from("1") }],
        statement_lines: vec![1],
        symbols: vec![symbol("new", ValueType::Number), symbol("new_v", ValueType::Number)],
    };
    let java = to_java(&ir, "Reserved");
    assert!(java.contains("        double new_v = 0;\n        double new_v_2 = 0;\n"), "java={java}");
    assert!(java.contains("        new_v = 1;\n"), "java={java}");
}

#[test]
fn to_java_starts_with_the_class_line() {
    let ir = build_ir(&parse_program_with_mode("EVAL A = 1\n", ParseMode::Free));
    let java = to_java(&ir, "../../Bad;Name$(rm -rf /)");
    assert_eq!(java.lines().next(), Some("public class ______Bad_Name__rm__rf___ {"));
    let with_target = to_java_with_source_map(&ir, "../../Bad;Name$(rm -rf /)", JavaTarget::Java21).java;
    assert_eq!(with_target, format!("// target=java21\n{java}"));
}
