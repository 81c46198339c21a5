use rpg2java_transpiler::ir::{build_ir, IrStmt, ValueType};
use rpg2java_transpiler::parser::{
    lookup_support_level, parse_program_with_mode, Diagnostic, DiagnosticSeverity, ParseMode, Program, Stmt,
    SupportLevel,
};

const FREE_SOURCE: &str = "**FREE\nEVAL TOTAL = PRICE * QTY\nIF TOTAL > 100\nWRITE ORDER_REC\nENDIF\nCHAIN KEY MASTER\nEXSR LOGERR\nDSPLY 'HI'\n";

/// A fixed-format C spec with the fields in their columns.
fn cspec(factor1: &str, opcode: &str, factor2: &str, result: &str) -> String {
    format!("     C     {:<14}{:<10}{:<14}{}", factor1, opcode, factor2, result)
}

fn free_program() -> Program {
    parse_program_with_mode(FREE_SOURCE, ParseMode::Free)
}

#[test]
fn free_lines_become_statements() {
    let p = free_program();
    assert_eq!(p.statements.len(), 7);
    assert_eq!(p.statement_lines, vec![2, 3, 4, 5, 6, 7, 8]);
    match &p.statements[0] {
        Stmt::Assign { left, right } => {
            assert_eq!(left, "TOTAL");
            assert_eq!(right, "PRICE * QTY");
        }
        other => panic!("unexpected {:?}", other),
    }
    match &p.statements[1] {
        Stmt::If { cond } => assert_eq!(cond, "TOTAL > 100"),
        other => panic!("unexpected {:?}", other),
    }
    match &p.statements[2] {
        Stmt::Write { target } => assert_eq!(target, "ORDER_REC"),
        other => panic!("unexpected {:?}", other),
    }
    assert!(matches!(p.statements[3], Stmt::EndIf));
    match &p.statements[4] {
        Stmt::Operation { op, args } => {
            assert_eq!(op, "CHAIN");
            assert_eq!(args, "key=KEY, file=MASTER");
        }
        other => panic!("unexpected {:?}", other),
    }
    match &p.statements[5] {
        Stmt::Operation { op, args } => {
            assert_eq!(op, "EXSR");
            assert_eq!(args, "subroutine=LOGERR");
        }
        other => panic!("unexpected {:?}", other),
    }
    match &p.statements[6] {
        Stmt::Raw(src) => assert_eq!(src, "DSPLY 'HI'"),
        other => panic!("unexpected {:?}", other),
    }
    assert!(p.diagnostics.is_empty());
}

#[test]
fn operation_stats_are_sorted_with_levels() {
    let p = free_program();
    let names: Vec<&str> = p.op_stats.iter().map(|s| s.name.as_str()).collect();
    assert_eq!(names, vec!["CHAIN", "ENDIF", "EVAL", "EXSR", "IF", "WRITE"]);
    assert!(p.op_stats.iter().all(|s| s.count == 1));
    assert_eq!(p.op_stats[0].level, SupportLevel::Stub);
    assert_eq!(p.op_stats[1].level, SupportLevel::Implemented);
    assert_eq!(p.op_stats[3].level, SupportLevel::Stub);
}

#[test]
fn operation_counts_add_up() {
    let src = "EVAL A = 1\nEVAL B = 2\nFOO X\nEVAL C = 3\n";
    let p = parse_program_with_mode(src, ParseMode::Free);
    assert_eq!(p.op_stats.len(), 1);
    assert_eq!(p.op_stats[0].name, "EVAL");
    assert_eq!(p.op_stats[0].count, 3);
}

#[test]
fn exsr_records_a_subroutine_route() {
    let p = free_program();
    assert_eq!(p.subroutine_routes.len(), 1);
    assert_eq!(p.subroutine_routes[0].caller, "MAIN");
    assert_eq!(p.subroutine_routes[0].callee, "LOGERR");
    assert_eq!(p.subroutine_routes[0].line, 7);
}

#[test]
fn free_keywords_ignore_case_and_movel_swaps() {
    let p = parse_program_with_mode("eval x = y\nmovel src dst\nreade k f\nsetll k\nelse\n", ParseMode::Free);
    match &p.statements[0] {
        Stmt::Assign { left, right } => {
            assert_eq!(left, "x");
            assert_eq!(right, "y");
        }
        other => panic!("unexpected {:?}", other),
    }
    match &p.statements[1] {
        Stmt::Assign { left, right } => {
            assert_eq!(left, "dst");
            assert_eq!(right, "src");
        }
        other => panic!("unexpected {:?}", other),
    }
    match &p.statements[2] {
        Stmt::Operation { op, args } => {
            assert_eq!(op, "READE");
            assert_eq!(args, "key=k, file=f");
        }
        other => panic!("unexpected {:?}", other),
    }
    match &p.statements[3] {
        Stmt::Operation { op, args } => {
            assert_eq!(op, "SETLL");
            assert_eq!(args, "key=k");
        }
        other => panic!("unexpected {:?}", other),
    }
    assert!(matches!(p.statements[4], Stmt::Else));
}

#[test]
fn support_levels_ignore_case() {
    assert_eq!(lookup_support_level("eval"), SupportLevel::Implemented);
    assert_eq!(lookup_support_level("Chain"), SupportLevel::Stub);
    assert_eq!(lookup_support_level("DSPLY"), SupportLevel::Planned);
}

#[test]
fn fixed_c_spec_fields_are_read_by_column() {
    let src = [
        cspec("", "EVAL", "A + 1", "B"),
        cspec("", "IF", "N50", ""),
        cspec("", "MOVEL", "'X'", "NAME"),
        cspec("", "ENDIF", "", ""),
        cspec("KEY", "CHAIN", "MASTER", ""),
    ]
    .join("\n");
    let p = parse_program_with_mode(&src, ParseMode::Fixed);
    assert!(p.diagnostics.is_empty());
    assert_eq!(p.statement_lines, vec![1, 2, 3, 4, 5]);
    match &p.statements[0] {
        Stmt::Assign { left, right } => {
            assert_eq!(left, "B");
            assert_eq!(right, "A + 1");
        }
        other => panic!("unexpected {:?}", other),
    }
    match &p.statements[1] {
        Stmt::If { cond } => assert_eq!(cond, "NOT *IN50"),
        other => panic!("unexpected {:?}", other),
    }
    match &p.statements[2] {
        Stmt::Assign { left, right } => {
            assert_eq!(left, "NAME");
            assert_eq!(right, "'X'");
        }
        other => panic!("unexpected {:?}", other),
    }
    match &p.statements[4] {
        Stmt::Operation { op, args } => {
            assert_eq!(op, "CHAIN");
            assert_eq!(args, "key=KEY, file=MASTER");
        }
        other => panic!("unexpected {:?}", other),
    }
}

#[test]
fn fixed_misaligned_opcode_is_diagnosed() {
    let src = "     C              EVAL";
    let p = parse_program_with_mode(src, ParseMode::Fixed);
    assert_eq!(p.diagnostics.len(), 2);
    assert_eq!(p.diagnostics[0].code, "PARSER_FIXED_SHORT_LINE");
    assert_eq!(p.diagnostics[0].line, Some(1));
    assert_eq!(p.diagnostics[0].column, Some(26));
    assert_eq!(p.diagnostics[1].code, "PARSER_FIXED_OPCODE_MISALIGNED");
    assert_eq!(p.diagnostics[1].column, Some(21));
    assert_eq!(
        p.diagnostics[1].message,
        "opcode 'EVAL' is outside fixed opcode field (expected col 26-35)"
    );
    match &p.statements[0] {
        Stmt::Raw(src) => assert_eq!(src, "C              EVAL"),
        other => panic!("unexpected {:?}", other),
    }
    assert!(p.op_stats.is_empty());
}

#[test]
fn fixed_other_specs_are_kept_raw_with_a_warning() {
    let src = "     H DATFMT(*ISO)\n     * a comment\n";
    let p = parse_program_with_mode(src, ParseMode::Fixed);
    assert_eq!(p.statements.len(), 1);
    assert_eq!(p.statement_lines, vec![1]);
    assert_eq!(p.diagnostics.len(), 1);
    let d = &p.diagnostics[0];
    assert_eq!(d.code, "PARSER_FIXED_UNSUPPORTED_SPEC");
    assert_eq!(d.message, "unsupported fixed spec 'H'");
    assert_eq!(d.line, Some(1));
    assert_eq!(d.column, None);
    assert_eq!(d.severity.as_str(), "warning");
    assert_eq!(d.as_text(), "[warning][PARSER_FIXED_UNSUPPORTED_SPEC] line 1: unsupported fixed spec 'H'");
}

#[test]
fn diagnostic_text_without_position() {
    let d = Diagnostic {
        severity: DiagnosticSeverity::Warning,
        code: String::from("X"),
        message: String::from("m"),
        line: None,
        column: None,
    };
    assert_eq!(d.as_text(), "[warning][X] m");
    let d2 = Diagnostic { line: Some(3), column: Some(7), ..d };
    assert_eq!(d2.as_text(), "[warning][X] line 3 col 7: m");
}

#[test]
fn auto_mode_detects_fixed_and_free() {
    let fixed = [cspec("", "EVAL", "A + 1", "B"), cspec("", "WRITE", "REC", "")].join("\n");
    let auto_fixed = parse_program_with_mode(&fixed, ParseMode::Auto);
    let explicit_fixed = parse_program_with_mode(&fixed, ParseMode::Fixed);
    assert_eq!(auto_fixed.statement_lines, explicit_fixed.statement_lines);
    assert!(matches!(auto_fixed.statements[1], Stmt::Write { .. }));
    let auto_free = parse_program_with_mode(FREE_SOURCE, ParseMode::Auto);
    assert_eq!(auto_free.statement_lines, free_program().statement_lines);
}

#[test]
fn build_ir_tracks_symbols_types_and_lines() {
    let ir = build_ir(&free_program());
    assert_eq!(ir.statements.len(), 7);
    assert!(matches!(ir.statements[3], IrStmt::EndIf));
    match &ir.statements[4] {
        IrStmt::Todo { op, src } => {
            assert_eq!(op.as_deref(), Some("CHAIN"));
            assert_eq!(src, "key=KEY, file=MASTER");
        }
        other => panic!("unexpected {:?}", other),
    }
    match &ir.statements[6] {
        IrStmt::Todo { op, src } => {
            assert_eq!(op, &None);
            assert_eq!(src, "DSPLY 'HI'");
        }
        other => panic!("unexpected {:?}", other),
    }
    let names: Vec<&str> = ir.symbols.iter().map(|s| s.name.as_str()).collect();
    assert_eq!(
        names,
        vec!["100", "KEY", "LOGERR", "MASTER", "ORDER_REC", "PRICE", "QTY", "TOTAL", "file", "key", "subroutine"]
    );
    let by = |n: &str| ir.symbols.iter().find(|s| s.name == n).unwrap().clone();
    assert_eq!(by("100").ty, ValueType::Number);
    assert!(by("100").assigned_lines.is_empty() && by("100").referenced_lines.is_empty());
    assert_eq!(by("TOTAL").ty, ValueType::Number);
    assert_eq!(by("TOTAL").assigned_lines, vec![2]);
    assert_eq!(by("TOTAL").referenced_lines, vec![3]);
    assert_eq!(by("PRICE").ty, ValueType::Number);
    assert_eq!(by("PRICE").referenced_lines, vec![2]);
    assert_eq!(by("ORDER_REC").ty, ValueType::Unknown);
    assert_eq!(by("ORDER_REC").referenced_lines, vec![4]);
    assert_eq!(by("MASTER").referenced_lines, vec![6]);
    assert_eq!(by("subroutine").referenced_lines, vec![7]);
}

#[test]
fn build_ir_infers_text_bool_and_indicator_types() {
    let src = "EVAL NAME = 'ABC'\nEVAL FLAG = *ON\nIF *IN42\nENDIF\nEVAL N = 1\nEVAL N = X\nEVAL S = NAME\n";
    let ir = build_ir(&parse_program_with_mode(src, ParseMode::Free));
    let by = |n: &str| ir.symbols.iter().find(|s| s.name == n).map(|s| s.ty);
    assert_eq!(by("NAME"), Some(ValueType::Text));
    assert_eq!(by("FLAG"), Some(ValueType::Bool));
    assert_eq!(by("IN42"), Some(ValueType::Bool));
    assert_eq!(by("N"), Some(ValueType::Number));
    assert_eq!(by("X"), Some(ValueType::Unknown));
    assert_eq!(by("S"), Some(ValueType::Text));
    let n = ir.symbols.iter().find(|s| s.name == "N").unwrap();
    assert_eq!(n.assigned_lines, vec![5, 6]);
}
