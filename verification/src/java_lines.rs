//! Where the Java of each statement stands in the generated class: the line
//! numbers that the source map records, checked against the text itself.
use vstd::prelude::*;
use crate::ir::{IrProgram, IrStmtView, SymbolView, ValueType, in_names, ir_matches, ir_stmt_of, ir_views, lemma_quote_end, lemma_word_end, quote_end, stmt_line, symbol_views, word_end};
use crate::parser::{ParseMode, Program, StmtView, lemma_parsed_single_line, lemma_statement_lines_len, parse_source, program_matches, stmt_view_single, stmt_views};
use crate::report::{pad};
use crate::text::{contains, contains_char, has_part, is_ascii_alpha, is_word_char, lemma_contains_char_add, lemma_has_part_ends, lemma_has_part_grow, lemma_has_part_mid, lemma_has_part_trans, lemma_line_breaks_add, lemma_line_breaks_none, lemma_replace_from_absent, lemma_single_add, line_breaks, replace, single_line, starts_with, upper};
use crate::transpiler::{JavaTarget, assign_text, body_base, class_head, class_tail, closing_text, cond_line_count, cond_lines, decl_text, dedent, emit_upto, ident_piece, java_class, java_head, java_helpers, java_ident, java_init, java_line, java_source, java_string_body, java_type, lemma_call_stubs, lemma_emit_upto_bounds, lemma_java_names_legal, lemma_sanitize_identifier, map_ident, method_stub, method_stubs, normalize_expr, prepend, proc_ident, program_emit, program_emit_upto, program_names, program_types, sanitize, sorted_distinct, source_map_of, spaces, special_value, starts_special, step_entry, step_lines, step_text, target_line, todo_comment, translate_cond, translate_expr, translate_from, type_or_unknown};

verus! {
/// A character that the generated Java never takes from a name or a
/// literal of its own: a line break or a brace.
pub open spec fn is_layout(d: char) -> bool {
    d == '\n' || d == '{' || d == '}'
}

/// `d` does not occur in `s`.
pub open spec fn free_of(s: Seq<char>, d: char) -> bool {
    !contains_char(s, d)
}

proof fn lemma_sub_free(c: Seq<char>, a: int, b: int, d: char)
    requires
        free_of(c, d),
        0 <= a <= b <= c.len(),
    ensures
        free_of(c.subrange(a, b), d),
{
    if contains_char(c.subrange(a, b), d) {
        let j = choose|j: int| 0 <= j < c.subrange(a, b).len() && c.subrange(a, b)[j] == d;
        assert(c[a + j] == d);
    }
}

proof fn lemma_replace_free(s: Seq<char>, f: Seq<char>, t: Seq<char>, d: char)
    requires
        free_of(s, d),
        free_of(t, d),
    ensures
        free_of(replace(s, f, t), d),
{
    lemma_replace_from_absent(s, f, t, 0, d);
}

proof fn lemma_word_free(s: Seq<char>, d: char)
    requires
        is_layout(d),
        forall|i: int| 0 <= i < s.len() ==> is_word_char(#[trigger] s[i]),
    ensures
        free_of(s, d),
{
    if contains_char(s, d) {
        let i = choose|i: int| 0 <= i < s.len() && s[i] == d;
        assert(is_word_char(s[i]));
    }
}


proof fn lemma_java_ident_free(raw: Seq<char>, d: char)
    requires
        is_layout(d),
    ensures
        free_of(java_ident(raw), d),
        free_of(proc_ident(raw), d),
{
    lemma_sanitize_identifier(raw);
    lemma_word_free(sanitize(raw), d);
    reveal_strlit("_v");
    reveal_strlit("_2");
    assert(free_of("_v"@, d));
    assert(free_of("_2"@, d));
    lemma_contains_char_add(sanitize(raw), "_v"@, d);
    lemma_contains_char_add(java_ident(raw), "_2"@, d);
}

/// No Java name that the symbols of a program get holds a layout character.
proof fn lemma_program_names_free(ir: IrProgram, class_name: Seq<char>, d: char)
    requires
        is_layout(d),
    ensures
        names_free(program_names(ir, class_name), d),
{
    let nm = program_names(ir, class_name);
    lemma_java_names_legal(ir, class_name, seq![]);
    assert forall|x: Seq<char>| #[trigger] nm.dom().contains(x) implies free_of(nm[x], d) by {
        lemma_word_free(nm[x], d);
    }
}

pub open spec fn names_free(nm: Map<Seq<char>, Seq<char>>, d: char) -> bool {
    forall|x: Seq<char>| #[trigger] nm.dom().contains(x) ==> free_of(nm[x], d)
}

proof fn lemma_map_ident_free(raw: Seq<char>, nm: Map<Seq<char>, Seq<char>>, d: char)
    requires
        is_layout(d),
        names_free(nm, d),
    ensures
        free_of(map_ident(raw, nm), d),
{
    lemma_java_ident_free(raw, d);
}

proof fn lemma_string_body_free(s: Seq<char>, d: char)
    requires
        is_layout(d),
        free_of(s, d),
    ensures
        free_of(java_string_body(s), d),
{
    assert(free_of(seq!['\\', '\\'], d));
    assert(free_of(seq!['\\', '"'], d));
    lemma_replace_free(s, seq!['\\'], seq!['\\', '\\'], d);
    lemma_replace_free(replace(s, seq!['\\'], seq!['\\', '\\']), seq!['"'], seq!['\\', '"'], d);
}

proof fn lemma_ident_piece_free(
    raw: Seq<char>,
    nm: Map<Seq<char>, Seq<char>>,
    tm: Map<Seq<char>, ValueType>,
    numeric: bool,
    d: char,
)
    requires
        is_layout(d),
        names_free(nm, d),
    ensures
        free_of(ident_piece(raw, nm, tm, numeric), d),
{
    lemma_map_ident_free(raw, nm, d);
    reveal_strlit("((Number)");
    reveal_strlit(").doubleValue()");
    assert(free_of("((Number)"@, d));
    assert(free_of(").doubleValue()"@, d));
    lemma_contains_char_add("((Number)"@, map_ident(raw, nm), d);
    lemma_contains_char_add("((Number)"@ + map_ident(raw, nm), ").doubleValue()"@, d);
}

proof fn lemma_special_free(
    w: Seq<char>,
    nm: Map<Seq<char>, Seq<char>>,
    tm: Map<Seq<char>, ValueType>,
    numeric: bool,
    d: char,
)
    requires
        is_layout(d),
        names_free(nm, d),
    ensures
        special_value(w, nm, tm, numeric) matches Some(p) ==> free_of(p, d),
{
    reveal_strlit("true");
    reveal_strlit("false");
    reveal_strlit("\"\"");
    reveal_strlit("0");
    assert(free_of("true"@, d));
    assert(free_of("false"@, d));
    assert(free_of("\"\""@, d));
    assert(free_of("0"@, d));
    lemma_ident_piece_free(w, nm, tm, numeric, d);
}

proof fn lemma_prepend_free(p: Seq<char>, r: Option<Seq<char>>, d: char)
    requires
        is_layout(d),
        free_of(p, d),
        r matches Some(x) ==> free_of(x, d),
    ensures
        prepend(p, r) matches Some(y) ==> free_of(y, d),
{
    if let Some(x) = r {
        lemma_contains_char_add(p, x, d);
    }
}

proof fn lemma_translate_from_free(
    c: Seq<char>,
    i: int,
    nm: Map<Seq<char>, Seq<char>>,
    tm: Map<Seq<char>, ValueType>,
    numeric: bool,
    d: char,
)
    requires
        is_layout(d),
        free_of(c, d),
        names_free(nm, d),
    ensures
        translate_from(c, i, nm, tm, numeric) matches Some(x) ==> free_of(x, d),
    decreases c.len() - i,
{
    if 0 <= i < c.len() {
        if c[i] == '\'' {
            let q = quote_end(c, i + 1, '\'');
            lemma_quote_end(c, i + 1, '\'');
            if q < c.len() {
                lemma_translate_from_free(c, q + 1, nm, tm, numeric, d);
                let body = c.subrange(i + 1, q);
                lemma_sub_free(c, i + 1, q, d);
                lemma_string_body_free(body, d);
                let p = seq!['"'] + java_string_body(body) + seq!['"'];
                lemma_contains_char_add(seq!['"'], java_string_body(body), d);
                lemma_contains_char_add(seq!['"'] + java_string_body(body), seq!['"'], d);
                lemma_prepend_free(p, translate_from(c, q + 1, nm, tm, numeric), d);
            }
        } else if c[i] == '"' {
            let q = quote_end(c, i + 1, '"');
            lemma_quote_end(c, i + 1, '"');
            if q < c.len() {
                lemma_translate_from_free(c, q + 1, nm, tm, numeric, d);
                lemma_sub_free(c, i, q + 1, d);
                lemma_prepend_free(c.subrange(i, q + 1), translate_from(c, q + 1, nm, tm, numeric), d);
            }
        } else if c[i] == '*' && starts_special(c, i) {
            let e = word_end(c, i + 1);
            lemma_word_end(c, i + 1);
            lemma_translate_from_free(c, e, nm, tm, numeric, d);
            lemma_special_free(c.subrange(i + 1, e), nm, tm, numeric, d);
            if let Some(p) = special_value(c.subrange(i + 1, e), nm, tm, numeric) {
                lemma_prepend_free(p, translate_from(c, e, nm, tm, numeric), d);
            }
        } else if is_ascii_alpha(c[i]) || c[i] == '_' {
            let e = word_end(c, i + 1);
            lemma_word_end(c, i + 1);
            lemma_translate_from_free(c, e, nm, tm, numeric, d);
            lemma_ident_piece_free(c.subrange(i, e), nm, tm, numeric, d);
            lemma_prepend_free(ident_piece(c.subrange(i, e), nm, tm, numeric), translate_from(c, e, nm, tm, numeric), d);
        } else {
            lemma_translate_from_free(c, i + 1, nm, tm, numeric, d);
            assert(c[i] != d);
            assert(free_of(seq![c[i]], d));
            lemma_prepend_free(seq![c[i]], translate_from(c, i + 1, nm, tm, numeric), d);
        }
    }
}

proof fn lemma_normalize_free(c: Seq<char>, d: char)
    requires
        is_layout(d),
        free_of(c, d),
    ensures
        free_of(normalize_expr(c), d),
{
    reveal_strlit(" == ");
    reveal_strlit(" != ");
    reveal_strlit(" > ");
    reveal_strlit(" < ");
    reveal_strlit(" >= ");
    reveal_strlit(" <= ");
    reveal_strlit(" && ");
    reveal_strlit(" || ");
    reveal_strlit(" + ");
    assert(free_of(" == "@, d));
    assert(free_of(" != "@, d));
    assert(free_of(" > "@, d));
    assert(free_of(" < "@, d));
    assert(free_of(" >= "@, d));
    assert(free_of(" <= "@, d));
    assert(free_of(" && "@, d));
    assert(free_of(" || "@, d));
    assert(free_of(" + "@, d));
    let a1 = replace(c, " *EQ "@, " == "@);
    lemma_replace_free(c, " *EQ "@, " == "@, d);
    let a2 = replace(a1, " *NE "@, " != "@);
    lemma_replace_free(a1, " *NE "@, " != "@, d);
    let a3 = replace(a2, " *GT "@, " > "@);
    lemma_replace_free(a2, " *GT "@, " > "@, d);
    let b1 = replace(a3, " *LT "@, " < "@);
    lemma_replace_free(a3, " *LT "@, " < "@, d);
    let b2 = replace(b1, " *GE "@, " >= "@);
    lemma_replace_free(b1, " *GE "@, " >= "@, d);
    let b3 = replace(b2, " *LE "@, " <= "@);
    lemma_replace_free(b2, " *LE "@, " <= "@, d);
    let c1 = replace(b3, " *AND "@, " && "@);
    lemma_replace_free(b3, " *AND "@, " && "@, d);
    let c2 = replace(c1, " *OR "@, " || "@);
    lemma_replace_free(c1, " *OR "@, " || "@, d);
    lemma_replace_free(c2, " *CAT "@, " + "@, d);
}

proof fn lemma_translate_cond_free(cond: Seq<char>, nm: Map<Seq<char>, Seq<char>>, tm: Map<Seq<char>, ValueType>, d: char)
    requires
        is_layout(d),
        free_of(cond, d),
        names_free(nm, d),
    ensures
        translate_cond(cond, nm, tm) matches Some(x) ==> free_of(x, d),
    decreases cond.len(),
{
    if starts_with(upper(cond), seq!['N', 'O', 'T', ' ']) {
        assert(upper(cond).len() == cond.len());
        lemma_sub_free(cond, 4, cond.len() as int, d);
        lemma_translate_cond_free(cond.subrange(4, cond.len() as int), nm, tm, d);
        assert(free_of(seq!['!'], d));
        lemma_prepend_free(seq!['!'], translate_cond(cond.subrange(4, cond.len() as int), nm, tm), d);
    } else {
        let c = normalize_expr(cond);
        lemma_normalize_free(cond, d);
        lemma_translate_from_free(c, 0, nm, tm, contains_char(c, '>') || contains_char(c, '<'), d);
        lemma_translate_from_free(c, 0, nm, tm, false, d);
        if let Some(e) = translate_expr(c, nm, tm, false) {
            reveal_strlit("truthy(");
            assert(free_of("truthy("@, d));
            assert(free_of(seq![')'], d));
            lemma_contains_char_add("truthy("@, e, d);
            lemma_contains_char_add("truthy("@ + e, seq![')'], d);
        }
    }
}

/// The texts that the Java of a statement copies as they stand hold no line
/// break (names go through their Java identifiers and need nothing).
pub open spec fn stmt_single_line(s: IrStmtView) -> bool {
    match s {
        IrStmtView::Assign { left, right } => single_line(right),
        IrStmtView::If { cond } => single_line(cond),
        IrStmtView::DoUntil { cond } => single_line(cond),
        IrStmtView::Todo { op, src } => single_line(src) && (op matches Some(o) ==> single_line(o)),
        _ => true,
    }
}

proof fn lemma_spaces_single(n: nat)
    ensures
        single_line(spaces(n)),
    decreases n,
{
    if n > 0 {
        lemma_spaces_single((n - 1) as nat);
        reveal_strlit("    ");
        assert(single_line("    "@));
        lemma_single_add(spaces((n - 1) as nat), "    "@);
    }
}

proof fn lemma_java_line(ind: nat, t: Seq<char>)
    requires
        single_line(t),
    ensures
        line_breaks(java_line(ind, t)) == 1,
        java_line(ind, t).len() > 0,
        java_line(ind, t).last() == '\n',
{
    lemma_spaces_single(ind);
    lemma_single_add(spaces(ind), t);
    let l = java_line(ind, t);
    assert(l.drop_last() =~= spaces(ind) + t);
    lemma_line_breaks_none(spaces(ind) + t);
}

/// Joins single-line pieces: `a + b + c`.
proof fn lemma_single3(a: Seq<char>, b: Seq<char>, c: Seq<char>)
    requires
        single_line(a),
        single_line(b),
        single_line(c),
    ensures
        single_line(a + b + c),
{
    lemma_single_add(a, b);
    lemma_single_add(a + b, c);
}

proof fn lemma_cond_lines(ind: nat, head: Seq<char>, tail: Seq<char>, tr: Option<Seq<char>>, cond: Seq<char>)
    requires
        single_line(head),
        single_line(tail),
        single_line(cond),
        tr matches Some(x) ==> single_line(x),
    ensures
        line_breaks(cond_lines(ind, head, tail, tr, cond)) == cond_line_count(tr),
        cond_lines(ind, head, tail, tr, cond).len() > 0,
        cond_lines(ind, head, tail, tr, cond).last() == '\n',
{
    match tr {
        Some(c) => {
            lemma_single3(head, c, tail);
            lemma_java_line(ind, head + c + tail);
        },
        None => {
            reveal_strlit("// TODO(FALLBACK_COND): ");
            reveal_strlit("false");
            assert(single_line("// TODO(FALLBACK_COND): "@));
            assert(single_line("false"@));
            lemma_single_add("// TODO(FALLBACK_COND): "@, cond);
            lemma_single3(head, "false"@, tail);
            let a = java_line(ind, "// TODO(FALLBACK_COND): "@ + cond);
            let b = java_line(ind, head + "false"@ + tail);
            lemma_java_line(ind, "// TODO(FALLBACK_COND): "@ + cond);
            lemma_java_line(ind, head + "false"@ + tail);
            lemma_line_breaks_add(a, b);
            assert((a + b).last() == b.last());
        },
    }
}

proof fn lemma_step_text(ind: nat, s: IrStmtView, nm: Map<Seq<char>, Seq<char>>, tm: Map<Seq<char>, ValueType>)
    requires
        stmt_single_line(s),
        names_free(nm, '\n'),
    ensures
        line_breaks(step_text(ind, s, nm, tm)) == step_lines(s, nm, tm),
        step_text(ind, s, nm, tm).len() > 0,
        step_text(ind, s, nm, tm).last() == '\n',
{
    match s {
        IrStmtView::Assign { left, right } => {
            let numeric = type_or_unknown(tm, left) == ValueType::Number;
            lemma_normalize_free(right, '\n');
            lemma_translate_from_free(normalize_expr(right), 0, nm, tm, numeric, '\n');
            lemma_map_ident_free(left, nm, '\n');
            reveal_strlit(" = ");
            reveal_strlit("// TODO(FALLBACK_EXPR): ");
            assert(single_line(" = "@));
            assert(single_line(seq![';']));
            assert(single_line("// TODO(FALLBACK_EXPR): "@));
            match translate_expr(normalize_expr(right), nm, tm, numeric) {
                Some(e) => {
                    lemma_single3(map_ident(left, nm), " = "@, e);
                    lemma_single_add(map_ident(left, nm) + " = "@ + e, seq![';']);
                },
                None => {
                    lemma_single_add("// TODO(FALLBACK_EXPR): "@, right);
                },
            }
            lemma_java_line(ind, assign_text(left, right, nm, tm));
        },
        IrStmtView::If { cond } => {
            reveal_strlit("if (");
            reveal_strlit(") {");
            assert(single_line("if ("@));
            assert(single_line(") {"@));
            lemma_translate_cond_free(cond, nm, tm, '\n');
            lemma_cond_lines(ind, "if ("@, ") {"@, translate_cond(cond, nm, tm), cond);
        },
        IrStmtView::DoUntil { cond } => {
            reveal_strlit("while (!(");
            reveal_strlit(")) {");
            assert(single_line("while (!("@));
            assert(single_line(")) {"@));
            lemma_translate_cond_free(cond, nm, tm, '\n');
            lemma_cond_lines(ind, "while (!("@, ")) {"@, translate_cond(cond, nm, tm), cond);
        },
        IrStmtView::Else => {
            reveal_strlit("} else {");
            assert(single_line("} else {"@));
            lemma_java_line(dedent(ind), "} else {"@);
        },
        IrStmtView::EndIf => {
            assert(single_line(seq!['}']));
            lemma_java_line(dedent(ind), seq!['}']);
        },
        IrStmtView::EndDo => {
            assert(single_line(seq!['}']));
            lemma_java_line(dedent(ind), seq!['}']);
        },
        IrStmtView::Call { proc_name } => {
            lemma_java_ident_free(proc_name, '\n');
            reveal_strlit("();");
            assert(single_line("();"@));
            lemma_single_add(proc_ident(proc_name), "();"@);
            lemma_java_line(ind, proc_ident(proc_name) + "();"@);
        },
        IrStmtView::Write { target } => {
            lemma_map_ident_free(target, nm, '\n');
            reveal_strlit("writeRecord(");
            reveal_strlit(");");
            assert(single_line("writeRecord("@));
            assert(single_line(");"@));
            lemma_single3("writeRecord("@, map_ident(target, nm), ");"@);
            lemma_java_line(ind, "writeRecord("@ + map_ident(target, nm) + ");"@);
        },
        IrStmtView::Read { target } => {
            lemma_map_ident_free(target, nm, '\n');
            reveal_strlit("readRecord(");
            reveal_strlit(");");
            assert(single_line("readRecord("@));
            assert(single_line(");"@));
            lemma_single3("readRecord("@, map_ident(target, nm), ");"@);
            lemma_java_line(ind, "readRecord("@ + map_ident(target, nm) + ");"@);
        },
        IrStmtView::Todo { op, src } => {
            reveal_strlit("// TODO(");
            reveal_strlit("): ");
            reveal_strlit("// TODO: ");
            assert(single_line("// TODO("@));
            assert(single_line("): "@));
            assert(single_line("// TODO: "@));
            match op {
                Some(o) => {
                    lemma_single3("// TODO("@, o, "): "@);
                    lemma_single_add("// TODO("@ + o + "): "@, src);
                },
                None => {
                    lemma_single_add("// TODO: "@, src);
                },
            }
            lemma_java_line(ind, todo_comment(op, src));
        },
    }
}

pub open spec fn all_single_line(stmts: Seq<IrStmtView>) -> bool {
    forall|j: int| 0 <= j < stmts.len() ==> stmt_single_line(#[trigger] stmts[j])
}

proof fn lemma_emit_lines(
    stmts: Seq<IrStmtView>,
    lines: Seq<usize>,
    base: nat,
    nm: Map<Seq<char>, Seq<char>>,
    tm: Map<Seq<char>, ValueType>,
    k: nat,
)
    requires
        k <= stmts.len(),
        all_single_line(stmts),
        names_free(nm, '\n'),
    ensures
        line_breaks(emit_upto(stmts, lines, base, nm, tm, k).text) == emit_upto(stmts, lines, base, nm, tm, k).lines,
        emit_upto(stmts, lines, base, nm, tm, k).text.len() == 0 || emit_upto(
            stmts,
            lines,
            base,
            nm,
            tm,
            k,
        ).text.last() == '\n',
        emit_upto(stmts, lines, base, nm, tm, k).entries.len() == k,
    decreases k,
{
    if k > 0 {
        lemma_emit_lines(stmts, lines, base, nm, tm, (k - 1) as nat);
        let prev = emit_upto(stmts, lines, base, nm, tm, (k - 1) as nat);
        let s = stmts[k - 1];
        assert(stmt_single_line(s));
        lemma_step_text(prev.indent, s, nm, tm);
        lemma_line_breaks_add(prev.text, step_text(prev.indent, s, nm, tm));
    }
}

/// The Java of the first `j` statements begins the Java of the first `k`.
proof fn lemma_emit_prefix(
    stmts: Seq<IrStmtView>,
    lines: Seq<usize>,
    base: nat,
    nm: Map<Seq<char>, Seq<char>>,
    tm: Map<Seq<char>, ValueType>,
    j: nat,
    k: nat,
)
    requires
        j <= k <= stmts.len(),
    ensures
        emit_upto(stmts, lines, base, nm, tm, j).text.len() <= emit_upto(stmts, lines, base, nm, tm, k).text.len(),
        emit_upto(stmts, lines, base, nm, tm, k).text.subrange(
            0,
            emit_upto(stmts, lines, base, nm, tm, j).text.len() as int,
        ) == emit_upto(stmts, lines, base, nm, tm, j).text,
        emit_upto(stmts, lines, base, nm, tm, j).entries.len() <= emit_upto(
            stmts,
            lines,
            base,
            nm,
            tm,
            k,
        ).entries.len(),
        emit_upto(stmts, lines, base, nm, tm, k).entries.subrange(
            0,
            emit_upto(stmts, lines, base, nm, tm, j).entries.len() as int,
        ) == emit_upto(stmts, lines, base, nm, tm, j).entries,
    decreases k,
{
    let ej = emit_upto(stmts, lines, base, nm, tm, j);
    let ek = emit_upto(stmts, lines, base, nm, tm, k);
    if j == k {
        assert(ek.text.subrange(0, ej.text.len() as int) =~= ej.text);
        assert(ek.entries.subrange(0, ej.entries.len() as int) =~= ej.entries);
    } else {
        lemma_emit_prefix(stmts, lines, base, nm, tm, j, (k - 1) as nat);
        let ep = emit_upto(stmts, lines, base, nm, tm, (k - 1) as nat);
        assert(ek.text.subrange(0, ej.text.len() as int) =~= ep.text.subrange(0, ej.text.len() as int));
        assert(ek.entries.subrange(0, ej.entries.len() as int) =~= ep.entries.subrange(
            0,
            ej.entries.len() as int,
        ));
    }
}

proof fn lemma_one_break(s: Seq<char>)
    requires
        s.len() > 0,
        s.last() == '\n',
        single_line(s.drop_last()),
    ensures
        line_breaks(s) == 1,
{
    lemma_line_breaks_none(s.drop_last());
}

proof fn lemma_decl_lines(syms: Seq<SymbolView>, nm: Map<Seq<char>, Seq<char>>, k: nat)
    requires
        k <= syms.len(),
        names_free(nm, '\n'),
    ensures
        line_breaks(decl_text(syms, nm, k)) == k,
        k > 0 ==> decl_text(syms, nm, k).len() > 0 && decl_text(syms, nm, k).last() == '\n',
    decreases k,
{
    if k > 0 {
        lemma_decl_lines(syms, nm, (k - 1) as nat);
        let sy = syms[k - 1];
        reveal_strlit("double");
        reveal_strlit("String");
        reveal_strlit("boolean");
        reveal_strlit("Object");
        reveal_strlit(" = 0;");
        reveal_strlit(" = \"\";");
        reveal_strlit(" = false;");
        reveal_strlit(";");
        assert(single_line(java_type(sy.ty)));
        assert(single_line(java_init(sy.ty)));
        assert(single_line(seq![' ']));
        lemma_map_ident_free(sy.name, nm, '\n');
        lemma_single3(java_type(sy.ty), seq![' '], map_ident(sy.name, nm));
        lemma_single_add(java_type(sy.ty) + seq![' '] + map_ident(sy.name, nm), java_init(sy.ty));
        let t = java_type(sy.ty) + seq![' '] + map_ident(sy.name, nm) + java_init(sy.ty);
        lemma_java_line(2, t);
        lemma_line_breaks_add(decl_text(syms, nm, (k - 1) as nat), java_line(2, t));
    }
}

/// The head of the class: its lines are the lines before the first statement.
proof fn lemma_head_lines(ir: IrProgram, class_name: Seq<char>, target: JavaTarget)
    ensures
        line_breaks(java_head(ir, class_name, target)) == body_base(ir.symbols@.len()),
        java_head(ir, class_name, target).len() > 0,
        java_head(ir, class_name, target).last() == '\n',
{
    let syms = symbol_views(ir.symbols@);
    let nm = program_names(ir, class_name);
    lemma_program_names_free(ir, class_name, '\n');
    reveal_strlit("// target=");
    reveal_strlit("java21");
    reveal_strlit("java25-stable");
    reveal_strlit("\n");
    reveal_strlit("public class ");
    reveal_strlit(" {\n");
    reveal_strlit("    public static void main(String[] args) {\n");
    let a = "// target="@;
    let b = target.name();
    let c = "\n"@;
    let d = "public class "@;
    let e = java_ident(class_name);
    let f = " {\n"@;
    let g = "    public static void main(String[] args) {\n"@;
    let h = decl_text(syms, nm, syms.len());
    let o = if syms.len() > 0 {
        seq!['\n']
    } else {
        seq![]
    };
    assert(single_line(a));
    assert(single_line(b));
    assert(single_line(d));
    lemma_java_ident_free(class_name, '\n');
    lemma_line_breaks_none(a);
    lemma_line_breaks_none(b);
    lemma_line_breaks_none(d);
    lemma_line_breaks_none(e);
    assert(c =~= seq!['\n']);
    lemma_one_break(c);
    assert(single_line(f.drop_last()));
    lemma_one_break(f);
    assert(single_line(g.drop_last()));
    lemma_one_break(g);
    lemma_decl_lines(syms, nm, syms.len());
    if syms.len() > 0 {
        lemma_one_break(o);
    } else {
        assert(line_breaks(o) == 0);
    }
    lemma_line_breaks_add(a, b);
    lemma_line_breaks_add(a + b, c);
    lemma_line_breaks_add(a + b + c, d);
    lemma_line_breaks_add(a + b + c + d, e);
    lemma_line_breaks_add(a + b + c + d + e, f);
    lemma_line_breaks_add(a + b + c + d + e + f, g);
    lemma_line_breaks_add(a + b + c + d + e + f + g, h);
    lemma_line_breaks_add(a + b + c + d + e + f + g + h, o);
    assert(java_head(ir, class_name, target) == a + b + c + d + e + f + g + h + o);
    assert(syms.len() == ir.symbols@.len());
}

/// Where the Java of statement `i` begins in the class.
pub open spec fn statement_start(ir: IrProgram, class_name: Seq<char>, target: JavaTarget, i: nat) -> nat {
    java_head(ir, class_name, target).len() + program_emit_upto(ir, class_name, i).text.len()
}

/// The Java lines of statement `i`, at the indentation the statements before it leave.
pub open spec fn statement_java(ir: IrProgram, class_name: Seq<char>, i: nat) -> Seq<char> {
    step_text(
        program_emit_upto(ir, class_name, i).indent,
        ir_views(ir.statements@)[i as int],
        program_names(ir, class_name),
        program_types(ir),
    )
}

proof fn lemma_emit_next(
    stmts: Seq<IrStmtView>,
    lines: Seq<usize>,
    base: nat,
    nm: Map<Seq<char>, Seq<char>>,
    tm: Map<Seq<char>, ValueType>,
    i: nat,
)
    requires
        i < stmts.len(),
    ensures
        emit_upto(stmts, lines, base, nm, tm, i + 1).text == emit_upto(stmts, lines, base, nm, tm, i).text
            + step_text(emit_upto(stmts, lines, base, nm, tm, i).indent, stmts[i as int], nm, tm),
        emit_upto(stmts, lines, base, nm, tm, i + 1).entries == emit_upto(stmts, lines, base, nm, tm, i).entries.push(
            step_entry(stmts[i as int], stmt_line(lines, i as int), base + emit_upto(stmts, lines, base, nm, tm, i).lines + 1),
        ),
{
}

/// The Java of statement `i` in a text made of a head, the Java of all the
/// statements and a tail: where it begins, what stands there, and its row.
#[verifier::spinoff_prover]
proof fn lemma_statement_position(
    head: Seq<char>,
    tail: Seq<char>,
    stmts: Seq<IrStmtView>,
    lines: Seq<usize>,
    base: nat,
    nm: Map<Seq<char>, Seq<char>>,
    tm: Map<Seq<char>, ValueType>,
    i: nat,
)
    requires
        i < stmts.len(),
        all_single_line(stmts),
        names_free(nm, '\n'),
        head.len() > 0,
        head.last() == '\n',
        line_breaks(head) == base,
    ensures
        ({
            let ei = emit_upto(stmts, lines, base, nm, tm, i);
            let en = emit_upto(stmts, lines, base, nm, tm, stmts.len());
            let java = head + en.text + tail;
            let start = head.len() + ei.text.len();
            let st = step_text(ei.indent, stmts[i as int], nm, tm);
            &&& en.entries.len() == stmts.len()
            &&& en.entries[i as int] == step_entry(stmts[i as int], stmt_line(lines, i as int), base + ei.lines + 1)
            &&& line_breaks(java.take(start as int)) == base + ei.lines
            &&& java[start - 1] == '\n'
            &&& start + st.len() <= java.len()
            &&& java.subrange(start as int, (start + st.len()) as int) == st
        }),
{
    let n = stmts.len();
    lemma_emit_lines(stmts, lines, base, nm, tm, n);
    lemma_emit_lines(stmts, lines, base, nm, tm, i);
    lemma_emit_prefix(stmts, lines, base, nm, tm, i + 1, n);
    lemma_emit_next(stmts, lines, base, nm, tm, i);
    let ei = emit_upto(stmts, lines, base, nm, tm, i);
    let ei1 = emit_upto(stmts, lines, base, nm, tm, i + 1);
    let en = emit_upto(stmts, lines, base, nm, tm, n);
    let st = step_text(ei.indent, stmts[i as int], nm, tm);
    let java = head + en.text + tail;
    let start = head.len() + ei.text.len();
    assert(java.take(start as int) =~= head + ei.text) by {
        assert forall|k: int| 0 <= k < start implies java.take(start as int)[k] == (head + ei.text)[k] by {
            if k >= head.len() {
                assert(en.text[k - head.len()] == ei1.text[k - head.len()]);
            }
        }
    }
    lemma_line_breaks_add(head, ei.text);
    assert(java.subrange(start as int, (start + st.len()) as int) =~= st) by {
        assert forall|k: int| 0 <= k < st.len() implies java.subrange(start as int, (start + st.len()) as int)[k]
            == st[k] by {
            assert(en.text[ei.text.len() + k] == ei1.text[ei.text.len() + k]);
        }
    }
    if ei.text.len() == 0 {
        assert(java[start - 1] == head[head.len() - 1]);
    } else {
        assert(java[start - 1] == en.text[ei.text.len() - 1]);
        assert(en.text[ei.text.len() - 1] == ei1.text[ei.text.len() - 1]);
    }
    assert(en.entries[i as int] == ei1.entries[i as int]);
}

/// The source map has one row per statement, in statement order. Row `i`
/// holds the statement's RPG line and the Java line where the statement's
/// Java begins: one more than the line breaks before it in the class. There,
/// at the start of a line, stands the Java of the statement (for a statement
/// kept as TODO, its TODO comment). This holds when the texts that the Java
/// copies from the statements hold no line break.
#[verifier::spinoff_prover]
pub proof fn lemma_source_map_lines(ir: IrProgram, class_name: Seq<char>, target: JavaTarget, i: nat)
    requires
        i < ir.statements@.len(),
        ir.statements@.len() < usize::MAX / 4,
        ir.symbols@.len() < usize::MAX / 4,
        all_single_line(ir_views(ir.statements@)),
    ensures
        source_map_of(ir, class_name).len() == ir.statements@.len(),
        source_map_of(ir, class_name)[i as int].rpg_line == stmt_line(ir.statement_lines@, i as int),
        source_map_of(ir, class_name)[i as int].java_line == line_breaks(
            java_source(ir, class_name, target).take(statement_start(ir, class_name, target, i) as int),
        ) + 1,
        source_map_of(ir, class_name)[i as int] == step_entry(
            ir_views(ir.statements@)[i as int],
            stmt_line(ir.statement_lines@, i as int),
            source_map_of(ir, class_name)[i as int].java_line as nat,
        ),
        0 < statement_start(ir, class_name, target, i),
        java_source(ir, class_name, target)[statement_start(ir, class_name, target, i) - 1] == '\n',
        statement_start(ir, class_name, target, i) + statement_java(ir, class_name, i).len() <= java_source(
            ir,
            class_name,
            target,
        ).len(),
        java_source(ir, class_name, target).subrange(
            statement_start(ir, class_name, target, i) as int,
            (statement_start(ir, class_name, target, i) + statement_java(ir, class_name, i).len()) as int,
        ) == statement_java(ir, class_name, i),
{
    let stmts = ir_views(ir.statements@);
    let lines = ir.statement_lines@;
    let base = body_base(ir.symbols@.len());
    let nm = program_names(ir, class_name);
    let tm = program_types(ir);
    lemma_program_names_free(ir, class_name, '\n');
    lemma_head_lines(ir, class_name, target);
    lemma_emit_upto_bounds(stmts, lines, base, nm, tm, i);
    let head = java_head(ir, class_name, target);
    let em = program_emit(ir, class_name);
    let procs = sorted_distinct(em.calls);
    let tail = closing_text(em.indent) + "    }\n"@ + "\n"@ + method_stubs(procs, procs.len()) + java_helpers();
    assert(java_source(ir, class_name, target) =~= head + em.text + tail);
    lemma_statement_position(head, tail, stmts, lines, base, nm, tm, i);
    assert(base + emit_upto(stmts, lines, base, nm, tm, i).lines + 1 < usize::MAX);
}

/// A statement kept as TODO can be found from its source-map row: the row has
/// the kind `todo`, and the Java line it names holds the statement's TODO
/// comment (same conditions as above).
pub proof fn lemma_todo_rows_find_comments(
    ir: IrProgram,
    class_name: Seq<char>,
    target: JavaTarget,
    i: nat,
    op: Option<Seq<char>>,
    src: Seq<char>,
)
    requires
        i < ir.statements@.len(),
        ir.statements@.len() < usize::MAX / 4,
        ir.symbols@.len() < usize::MAX / 4,
        all_single_line(ir_views(ir.statements@)),
        ir_views(ir.statements@)[i as int] == (IrStmtView::Todo { op, src }),
    ensures
        source_map_of(ir, class_name)[i as int].kind == "todo"@,
        source_map_of(ir, class_name)[i as int].java_line == line_breaks(
            java_source(ir, class_name, target).take(statement_start(ir, class_name, target, i) as int),
        ) + 1,
        statement_java(ir, class_name, i) == java_line(program_emit_upto(ir, class_name, i).indent, todo_comment(op, src)),
        java_source(ir, class_name, target).subrange(
            statement_start(ir, class_name, target, i) as int,
            (statement_start(ir, class_name, target, i) + statement_java(ir, class_name, i).len()) as int,
        ) == statement_java(ir, class_name, i),
{
    lemma_source_map_lines(ir, class_name, target, i);
}

/// What the source map promises of a converted source file: for every
/// statement parsed from `source`, its row holds the source line it came from
/// and the Java line where its Java begins in the generated class, counted by
/// the line breaks before it; there stands the statement's Java (for a
/// statement kept as TODO, its TODO comment). `program` and `ir` are what the
/// parser and the IR builder make of the source.
#[verifier::spinoff_prover]
pub proof fn lemma_converted_source_map(
    source: Seq<char>,
    mode: ParseMode,
    program: Program,
    ir: IrProgram,
    class_name: Seq<char>,
    target: JavaTarget,
    i: nat,
)
    requires
        program_matches(program, parse_source(source, mode)),
        ir_matches(stmt_views(program.statements@), program.statement_lines@, ir),
        i < ir.statements@.len(),
        ir.statements@.len() < usize::MAX / 4,
        ir.symbols@.len() < usize::MAX / 4,
    ensures
        source_map_of(ir, class_name).len() == program.statements@.len(),
        source_map_of(ir, class_name)[i as int].rpg_line == program.statement_lines@[i as int],
        source_map_of(ir, class_name)[i as int].java_line == line_breaks(
            java_source(ir, class_name, target).take(statement_start(ir, class_name, target, i) as int),
        ) + 1,
        source_map_of(ir, class_name)[i as int] == step_entry(
            ir_views(ir.statements@)[i as int],
            program.statement_lines@[i as int],
            source_map_of(ir, class_name)[i as int].java_line as nat,
        ),
        0 < statement_start(ir, class_name, target, i),
        java_source(ir, class_name, target)[statement_start(ir, class_name, target, i) - 1] == '\n',
        java_source(ir, class_name, target).subrange(
            statement_start(ir, class_name, target, i) as int,
            (statement_start(ir, class_name, target, i) + statement_java(ir, class_name, i).len()) as int,
        ) == statement_java(ir, class_name, i),
{
    let stmts = stmt_views(program.statements@);
    let irs = ir_views(ir.statements@);
    lemma_parsed_single_line(source, mode);
    assert(irs == stmts.map_values(|s: StmtView| ir_stmt_of(s)));
    assert(irs.len() == stmts.len());
    assert forall|j: int| 0 <= j < irs.len() implies stmt_single_line(#[trigger] irs[j]) by {
        assert(irs[j] == ir_stmt_of(stmts[j]));
        assert(stmts[j] == parse_source(source, mode).statements[j]);
        assert(stmt_view_single(stmts[j]));
    }
    lemma_source_map_lines(ir, class_name, target, i);
    assert(program.statement_lines@.len() == stmts.len()) by {
        lemma_statement_lines_len(source, mode);
    }
}

// ------------------------------------------------------------------
// Braces
// ------------------------------------------------------------------

/// How many times `c` occurs in `s`.
pub open spec fn occurrences(s: Seq<char>, c: char) -> nat
    decreases s.len(),
{
    if s.len() == 0 {
        0
    } else {
        occurrences(s.drop_last(), c) + if s.last() == c {
            1nat
        } else {
            0nat
        }
    }
}

proof fn lemma_occ_add(a: Seq<char>, b: Seq<char>, c: char)
    ensures
        occurrences(a + b, c) == occurrences(a, c) + occurrences(b, c),
    decreases b.len(),
{
    if b.len() == 0 {
        assert(a + b =~= a);
    } else {
        lemma_occ_add(a, b.drop_last(), c);
        assert((a + b).drop_last() =~= a + b.drop_last());
        assert((a + b).last() == b.last());
    }
}

proof fn lemma_occ_none(s: Seq<char>, c: char)
    requires
        free_of(s, c),
    ensures
        occurrences(s, c) == 0,
    decreases s.len(),
{
    if s.len() > 0 {
        assert(free_of(s.drop_last(), c)) by {
            if contains_char(s.drop_last(), c) {
                let i = choose|i: int| 0 <= i < s.drop_last().len() && s.drop_last()[i] == c;
                assert(s[i] == c);
            }
        }
        lemma_occ_none(s.drop_last(), c);
        assert(s.last() == s[s.len() - 1]);
    }
}

/// `c` occurs once in `s`, at `p`.
proof fn lemma_occ_one(s: Seq<char>, p: int, c: char)
    requires
        0 <= p < s.len(),
        s[p] == c,
        forall|i: int| 0 <= i < s.len() && i != p ==> s[i] != c,
    ensures
        occurrences(s, c) == 1,
{
    let a = s.subrange(0, p);
    let b = s.subrange(p + 1, s.len() as int);
    assert(s =~= a + seq![c] + b);
    assert(free_of(a, c)) by {
        if contains_char(a, c) {
            let i = choose|i: int| 0 <= i < a.len() && a[i] == c;
            assert(s[i] == c);
        }
    }
    assert(free_of(b, c)) by {
        if contains_char(b, c) {
            let i = choose|i: int| 0 <= i < b.len() && b[i] == c;
            assert(s[p + 1 + i] == c);
        }
    }
    lemma_occ_none(a, c);
    lemma_occ_none(b, c);
    lemma_occ_add(a, seq![c], c);
    lemma_occ_add(a + seq![c], b, c);
    assert(occurrences(seq![c], c) == 1) by {
        let one = seq![c];
        assert(one.drop_last() =~= Seq::<char>::empty());
        assert(occurrences(one.drop_last(), c) == 0);
        assert(one.last() == c);
    }
}

/// The opening braces minus the closing braces of `s`.
pub open spec fn brace_balance(s: Seq<char>) -> int {
    occurrences(s, '{') as int - occurrences(s, '}') as int
}

proof fn lemma_balance_add(a: Seq<char>, b: Seq<char>)
    ensures
        brace_balance(a + b) == brace_balance(a) + brace_balance(b),
{
    lemma_occ_add(a, b, '{');
    lemma_occ_add(a, b, '}');
}

/// A text without braces.
pub open spec fn brace_free(s: Seq<char>) -> bool {
    free_of(s, '{') && free_of(s, '}')
}

proof fn lemma_brace_free_balance(s: Seq<char>)
    requires
        brace_free(s),
    ensures
        brace_balance(s) == 0,
{
    lemma_occ_none(s, '{');
    lemma_occ_none(s, '}');
}

/// A literal line that opens a block: one `{`, no `}`.
proof fn lemma_opening(s: Seq<char>, p: int)
    requires
        0 <= p < s.len(),
        s[p] == '{',
        forall|i: int| 0 <= i < s.len() && i != p ==> s[i] != '{',
        free_of(s, '}'),
    ensures
        brace_balance(s) == 1,
{
    lemma_occ_one(s, p, '{');
    lemma_occ_none(s, '}');
}

/// A literal line that closes a block: one `}`, no `{`.
proof fn lemma_closing(s: Seq<char>, p: int)
    requires
        0 <= p < s.len(),
        s[p] == '}',
        forall|i: int| 0 <= i < s.len() && i != p ==> s[i] != '}',
        free_of(s, '{'),
    ensures
        brace_balance(s) == -1,
{
    lemma_occ_one(s, p, '}');
    lemma_occ_none(s, '{');
}

proof fn lemma_add3(a: Seq<char>, b: Seq<char>, c: Seq<char>)
    ensures
        brace_balance(a + b + c) == brace_balance(a) + brace_balance(b) + brace_balance(c),
{
    lemma_balance_add(a, b);
    lemma_balance_add(a + b, c);
}

proof fn lemma_free3(a: Seq<char>, b: Seq<char>, c: Seq<char>, d: char)
    requires
        free_of(a, d),
        free_of(b, d),
        free_of(c, d),
    ensures
        free_of(a + b + c, d),
{
    lemma_contains_char_add(a, b, d);
    lemma_contains_char_add(a + b, c, d);
}

proof fn lemma_spaces_brace_free(n: nat)
    ensures
        brace_free(spaces(n)),
    decreases n,
{
    if n > 0 {
        lemma_spaces_brace_free((n - 1) as nat);
        reveal_strlit("    ");
        lemma_contains_char_add(spaces((n - 1) as nat), "    "@, '{');
        lemma_contains_char_add(spaces((n - 1) as nat), "    "@, '}');
    }
}

/// A line of Java: its braces are those of its text.
proof fn lemma_line_balance(ind: nat, t: Seq<char>)
    ensures
        brace_balance(java_line(ind, t)) == brace_balance(t),
{
    lemma_spaces_brace_free(ind);
    lemma_brace_free_balance(spaces(ind));
    lemma_brace_free_balance(seq!['\n']);
    lemma_add3(spaces(ind), t, seq!['\n']);
}

/// The texts that the Java of a statement copies as they stand hold no `d`.
pub open spec fn stmt_free(s: IrStmtView, d: char) -> bool {
    match s {
        IrStmtView::Assign { left, right } => free_of(right, d),
        IrStmtView::If { cond } => free_of(cond, d),
        IrStmtView::DoUntil { cond } => free_of(cond, d),
        IrStmtView::Todo { op, src } => free_of(src, d) && (op matches Some(o) ==> free_of(o, d)),
        _ => true,
    }
}

/// The pieces of a statement's Java that come from the statement hold no
/// layout character that the statement's texts do not hold.
proof fn lemma_pieces_free(s: IrStmtView, nm: Map<Seq<char>, Seq<char>>, tm: Map<Seq<char>, ValueType>, d: char)
    requires
        is_layout(d),
        stmt_free(s, d),
        names_free(nm, d),
    ensures
        match s {
            IrStmtView::Assign { left, right } => free_of(assign_text(left, right, nm, tm), d),
            IrStmtView::If { cond } => (translate_cond(cond, nm, tm) matches Some(x) ==> free_of(x, d)) && free_of(
                "// TODO(FALLBACK_COND): "@ + cond,
                d,
            ),
            IrStmtView::DoUntil { cond } => (translate_cond(cond, nm, tm) matches Some(x) ==> free_of(x, d))
                && free_of("// TODO(FALLBACK_COND): "@ + cond, d),
            IrStmtView::Call { proc_name } => free_of(proc_ident(proc_name) + "();"@, d),
            IrStmtView::Write { target } => free_of("writeRecord("@ + map_ident(target, nm) + ");"@, d),
            IrStmtView::Read { target } => free_of("readRecord("@ + map_ident(target, nm) + ");"@, d),
            IrStmtView::Todo { op, src } => free_of(todo_comment(op, src), d),
            _ => true,
        },
{
    reveal_strlit("// TODO(FALLBACK_COND): ");
    assert(free_of("// TODO(FALLBACK_COND): "@, d));
    match s {
        IrStmtView::Assign { left, right } => {
            let numeric = type_or_unknown(tm, left) == ValueType::Number;
            lemma_normalize_free(right, d);
            lemma_translate_from_free(normalize_expr(right), 0, nm, tm, numeric, d);
            lemma_map_ident_free(left, nm, d);
            reveal_strlit(" = ");
            reveal_strlit("// TODO(FALLBACK_EXPR): ");
            assert(free_of(" = "@, d));
            assert(free_of(seq![';'], d));
            assert(free_of("// TODO(FALLBACK_EXPR): "@, d));
            match translate_expr(normalize_expr(right), nm, tm, numeric) {
                Some(e) => {
                    lemma_free3(map_ident(left, nm), " = "@, e, d);
                    lemma_contains_char_add(map_ident(left, nm) + " = "@ + e, seq![';'], d);
                },
                None => {
                    lemma_contains_char_add("// TODO(FALLBACK_EXPR): "@, right, d);
                },
            }
        },
        IrStmtView::If { cond } => {
            lemma_translate_cond_free(cond, nm, tm, d);
            lemma_contains_char_add("// TODO(FALLBACK_COND): "@, cond, d);
        },
        IrStmtView::DoUntil { cond } => {
            lemma_translate_cond_free(cond, nm, tm, d);
            lemma_contains_char_add("// TODO(FALLBACK_COND): "@, cond, d);
        },
        IrStmtView::Call { proc_name } => {
            lemma_java_ident_free(proc_name, d);
            reveal_strlit("();");
            assert(free_of("();"@, d));
            lemma_contains_char_add(proc_ident(proc_name), "();"@, d);
        },
        IrStmtView::Write { target } => {
            lemma_map_ident_free(target, nm, d);
            reveal_strlit("writeRecord(");
            reveal_strlit(");");
            assert(free_of("writeRecord("@, d));
            assert(free_of(");"@, d));
            lemma_free3("writeRecord("@, map_ident(target, nm), ");"@, d);
        },
        IrStmtView::Read { target } => {
            lemma_map_ident_free(target, nm, d);
            reveal_strlit("readRecord(");
            reveal_strlit(");");
            assert(free_of("readRecord("@, d));
            assert(free_of(");"@, d));
            lemma_free3("readRecord("@, map_ident(target, nm), ");"@, d);
        },
        IrStmtView::Todo { op, src } => {
            reveal_strlit("// TODO(");
            reveal_strlit("): ");
            reveal_strlit("// TODO: ");
            assert(free_of("// TODO("@, d));
            assert(free_of("): "@, d));
            assert(free_of("// TODO: "@, d));
            match op {
                Some(o) => {
                    lemma_free3("// TODO("@, o, "): "@, d);
                    lemma_contains_char_add("// TODO("@ + o + "): "@, src, d);
                },
                None => {
                    lemma_contains_char_add("// TODO: "@, src, d);
                },
            }
        },
        _ => {},
    }
}

/// The blocks a statement opens (`1`) or closes (`-1`); `ELSE` closes one and opens one.
pub open spec fn block_step(s: IrStmtView) -> int {
    match s {
        IrStmtView::If { .. } => 1,
        IrStmtView::DoUntil { .. } => 1,
        IrStmtView::EndIf => -1,
        IrStmtView::EndDo => -1,
        _ => 0,
    }
}

proof fn lemma_text_free_balance(t: Seq<char>)
    requires
        free_of(t, '{'),
        free_of(t, '}'),
    ensures
        brace_balance(t) == 0,
{
    lemma_brace_free_balance(t);
}

#[verifier::spinoff_prover]
#[verifier::rlimit(40)]
proof fn lemma_step_balance(ind: nat, s: IrStmtView, nm: Map<Seq<char>, Seq<char>>, tm: Map<Seq<char>, ValueType>)
    requires
        stmt_free(s, '{'),
        stmt_free(s, '}'),
        names_free(nm, '{'),
        names_free(nm, '}'),
    ensures
        brace_balance(step_text(ind, s, nm, tm)) == block_step(s),
{
    lemma_pieces_free(s, nm, tm, '{');
    lemma_pieces_free(s, nm, tm, '}');
    match s {
        IrStmtView::Assign { left, right } => {
            lemma_line_balance(ind, assign_text(left, right, nm, tm));
            lemma_text_free_balance(assign_text(left, right, nm, tm));
        },
        IrStmtView::If { cond } => {
            reveal_strlit("if (");
            reveal_strlit(") {");
            lemma_cond_balance(ind, "if ("@, ") {"@, translate_cond(cond, nm, tm), cond);
        },
        IrStmtView::DoUntil { cond } => {
            reveal_strlit("while (!(");
            reveal_strlit(")) {");
            lemma_cond_balance(ind, "while (!("@, ")) {"@, translate_cond(cond, nm, tm), cond);
        },
        IrStmtView::Else => {
            reveal_strlit("} else {");
            let t = "} else {"@;
            lemma_occ_one(t, 7, '{');
            lemma_occ_one(t, 0, '}');
            lemma_line_balance(dedent(ind), t);
        },
        IrStmtView::EndIf => {
            lemma_closing(seq!['}'], 0);
            lemma_line_balance(dedent(ind), seq!['}']);
        },
        IrStmtView::EndDo => {
            lemma_closing(seq!['}'], 0);
            lemma_line_balance(dedent(ind), seq!['}']);
        },
        IrStmtView::Call { proc_name } => {
            lemma_line_balance(ind, proc_ident(proc_name) + "();"@);
            lemma_text_free_balance(proc_ident(proc_name) + "();"@);
        },
        IrStmtView::Write { target } => {
            lemma_line_balance(ind, "writeRecord("@ + map_ident(target, nm) + ");"@);
            lemma_text_free_balance("writeRecord("@ + map_ident(target, nm) + ");"@);
        },
        IrStmtView::Read { target } => {
            lemma_line_balance(ind, "readRecord("@ + map_ident(target, nm) + ");"@);
            lemma_text_free_balance("readRecord("@ + map_ident(target, nm) + ");"@);
        },
        IrStmtView::Todo { op, src } => {
            lemma_line_balance(ind, todo_comment(op, src));
            lemma_text_free_balance(todo_comment(op, src));
        },
    }
}

/// The lines that open a block on a condition open one block.
proof fn lemma_cond_balance(ind: nat, head: Seq<char>, tail: Seq<char>, tr: Option<Seq<char>>, cond: Seq<char>)
    requires
        brace_free(head),
        tail.len() > 0,
        tail.last() == '{',
        brace_free(tail.drop_last()),
        tr matches Some(x) ==> brace_free(x),
        brace_free("// TODO(FALLBACK_COND): "@ + cond),
    ensures
        brace_balance(cond_lines(ind, head, tail, tr, cond)) == 1,
{
    assert(tail =~= tail.drop_last() + seq!['{']);
    lemma_opening(seq!['{'], 0);
    lemma_brace_free_balance(tail.drop_last());
    lemma_balance_add(tail.drop_last(), seq!['{']);
    lemma_brace_free_balance(head);
    match tr {
        Some(c) => {
            lemma_brace_free_balance(c);
            lemma_add3(head, c, tail);
            lemma_line_balance(ind, head + c + tail);
        },
        None => {
            reveal_strlit("false");
            assert(brace_free("false"@));
            lemma_brace_free_balance("false"@);
            lemma_add3(head, "false"@, tail);
            let a = java_line(ind, "// TODO(FALLBACK_COND): "@ + cond);
            let b = java_line(ind, head + "false"@ + tail);
            lemma_brace_free_balance("// TODO(FALLBACK_COND): "@ + cond);
            lemma_line_balance(ind, "// TODO(FALLBACK_COND): "@ + cond);
            lemma_line_balance(ind, head + "false"@ + tail);
            lemma_balance_add(a, b);
        },
    }
}

/// The blocks open after the first `k` statements.
pub open spec fn open_blocks(stmts: Seq<IrStmtView>, k: nat) -> int
    decreases k,
{
    if k == 0 || k > stmts.len() {
        0
    } else {
        open_blocks(stmts, (k - 1) as nat) + block_step(stmts[k - 1])
    }
}

/// Every `ELSE`, `ENDIF` and `ENDDO` stands inside an open block.
pub open spec fn blocks_nest(stmts: Seq<IrStmtView>) -> bool {
    forall|k: int|
        0 <= k < stmts.len() && (#[trigger] stmts[k] is Else || stmts[k] is EndIf || stmts[k] is EndDo)
            ==> open_blocks(stmts, k as nat) >= 1
}

/// No text that the Java copies from a statement holds a brace.
pub open spec fn all_brace_free(stmts: Seq<IrStmtView>) -> bool {
    forall|j: int| 0 <= j < stmts.len() ==> stmt_free(#[trigger] stmts[j], '{') && stmt_free(stmts[j], '}')
}

proof fn lemma_emit_blocks(
    stmts: Seq<IrStmtView>,
    lines: Seq<usize>,
    base: nat,
    nm: Map<Seq<char>, Seq<char>>,
    tm: Map<Seq<char>, ValueType>,
    k: nat,
)
    requires
        k <= stmts.len(),
        blocks_nest(stmts),
        all_brace_free(stmts),
        names_free(nm, '{'),
        names_free(nm, '}'),
    ensures
        open_blocks(stmts, k) >= 0,
        emit_upto(stmts, lines, base, nm, tm, k).indent == 2 + open_blocks(stmts, k),
        brace_balance(emit_upto(stmts, lines, base, nm, tm, k).text) == open_blocks(stmts, k),
    decreases k,
{
    if k > 0 {
        lemma_emit_blocks(stmts, lines, base, nm, tm, (k - 1) as nat);
        let prev = emit_upto(stmts, lines, base, nm, tm, (k - 1) as nat);
        let s = stmts[k - 1];
        assert(stmt_free(s, '{') && stmt_free(s, '}'));
        if s is Else || s is EndIf || s is EndDo {
            assert(open_blocks(stmts, (k - 1) as nat) >= 1);
        }
        lemma_step_balance(prev.indent, s, nm, tm);
        lemma_balance_add(prev.text, step_text(prev.indent, s, nm, tm));
    }
}

proof fn lemma_helpers_balance()
    ensures
        brace_balance(java_helpers()) == -1,
        java_helpers().len() >= 2,
        java_helpers().subrange(java_helpers().len() - 2, java_helpers().len() as int) == "}\n"@,
{
    reveal_strlit("    private static void writeRecord(Object rec) {\n");
    reveal_strlit("        // TODO: replace with repository/output adapter\n");
    reveal_strlit("    }\n");
    reveal_strlit("\n");
    reveal_strlit("    private static void readRecord(Object rec) {\n");
    reveal_strlit("        // TODO: replace with repository/input adapter\n");
    reveal_strlit("    private static boolean truthy(Object v) {\n");
    reveal_strlit("        if (v == null) return false;\n");
    reveal_strlit("        if (v instanceof Boolean) return (Boolean) v;\n");
    reveal_strlit("        if (v instanceof Number) return ((Number) v).doubleValue() != 0.0;\n");
    reveal_strlit("        return !v.toString().isBlank();\n");
    reveal_strlit("}\n");
    lemma_opening("    private static void writeRecord(Object rec) {\n"@, 48);
    lemma_brace_free_balance("        // TODO: replace with repository/output adapter\n"@);
    lemma_closing("    }\n"@, 4);
    lemma_brace_free_balance("\n"@);
    lemma_opening("    private static void readRecord(Object rec) {\n"@, 47);
    lemma_brace_free_balance("        // TODO: replace with repository/input adapter\n"@);
    lemma_closing("    }\n"@, 4);
    lemma_brace_free_balance("\n"@);
    lemma_opening("    private static boolean truthy(Object v) {\n"@, 44);
    lemma_brace_free_balance("        if (v == null) return false;\n"@);
    lemma_brace_free_balance("        if (v instanceof Boolean) return (Boolean) v;\n"@);
    lemma_brace_free_balance("        if (v instanceof Number) return ((Number) v).doubleValue() != 0.0;\n"@);
    lemma_brace_free_balance("        return !v.toString().isBlank();\n"@);
    lemma_closing("    }\n"@, 4);
    lemma_closing("}\n"@, 0);
    let acc0 = "    private static void writeRecord(Object rec) {\n"@;
    lemma_balance_add(acc0, "        // TODO: replace with repository/output adapter\n"@);
    let acc1 = acc0 + "        // TODO: replace with repository/output adapter\n"@;
    lemma_balance_add(acc1, "    }\n"@);
    let acc2 = acc1 + "    }\n"@;
    lemma_balance_add(acc2, "\n"@);
    let acc3 = acc2 + "\n"@;
    lemma_balance_add(acc3, "    private static void readRecord(Object rec) {\n"@);
    let acc4 = acc3 + "    private static void readRecord(Object rec) {\n"@;
    lemma_balance_add(acc4, "        // TODO: replace with repository/input adapter\n"@);
    let acc5 = acc4 + "        // TODO: replace with repository/input adapter\n"@;
    lemma_balance_add(acc5, "    }\n"@);
    let acc6 = acc5 + "    }\n"@;
    lemma_balance_add(acc6, "\n"@);
    let acc7 = acc6 + "\n"@;
    lemma_balance_add(acc7, "    private static boolean truthy(Object v) {\n"@);
    let acc8 = acc7 + "    private static boolean truthy(Object v) {\n"@;
    lemma_balance_add(acc8, "        if (v == null) return false;\n"@);
    let acc9 = acc8 + "        if (v == null) return false;\n"@;
    lemma_balance_add(acc9, "        if (v instanceof Boolean) return (Boolean) v;\n"@);
    let acc10 = acc9 + "        if (v instanceof Boolean) return (Boolean) v;\n"@;
    lemma_balance_add(acc10, "        if (v instanceof Number) return ((Number) v).doubleValue() != 0.0;\n"@);
    let acc11 = acc10 + "        if (v instanceof Number) return ((Number) v).doubleValue() != 0.0;\n"@;
    lemma_balance_add(acc11, "        return !v.toString().isBlank();\n"@);
    let acc12 = acc11 + "        return !v.toString().isBlank();\n"@;
    lemma_balance_add(acc12, "    }\n"@);
    let acc13 = acc12 + "    }\n"@;
    lemma_balance_add(acc13, "}\n"@);
    let acc14 = acc13 + "}\n"@;
    assert(java_helpers() == acc14);
    reveal_strlit("}\n");
    let h = java_helpers();
    assert(h.subrange(h.len() - 2, h.len() as int) =~= "}\n"@);
}

proof fn lemma_closing_balance(indent: nat)
    requires
        indent >= 2,
    ensures
        brace_balance(closing_text(indent)) == -(indent - 2),
    decreases indent,
{
    if indent > 2 {
        lemma_closing_balance((indent - 1) as nat);
        lemma_closing(seq!['}'], 0);
        lemma_line_balance((indent - 1) as nat, seq!['}']);
        lemma_balance_add(java_line((indent - 1) as nat, seq!['}']), closing_text((indent - 1) as nat));
    }
}

proof fn lemma_stubs_balance(procs: Seq<Seq<char>>, k: nat)
    requires
        k <= procs.len(),
        forall|i: int| 0 <= i < procs.len() ==> brace_free(#[trigger] procs[i]),
    ensures
        brace_balance(method_stubs(procs, k)) == 0,
    decreases k,
{
    if k > 0 {
        lemma_stubs_balance(procs, (k - 1) as nat);
        let p = procs[k - 1];
        assert(brace_free(p));
        reveal_strlit("    private static void ");
        reveal_strlit("() {\n");
        reveal_strlit("        // TODO: migrated from CALLP\n");
        reveal_strlit("    }\n\n");
        lemma_brace_free_balance("    private static void "@);
        lemma_brace_free_balance(p);
        lemma_opening("() {\n"@, 3);
        lemma_brace_free_balance("        // TODO: migrated from CALLP\n"@);
        lemma_closing("    }\n\n"@, 4);
        lemma_add3("    private static void "@, p, "() {\n"@);
        lemma_add3("    private static void "@ + p + "() {\n"@, "        // TODO: migrated from CALLP\n"@, "    }\n\n"@);
        lemma_balance_add(method_stubs(procs, (k - 1) as nat), method_stub(p));
    }
}

proof fn lemma_decl_balance(syms: Seq<SymbolView>, nm: Map<Seq<char>, Seq<char>>, k: nat)
    requires
        k <= syms.len(),
        names_free(nm, '{'),
        names_free(nm, '}'),
    ensures
        brace_balance(decl_text(syms, nm, k)) == 0,
    decreases k,
{
    if k > 0 {
        lemma_decl_balance(syms, nm, (k - 1) as nat);
        let sy = syms[k - 1];
        reveal_strlit("double");
        reveal_strlit("String");
        reveal_strlit("boolean");
        reveal_strlit("Object");
        reveal_strlit(" = 0;");
        reveal_strlit(" = \"\";");
        reveal_strlit(" = false;");
        reveal_strlit(";");
        assert(brace_free(java_type(sy.ty)));
        assert(brace_free(java_init(sy.ty)));
        assert(brace_free(seq![' ']));
        lemma_map_ident_free(sy.name, nm, '{');
        lemma_map_ident_free(sy.name, nm, '}');
        let t = java_type(sy.ty) + seq![' '] + map_ident(sy.name, nm) + java_init(sy.ty);
        lemma_brace_free_balance(java_type(sy.ty));
        lemma_brace_free_balance(map_ident(sy.name, nm));
        lemma_brace_free_balance(java_init(sy.ty));
        lemma_brace_free_balance(seq![' ']);
        lemma_add3(java_type(sy.ty), seq![' '], map_ident(sy.name, nm));
        lemma_balance_add(java_type(sy.ty) + seq![' '] + map_ident(sy.name, nm), java_init(sy.ty));
        lemma_line_balance(2, t);
        lemma_balance_add(decl_text(syms, nm, (k - 1) as nat), java_line(2, t));
    }
}

proof fn lemma_head_balance(ir: IrProgram, class_name: Seq<char>)
    ensures
        brace_balance(class_head(ir, class_name)) == 2,
{
    let syms = symbol_views(ir.symbols@);
    let nm = program_names(ir, class_name);
    lemma_program_names_free(ir, class_name, '{');
    lemma_program_names_free(ir, class_name, '}');
    reveal_strlit("public class ");
    reveal_strlit(" {\n");
    reveal_strlit("    public static void main(String[] args) {\n");
    let a = "public class "@;
    let b = java_ident(class_name);
    let c = " {\n"@;
    let g = "    public static void main(String[] args) {\n"@;
    let h = decl_text(syms, nm, syms.len());
    let o = if syms.len() > 0 {
        seq!['\n']
    } else {
        seq![]
    };
    lemma_brace_free_balance(a);
    lemma_java_ident_free(class_name, '{');
    lemma_java_ident_free(class_name, '}');
    lemma_brace_free_balance(b);
    lemma_opening(c, 1);
    lemma_opening(g, 43);
    lemma_decl_balance(syms, nm, syms.len());
    lemma_brace_free_balance(o);
    lemma_add3(a, b, c);
    lemma_add3(a + b + c, g, h);
    lemma_balance_add(a + b + c + g + h, o);
    assert(class_head(ir, class_name) == a + b + c + g + h + o);
}

proof fn lemma_calls_free(
    stmts: Seq<IrStmtView>,
    lines: Seq<usize>,
    base: nat,
    nm: Map<Seq<char>, Seq<char>>,
    tm: Map<Seq<char>, ValueType>,
    k: nat,
)
    ensures
        forall|i: int|
            0 <= i < emit_upto(stmts, lines, base, nm, tm, k).calls.len() ==> brace_free(
                #[trigger] emit_upto(stmts, lines, base, nm, tm, k).calls[i],
            ),
    decreases k,
{
    if k > 0 && k <= stmts.len() {
        lemma_calls_free(stmts, lines, base, nm, tm, (k - 1) as nat);
        let prev = emit_upto(stmts, lines, base, nm, tm, (k - 1) as nat);
        let cur = emit_upto(stmts, lines, base, nm, tm, k);
        if let IrStmtView::Call { proc_name } = stmts[k - 1] {
            lemma_java_ident_free(proc_name, '{');
            lemma_java_ident_free(proc_name, '}');
        }
        assert forall|i: int| 0 <= i < cur.calls.len() implies brace_free(#[trigger] cur.calls[i]) by {
            if i < prev.calls.len() {
                assert(cur.calls[i] == prev.calls[i]);
            }
        }
    }
}

/// The end of the class closes the blocks still open, `main` and the class.
proof fn lemma_tail_balance(ir: IrProgram, class_name: Seq<char>)
    requires
        program_emit(ir, class_name).indent >= 2,
        forall|i: int|
            0 <= i < program_emit(ir, class_name).calls.len() ==> brace_free(
                #[trigger] program_emit(ir, class_name).calls[i],
            ),
    ensures
        brace_balance(class_tail(ir, class_name)) == -(program_emit(ir, class_name).indent - 2) - 2,
{
    let em = program_emit(ir, class_name);
    lemma_closing_balance(em.indent);
    lemma_call_stubs(ir, class_name);
    let procs = sorted_distinct(em.calls);
    assert forall|i: int| 0 <= i < procs.len() implies brace_free(#[trigger] procs[i]) by {
        assert(in_names(procs, procs[i]));
        assert(in_names(em.calls, procs[i]));
        let j = choose|j: int| 0 <= j < em.calls.len() && em.calls[j] == procs[i];
        assert(brace_free(em.calls[j]));
    }
    lemma_stubs_balance(procs, procs.len());
    lemma_helpers_balance();
    reveal_strlit("    }\n");
    lemma_closing("    }\n"@, 4);
    reveal_strlit("\n");
    lemma_brace_free_balance("\n"@);
    let ct = closing_text(em.indent);
    let st = method_stubs(procs, procs.len());
    lemma_add3(ct, "    }\n"@, "\n"@);
    lemma_add3(ct + "    }\n"@ + "\n"@, st, java_helpers());
    assert(class_tail(ir, class_name) == ct + "    }\n"@ + "\n"@ + st + java_helpers());
}

/// When every `ELSE`, `ENDIF` and `ENDDO` stands inside an open block and
/// the texts that the Java copies from the statements hold no braces, the
/// generated class opens as many braces as it closes (blocks left open at
/// the end are closed before `main` is), and its last line closes the class.
pub proof fn lemma_braces_balance(ir: IrProgram, class_name: Seq<char>, target: JavaTarget)
    requires
        blocks_nest(ir_views(ir.statements@)),
        all_brace_free(ir_views(ir.statements@)),
    ensures
        brace_balance(java_class(ir, class_name)) == 0,
        brace_balance(java_source(ir, class_name, target)) == 0,
        java_class(ir, class_name).len() >= 2,
        java_class(ir, class_name).subrange(
            java_class(ir, class_name).len() - 2,
            java_class(ir, class_name).len() as int,
        ) == "}\n"@,
{
    let stmts = ir_views(ir.statements@);
    let lines = ir.statement_lines@;
    let base = body_base(ir.symbols@.len());
    let nm = program_names(ir, class_name);
    let tm = program_types(ir);
    lemma_program_names_free(ir, class_name, '{');
    lemma_program_names_free(ir, class_name, '}');
    lemma_emit_blocks(stmts, lines, base, nm, tm, stmts.len());
    let em = program_emit(ir, class_name);
    lemma_head_balance(ir, class_name);
    lemma_calls_free(stmts, lines, base, nm, tm, stmts.len());
    lemma_tail_balance(ir, class_name);
    lemma_helpers_balance();
    lemma_add3(class_head(ir, class_name), em.text, class_tail(ir, class_name));
    reveal_strlit("// target=");
    reveal_strlit("java21");
    reveal_strlit("java25-stable");
    reveal_strlit("\n");
    assert(brace_free("// target="@) && brace_free(target.name()) && brace_free("\n"@));
    lemma_free3("// target="@, target.name(), "\n"@, '{');
    lemma_free3("// target="@, target.name(), "\n"@, '}');
    assert(brace_free(target_line(target)));
    lemma_brace_free_balance(target_line(target));
    lemma_balance_add(target_line(target), java_class(ir, class_name));
    let jc = java_class(ir, class_name);
    let h = java_helpers();
    assert(jc.subrange(jc.len() - 2, jc.len() as int) =~= h.subrange(h.len() - 2, h.len() as int));
}

// ------------------------------------------------------------------
// Braces never close more than they opened
// ------------------------------------------------------------------

/// Every prefix of `s` has a brace balance of at least `m`.
pub open spec fn prefix_low(s: Seq<char>, m: int) -> bool {
    forall|k: int| 0 <= k <= s.len() ==> brace_balance(#[trigger] s.take(k)) >= m
}

pub open spec fn min_int(a: int, b: int) -> int {
    if a <= b {
        a
    } else {
        b
    }
}

proof fn lemma_low_whole(s: Seq<char>, m: int)
    requires
        prefix_low(s, m),
    ensures
        brace_balance(s) >= m,
{
    assert(s.take(s.len() as int) =~= s);
}

proof fn lemma_low_concat(a: Seq<char>, b: Seq<char>, ma: int, mb: int)
    requires
        prefix_low(a, ma),
        prefix_low(b, mb),
    ensures
        prefix_low(a + b, min_int(ma, brace_balance(a) + mb)),
{
    let ab = a + b;
    assert forall|k: int| 0 <= k <= ab.len() implies brace_balance(#[trigger] ab.take(k)) >= min_int(
        ma,
        brace_balance(a) + mb,
    ) by {
        if k <= a.len() {
            assert(ab.take(k) =~= a.take(k));
        } else {
            let j = k - a.len();
            assert(ab.take(k) =~= a + b.take(j));
            lemma_balance_add(a, b.take(j));
            assert(brace_balance(b.take(j)) >= mb);
        }
    }
}

proof fn lemma_take_free(s: Seq<char>, k: int, c: char)
    requires
        free_of(s, c),
        0 <= k <= s.len(),
    ensures
        free_of(s.take(k), c),
{
    if contains_char(s.take(k), c) {
        let i = choose|i: int| 0 <= i < s.take(k).len() && s.take(k)[i] == c;
        assert(s[i] == c);
    }
}

/// A text without `}` never goes below zero.
proof fn lemma_low_no_close(s: Seq<char>)
    requires
        free_of(s, '}'),
    ensures
        prefix_low(s, 0),
{
    assert forall|k: int| 0 <= k <= s.len() implies brace_balance(#[trigger] s.take(k)) >= 0 by {
        lemma_take_free(s, k, '}');
        lemma_occ_none(s.take(k), '}');
    }
}

/// A text without `{` goes down by at most its closing braces.
proof fn lemma_low_no_open(s: Seq<char>)
    requires
        free_of(s, '{'),
    ensures
        prefix_low(s, -(occurrences(s, '}') as int)),
{
    assert forall|k: int| 0 <= k <= s.len() implies brace_balance(#[trigger] s.take(k)) >= -(occurrences(
        s,
        '}',
    ) as int) by {
        lemma_take_free(s, k, '{');
        lemma_occ_none(s.take(k), '{');
        assert(s =~= s.take(k) + s.skip(k));
        lemma_occ_add(s.take(k), s.skip(k), '}');
    }
}

/// A line of Java goes as low as its text, or to zero.
proof fn lemma_line_low(ind: nat, t: Seq<char>, m: int)
    requires
        prefix_low(t, m),
        m <= 0,
    ensures
        prefix_low(java_line(ind, t), m),
{
    lemma_spaces_brace_free(ind);
    lemma_brace_free_balance(spaces(ind));
    lemma_low_no_close(spaces(ind));
    lemma_low_concat(spaces(ind), t, 0, m);
    lemma_low_whole(t, m);
    lemma_balance_add(spaces(ind), t);
    assert(free_of(seq!['\n'], '}'));
    lemma_low_no_close(seq!['\n']);
    lemma_low_concat(spaces(ind) + t, seq!['\n'], m, 0);
}

/// How low the Java of a statement goes: a statement that closes a block goes
/// one below where it starts.
pub open spec fn block_low(s: IrStmtView) -> int {
    match s {
        IrStmtView::Else => -1,
        IrStmtView::EndIf => -1,
        IrStmtView::EndDo => -1,
        _ => 0,
    }
}

proof fn lemma_closing_line_low(ind: nat)
    ensures
        prefix_low(java_line(ind, seq!['}']), -1),
{
    assert(free_of(seq!['}'], '{'));
    lemma_low_no_open(seq!['}']);
    lemma_occ_one(seq!['}'], 0, '}');
    lemma_line_low(ind, seq!['}'], -1);
}

#[verifier::spinoff_prover]
proof fn lemma_step_low(ind: nat, s: IrStmtView, nm: Map<Seq<char>, Seq<char>>, tm: Map<Seq<char>, ValueType>)
    requires
        stmt_free(s, '{'),
        stmt_free(s, '}'),
        names_free(nm, '{'),
        names_free(nm, '}'),
    ensures
        prefix_low(step_text(ind, s, nm, tm), block_low(s)),
{
    lemma_pieces_free(s, nm, tm, '}');
    match s {
        IrStmtView::Else => {
            reveal_strlit("} else {");
            reveal_strlit(" else {");
            let t = "} else {"@;
            assert(t =~= seq!['}'] + " else {"@);
            assert(free_of(seq!['}'], '{'));
            lemma_low_no_open(seq!['}']);
            lemma_occ_one(seq!['}'], 0, '}');
            lemma_closing(seq!['}'], 0);
            assert(free_of(" else {"@, '}'));
            lemma_low_no_close(" else {"@);
            lemma_low_concat(seq!['}'], " else {"@, -1, 0);
            lemma_line_low(dedent(ind), t, -1);
        },
        IrStmtView::EndIf => {
            lemma_closing_line_low(dedent(ind));
        },
        IrStmtView::EndDo => {
            lemma_closing_line_low(dedent(ind));
        },
        IrStmtView::If { cond } => {
            reveal_strlit("if (");
            reveal_strlit(") {");
            assert(free_of("if ("@, '}') && free_of(") {"@, '}'));
            lemma_cond_no_close(ind, "if ("@, ") {"@, translate_cond(cond, nm, tm), cond);
        },
        IrStmtView::DoUntil { cond } => {
            reveal_strlit("while (!(");
            reveal_strlit(")) {");
            assert(free_of("while (!("@, '}') && free_of(")) {"@, '}'));
            lemma_cond_no_close(ind, "while (!("@, ")) {"@, translate_cond(cond, nm, tm), cond);
        },
        _ => {
            lemma_spaces_brace_free(ind);
            let t = step_text(ind, s, nm, tm);
            assert(free_of(t, '}')) by {
                match s {
                    IrStmtView::Assign { left, right } => {
                        lemma_free3(spaces(ind), assign_text(left, right, nm, tm), seq!['\n'], '}');
                    },
                    IrStmtView::Call { proc_name } => {
                        lemma_free3(spaces(ind), proc_ident(proc_name) + "();"@, seq!['\n'], '}');
                    },
                    IrStmtView::Write { target } => {
                        lemma_free3(spaces(ind), "writeRecord("@ + map_ident(target, nm) + ");"@, seq!['\n'], '}');
                    },
                    IrStmtView::Read { target } => {
                        lemma_free3(spaces(ind), "readRecord("@ + map_ident(target, nm) + ");"@, seq!['\n'], '}');
                    },
                    IrStmtView::Todo { op, src } => {
                        lemma_free3(spaces(ind), todo_comment(op, src), seq!['\n'], '}');
                    },
                    _ => {},
                }
            }
            lemma_low_no_close(t);
        },
    }
}

/// The lines that open a block on a condition hold no `}`.
proof fn lemma_cond_no_close(ind: nat, head: Seq<char>, tail: Seq<char>, tr: Option<Seq<char>>, cond: Seq<char>)
    requires
        free_of(head, '}'),
        free_of(tail, '}'),
        tr matches Some(x) ==> free_of(x, '}'),
        free_of("// TODO(FALLBACK_COND): "@ + cond, '}'),
    ensures
        prefix_low(cond_lines(ind, head, tail, tr, cond), 0),
{
    lemma_spaces_brace_free(ind);
    assert(free_of(seq!['\n'], '}'));
    match tr {
        Some(c) => {
            lemma_free3(head, c, tail, '}');
            lemma_free3(spaces(ind), head + c + tail, seq!['\n'], '}');
        },
        None => {
            reveal_strlit("false");
            assert(free_of("false"@, '}'));
            lemma_free3(head, "false"@, tail, '}');
            lemma_free3(spaces(ind), "// TODO(FALLBACK_COND): "@ + cond, seq!['\n'], '}');
            lemma_free3(spaces(ind), head + "false"@ + tail, seq!['\n'], '}');
            lemma_contains_char_add(
                java_line(ind, "// TODO(FALLBACK_COND): "@ + cond),
                java_line(ind, head + "false"@ + tail),
                '}',
            );
        },
    }
    lemma_low_no_close(cond_lines(ind, head, tail, tr, cond));
}

proof fn lemma_emit_low(
    stmts: Seq<IrStmtView>,
    lines: Seq<usize>,
    base: nat,
    nm: Map<Seq<char>, Seq<char>>,
    tm: Map<Seq<char>, ValueType>,
    k: nat,
)
    requires
        k <= stmts.len(),
        blocks_nest(stmts),
        all_brace_free(stmts),
        names_free(nm, '{'),
        names_free(nm, '}'),
    ensures
        prefix_low(emit_upto(stmts, lines, base, nm, tm, k).text, 0),
    decreases k,
{
    if k == 0 {
        lemma_low_no_close(emit_upto(stmts, lines, base, nm, tm, k).text);
    } else {
        lemma_emit_low(stmts, lines, base, nm, tm, (k - 1) as nat);
        lemma_emit_blocks(stmts, lines, base, nm, tm, (k - 1) as nat);
        let prev = emit_upto(stmts, lines, base, nm, tm, (k - 1) as nat);
        let s = stmts[k - 1];
        assert(stmt_free(s, '{') && stmt_free(s, '}'));
        if s is Else || s is EndIf || s is EndDo {
            assert(open_blocks(stmts, (k - 1) as nat) >= 1);
        }
        lemma_step_low(prev.indent, s, nm, tm);
        lemma_low_concat(prev.text, step_text(prev.indent, s, nm, tm), 0, block_low(s));
    }
}

proof fn lemma_closing_low(indent: nat)
    requires
        indent >= 2,
    ensures
        prefix_low(closing_text(indent), -(indent - 2)),
    decreases indent,
{
    if indent > 2 {
        lemma_closing_low((indent - 1) as nat);
        lemma_closing_line_low((indent - 1) as nat);
        lemma_closing(seq!['}'], 0);
        lemma_line_balance((indent - 1) as nat, seq!['}']);
        lemma_low_concat(
            java_line((indent - 1) as nat, seq!['}']),
            closing_text((indent - 1) as nat),
            -1,
            -(indent - 3),
        );
    } else {
        lemma_low_no_close(closing_text(indent));
    }
}

proof fn lemma_stubs_low(procs: Seq<Seq<char>>, k: nat)
    requires
        k <= procs.len(),
        forall|i: int| 0 <= i < procs.len() ==> brace_free(#[trigger] procs[i]),
    ensures
        prefix_low(method_stubs(procs, k), 0),
    decreases k,
{
    if k == 0 {
        lemma_low_no_close(method_stubs(procs, k));
    } else {
        lemma_stubs_low(procs, (k - 1) as nat);
        lemma_stubs_balance(procs, (k - 1) as nat);
        let p = procs[k - 1];
        assert(brace_free(p));
        reveal_strlit("    private static void ");
        reveal_strlit("() {\n");
        reveal_strlit("        // TODO: migrated from CALLP\n");
        reveal_strlit("    }\n\n");
        let a = "    private static void "@ + p + "() {\n"@ + "        // TODO: migrated from CALLP\n"@;
        assert(free_of("    private static void "@, '}'));
        assert(free_of("() {\n"@, '}'));
        assert(free_of("        // TODO: migrated from CALLP\n"@, '}'));
        lemma_free3("    private static void "@, p, "() {\n"@, '}');
        lemma_contains_char_add("    private static void "@ + p + "() {\n"@, "        // TODO: migrated from CALLP\n"@, '}');
        lemma_low_no_close(a);
        lemma_brace_free_balance("    private static void "@);
        lemma_brace_free_balance(p);
        lemma_opening("() {\n"@, 3);
        lemma_brace_free_balance("        // TODO: migrated from CALLP\n"@);
        lemma_add3("    private static void "@, p, "() {\n"@);
        lemma_balance_add("    private static void "@ + p + "() {\n"@, "        // TODO: migrated from CALLP\n"@);
        assert(free_of("    }\n\n"@, '{'));
        lemma_low_no_open("    }\n\n"@);
        lemma_occ_one("    }\n\n"@, 4, '}');
        lemma_low_concat(a, "    }\n\n"@, 0, -1);
        assert(method_stub(p) == a + "    }\n\n"@);
        lemma_low_concat(method_stubs(procs, (k - 1) as nat), method_stub(p), 0, 0);
    }
}

proof fn lemma_helpers_low()
    ensures
        prefix_low(java_helpers(), -1),
{
    reveal_strlit("    private static void writeRecord(Object rec) {\n");
    reveal_strlit("        // TODO: replace with repository/output adapter\n");
    reveal_strlit("    }\n");
    reveal_strlit("\n");
    reveal_strlit("    private static void readRecord(Object rec) {\n");
    reveal_strlit("        // TODO: replace with repository/input adapter\n");
    reveal_strlit("    private static boolean truthy(Object v) {\n");
    reveal_strlit("        if (v == null) return false;\n");
    reveal_strlit("        if (v instanceof Boolean) return (Boolean) v;\n");
    reveal_strlit("        if (v instanceof Number) return ((Number) v).doubleValue() != 0.0;\n");
    reveal_strlit("        return !v.toString().isBlank();\n");
    reveal_strlit("}\n");
    lemma_opening("    private static void writeRecord(Object rec) {\n"@, 48);
    lemma_low_no_close("    private static void writeRecord(Object rec) {\n"@);
    lemma_brace_free_balance("        // TODO: replace with repository/output adapter\n"@);
    lemma_low_no_close("        // TODO: replace with repository/output adapter\n"@);
    lemma_closing("    }\n"@, 4);
    lemma_low_no_open("    }\n"@);
    lemma_occ_one("    }\n"@, 4, '}');
    lemma_brace_free_balance("\n"@);
    lemma_low_no_close("\n"@);
    lemma_opening("    private static void readRecord(Object rec) {\n"@, 47);
    lemma_low_no_close("    private static void readRecord(Object rec) {\n"@);
    lemma_brace_free_balance("        // TODO: replace with repository/input adapter\n"@);
    lemma_low_no_close("        // TODO: replace with repository/input adapter\n"@);
    lemma_closing("    }\n"@, 4);
    lemma_low_no_open("    }\n"@);
    lemma_occ_one("    }\n"@, 4, '}');
    lemma_brace_free_balance("\n"@);
    lemma_low_no_close("\n"@);
    lemma_opening("    private static boolean truthy(Object v) {\n"@, 44);
    lemma_low_no_close("    private static boolean truthy(Object v) {\n"@);
    lemma_brace_free_balance("        if (v == null) return false;\n"@);
    lemma_low_no_close("        if (v == null) return false;\n"@);
    lemma_brace_free_balance("        if (v instanceof Boolean) return (Boolean) v;\n"@);
    lemma_low_no_close("        if (v instanceof Boolean) return (Boolean) v;\n"@);
    lemma_brace_free_balance("        if (v instanceof Number) return ((Number) v).doubleValue() != 0.0;\n"@);
    lemma_low_no_close("        if (v instanceof Number) return ((Number) v).doubleValue() != 0.0;\n"@);
    lemma_brace_free_balance("        return !v.toString().isBlank();\n"@);
    lemma_low_no_close("        return !v.toString().isBlank();\n"@);
    lemma_closing("    }\n"@, 4);
    lemma_low_no_open("    }\n"@);
    lemma_occ_one("    }\n"@, 4, '}');
    lemma_closing("}\n"@, 0);
    lemma_low_no_open("}\n"@);
    lemma_occ_one("}\n"@, 0, '}');
    let acc0 = "    private static void writeRecord(Object rec) {\n"@;
    lemma_low_concat(acc0, "        // TODO: replace with repository/output adapter\n"@, 0, 0);
    lemma_balance_add(acc0, "        // TODO: replace with repository/output adapter\n"@);
    let acc1 = acc0 + "        // TODO: replace with repository/output adapter\n"@;
    assert(prefix_low(acc1, 0));
    lemma_low_concat(acc1, "    }\n"@, 0, -1);
    lemma_balance_add(acc1, "    }\n"@);
    let acc2 = acc1 + "    }\n"@;
    assert(prefix_low(acc2, 0));
    lemma_low_concat(acc2, "\n"@, 0, 0);
    lemma_balance_add(acc2, "\n"@);
    let acc3 = acc2 + "\n"@;
    assert(prefix_low(acc3, 0));
    lemma_low_concat(acc3, "    private static void readRecord(Object rec) {\n"@, 0, 0);
    lemma_balance_add(acc3, "    private static void readRecord(Object rec) {\n"@);
    let acc4 = acc3 + "    private static void readRecord(Object rec) {\n"@;
    assert(prefix_low(acc4, 0));
    lemma_low_concat(acc4, "        // TODO: replace with repository/input adapter\n"@, 0, 0);
    lemma_balance_add(acc4, "        // TODO: replace with repository/input adapter\n"@);
    let acc5 = acc4 + "        // TODO: replace with repository/input adapter\n"@;
    assert(prefix_low(acc5, 0));
    lemma_low_concat(acc5, "    }\n"@, 0, -1);
    lemma_balance_add(acc5, "    }\n"@);
    let acc6 = acc5 + "    }\n"@;
    assert(prefix_low(acc6, 0));
    lemma_low_concat(acc6, "\n"@, 0, 0);
    lemma_balance_add(acc6, "\n"@);
    let acc7 = acc6 + "\n"@;
    assert(prefix_low(acc7, 0));
    lemma_low_concat(acc7, "    private static boolean truthy(Object v) {\n"@, 0, 0);
    lemma_balance_add(acc7, "    private static boolean truthy(Object v) {\n"@);
    let acc8 = acc7 + "    private static boolean truthy(Object v) {\n"@;
    assert(prefix_low(acc8, 0));
    lemma_low_concat(acc8, "        if (v == null) return false;\n"@, 0, 0);
    lemma_balance_add(acc8, "        if (v == null) return false;\n"@);
    let acc9 = acc8 + "        if (v == null) return false;\n"@;
    assert(prefix_low(acc9, 0));
    lemma_low_concat(acc9, "        if (v instanceof Boolean) return (Boolean) v;\n"@, 0, 0);
    lemma_balance_add(acc9, "        if (v instanceof Boolean) return (Boolean) v;\n"@);
    let acc10 = acc9 + "        if (v instanceof Boolean) return (Boolean) v;\n"@;
    assert(prefix_low(acc10, 0));
    lemma_low_concat(acc10, "        if (v instanceof Number) return ((Number) v).doubleValue() != 0.0;\n"@, 0, 0);
    lemma_balance_add(acc10, "        if (v instanceof Number) return ((Number) v).doubleValue() != 0.0;\n"@);
    let acc11 = acc10 + "        if (v instanceof Number) return ((Number) v).doubleValue() != 0.0;\n"@;
    assert(prefix_low(acc11, 0));
    lemma_low_concat(acc11, "        return !v.toString().isBlank();\n"@, 0, 0);
    lemma_balance_add(acc11, "        return !v.toString().isBlank();\n"@);
    let acc12 = acc11 + "        return !v.toString().isBlank();\n"@;
    assert(prefix_low(acc12, 0));
    lemma_low_concat(acc12, "    }\n"@, 0, -1);
    lemma_balance_add(acc12, "    }\n"@);
    let acc13 = acc12 + "    }\n"@;
    assert(prefix_low(acc13, 0));
    lemma_low_concat(acc13, "}\n"@, 0, -1);
    lemma_balance_add(acc13, "}\n"@);
    let acc14 = acc13 + "}\n"@;
    assert(prefix_low(acc14, -1));
    assert(java_helpers() == acc14);
}

proof fn lemma_decl_no_close(syms: Seq<SymbolView>, nm: Map<Seq<char>, Seq<char>>, k: nat)
    requires
        k <= syms.len(),
        names_free(nm, '}'),
    ensures
        free_of(decl_text(syms, nm, k), '}'),
    decreases k,
{
    if k > 0 {
        lemma_decl_no_close(syms, nm, (k - 1) as nat);
        let sy = syms[k - 1];
        reveal_strlit("double");
        reveal_strlit("String");
        reveal_strlit("boolean");
        reveal_strlit("Object");
        reveal_strlit(" = 0;");
        reveal_strlit(" = \"\";");
        reveal_strlit(" = false;");
        reveal_strlit(";");
        assert(free_of(java_type(sy.ty), '}'));
        assert(free_of(java_init(sy.ty), '}'));
        assert(free_of(seq![' '], '}'));
        assert(free_of(seq!['\n'], '}'));
        lemma_map_ident_free(sy.name, nm, '}');
        lemma_spaces_brace_free(2);
        lemma_free3(java_type(sy.ty), seq![' '], map_ident(sy.name, nm), '}');
        let t = java_type(sy.ty) + seq![' '] + map_ident(sy.name, nm) + java_init(sy.ty);
        lemma_contains_char_add(java_type(sy.ty) + seq![' '] + map_ident(sy.name, nm), java_init(sy.ty), '}');
        lemma_free3(spaces(2), t, seq!['\n'], '}');
        lemma_contains_char_add(decl_text(syms, nm, (k - 1) as nat), java_line(2, t), '}');
    }
}

proof fn lemma_head_low(ir: IrProgram, class_name: Seq<char>)
    ensures
        prefix_low(class_head(ir, class_name), 0),
{
    let syms = symbol_views(ir.symbols@);
    let nm = program_names(ir, class_name);
    lemma_program_names_free(ir, class_name, '}');
    reveal_strlit("public class ");
    reveal_strlit(" {\n");
    reveal_strlit("    public static void main(String[] args) {\n");
    let a = "public class "@;
    let b = java_ident(class_name);
    let c = " {\n"@;
    let g = "    public static void main(String[] args) {\n"@;
    let h = decl_text(syms, nm, syms.len());
    let o = if syms.len() > 0 {
        seq!['\n']
    } else {
        seq![]
    };
    assert(free_of(a, '}') && free_of(c, '}') && free_of(g, '}') && free_of(o, '}'));
    lemma_java_ident_free(class_name, '}');
    lemma_decl_no_close(syms, nm, syms.len());
    lemma_free3(a, b, c, '}');
    lemma_free3(a + b + c, g, h, '}');
    lemma_contains_char_add(a + b + c + g + h, o, '}');
    assert(class_head(ir, class_name) == a + b + c + g + h + o);
    lemma_low_no_close(class_head(ir, class_name));
}

proof fn lemma_tail_low(ir: IrProgram, class_name: Seq<char>)
    requires
        program_emit(ir, class_name).indent >= 2,
        forall|i: int|
            0 <= i < program_emit(ir, class_name).calls.len() ==> brace_free(
                #[trigger] program_emit(ir, class_name).calls[i],
            ),
    ensures
        prefix_low(class_tail(ir, class_name), -(program_emit(ir, class_name).indent - 2) - 2),
{
    let em = program_emit(ir, class_name);
    let d = em.indent - 2;
    lemma_closing_low(em.indent);
    lemma_closing_balance(em.indent);
    lemma_call_stubs(ir, class_name);
    let procs = sorted_distinct(em.calls);
    assert forall|i: int| 0 <= i < procs.len() implies brace_free(#[trigger] procs[i]) by {
        assert(in_names(procs, procs[i]));
        assert(in_names(em.calls, procs[i]));
        let j = choose|j: int| 0 <= j < em.calls.len() && em.calls[j] == procs[i];
        assert(brace_free(em.calls[j]));
    }
    lemma_stubs_low(procs, procs.len());
    lemma_stubs_balance(procs, procs.len());
    lemma_helpers_low();
    reveal_strlit("    }\n");
    reveal_strlit("\n");
    lemma_closing("    }\n"@, 4);
    assert(free_of("    }\n"@, '{'));
    lemma_low_no_open("    }\n"@);
    lemma_occ_one("    }\n"@, 4, '}');
    assert(free_of("\n"@, '}'));
    lemma_low_no_close("\n"@);
    lemma_brace_free_balance("\n"@);
    let ct = closing_text(em.indent);
    let st = method_stubs(procs, procs.len());
    lemma_low_concat(ct, "    }\n"@, -d, -1);
    lemma_balance_add(ct, "    }\n"@);
    lemma_low_concat(ct + "    }\n"@, "\n"@, -d - 1, 0);
    lemma_balance_add(ct + "    }\n"@, "\n"@);
    lemma_low_concat(ct + "    }\n"@ + "\n"@, st, -d - 1, 0);
    lemma_balance_add(ct + "    }\n"@ + "\n"@, st);
    lemma_low_concat(ct + "    }\n"@ + "\n"@ + st, java_helpers(), -d - 1, -1);
    assert(class_tail(ir, class_name) == ct + "    }\n"@ + "\n"@ + st + java_helpers());
}

/// The generated class never closes a brace it has not opened: under the
/// conditions of `lemma_braces_balance`, every prefix of the class, and of the
/// file with its target line, opens at least as many braces as it closes.
pub proof fn lemma_braces_nest(ir: IrProgram, class_name: Seq<char>, target: JavaTarget)
    requires
        blocks_nest(ir_views(ir.statements@)),
        all_brace_free(ir_views(ir.statements@)),
    ensures
        prefix_low(java_class(ir, class_name), 0),
        prefix_low(java_source(ir, class_name, target), 0),
{
    let stmts = ir_views(ir.statements@);
    let lines = ir.statement_lines@;
    let base = body_base(ir.symbols@.len());
    let nm = program_names(ir, class_name);
    let tm = program_types(ir);
    lemma_program_names_free(ir, class_name, '{');
    lemma_program_names_free(ir, class_name, '}');
    lemma_emit_blocks(stmts, lines, base, nm, tm, stmts.len());
    lemma_emit_low(stmts, lines, base, nm, tm, stmts.len());
    lemma_calls_free(stmts, lines, base, nm, tm, stmts.len());
    let em = program_emit(ir, class_name);
    let d = em.indent - 2;
    lemma_head_low(ir, class_name);
    lemma_head_balance(ir, class_name);
    lemma_tail_low(ir, class_name);
    let head = class_head(ir, class_name);
    lemma_low_concat(head, em.text, 0, 0);
    lemma_balance_add(head, em.text);
    lemma_low_concat(head + em.text, class_tail(ir, class_name), 0, -d - 2);
    reveal_strlit("// target=");
    reveal_strlit("java21");
    reveal_strlit("java25-stable");
    reveal_strlit("\n");
    assert(brace_free("// target="@) && brace_free(target.name()) && brace_free("\n"@));
    lemma_free3("// target="@, target.name(), "\n"@, '{');
    lemma_free3("// target="@, target.name(), "\n"@, '}');
    lemma_low_no_close(target_line(target));
    lemma_brace_free_balance(target_line(target));
    lemma_low_concat(target_line(target), java_class(ir, class_name), 0, 0);
}


/// Where statement `i` stands in the file, its Java text is followed by a
/// line break.
proof fn lemma_statement_text_in_file(
    ir: IrProgram,
    class_name: Seq<char>,
    target: JavaTarget,
    i: nat,
    text: Seq<char>,
)
    requires
        i < ir.statements@.len(),
        ir.statements@.len() < usize::MAX / 4,
        ir.symbols@.len() < usize::MAX / 4,
        all_single_line(ir_views(ir.statements@)),
        statement_java(ir, class_name, i) == java_line(program_emit_upto(ir, class_name, i).indent, text),
    ensures
        has_part(java_source(ir, class_name, target), text + seq!['\n']),
{
    lemma_source_map_lines(ir, class_name, target, i);
    let src = java_source(ir, class_name, target);
    let start = statement_start(ir, class_name, target, i) as int;
    let sj = statement_java(ir, class_name, i);
    assert(src.subrange(start, start + sj.len()) == sj);
    assert(has_part(src, sj));
    let pad = spaces(program_emit_upto(ir, class_name, i).indent);
    assert(sj =~= pad + (text + seq!['\n']));
    lemma_has_part_ends(pad, text + seq!['\n']);
    lemma_has_part_trans(src, sj, text + seq!['\n']);
}

/// The Java of a record statement or a call: the generated file holds, on
/// a line of its own, `readRecord(NAME);` for a `READ`, `writeRecord(NAME);`
/// for a `WRITE` (NAME being the Java name of the record or file), and
/// `PROC();` for a call (same conditions as above).
pub proof fn lemma_record_and_call_java(ir: IrProgram, class_name: Seq<char>, target: JavaTarget, i: nat)
    requires
        i < ir.statements@.len(),
        ir.statements@.len() < usize::MAX / 4,
        ir.symbols@.len() < usize::MAX / 4,
        all_single_line(ir_views(ir.statements@)),
    ensures
        forall|t: Seq<char>|
            ir_views(ir.statements@)[i as int] == (IrStmtView::Read { target: t }) ==> has_part(
                java_source(ir, class_name, target),
                #[trigger] ("readRecord("@ + map_ident(t, program_names(ir, class_name)) + ");"@ + seq!['\n']),
            ),
        forall|t: Seq<char>|
            ir_views(ir.statements@)[i as int] == (IrStmtView::Write { target: t }) ==> has_part(
                java_source(ir, class_name, target),
                #[trigger] ("writeRecord("@ + map_ident(t, program_names(ir, class_name)) + ");"@ + seq!['\n']),
            ),
        forall|p: Seq<char>|
            ir_views(ir.statements@)[i as int] == (IrStmtView::Call { proc_name: p }) ==> has_part(
                java_source(ir, class_name, target),
                #[trigger] (proc_ident(p) + "();"@ + seq!['\n']),
            ),
{
    let st = ir_views(ir.statements@)[i as int];
    let nm = program_names(ir, class_name);
    match st {
        IrStmtView::Read { target: t } => {
            let text = "readRecord("@ + map_ident(t, nm) + ");"@;
            lemma_statement_text_in_file(ir, class_name, target, i, text);
        },
        IrStmtView::Write { target: t } => {
            let text = "writeRecord("@ + map_ident(t, nm) + ");"@;
            lemma_statement_text_in_file(ir, class_name, target, i, text);
        },
        IrStmtView::Call { proc_name: p } => {
            let text = proc_ident(p) + "();"@;
            lemma_statement_text_in_file(ir, class_name, target, i, text);
        },
        _ => {},
    }
}

/// The declaration a symbol of the given type gets in `main`: numbers are
/// `double` starting at 0, text is a `String` starting empty, booleans start
/// `false`, and a symbol of unknown type is an `Object`.
pub open spec fn declaration_of(t: ValueType, name: Seq<char>) -> Seq<char> {
    match t {
        ValueType::Number => "double"@ + seq![' '] + name + " = 0;"@,
        ValueType::Text => "String"@ + seq![' '] + name + " = \"\";"@,
        ValueType::Bool => "boolean"@ + seq![' '] + name + " = false;"@,
        ValueType::Unknown => "Object"@ + seq![' '] + name + ";"@,
    }
}

proof fn lemma_decl_in_text(syms: Seq<SymbolView>, nm: Map<Seq<char>, Seq<char>>, k: nat, i: int)
    requires
        0 <= i < k <= syms.len(),
    ensures
        has_part(decl_text(syms, nm, k), declaration_of(syms[i].ty, map_ident(syms[i].name, nm))),
    decreases k,
{
    let prev = decl_text(syms, nm, (k - 1) as nat);
    let s = syms[k - 1];
    let text = java_type(s.ty) + seq![' '] + map_ident(s.name, nm) + java_init(s.ty);
    let line = java_line(2, text);
    if i == k - 1 {
        assert(text == declaration_of(s.ty, map_ident(s.name, nm)));
        lemma_has_part_mid(spaces(2), text, seq!['\n']);
        lemma_has_part_ends(prev, line);
        lemma_has_part_trans(prev + line, line, text);
    } else {
        lemma_decl_in_text(syms, nm, (k - 1) as nat, i);
        lemma_has_part_grow(prev, line, declaration_of(syms[i].ty, map_ident(syms[i].name, nm)));
    }
}

/// Every symbol is declared in `main` with the Java type and start value of
/// its inferred type, under its Java name.
pub proof fn lemma_symbol_declarations(ir: IrProgram, class_name: Seq<char>, i: int)
    requires
        0 <= i < ir.symbols@.len(),
    ensures
        has_part(
            java_class(ir, class_name),
            declaration_of(
                symbol_views(ir.symbols@)[i].ty,
                map_ident(symbol_views(ir.symbols@)[i].name, program_names(ir, class_name)),
            ),
        ),
{
    let syms = symbol_views(ir.symbols@);
    let nm = program_names(ir, class_name);
    let d = decl_text(syms, nm, syms.len());
    let decl = declaration_of(syms[i].ty, map_ident(syms[i].name, nm));
    lemma_decl_in_text(syms, nm, syms.len(), i);
    let before = "public class "@ + java_ident(class_name) + " {\n"@ + "    public static void main(String[] args) {\n"@;
    let after = if syms.len() > 0 {
        seq!['\n']
    } else {
        seq![]
    };
    lemma_has_part_mid(before, d, after);
    lemma_has_part_trans(class_head(ir, class_name), d, decl);
    let rest = program_emit(ir, class_name).text + class_tail(ir, class_name);
    assert(java_class(ir, class_name) =~= class_head(ir, class_name) + rest);
    lemma_has_part_grow(class_head(ir, class_name), rest, decl);
}
} // verus!
