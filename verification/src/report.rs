//! Migration reports: JSON, Markdown, HTML and source maps.
use vstd::prelude::*;
use crate::ir::{IrProgram, IrStmt, IrStmtView, SymbolInfo, SymbolView, ValueType, ir_matches, ir_stmt_of, ir_views, symbol_views};
use crate::parser::{Diagnostic, DiagnosticView, OperationStat, OperationStatView, Program, StmtView, SubroutineRoute, SubroutineRouteView, SupportLevel, diag_views, route_views, stat_views, stmt_views};
use crate::text::{char_replaced, chars_of, contains, contains_char, decimal, extend, extend_str, has_part, join_chars, join_sep, lemma_has_part_ends, lemma_has_part_grow, lemma_has_part_mid, lemma_has_part_self, lemma_has_part_trans, lemma_replace_char_absent, lemma_replace_char_add, lemma_replace_char_push, lemma_replace_from_absent, lemma_replace_from_removes, lemma_seq_lt_asym, lemma_seq_lt_trans, lemma_starts_with_grow, lt_chars, push_decimal, replace, replace_chars, seq_lt, signed_decimal, signed_decimal_chars, starts_with, string_of, views};
use crate::transpiler::{SourceMapEntry, SourceMapEntryView, java_line, map_views};
use std::path::Path;

verus! {

#[derive(Debug, Clone)]
pub struct JavacCheckSummary {
    pub command: String,
    pub success: bool,
    pub exit_code: Option<i32>,
    pub detail: String,
}

pub struct JavacCheckView {
    pub command: Seq<char>,
    pub success: bool,
    pub exit_code: Option<i32>,
    pub detail: Seq<char>,
}

impl View for JavacCheckSummary {
    type V = JavacCheckView;

    open spec fn view(&self) -> JavacCheckView {
        JavacCheckView {
            command: self.command@,
            success: self.success,
            exit_code: self.exit_code,
            detail: self.detail@,
        }
    }
}

// ------------------------------------------------------------------
// Escaping and small renderings
// ------------------------------------------------------------------

/// Backslashes, double quotes and line feeds escaped for a JSON string.
pub open spec fn escape_json(v: Seq<char>) -> Seq<char> {
    replace(replace(replace(v, seq!['\\'], seq!['\\', '\\']), seq!['"'], seq!['\\', '"']), seq!['\n'], seq!['\\', 'n'])
}

/// `&`, `<`, `>` and `"` as HTML entities.
pub open spec fn escape_html(v: Seq<char>) -> Seq<char> {
    replace(
        replace(replace(replace(v, seq!['&'], "&amp;"@), seq!['<'], "&lt;"@), seq!['>'], "&gt;"@),
        seq!['"'],
        "&quot;"@,
    )
}

fn one(c: char) -> (r: Vec<char>)
    ensures
        r@ == seq![c],
{
    let mut r: Vec<char> = Vec::new();
    r.push(c);
    assert(r@ =~= seq![c]);
    r
}

fn two(a: char, b: char) -> (r: Vec<char>)
    ensures
        r@ == seq![a, b],
{
    let mut r: Vec<char> = Vec::new();
    r.push(a);
    r.push(b);
    assert(r@ =~= seq![a, b]);
    r
}

pub fn escape_json_chars(v: &Vec<char>) -> (r: Vec<char>)
    ensures
        r@ == escape_json(v@),
{
    let a = replace_chars(v, &one('\\'), &two('\\', '\\'));
    let b = replace_chars(&a, &one('"'), &two('\\', '"'));
    replace_chars(&b, &one('\n'), &two('\\', 'n'))
}

pub fn escape_html_chars(v: &Vec<char>) -> (r: Vec<char>)
    ensures
        r@ == escape_html(v@),
{
    let a = replace_chars(v, &one('&'), &chars_of("&amp;"));
    let b = replace_chars(&a, &one('<'), &chars_of("&lt;"));
    let c = replace_chars(&b, &one('>'), &chars_of("&gt;"));
    replace_chars(&c, &one('"'), &chars_of("&quot;"))
}

pub fn escape_json_str(v: &str) -> (r: Vec<char>)
    ensures
        r@ == escape_json(v@),
{
    escape_json_chars(&chars_of(v))
}

pub fn escape_html_str(v: &str) -> (r: Vec<char>)
    ensures
        r@ == escape_html(v@),
{
    escape_html_chars(&chars_of(v))
}

pub open spec fn level_name(l: SupportLevel) -> Seq<char> {
    match l {
        SupportLevel::Implemented => "implemented"@,
        SupportLevel::Stub => "stub"@,
        SupportLevel::Planned => "planned"@,
    }
}

pub fn level_name_str(l: SupportLevel) -> (r: &'static str)
    ensures
        r@ == level_name(l),
{
    match l {
        SupportLevel::Implemented => "implemented",
        SupportLevel::Stub => "stub",
        SupportLevel::Planned => "planned",
    }
}

pub open spec fn value_type_name(t: ValueType) -> Seq<char> {
    match t {
        ValueType::Number => "number"@,
        ValueType::Text => "text"@,
        ValueType::Bool => "bool"@,
        ValueType::Unknown => "unknown"@,
    }
}

pub fn value_type_name_str(t: ValueType) -> (r: &'static str)
    ensures
        r@ == value_type_name(t),
{
    match t {
        ValueType::Number => "number",
        ValueType::Text => "text",
        ValueType::Bool => "bool",
        ValueType::Unknown => "unknown",
    }
}

/// A number, or `null` in JSON.
pub open spec fn opt_usize_json(v: Option<usize>) -> Seq<char> {
    match v {
        Some(n) => decimal(n as nat),
        None => "null"@,
    }
}

fn push_opt_usize_json(out: &mut Vec<char>, v: Option<usize>)
    ensures
        final(out)@ == old(out)@ + opt_usize_json(v),
{
    match v {
        Some(n) => push_decimal(out, n as u64),
        None => extend_str(out, "null"),
    }
}

/// The decimal line numbers joined with `sep`.
pub open spec fn joined_numbers(lines: Seq<usize>, sep: Seq<char>, k: nat) -> Seq<char>
    decreases k,
{
    if k == 0 || k > lines.len() {
        seq![]
    } else if k == 1 {
        decimal(lines[0] as nat)
    } else {
        joined_numbers(lines, sep, (k - 1) as nat) + sep + decimal(lines[k - 1] as nat)
    }
}

fn push_joined_numbers(out: &mut Vec<char>, lines: &Vec<usize>, sep: char)
    ensures
        final(out)@ == old(out)@ + joined_numbers(lines@, seq![sep], lines@.len()),
{
    let mut i: usize = 0;
    while i < lines.len()
        invariant
            i <= lines.len(),
            out@ == old(out)@ + joined_numbers(lines@, seq![sep], i as nat),
        decreases lines.len() - i,
    {
        let ghost before = out@;
        if i > 0 {
            out.push(sep);
        }
        push_decimal(out, lines[i] as u64);
        proof {
            assert(out@ =~= old(out)@ + joined_numbers(lines@, seq![sep], (i + 1) as nat));
        }
        i += 1;
    }
}

/// `[1,2,3]`
pub open spec fn lines_json(lines: Seq<usize>) -> Seq<char> {
    seq!['['] + joined_numbers(lines, seq![','], lines.len()) + seq![']']
}

/// `1,2,3`, or `-` when there are none.
pub open spec fn lines_md(lines: Seq<usize>) -> Seq<char> {
    if lines.len() == 0 {
        seq!['-']
    } else {
        joined_numbers(lines, seq![','], lines.len())
    }
}

pub fn render_lines_json(lines: &Vec<usize>) -> (r: Vec<char>)
    ensures
        r@ == lines_json(lines@),
{
    let mut out = one('[');
    push_joined_numbers(&mut out, lines, ',');
    out.push(']');
    proof {
        assert(out@ =~= lines_json(lines@));
    }
    out
}

pub fn lines_for_md(lines: &Vec<usize>) -> (r: Vec<char>)
    ensures
        r@ == lines_md(lines@),
{
    if lines.len() == 0 {
        return one('-');
    }
    let mut out: Vec<char> = Vec::new();
    push_joined_numbers(&mut out, lines, ',');
    proof {
        assert(out@ =~= lines_md(lines@));
    }
    out
}

/// `[severity][code] line N col M: message` (position parts when known).
pub open spec fn diagnostic_markdown(d: DiagnosticView) -> Seq<char> {
    let head = seq!['['] + d.severity.name() + seq![']', '['] + d.code + seq![']'];
    let pos = match d.line {
        Some(l) => " line "@ + decimal(l as nat) + match d.column {
            Some(c) => " col "@ + decimal(c as nat),
            None => Seq::<char>::empty(),
        },
        None => Seq::<char>::empty(),
    };
    head + pos + seq![':', ' '] + d.message
}

pub fn format_diagnostic_markdown(d: &Diagnostic) -> (r: Vec<char>)
    ensures
        r@ == diagnostic_markdown(d@),
{
    let mut out = one('[');
    extend_str(&mut out, d.severity.as_str());
    out.push(']');
    out.push('[');
    extend(&mut out, &chars_of(d.code.as_str()));
    out.push(']');
    let ghost head = out@;
    if let Some(line) = d.line {
        extend_str(&mut out, " line ");
        push_decimal(&mut out, line as u64);
        if let Some(col) = d.column {
            extend_str(&mut out, " col ");
            push_decimal(&mut out, col as u64);
        }
    }
    let ghost with_pos = out@;
    out.push(':');
    out.push(' ');
    extend(&mut out, &chars_of(d.message.as_str()));
    proof {
        let dv = d@;
        let pos = match dv.line {
            Some(l) => " line "@ + decimal(l as nat) + match dv.column {
                Some(c) => " col "@ + decimal(c as nat),
                None => Seq::<char>::empty(),
            },
            None => Seq::<char>::empty(),
        };
        assert(head =~= seq!['['] + dv.severity.name() + seq![']', '['] + dv.code + seq![']']);
        assert(with_pos =~= head + pos);
        assert(out@ =~= diagnostic_markdown(dv));
    }
    out
}

/// `caller -> callee (line N)`
pub open spec fn subroute_markdown(r: SubroutineRouteView) -> Seq<char> {
    r.caller + " -> "@ + r.callee + " (line "@ + decimal(r.line as nat) + seq![')']
}

pub fn format_subroute_markdown(r: &SubroutineRoute) -> (out: Vec<char>)
    ensures
        out@ == subroute_markdown(r@),
{
    let mut out = chars_of(r.caller.as_str());
    extend_str(&mut out, " -> ");
    extend(&mut out, &chars_of(r.callee.as_str()));
    extend_str(&mut out, " (line ");
    push_decimal(&mut out, r.line as u64);
    out.push(')');
    out
}

// ------------------------------------------------------------------
// TODO items
// ------------------------------------------------------------------

/// The text of a TODO item: `OP: source`, or the source alone.
pub open spec fn todo_text(op: Option<Seq<char>>, src: Seq<char>) -> Seq<char> {
    match op {
        Some(o) => o + seq![':', ' '] + src,
        None => src,
    }
}

/// The TODO items of the first `k` IR statements.
pub open spec fn todos_upto(stmts: Seq<IrStmtView>, k: nat) -> Seq<Seq<char>>
    decreases k,
{
    if k == 0 || k > stmts.len() {
        seq![]
    } else {
        let prev = todos_upto(stmts, (k - 1) as nat);
        match stmts[k - 1] {
            IrStmtView::Todo { op, src } => prev.push(todo_text(op, src)),
            _ => prev,
        }
    }
}

pub open spec fn todos_of(stmts: Seq<IrStmtView>) -> Seq<Seq<char>> {
    todos_upto(stmts, stmts.len())
}

pub fn collect_todos(ir_program: &IrProgram) -> (r: Vec<Vec<char>>)
    ensures
        views(r@) == todos_of(ir_views(ir_program.statements@)),
{
    let ghost stmts = ir_views(ir_program.statements@);
    let mut todos: Vec<Vec<char>> = Vec::new();
    let mut i: usize = 0;
    while i < ir_program.statements.len()
        invariant
            i <= ir_program.statements.len(),
            stmts == ir_views(ir_program.statements@),
            views(todos@) == todos_upto(stmts, i as nat),
        decreases ir_program.statements.len() - i,
    {
        proof {
            assert(stmts[i as int] == ir_program.statements@[i as int]@);
        }
        if let IrStmt::Todo { op, src } = &ir_program.statements[i] {
            let s = chars_of(src.as_str());
            let t = match op {
                Some(o) => {
                    let mut t = chars_of(o.as_str());
                    t.push(':');
                    t.push(' ');
                    extend(&mut t, &s);
                    t
                },
                None => s,
            };
            let ghost before = views(todos@);
            todos.push(t);
            proof {
                assert(t@ =~= todo_text(
                    match op {
                        Some(o) => Some(o@),
                        None => None,
                    },
                    src@,
                ));
                assert(views(todos@) =~= before.push(t@));
            }
        }
        i += 1;
    }
    todos
}

// ------------------------------------------------------------------
// Source maps
// ------------------------------------------------------------------

pub open spec fn pad(n: nat) -> Seq<char> {
    Seq::new(n, |i: int| ' ')
}

fn push_pad(out: &mut Vec<char>, n: usize)
    ensures
        final(out)@ == old(out)@ + pad(n as nat),
{
    let mut i: usize = 0;
    while i < n
        invariant
            i <= n,
            out@ =~= old(out)@ + pad(i as nat),
        decreases n - i,
    {
        out.push(' ');
        i += 1;
    }
}

/// `,` between rows, none after the last.
pub open spec fn row_end(i: int, len: int) -> Seq<char> {
    if i + 1 == len {
        seq!['\n']
    } else {
        seq![',', '\n']
    }
}

pub open spec fn map_row(e: SourceMapEntryView) -> Seq<char> {
    "{\"rpg_line\":"@ + decimal(e.rpg_line as nat) + ",\"java_line\":"@ + decimal(e.java_line as nat)
        + ",\"kind\":\""@ + escape_json(e.kind) + "\",\"note\":\""@ + escape_json(e.note) + "\"}"@
}

pub open spec fn map_rows(sm: Seq<SourceMapEntryView>, row_pad: nat, k: nat) -> Seq<char>
    decreases k,
{
    if k == 0 || k > sm.len() {
        seq![]
    } else {
        map_rows(sm, row_pad, (k - 1) as nat) + pad(row_pad) + map_row(sm[k - 1]) + row_end(
            k - 1,
            sm.len() as int,
        )
    }
}

/// The mappings as a JSON array, rows indented by `indent + 2`.
pub open spec fn source_map_json_inline(sm: Seq<SourceMapEntryView>, indent: nat) -> Seq<char> {
    seq!['[', '\n'] + map_rows(sm, indent + 2, sm.len()) + pad(indent) + seq![']']
}

fn push_row_end(out: &mut Vec<char>, i: usize, len: usize)
    requires
        i < len,
    ensures
        final(out)@ == old(out)@ + row_end(i as int, len as int),
{
    if i + 1 != len {
        out.push(',');
    }
    out.push('\n');
    proof {
        assert(final(out)@ =~= old(out)@ + row_end(i as int, len as int));
    }
}

fn map_row_exec(e: &SourceMapEntry) -> (r: Vec<char>)
    ensures
        r@ == map_row(e@),
{
    let mut out = chars_of("{\"rpg_line\":");
    push_decimal(&mut out, e.rpg_line as u64);
    extend_str(&mut out, ",\"java_line\":");
    push_decimal(&mut out, e.java_line as u64);
    extend_str(&mut out, ",\"kind\":\"");
    extend(&mut out, &escape_json_str(e.kind.as_str()));
    extend_str(&mut out, "\",\"note\":\"");
    extend(&mut out, &escape_json_str(e.note.as_str()));
    extend_str(&mut out, "\"}");
    proof {
        assert(out@ =~= map_row(e@));
    }
    out
}

pub fn render_source_map_json_inline(source_map: &Vec<SourceMapEntry>, indent: usize) -> (r: Vec<
    char,
>)
    requires
        indent < usize::MAX - 2,
    ensures
        r@ == source_map_json_inline(map_views(source_map@), indent as nat),
{
    let ghost sm = map_views(source_map@);
    let mut out = two('[', '\n');
    let ghost start = out@;
    let mut i: usize = 0;
    while i < source_map.len()
        invariant
            i <= source_map.len(),
            indent < usize::MAX - 2,
            sm == map_views(source_map@),
            out@ == start + map_rows(sm, (indent + 2) as nat, i as nat),
        decreases source_map.len() - i,
    {
        let e = &source_map[i];
        proof {
            assert(sm[i as int] == e@);
        }
        let ghost before = out@;
        push_pad(&mut out, indent + 2);
        let row = map_row_exec(e);
        extend(&mut out, &row);
        push_row_end(&mut out, i, source_map.len());
        proof {
            assert(out@ =~= before + pad((indent + 2) as nat) + map_row(e@) + row_end(
                i as int,
                sm.len() as int,
            ));
            assert(out@ =~= start + map_rows(sm, (indent + 2) as nat, (i + 1) as nat));
        }
        i += 1;
    }
    push_pad(&mut out, indent);
    out.push(']');
    proof {
        assert(out@ =~= source_map_json_inline(sm, indent as nat));
    }
    out
}

/// The stand-alone source map document.
pub open spec fn source_map_json(sm: Seq<SourceMapEntryView>) -> Seq<char> {
    "{\n  \"version\": \"rpg2java-source-map.v1\",\n  \"mappings\": "@ + source_map_json_inline(sm, 2)
        + "\n}\n"@
}

pub fn render_source_map_json(source_map: &Vec<SourceMapEntry>) -> (r: String)
    ensures
        r@ == source_map_json(map_views(source_map@)),
{
    let mut out = chars_of("{\n  \"version\": \"rpg2java-source-map.v1\",\n  \"mappings\": ");
    let inline = render_source_map_json_inline(source_map, 2);
    extend(&mut out, &inline);
    extend_str(&mut out, "\n}\n");
    string_of(&out)
}


// ------------------------------------------------------------------
// Rows
// ------------------------------------------------------------------

/// Rows separated by `,\n`, the last one ended by `\n`.
pub open spec fn rows(items: Seq<Seq<char>>, k: nat) -> Seq<char>
    decreases k,
{
    if k == 0 || k > items.len() {
        seq![]
    } else {
        rows(items, (k - 1) as nat) + items[k - 1] + row_end(k - 1, items.len() as int)
    }
}

/// All the items as rows.
pub open spec fn all_rows(items: Seq<Seq<char>>) -> Seq<char> {
    rows(items, items.len())
}

/// The items one after the other.
pub open spec fn concat_all(items: Seq<Seq<char>>, k: nat) -> Seq<char>
    decreases k,
{
    if k == 0 || k > items.len() {
        seq![]
    } else {
        concat_all(items, (k - 1) as nat) + items[k - 1]
    }
}

// ------------------------------------------------------------------
// Unsupported operations, most frequent first
// ------------------------------------------------------------------

/// `a` comes before `b`: more occurrences, or as many and a smaller name.
pub open spec fn top_before(a: OperationStatView, b: OperationStatView) -> bool {
    a.count > b.count || (a.count == b.count && seq_lt(a.name, b.name))
}

/// `x` inserted before the first entry it comes before (after its equals).
pub open spec fn insert_top(l: Seq<OperationStatView>, x: OperationStatView) -> Seq<OperationStatView>
    decreases l.len(),
{
    if l.len() == 0 {
        seq![x]
    } else if top_before(x, l[0]) {
        seq![x] + l
    } else {
        seq![l[0]] + insert_top(l.drop_first(), x)
    }
}

/// The non-implemented operations among the first `k`, stably sorted.
pub open spec fn unsupported_upto(stats: Seq<OperationStatView>, k: nat) -> Seq<OperationStatView>
    decreases k,
{
    if k == 0 || k > stats.len() {
        seq![]
    } else {
        let prev = unsupported_upto(stats, (k - 1) as nat);
        if stats[k - 1].level != SupportLevel::Implemented {
            insert_top(prev, stats[k - 1])
        } else {
            prev
        }
    }
}

pub open spec fn top_unsupported(stats: Seq<OperationStatView>) -> Seq<OperationStatView> {
    unsupported_upto(stats, stats.len())
}

pub open spec fn ref_stat_views(v: Seq<&OperationStat>) -> Seq<OperationStatView> {
    v.map_values(|s: &OperationStat| s@)
}

proof fn lemma_insert_top_at(l: Seq<OperationStatView>, x: OperationStatView, p: int)
    requires
        0 <= p <= l.len(),
        forall|i: int| 0 <= i < p ==> !top_before(x, #[trigger] l[i]),
        p == l.len() || top_before(x, l[p]),
    ensures
        insert_top(l, x) == l.subrange(0, p) + seq![x] + l.subrange(p, l.len() as int),
    decreases l.len(),
{
    if l.len() == 0 {
        assert(insert_top(l, x) =~= l.subrange(0, p) + seq![x] + l.subrange(p, l.len() as int));
    } else if p == 0 {
        assert(insert_top(l, x) =~= l.subrange(0, p) + seq![x] + l.subrange(p, l.len() as int));
    } else {
        let t = l.drop_first();
        assert forall|i: int| 0 <= i < p - 1 implies !top_before(x, #[trigger] t[i]) by {
            assert(t[i] == l[i + 1]);
        }
        if p < l.len() {
            assert(t[p - 1] == l[p]);
        }
        lemma_insert_top_at(t, x, p - 1);
        assert(insert_top(l, x) =~= l.subrange(0, p) + seq![x] + l.subrange(p, l.len() as int));
    }
}

fn top_before_exec(a: &OperationStat, b: &OperationStat) -> (r: bool)
    ensures
        r == top_before(a@, b@),
{
    if a.count > b.count {
        return true;
    }
    if a.count == b.count {
        let an = chars_of(a.name.as_str());
        let bn = chars_of(b.name.as_str());
        return lt_chars(&an, &bn);
    }
    false
}

/// The stub and planned operations, most frequent first, then by name.
pub fn top_unsupported_operations(program: &Program) -> (r: Vec<&OperationStat>)
    ensures
        ref_stat_views(r@) == top_unsupported(stat_views(program.op_stats@)),
{
    let ghost stats = stat_views(program.op_stats@);
    let mut rows: Vec<&OperationStat> = Vec::new();
    let mut k: usize = 0;
    while k < program.op_stats.len()
        invariant
            k <= program.op_stats.len(),
            stats == stat_views(program.op_stats@),
            ref_stat_views(rows@) == unsupported_upto(stats, k as nat),
        decreases program.op_stats.len() - k,
    {
        let x = &program.op_stats[k];
        proof {
            assert(stats[k as int] == x@);
        }
        if x.level != SupportLevel::Implemented {
            let mut p: usize = 0;
            while p < rows.len() && !top_before_exec(x, rows[p])
                invariant
                    p <= rows.len(),
                    forall|i: int| 0 <= i < p ==> !top_before(x@, #[trigger] ref_stat_views(rows@)[i]),
                decreases rows.len() - p,
            {
                proof {
                    assert(ref_stat_views(rows@)[p as int] == rows@[p as int]@);
                }
                p += 1;
            }
            let ghost old_rows = ref_stat_views(rows@);
            proof {
                if p < rows.len() {
                    assert(old_rows[p as int] == rows@[p as int]@);
                }
                lemma_insert_top_at(old_rows, x@, p as int);
            }
            rows.insert(p, x);
            proof {
                assert(ref_stat_views(rows@) =~= old_rows.subrange(0, p as int) + seq![x@]
                    + old_rows.subrange(p as int, old_rows.len() as int));
            }
        }
        k += 1;
    }
    rows
}


// ------------------------------------------------------------------
// Row assembly
// ------------------------------------------------------------------

pub fn push_rows(out: &mut Vec<char>, items: &Vec<Vec<char>>)
    ensures
        final(out)@ == old(out)@ + all_rows(views(items@)),
{
    let ghost its = views(items@);
    let mut i: usize = 0;
    while i < items.len()
        invariant
            i <= items.len(),
            its == views(items@),
            out@ == old(out)@ + rows(its, i as nat),
        decreases items.len() - i,
    {
        extend(out, &items[i]);
        push_row_end(out, i, items.len());
        proof {
            assert(its[i as int] == items@[i as int]@);
            assert(out@ =~= old(out)@ + rows(its, (i + 1) as nat));
        }
        i += 1;
    }
    assert(its.len() == items@.len());
}

pub fn push_all(out: &mut Vec<char>, items: &Vec<Vec<char>>)
    ensures
        final(out)@ == old(out)@ + concat_items(views(items@)),
{
    let ghost its = views(items@);
    let mut i: usize = 0;
    while i < items.len()
        invariant
            i <= items.len(),
            its == views(items@),
            out@ == old(out)@ + concat_all(its, i as nat),
        decreases items.len() - i,
    {
        extend(out, &items[i]);
        proof {
            assert(its[i as int] == items@[i as int]@);
            assert(out@ =~= old(out)@ + concat_all(its, (i + 1) as nat));
        }
        i += 1;
    }
    assert(its.len() == items@.len());
}

/// All the items one after the other.
pub open spec fn concat_items(items: Seq<Seq<char>>) -> Seq<char> {
    concat_all(items, items.len())
}

/// The items one after the other, or `- none` when there are none.
pub open spec fn list_or_none(items: Seq<Seq<char>>) -> Seq<char> {
    if items.len() == 0 {
        "- none\n"@
    } else {
        concat_items(items)
    }
}

fn push_list_or_none(out: &mut Vec<char>, items: &Vec<Vec<char>>)
    ensures
        final(out)@ == old(out)@ + list_or_none(views(items@)),
{
    if items.len() == 0 {
        extend_str(out, "- none\n");
    } else {
        push_all(out, items);
    }
}

// ------------------------------------------------------------------
// Operation counts per support level
// ------------------------------------------------------------------

/// How many of the first `k` operations have level `l`.
pub open spec fn level_count(stats: Seq<OperationStatView>, l: SupportLevel, k: nat) -> nat
    decreases k,
{
    if k == 0 || k > stats.len() {
        0
    } else {
        level_count(stats, l, (k - 1) as nat) + if stats[k - 1].level == l {
            1nat
        } else {
            0nat
        }
    }
}

/// The occurrences of the first `k` operations that have level `l`, added up.
pub open spec fn level_total(stats: Seq<OperationStatView>, l: SupportLevel, k: nat) -> nat
    decreases k,
{
    if k == 0 || k > stats.len() {
        0
    } else {
        level_total(stats, l, (k - 1) as nat) + if stats[k - 1].level == l {
            stats[k - 1].count as nat
        } else {
            0nat
        }
    }
}

proof fn lemma_level_total_mono(stats: Seq<OperationStatView>, l: SupportLevel, j: nat, k: nat)
    requires
        j <= k <= stats.len(),
    ensures
        level_total(stats, l, j) <= level_total(stats, l, k),
    decreases k,
{
    if j < k {
        lemma_level_total_mono(stats, l, j, (k - 1) as nat);
    }
}

/// The number of operations of level `l`.
pub fn count_level(stats: &Vec<OperationStat>, l: SupportLevel) -> (r: usize)
    ensures
        r == level_count(stat_views(stats@), l, stats@.len()),
{
    let ghost sv = stat_views(stats@);
    let mut c: usize = 0;
    let mut i: usize = 0;
    while i < stats.len()
        invariant
            i <= stats.len(),
            sv == stat_views(stats@),
            c == level_count(sv, l, i as nat),
            c <= i,
        decreases stats.len() - i,
    {
        proof {
            assert(sv[i as int] == stats@[i as int]@);
        }
        if stats[i].level == l {
            c += 1;
        }
        i += 1;
    }
    c
}

/// The occurrences of the operations of level `l`, added up.
pub fn sum_level(stats: &Vec<OperationStat>, l: SupportLevel) -> (r: usize)
    requires
        level_total(stat_views(stats@), l, stats@.len()) <= usize::MAX,
    ensures
        r == level_total(stat_views(stats@), l, stats@.len()),
{
    let ghost sv = stat_views(stats@);
    let mut c: usize = 0;
    let mut i: usize = 0;
    while i < stats.len()
        invariant
            i <= stats.len(),
            sv == stat_views(stats@),
            sv.len() == stats@.len(),
            c == level_total(sv, l, i as nat),
            level_total(sv, l, sv.len()) <= usize::MAX,
        decreases stats.len() - i,
    {
        proof {
            assert(sv[i as int] == stats@[i as int]@);
            lemma_level_total_mono(sv, l, (i + 1) as nat, sv.len());
        }
        if stats[i].level == l {
            c += stats[i].count;
        }
        i += 1;
    }
    c
}

// ------------------------------------------------------------------
// JSON rows
// ------------------------------------------------------------------

pub open spec fn symbol_json_rows(xs: Seq<SymbolView>) -> Seq<Seq<char>> {
    xs.map_values(|x: SymbolView| symbol_json(x))
}

pub open spec fn symbol_json(s: SymbolView) -> Seq<char> {
    "    {\"name\":\""@ + escape_json(s.name) + "\",\"type\":\""@ + value_type_name(s.ty)
        + "\",\"assigned_lines\":"@ + lines_json(s.assigned_lines) + ",\"referenced_lines\":"@
        + lines_json(s.referenced_lines) + "}"@
}

fn symbol_json_exec(s: &SymbolInfo) -> (r: Vec<char>)
    ensures
        r@ == symbol_json(s@),
{
    let mut out = chars_of("    {\"name\":\"");
    extend(&mut out, &escape_json_str(s.name.as_str()));
    extend_str(&mut out, "\",\"type\":\"");
    extend_str(&mut out, value_type_name_str(s.ty));
    extend_str(&mut out, "\",\"assigned_lines\":");
    extend(&mut out, &render_lines_json(&s.assigned_lines));
    extend_str(&mut out, ",\"referenced_lines\":");
    extend(&mut out, &render_lines_json(&s.referenced_lines));
    extend_str(&mut out, "}");
    out
}

pub open spec fn top_json_rows(xs: Seq<OperationStatView>) -> Seq<Seq<char>> {
    xs.map_values(|x: OperationStatView| top_json(x))
}

pub open spec fn top_json(s: OperationStatView) -> Seq<char> {
    "    {\"name\":\""@ + escape_json(s.name) + "\",\"count\":"@ + decimal(s.count as nat)
        + ",\"level\":\""@ + level_name(s.level) + "\"}"@
}

fn top_json_exec(s: &OperationStat) -> (r: Vec<char>)
    ensures
        r@ == top_json(s@),
{
    let mut out = chars_of("    {\"name\":\"");
    extend(&mut out, &escape_json_str(s.name.as_str()));
    extend_str(&mut out, "\",\"count\":");
    push_decimal(&mut out, s.count as u64);
    extend_str(&mut out, ",\"level\":\"");
    extend_str(&mut out, level_name_str(s.level));
    extend_str(&mut out, "\"}");
    out
}

pub open spec fn op_json_rows(xs: Seq<OperationStatView>) -> Seq<Seq<char>> {
    xs.map_values(|x: OperationStatView| op_json(x))
}

pub open spec fn op_json(s: OperationStatView) -> Seq<char> {
    "    {\"name\": \""@ + escape_json(s.name) + "\", \"count\": "@ + decimal(s.count as nat)
        + ", \"level\": \""@ + level_name(s.level) + "\"}"@
}

fn op_json_exec(s: &OperationStat) -> (r: Vec<char>)
    ensures
        r@ == op_json(s@),
{
    let mut out = chars_of("    {\"name\": \"");
    extend(&mut out, &escape_json_str(s.name.as_str()));
    extend_str(&mut out, "\", \"count\": ");
    push_decimal(&mut out, s.count as u64);
    extend_str(&mut out, ", \"level\": \"");
    extend_str(&mut out, level_name_str(s.level));
    extend_str(&mut out, "\"}");
    out
}

pub open spec fn todo_json_rows(xs: Seq<Seq<char>>) -> Seq<Seq<char>> {
    xs.map_values(|x: Seq<char>| todo_json(x))
}

pub open spec fn todo_json(t: Seq<char>) -> Seq<char> {
    "    \""@ + escape_json(t) + "\""@
}

pub open spec fn route_json_rows(xs: Seq<SubroutineRouteView>) -> Seq<Seq<char>> {
    xs.map_values(|x: SubroutineRouteView| route_json(x))
}

pub open spec fn route_json(r: SubroutineRouteView) -> Seq<char> {
    "    {\"caller\":\""@ + escape_json(r.caller) + "\",\"callee\":\""@ + escape_json(r.callee)
        + "\",\"line\":"@ + decimal(r.line as nat) + "}"@
}

fn route_json_exec(r: &SubroutineRoute) -> (out: Vec<char>)
    ensures
        out@ == route_json(r@),
{
    let mut out = chars_of("    {\"caller\":\"");
    extend(&mut out, &escape_json_str(r.caller.as_str()));
    extend_str(&mut out, "\",\"callee\":\"");
    extend(&mut out, &escape_json_str(r.callee.as_str()));
    extend_str(&mut out, "\",\"line\":");
    push_decimal(&mut out, r.line as u64);
    extend_str(&mut out, "}");
    out
}

pub open spec fn diag_json_rows(xs: Seq<DiagnosticView>) -> Seq<Seq<char>> {
    xs.map_values(|x: DiagnosticView| diag_json(x))
}

pub open spec fn diag_json(d: DiagnosticView) -> Seq<char> {
    "    {\"severity\":\""@ + d.severity.name() + "\",\"code\":\""@ + escape_json(d.code)
        + "\",\"line\":"@ + opt_usize_json(d.line) + ",\"column\":"@ + opt_usize_json(d.column)
        + ",\"message\":\""@ + escape_json(d.message) + "\"}"@
}

fn diag_json_exec(d: &Diagnostic) -> (r: Vec<char>)
    ensures
        r@ == diag_json(d@),
{
    let mut out = chars_of("    {\"severity\":\"");
    extend_str(&mut out, d.severity.as_str());
    extend_str(&mut out, "\",\"code\":\"");
    extend(&mut out, &escape_json_str(d.code.as_str()));
    extend_str(&mut out, "\",\"line\":");
    push_opt_usize_json(&mut out, d.line);
    extend_str(&mut out, ",\"column\":");
    push_opt_usize_json(&mut out, d.column);
    extend_str(&mut out, ",\"message\":\"");
    extend(&mut out, &escape_json_str(d.message.as_str()));
    extend_str(&mut out, "\"}");
    out
}


fn symbol_json_items(xs: &Vec<SymbolInfo>) -> (r: Vec<Vec<char>>)
    ensures
        views(r@) == symbol_json_rows(symbol_views(xs@)),
{
    let mut r: Vec<Vec<char>> = Vec::new();
    let mut i: usize = 0;
    while i < xs.len()
        invariant
            i <= xs.len(),
            r@.len() == i,
            forall|j: int| 0 <= j < i ==> #[trigger] r@[j]@ == symbol_json(xs@[j]@),
        decreases xs.len() - i,
    {
        let row = symbol_json_exec(&xs[i]);
        r.push(row);
        i += 1;
    }
    assert(views(r@) =~= symbol_json_rows(symbol_views(xs@)));
    r
}

fn top_json_items(xs: &Vec<&OperationStat>) -> (r: Vec<Vec<char>>)
    ensures
        views(r@) == top_json_rows(ref_stat_views(xs@)),
{
    let mut r: Vec<Vec<char>> = Vec::new();
    let mut i: usize = 0;
    while i < xs.len()
        invariant
            i <= xs.len(),
            r@.len() == i,
            forall|j: int| 0 <= j < i ==> #[trigger] r@[j]@ == top_json(xs@[j]@),
        decreases xs.len() - i,
    {
        let row = top_json_exec(xs[i]);
        r.push(row);
        i += 1;
    }
    assert(views(r@) =~= top_json_rows(ref_stat_views(xs@)));
    r
}

fn op_json_items(xs: &Vec<OperationStat>) -> (r: Vec<Vec<char>>)
    ensures
        views(r@) == op_json_rows(stat_views(xs@)),
{
    let mut r: Vec<Vec<char>> = Vec::new();
    let mut i: usize = 0;
    while i < xs.len()
        invariant
            i <= xs.len(),
            r@.len() == i,
            forall|j: int| 0 <= j < i ==> #[trigger] r@[j]@ == op_json(xs@[j]@),
        decreases xs.len() - i,
    {
        let row = op_json_exec(&xs[i]);
        r.push(row);
        i += 1;
    }
    assert(views(r@) =~= op_json_rows(stat_views(xs@)));
    r
}

fn route_json_items(xs: &Vec<SubroutineRoute>) -> (r: Vec<Vec<char>>)
    ensures
        views(r@) == route_json_rows(route_views(xs@)),
{
    let mut r: Vec<Vec<char>> = Vec::new();
    let mut i: usize = 0;
    while i < xs.len()
        invariant
            i <= xs.len(),
            r@.len() == i,
            forall|j: int| 0 <= j < i ==> #[trigger] r@[j]@ == route_json(xs@[j]@),
        decreases xs.len() - i,
    {
        let row = route_json_exec(&xs[i]);
        r.push(row);
        i += 1;
    }
    assert(views(r@) =~= route_json_rows(route_views(xs@)));
    r
}

fn diag_json_items(xs: &Vec<Diagnostic>) -> (r: Vec<Vec<char>>)
    ensures
        views(r@) == diag_json_rows(diag_views(xs@)),
{
    let mut r: Vec<Vec<char>> = Vec::new();
    let mut i: usize = 0;
    while i < xs.len()
        invariant
            i <= xs.len(),
            r@.len() == i,
            forall|j: int| 0 <= j < i ==> #[trigger] r@[j]@ == diag_json(xs@[j]@),
        decreases xs.len() - i,
    {
        let row = diag_json_exec(&xs[i]);
        r.push(row);
        i += 1;
    }
    assert(views(r@) =~= diag_json_rows(diag_views(xs@)));
    r
}

fn todo_json_items(xs: &Vec<Vec<char>>) -> (r: Vec<Vec<char>>)
    ensures
        views(r@) == todo_json_rows(views(xs@)),
{
    let mut r: Vec<Vec<char>> = Vec::new();
    let mut i: usize = 0;
    while i < xs.len()
        invariant
            i <= xs.len(),
            r@.len() == i,
            forall|j: int| 0 <= j < i ==> #[trigger] r@[j]@ == todo_json(xs@[j]@),
        decreases xs.len() - i,
    {
        let row = todo_json_exec(&xs[i]);
        r.push(row);
        i += 1;
    }
    assert(views(r@) =~= todo_json_rows(views(xs@)));
    r
}

fn todo_json_exec(t: &Vec<char>) -> (r: Vec<char>)
    ensures
        r@ == todo_json(t@),
{
    let mut out = chars_of("    \"");
    extend(&mut out, &escape_json_chars(t));
    extend_str(&mut out, "\"");
    out
}


// ------------------------------------------------------------------
// The JSON report
// ------------------------------------------------------------------

pub open spec fn check_view(check: Option<&JavacCheckSummary>) -> Option<JavacCheckView> {
    match check {
        Some(c) => Some(c@),
        None => None,
    }
}

pub open spec fn bool_text(b: bool) -> Seq<char> {
    if b {
        "true"@
    } else {
        "false"@
    }
}

pub open spec fn exit_code_json(code: Option<i32>) -> Seq<char> {
    match code {
        Some(c) => "    \"exit_code\": "@ + signed_decimal(c as int) + ",\n"@,
        None => "    \"exit_code\": null,\n"@,
    }
}

/// The value of the `javac_check` member: an object, or `null` when no check ran.
pub open spec fn javac_value(check: Option<JavacCheckView>) -> Seq<char> {
    match check {
        Some(c) => "{\n    \"command\": \""@ + escape_json(c.command) + "\",\n    \"success\": "@ + bool_text(c.success)
            + ",\n"@ + exit_code_json(c.exit_code) + "    \"detail\": \""@ + escape_json(c.detail) + "\"\n  }"@,
        None => "null"@,
    }
}

#[verifier::spinoff_prover]
fn javac_value_chars(check: Option<&JavacCheckSummary>) -> (r: Vec<char>)
    ensures
        r@ == javac_value(check_view(check)),
{
    match check {
        Some(c) => {
            let mut out = chars_of("{\n    \"command\": \"");
            extend(&mut out, &escape_json_str(c.command.as_str()));
            extend_str(&mut out, "\",\n    \"success\": ");
            let ghost before = out@;
            if c.success {
                extend_str(&mut out, "true");
            } else {
                extend_str(&mut out, "false");
            }
            proof {
                assert(out@ == before + bool_text(c.success));
            }
            extend_str(&mut out, ",\n");
            let ghost mid = out@;
            match c.exit_code {
                Some(code) => {
                    extend_str(&mut out, "    \"exit_code\": ");
                    extend(&mut out, &signed_decimal_chars(code));
                    extend_str(&mut out, ",\n");
                },
                None => {
                    extend_str(&mut out, "    \"exit_code\": null,\n");
                },
            }
            proof {
                assert(out@ =~= mid + exit_code_json(c.exit_code));
            }
            extend_str(&mut out, "    \"detail\": \"");
            extend(&mut out, &escape_json_str(c.detail.as_str()));
            extend_str(&mut out, "\"\n  }");
            out
        },
        None => chars_of("null"),
    }
}

/// One member of a JSON object, on a line of its own: `"key": value`.
pub open spec fn json_member(key: Seq<char>, value: Seq<char>) -> Seq<char> {
    "  \""@ + key + "\": "@ + value
}

pub open spec fn json_members(keys: Seq<Seq<char>>, values: Seq<Seq<char>>) -> Seq<Seq<char>> {
    Seq::new(keys.len(), |i: int| json_member(keys[i], values[i]))
}

/// A JSON object whose members are the keys with their values, in order.
pub open spec fn json_object(keys: Seq<Seq<char>>, values: Seq<Seq<char>>) -> Seq<char> {
    "{\n"@ + join_sep(json_members(keys, values), ",\n"@) + "\n}\n"@
}

/// A JSON array of the given rows.
pub open spec fn json_array(items: Seq<Seq<char>>) -> Seq<char> {
    "[\n"@ + all_rows(items) + "  ]"@
}

/// The number of operations at each support level.
pub open spec fn operation_summary_json(stats: Seq<OperationStatView>) -> Seq<char> {
    let n = stats.len();
    "{\n    \"implemented\": "@ + decimal(level_count(stats, SupportLevel::Implemented, n)) + ",\n    \"stub\": "@
        + decimal(level_count(stats, SupportLevel::Stub, n)) + ",\n    \"planned\": "@
        + decimal(level_count(stats, SupportLevel::Planned, n)) + "\n  }"@
}

/// The keys of the JSON report, in the order they appear.
pub open spec fn json_report_keys() -> Seq<Seq<char>> {
    seq![
        "java_target"@,
        "javac_check"@,
        "total_statements"@,
        "total_symbols"@,
        "symbols"@,
        "operation_summary"@,
        "top_unsupported_operations"@,
        "operations"@,
        "todos"@,
        "subroutine_routes"@,
        "source_map"@,
        "diagnostics"@,
    ]
}

/// The values of the JSON report, key by key.
pub open spec fn json_report_values(
    program: Program,
    ir: IrProgram,
    target: Seq<char>,
    check: Option<JavacCheckView>,
    sm: Seq<SourceMapEntryView>,
) -> Seq<Seq<char>> {
    let stats = stat_views(program.op_stats@);
    seq![
        "\""@ + escape_json(target) + "\""@,
        javac_value(check),
        decimal(program.statements@.len()),
        decimal(ir.symbols@.len()),
        json_array(symbol_json_rows(symbol_views(ir.symbols@))),
        operation_summary_json(stats),
        json_array(top_json_rows(top_unsupported(stats))),
        json_array(op_json_rows(stats)),
        json_array(todo_json_rows(todos_of(ir_views(ir.statements@)))),
        json_array(route_json_rows(route_views(program.subroutine_routes@))),
        source_map_json_inline(sm, 2),
        json_array(diag_json_rows(diag_views(program.diagnostics@))),
    ]
}

/// The JSON migration report: one object with the report's keys in order.
pub open spec fn json_report(
    program: Program,
    ir: IrProgram,
    target: Seq<char>,
    check: Option<JavacCheckView>,
    sm: Seq<SourceMapEntryView>,
) -> Seq<char> {
    json_object(json_report_keys(), json_report_values(program, ir, target, check, sm))
}

fn json_member_chars(key: &str, value: &Vec<char>) -> (r: Vec<char>)
    ensures
        r@ == json_member(key@, value@),
{
    let mut out = chars_of("  \"");
    extend_str(&mut out, key);
    extend_str(&mut out, "\": ");
    extend(&mut out, value);
    out
}

fn json_array_chars(items: &Vec<Vec<char>>) -> (r: Vec<char>)
    ensures
        r@ == json_array(views(items@)),
{
    let mut out = chars_of("[\n");
    push_rows(&mut out, items);
    extend_str(&mut out, "  ]");
    out
}

fn operation_summary_chars(stats: &Vec<OperationStat>) -> (r: Vec<char>)
    ensures
        r@ == operation_summary_json(stat_views(stats@)),
{
    let mut out = chars_of("{\n    \"implemented\": ");
    push_decimal(&mut out, count_level(stats, SupportLevel::Implemented) as u64);
    extend_str(&mut out, ",\n    \"stub\": ");
    push_decimal(&mut out, count_level(stats, SupportLevel::Stub) as u64);
    extend_str(&mut out, ",\n    \"planned\": ");
    push_decimal(&mut out, count_level(stats, SupportLevel::Planned) as u64);
    extend_str(&mut out, "\n  }");
    out
}

fn quoted_json_chars(v: &str) -> (r: Vec<char>)
    ensures
        r@ == "\""@ + escape_json(v@) + "\""@,
{
    let mut out = chars_of("\"");
    extend(&mut out, &escape_json_str(v));
    extend_str(&mut out, "\"");
    out
}

fn decimal_chars(n: usize) -> (r: Vec<char>)
    ensures
        r@ == decimal(n as nat),
{
    let mut out: Vec<char> = Vec::new();
    push_decimal(&mut out, n as u64);
    proof {
        assert(out@ =~= decimal(n as nat));
    }
    out
}

fn push_member(members: &mut Vec<Vec<char>>, key: &str, value: &Vec<char>)
    ensures
        views(final(members)@) == views(old(members)@).push(json_member(key@, value@)),
{
    let ghost before = views(members@);
    let m = json_member_chars(key, value);
    members.push(m);
    proof {
        assert(views(members@) =~= before.push(json_member(key@, value@)));
    }
}

/// Renders the JSON migration report.
#[verifier::spinoff_prover]
pub fn render_json(
    program: &Program,
    ir_program: &IrProgram,
    java_target: &str,
    javac_check: Option<&JavacCheckSummary>,
    source_map: &Vec<SourceMapEntry>,
) -> (r: String)
    ensures
        r@ == json_report(*program, *ir_program, java_target@, check_view(javac_check), map_views(source_map@)),
{
    let stats = &program.op_stats;
    let top = top_unsupported_operations(program);
    let todos = collect_todos(ir_program);
    let ghost keys = json_report_keys();
    let ghost values = json_report_values(
        *program,
        *ir_program,
        java_target@,
        check_view(javac_check),
        map_views(source_map@),
    );
    let mut members: Vec<Vec<char>> = Vec::new();
    push_member(&mut members, "java_target", &quoted_json_chars(java_target));
    push_member(&mut members, "javac_check", &javac_value_chars(javac_check));
    push_member(&mut members, "total_statements", &decimal_chars(program.statements.len()));
    push_member(&mut members, "total_symbols", &decimal_chars(ir_program.symbols.len()));
    push_member(&mut members, "symbols", &json_array_chars(&symbol_json_items(&ir_program.symbols)));
    push_member(&mut members, "operation_summary", &operation_summary_chars(stats));
    push_member(&mut members, "top_unsupported_operations", &json_array_chars(&top_json_items(&top)));
    push_member(&mut members, "operations", &json_array_chars(&op_json_items(stats)));
    push_member(&mut members, "todos", &json_array_chars(&todo_json_items(&todos)));
    push_member(
        &mut members,
        "subroutine_routes",
        &json_array_chars(&route_json_items(&program.subroutine_routes)),
    );
    push_member(&mut members, "source_map", &render_source_map_json_inline(source_map, 2));
    push_member(&mut members, "diagnostics", &json_array_chars(&diag_json_items(&program.diagnostics)));
    proof {
        assert(views(members@) =~= json_members(keys, values));
    }
    let mut out = chars_of("{\n");
    extend(&mut out, &join_chars(&members, &chars_of(",\n")));
    extend_str(&mut out, "\n}\n");
    string_of(&out)
}


// ------------------------------------------------------------------
// Markdown and HTML rows
// ------------------------------------------------------------------

pub open spec fn op_md_rows(xs: Seq<OperationStatView>) -> Seq<Seq<char>> {
    xs.map_values(|x: OperationStatView| op_md(x))
}

pub open spec fn op_md(s: OperationStatView) -> Seq<char> {
    "| "@ + s.name + " | "@ + decimal(s.count as nat) + " | "@ + level_name(s.level) + " |\n"@
}

fn op_md_exec(s: &OperationStat) -> (r: Vec<char>)
    ensures
        r@ == op_md(s@),
{
    let mut out = chars_of("| ");
    extend(&mut out, &chars_of(s.name.as_str()));
    extend_str(&mut out, " | ");
    push_decimal(&mut out, s.count as u64);
    extend_str(&mut out, " | ");
    extend_str(&mut out, level_name_str(s.level));
    extend_str(&mut out, " |\n");
    out
}

fn op_md_items(xs: &Vec<OperationStat>) -> (r: Vec<Vec<char>>)
    ensures
        views(r@) == op_md_rows(stat_views(xs@)),
{
    let mut r: Vec<Vec<char>> = Vec::new();
    let mut i: usize = 0;
    while i < xs.len()
        invariant
            i <= xs.len(),
            r@.len() == i,
            forall|j: int| 0 <= j < i ==> #[trigger] r@[j]@ == op_md(xs@[j]@),
        decreases xs.len() - i,
    {
        let row = op_md_exec(&xs[i]);
        r.push(row);
        i += 1;
    }
    assert(views(r@) =~= op_md_rows(stat_views(xs@)));
    r
}

pub open spec fn top_md_rows(xs: Seq<OperationStatView>) -> Seq<Seq<char>> {
    xs.map_values(|x: OperationStatView| top_md(x))
}

pub open spec fn top_md(s: OperationStatView) -> Seq<char> {
    "- "@ + s.name + ": "@ + decimal(s.count as nat) + " ("@ + level_name(s.level) + ")\n"@
}

fn top_md_exec(s: &OperationStat) -> (r: Vec<char>)
    ensures
        r@ == top_md(s@),
{
    let mut out = chars_of("- ");
    extend(&mut out, &chars_of(s.name.as_str()));
    extend_str(&mut out, ": ");
    push_decimal(&mut out, s.count as u64);
    extend_str(&mut out, " (");
    extend_str(&mut out, level_name_str(s.level));
    extend_str(&mut out, ")\n");
    out
}

fn top_md_items(xs: &Vec<&OperationStat>) -> (r: Vec<Vec<char>>)
    ensures
        views(r@) == top_md_rows(ref_stat_views(xs@)),
{
    let mut r: Vec<Vec<char>> = Vec::new();
    let mut i: usize = 0;
    while i < xs.len()
        invariant
            i <= xs.len(),
            r@.len() == i,
            forall|j: int| 0 <= j < i ==> #[trigger] r@[j]@ == top_md(xs@[j]@),
        decreases xs.len() - i,
    {
        let row = top_md_exec(xs[i]);
        r.push(row);
        i += 1;
    }
    assert(views(r@) =~= top_md_rows(ref_stat_views(xs@)));
    r
}

pub open spec fn symbol_md_rows(xs: Seq<SymbolView>) -> Seq<Seq<char>> {
    xs.map_values(|x: SymbolView| symbol_md(x))
}

pub open spec fn symbol_md(s: SymbolView) -> Seq<char> {
    "| "@ + s.name + " | "@ + value_type_name(s.ty) + " | "@ + lines_md(s.assigned_lines) + " | "@ + lines_md(s.referenced_lines) + " |\n"@
}

fn symbol_md_exec(s: &SymbolInfo) -> (r: Vec<char>)
    ensures
        r@ == symbol_md(s@),
{
    let mut out = chars_of("| ");
    extend(&mut out, &chars_of(s.name.as_str()));
    extend_str(&mut out, " | ");
    extend_str(&mut out, value_type_name_str(s.ty));
    extend_str(&mut out, " | ");
    extend(&mut out, &lines_for_md(&s.assigned_lines));
    extend_str(&mut out, " | ");
    extend(&mut out, &lines_for_md(&s.referenced_lines));
    extend_str(&mut out, " |\n");
    out
}

fn symbol_md_items(xs: &Vec<SymbolInfo>) -> (r: Vec<Vec<char>>)
    ensures
        views(r@) == symbol_md_rows(symbol_views(xs@)),
{
    let mut r: Vec<Vec<char>> = Vec::new();
    let mut i: usize = 0;
    while i < xs.len()
        invariant
            i <= xs.len(),
            r@.len() == i,
            forall|j: int| 0 <= j < i ==> #[trigger] r@[j]@ == symbol_md(xs@[j]@),
        decreases xs.len() - i,
    {
        let row = symbol_md_exec(&xs[i]);
        r.push(row);
        i += 1;
    }
    assert(views(r@) =~= symbol_md_rows(symbol_views(xs@)));
    r
}

pub open spec fn todo_md_rows(xs: Seq<Seq<char>>) -> Seq<Seq<char>> {
    xs.map_values(|x: Seq<char>| todo_md(x))
}

pub open spec fn todo_md(s: Seq<char>) -> Seq<char> {
    "- "@ + s + "\n"@
}

fn todo_md_exec(s: &Vec<char>) -> (r: Vec<char>)
    ensures
        r@ == todo_md(s@),
{
    let mut out = chars_of("- ");
    extend(&mut out, s);
    extend_str(&mut out, "\n");
    out
}

fn todo_md_items(xs: &Vec<Vec<char>>) -> (r: Vec<Vec<char>>)
    ensures
        views(r@) == todo_md_rows(views(xs@)),
{
    let mut r: Vec<Vec<char>> = Vec::new();
    let mut i: usize = 0;
    while i < xs.len()
        invariant
            i <= xs.len(),
            r@.len() == i,
            forall|j: int| 0 <= j < i ==> #[trigger] r@[j]@ == todo_md(xs@[j]@),
        decreases xs.len() - i,
    {
        let row = todo_md_exec(&xs[i]);
        r.push(row);
        i += 1;
    }
    assert(views(r@) =~= todo_md_rows(views(xs@)));
    r
}

pub open spec fn route_md_rows(xs: Seq<SubroutineRouteView>) -> Seq<Seq<char>> {
    xs.map_values(|x: SubroutineRouteView| route_md(x))
}

pub open spec fn route_md(s: SubroutineRouteView) -> Seq<char> {
    "- "@ + subroute_markdown(s) + "\n"@
}

fn route_md_exec(s: &SubroutineRoute) -> (r: Vec<char>)
    ensures
        r@ == route_md(s@),
{
    let mut out = chars_of("- ");
    extend(&mut out, &format_subroute_markdown(s));
    extend_str(&mut out, "\n");
    out
}

fn route_md_items(xs: &Vec<SubroutineRoute>) -> (r: Vec<Vec<char>>)
    ensures
        views(r@) == route_md_rows(route_views(xs@)),
{
    let mut r: Vec<Vec<char>> = Vec::new();
    let mut i: usize = 0;
    while i < xs.len()
        invariant
            i <= xs.len(),
            r@.len() == i,
            forall|j: int| 0 <= j < i ==> #[trigger] r@[j]@ == route_md(xs@[j]@),
        decreases xs.len() - i,
    {
        let row = route_md_exec(&xs[i]);
        r.push(row);
        i += 1;
    }
    assert(views(r@) =~= route_md_rows(route_views(xs@)));
    r
}

pub open spec fn map_md_rows(xs: Seq<SourceMapEntryView>) -> Seq<Seq<char>> {
    xs.map_values(|x: SourceMapEntryView| map_md(x))
}

pub open spec fn map_md(s: SourceMapEntryView) -> Seq<char> {
    "| "@ + decimal(s.rpg_line as nat) + " | "@ + decimal(s.java_line as nat) + " | "@ + s.kind + " | "@ + replace(s.note, seq!['|'], seq!['\\', '|']) + " |\n"@
}

fn map_md_exec(s: &SourceMapEntry) -> (r: Vec<char>)
    ensures
        r@ == map_md(s@),
{
    let mut out = chars_of("| ");
    push_decimal(&mut out, s.rpg_line as u64);
    extend_str(&mut out, " | ");
    push_decimal(&mut out, s.java_line as u64);
    extend_str(&mut out, " | ");
    extend(&mut out, &chars_of(s.kind.as_str()));
    extend_str(&mut out, " | ");
    extend(&mut out, &replace_chars(&chars_of(s.note.as_str()), &one('|'), &two('\\', '|')));
    extend_str(&mut out, " |\n");
    out
}

fn map_md_items(xs: &Vec<SourceMapEntry>) -> (r: Vec<Vec<char>>)
    ensures
        views(r@) == map_md_rows(map_views(xs@)),
{
    let mut r: Vec<Vec<char>> = Vec::new();
    let mut i: usize = 0;
    while i < xs.len()
        invariant
            i <= xs.len(),
            r@.len() == i,
            forall|j: int| 0 <= j < i ==> #[trigger] r@[j]@ == map_md(xs@[j]@),
        decreases xs.len() - i,
    {
        let row = map_md_exec(&xs[i]);
        r.push(row);
        i += 1;
    }
    assert(views(r@) =~= map_md_rows(map_views(xs@)));
    r
}

pub open spec fn diag_md_rows(xs: Seq<DiagnosticView>) -> Seq<Seq<char>> {
    xs.map_values(|x: DiagnosticView| diag_md(x))
}

pub open spec fn diag_md(s: DiagnosticView) -> Seq<char> {
    "- "@ + diagnostic_markdown(s) + "\n"@
}

fn diag_md_exec(s: &Diagnostic) -> (r: Vec<char>)
    ensures
        r@ == diag_md(s@),
{
    let mut out = chars_of("- ");
    extend(&mut out, &format_diagnostic_markdown(s));
    extend_str(&mut out, "\n");
    out
}

fn diag_md_items(xs: &Vec<Diagnostic>) -> (r: Vec<Vec<char>>)
    ensures
        views(r@) == diag_md_rows(diag_views(xs@)),
{
    let mut r: Vec<Vec<char>> = Vec::new();
    let mut i: usize = 0;
    while i < xs.len()
        invariant
            i <= xs.len(),
            r@.len() == i,
            forall|j: int| 0 <= j < i ==> #[trigger] r@[j]@ == diag_md(xs@[j]@),
        decreases xs.len() - i,
    {
        let row = diag_md_exec(&xs[i]);
        r.push(row);
        i += 1;
    }
    assert(views(r@) =~= diag_md_rows(diag_views(xs@)));
    r
}

pub open spec fn op_html_rows(xs: Seq<OperationStatView>) -> Seq<Seq<char>> {
    xs.map_values(|x: OperationStatView| op_html(x))
}

pub open spec fn op_html(s: OperationStatView) -> Seq<char> {
    "<tr><td>"@ + escape_html(s.name) + "</td><td>"@ + decimal(s.count as nat) + "</td><td>"@ + level_name(s.level) + "</td></tr>"@
}

fn op_html_exec(s: &OperationStat) -> (r: Vec<char>)
    ensures
        r@ == op_html(s@),
{
    let mut out = chars_of("<tr><td>");
    extend(&mut out, &escape_html_str(s.name.as_str()));
    extend_str(&mut out, "</td><td>");
    push_decimal(&mut out, s.count as u64);
    extend_str(&mut out, "</td><td>");
    extend_str(&mut out, level_name_str(s.level));
    extend_str(&mut out, "</td></tr>");
    out
}

fn op_html_items(xs: &Vec<OperationStat>) -> (r: Vec<Vec<char>>)
    ensures
        views(r@) == op_html_rows(stat_views(xs@)),
{
    let mut r: Vec<Vec<char>> = Vec::new();
    let mut i: usize = 0;
    while i < xs.len()
        invariant
            i <= xs.len(),
            r@.len() == i,
            forall|j: int| 0 <= j < i ==> #[trigger] r@[j]@ == op_html(xs@[j]@),
        decreases xs.len() - i,
    {
        let row = op_html_exec(&xs[i]);
        r.push(row);
        i += 1;
    }
    assert(views(r@) =~= op_html_rows(stat_views(xs@)));
    r
}

pub open spec fn top_html_rows(xs: Seq<OperationStatView>) -> Seq<Seq<char>> {
    xs.map_values(|x: OperationStatView| top_html(x))
}

pub open spec fn top_html(s: OperationStatView) -> Seq<char> {
    "<li><span class=\"risk\">"@ + escape_html(s.name) + "</span>: "@ + decimal(s.count as nat) + " ("@ + level_name(s.level) + ")</li>"@
}

fn top_html_exec(s: &OperationStat) -> (r: Vec<char>)
    ensures
        r@ == top_html(s@),
{
    let mut out = chars_of("<li><span class=\"risk\">");
    extend(&mut out, &escape_html_str(s.name.as_str()));
    extend_str(&mut out, "</span>: ");
    push_decimal(&mut out, s.count as u64);
    extend_str(&mut out, " (");
    extend_str(&mut out, level_name_str(s.level));
    extend_str(&mut out, ")</li>");
    out
}

fn top_html_items(xs: &Vec<&OperationStat>) -> (r: Vec<Vec<char>>)
    ensures
        views(r@) == top_html_rows(ref_stat_views(xs@)),
{
    let mut r: Vec<Vec<char>> = Vec::new();
    let mut i: usize = 0;
    while i < xs.len()
        invariant
            i <= xs.len(),
            r@.len() == i,
            forall|j: int| 0 <= j < i ==> #[trigger] r@[j]@ == top_html(xs@[j]@),
        decreases xs.len() - i,
    {
        let row = top_html_exec(xs[i]);
        r.push(row);
        i += 1;
    }
    assert(views(r@) =~= top_html_rows(ref_stat_views(xs@)));
    r
}

pub open spec fn todo_html_rows(xs: Seq<Seq<char>>) -> Seq<Seq<char>> {
    xs.map_values(|x: Seq<char>| todo_html(x))
}

pub open spec fn todo_html(s: Seq<char>) -> Seq<char> {
    "<li>"@ + escape_html(s) + "</li>"@
}

fn todo_html_exec(s: &Vec<char>) -> (r: Vec<char>)
    ensures
        r@ == todo_html(s@),
{
    let mut out = chars_of("<li>");
    extend(&mut out, &escape_html_chars(s));
    extend_str(&mut out, "</li>");
    out
}

fn todo_html_items(xs: &Vec<Vec<char>>) -> (r: Vec<Vec<char>>)
    ensures
        views(r@) == todo_html_rows(views(xs@)),
{
    let mut r: Vec<Vec<char>> = Vec::new();
    let mut i: usize = 0;
    while i < xs.len()
        invariant
            i <= xs.len(),
            r@.len() == i,
            forall|j: int| 0 <= j < i ==> #[trigger] r@[j]@ == todo_html(xs@[j]@),
        decreases xs.len() - i,
    {
        let row = todo_html_exec(&xs[i]);
        r.push(row);
        i += 1;
    }
    assert(views(r@) =~= todo_html_rows(views(xs@)));
    r
}

pub open spec fn map_html_rows(xs: Seq<SourceMapEntryView>) -> Seq<Seq<char>> {
    xs.map_values(|x: SourceMapEntryView| map_html(x))
}

pub open spec fn map_html(s: SourceMapEntryView) -> Seq<char> {
    "<tr><td>"@ + decimal(s.rpg_line as nat) + "</td><td>"@ + decimal(s.java_line as nat) + "</td><td>"@ + escape_html(s.kind) + "</td><td>"@ + escape_html(s.note) + "</td></tr>"@
}

fn map_html_exec(s: &SourceMapEntry) -> (r: Vec<char>)
    ensures
        r@ == map_html(s@),
{
    let mut out = chars_of("<tr><td>");
    push_decimal(&mut out, s.rpg_line as u64);
    extend_str(&mut out, "</td><td>");
    push_decimal(&mut out, s.java_line as u64);
    extend_str(&mut out, "</td><td>");
    extend(&mut out, &escape_html_str(s.kind.as_str()));
    extend_str(&mut out, "</td><td>");
    extend(&mut out, &escape_html_str(s.note.as_str()));
    extend_str(&mut out, "</td></tr>");
    out
}

fn map_html_items(xs: &Vec<SourceMapEntry>) -> (r: Vec<Vec<char>>)
    ensures
        views(r@) == map_html_rows(map_views(xs@)),
{
    let mut r: Vec<Vec<char>> = Vec::new();
    let mut i: usize = 0;
    while i < xs.len()
        invariant
            i <= xs.len(),
            r@.len() == i,
            forall|j: int| 0 <= j < i ==> #[trigger] r@[j]@ == map_html(xs@[j]@),
        decreases xs.len() - i,
    {
        let row = map_html_exec(&xs[i]);
        r.push(row);
        i += 1;
    }
    assert(views(r@) =~= map_html_rows(map_views(xs@)));
    r
}

pub open spec fn diag_html_rows(xs: Seq<DiagnosticView>) -> Seq<Seq<char>> {
    xs.map_values(|x: DiagnosticView| diag_html(x))
}

pub open spec fn diag_html(s: DiagnosticView) -> Seq<char> {
    "<li>"@ + escape_html(diagnostic_markdown(s)) + "</li>"@
}

fn diag_html_exec(s: &Diagnostic) -> (r: Vec<char>)
    ensures
        r@ == diag_html(s@),
{
    let mut out = chars_of("<li>");
    extend(&mut out, &escape_html_chars(&format_diagnostic_markdown(s)));
    extend_str(&mut out, "</li>");
    out
}

fn diag_html_items(xs: &Vec<Diagnostic>) -> (r: Vec<Vec<char>>)
    ensures
        views(r@) == diag_html_rows(diag_views(xs@)),
{
    let mut r: Vec<Vec<char>> = Vec::new();
    let mut i: usize = 0;
    while i < xs.len()
        invariant
            i <= xs.len(),
            r@.len() == i,
            forall|j: int| 0 <= j < i ==> #[trigger] r@[j]@ == diag_html(xs@[j]@),
        decreases xs.len() - i,
    {
        let row = diag_html_exec(&xs[i]);
        r.push(row);
        i += 1;
    }
    assert(views(r@) =~= diag_html_rows(diag_views(xs@)));
    r
}


// ------------------------------------------------------------------
// The Markdown report
// ------------------------------------------------------------------

pub open spec fn exit_code_md(code: Option<i32>) -> Seq<char> {
    match code {
        Some(c) => signed_decimal(c as int),
        None => "n/a"@,
    }
}

pub open spec fn detail_md(detail: Seq<char>) -> Seq<char> {
    if detail.len() == 0 {
        Seq::empty()
    } else {
        "- Javac Detail: "@ + detail + "\n"@
    }
}

/// The Javac lines of the summary.
pub open spec fn javac_md(check: Option<JavacCheckView>) -> Seq<char> {
    match check {
        Some(c) => "- Javac Check: "@ + (if c.success {
            "success"@
        } else {
            "failed"@
        }) + " (command: "@ + c.command + ", exit_code: "@ + exit_code_md(c.exit_code) + ")\n"@
            + detail_md(c.detail),
        None => "- Javac Check: skipped\n"@,
    }
}

#[verifier::spinoff_prover]
fn push_javac_md(out: &mut Vec<char>, check: Option<&JavacCheckSummary>)
    ensures
        final(out)@ == old(out)@ + javac_md(check_view(check)),
{
    match check {
        Some(c) => {
            extend_str(out, "- Javac Check: ");
            if c.success {
                extend_str(out, "success");
            } else {
                extend_str(out, "failed");
            }
            extend_str(out, " (command: ");
            extend(out, &chars_of(c.command.as_str()));
            extend_str(out, ", exit_code: ");
            match c.exit_code {
                Some(code) => extend(out, &signed_decimal_chars(code)),
                None => extend_str(out, "n/a"),
            }
            extend_str(out, ")\n");
            let ghost mid = out@;
            let detail = chars_of(c.detail.as_str());
            if detail.len() > 0 {
                extend_str(out, "- Javac Detail: ");
                extend(out, &detail);
                extend_str(out, "\n");
            }
            proof {
                assert(out@ =~= mid + detail_md(c.detail@));
                assert(final(out)@ =~= old(out)@ + javac_md(check_view(check)));
            }
        },
        None => {
            extend_str(out, "- Javac Check: skipped\n");
        },
    }
}

/// The source map section: a table, or `- none`.
pub open spec fn source_map_md(sm: Seq<SourceMapEntryView>) -> Seq<char> {
    if sm.len() == 0 {
        "- none\n"@
    } else {
        "| RPG Line | Java Line | Kind | Note |\n|---:|---:|---|---|\n"@ + concat_items(map_md_rows(sm))
    }
}

/// The summary section of the Markdown report.
pub open spec fn md_summary(program: Program, ir: IrProgram, target: Seq<char>, check: Option<JavacCheckView>) -> Seq<
    char,
> {
    "# RPG to Java Migration Report\n\n## Summary\n\n"@ + "- Java Target: "@ + target + "\n"@ + javac_md(check)
        + md_counts(program, ir)
}

/// The counts of the Markdown summary.
pub open spec fn md_counts(program: Program, ir: IrProgram) -> Seq<char> {
    "- Statements: "@ + decimal(program.statements@.len()) + "\n- Symbols: "@ + decimal(ir.symbols@.len())
        + "\n- Diagnostics: "@ + decimal(program.diagnostics@.len()) + "\n"@
}

pub open spec fn md_operations(stats: Seq<OperationStatView>) -> Seq<char> {
    "\n## Operation Matrix\n\n| Operation | Count | Level |\n|---|---:|---|\n"@ + concat_items(op_md_rows(stats))
}

pub open spec fn md_top(stats: Seq<OperationStatView>) -> Seq<char> {
    "\n## Top Unsupported Operations\n\n"@ + list_or_none(top_md_rows(top_unsupported(stats)))
}

pub open spec fn md_symbols(ir: IrProgram) -> Seq<char> {
    "\n## Symbols\n\n| Symbol | Type | Assigned Lines | Referenced Lines |\n|---|---|---|---|\n"@
        + concat_items(symbol_md_rows(symbol_views(ir.symbols@)))
}

pub open spec fn md_todos(ir: IrProgram) -> Seq<char> {
    "\n## Unsupported / TODO Items\n\n"@ + list_or_none(todo_md_rows(todos_of(ir_views(ir.statements@))))
}

pub open spec fn md_routes(program: Program) -> Seq<char> {
    "\n## Subroutine Routes\n\n"@ + list_or_none(route_md_rows(route_views(program.subroutine_routes@)))
}

pub open spec fn md_source_map(sm: Seq<SourceMapEntryView>) -> Seq<char> {
    "\n## Source Map\n\n"@ + source_map_md(sm)
}

pub open spec fn md_diagnostics(program: Program) -> Seq<char> {
    "\n## Diagnostics\n\n"@ + list_or_none(diag_md_rows(diag_views(program.diagnostics@)))
}

/// The Markdown migration report: the summary, then the operation matrix,
/// the top unsupported operations, the symbols, the TODO items, the
/// subroutine routes, the source map and the diagnostics.
pub open spec fn markdown_report(
    program: Program,
    ir: IrProgram,
    target: Seq<char>,
    check: Option<JavacCheckView>,
    sm: Seq<SourceMapEntryView>,
) -> Seq<char> {
    let stats = stat_views(program.op_stats@);
    md_summary(program, ir, target, check) + md_operations(stats) + md_top(stats) + md_symbols(ir) + md_todos(ir)
        + md_routes(program) + md_source_map(sm) + md_diagnostics(program)
}

fn md_summary_chars(
    program: &Program,
    ir_program: &IrProgram,
    java_target: &str,
    javac_check: Option<&JavacCheckSummary>,
) -> (r: Vec<char>)
    ensures
        r@ == md_summary(*program, *ir_program, java_target@, check_view(javac_check)),
{
    let mut out = chars_of("# RPG to Java Migration Report\n\n## Summary\n\n");
    extend_str(&mut out, "- Java Target: ");
    extend(&mut out, &chars_of(java_target));
    extend_str(&mut out, "\n");
    push_javac_md(&mut out, javac_check);
    let mut counts = chars_of("- Statements: ");
    push_decimal(&mut counts, program.statements.len() as u64);
    extend_str(&mut counts, "\n- Symbols: ");
    push_decimal(&mut counts, ir_program.symbols.len() as u64);
    extend_str(&mut counts, "\n- Diagnostics: ");
    push_decimal(&mut counts, program.diagnostics.len() as u64);
    extend_str(&mut counts, "\n");
    extend(&mut out, &counts);
    out
}

fn md_source_map_chars(source_map: &Vec<SourceMapEntry>) -> (r: Vec<char>)
    ensures
        r@ == md_source_map(map_views(source_map@)),
{
    let mut out = chars_of("\n## Source Map\n\n");
    let ghost before_map = out@;
    if source_map.len() == 0 {
        extend_str(&mut out, "- none\n");
    } else {
        extend_str(&mut out, "| RPG Line | Java Line | Kind | Note |\n|---:|---:|---|---|\n");
        push_all(&mut out, &map_md_items(source_map));
    }
    proof {
        assert(out@ == before_map + source_map_md(map_views(source_map@)));
    }
    out
}

/// Renders the Markdown migration report.
#[verifier::spinoff_prover]
pub fn render_markdown(
    program: &Program,
    ir_program: &IrProgram,
    java_target: &str,
    javac_check: Option<&JavacCheckSummary>,
    source_map: &Vec<SourceMapEntry>,
) -> (r: String)
    ensures
        r@ == markdown_report(*program, *ir_program, java_target@, check_view(javac_check), map_views(source_map@)),
{
    let stats = &program.op_stats;
    let mut out = md_summary_chars(program, ir_program, java_target, javac_check);
    let mut ops = chars_of("\n## Operation Matrix\n\n| Operation | Count | Level |\n|---|---:|---|\n");
    push_all(&mut ops, &op_md_items(stats));
    extend(&mut out, &ops);
    let mut top_part = chars_of("\n## Top Unsupported Operations\n\n");
    let top = top_unsupported_operations(program);
    push_list_or_none(&mut top_part, &top_md_items(&top));
    extend(&mut out, &top_part);
    let mut syms = chars_of(
        "\n## Symbols\n\n| Symbol | Type | Assigned Lines | Referenced Lines |\n|---|---|---|---|\n",
    );
    push_all(&mut syms, &symbol_md_items(&ir_program.symbols));
    extend(&mut out, &syms);
    let mut todo_part = chars_of("\n## Unsupported / TODO Items\n\n");
    let todos = collect_todos(ir_program);
    push_list_or_none(&mut todo_part, &todo_md_items(&todos));
    extend(&mut out, &todo_part);
    let mut routes = chars_of("\n## Subroutine Routes\n\n");
    push_list_or_none(&mut routes, &route_md_items(&program.subroutine_routes));
    extend(&mut out, &routes);
    extend(&mut out, &md_source_map_chars(source_map));
    let mut diags = chars_of("\n## Diagnostics\n\n");
    push_list_or_none(&mut diags, &diag_md_items(&program.diagnostics));
    extend(&mut out, &diags);
    string_of(&out)
}

// ------------------------------------------------------------------
// The HTML report
// ------------------------------------------------------------------

/// `success`, `failed`, or `skipped` when no check ran.
pub open spec fn compile_status(check: Option<JavacCheckView>) -> Seq<char> {
    match check {
        Some(c) => if c.success {
            "success"@
        } else {
            "failed"@
        },
        None => "skipped"@,
    }
}

fn compile_status_str(check: Option<&JavacCheckSummary>) -> (r: &'static str)
    ensures
        r@ == compile_status(check_view(check)),
{
    match check {
        Some(c) => if c.success {
            "success"
        } else {
            "failed"
        },
        None => "skipped",
    }
}

/// The occurrences of each support level fit in a `usize`.
pub open spec fn level_totals_fit(stats: Seq<OperationStatView>) -> bool {
    &&& level_total(stats, SupportLevel::Implemented, stats.len()) <= usize::MAX
    &&& level_total(stats, SupportLevel::Stub, stats.len()) <= usize::MAX
    &&& level_total(stats, SupportLevel::Planned, stats.len()) <= usize::MAX
}

/// The page head and the key figures of the HTML report.
pub open spec fn html_head(
    program: Program,
    ir: IrProgram,
    target: Seq<char>,
    check: Option<JavacCheckView>,
    rate: Seq<char>,
) -> Seq<char> {
    "<!doctype html>"@ + html_page_top() + html_kpis(program, ir, target, check, rate)
}

/// The document head, the style sheet and the page title.
pub open spec fn html_page_top() -> Seq<char> {
    "<html lang=\"en\"><head><meta charset=\"utf-8\"><title>RPG2Java Migration Report</title><style>body{font-family:Arial,sans-serif;margin:24px;color:#1f2937}table{border-collapse:collapse;width:100%;margin:12px 0}th,td{border:1px solid #d1d5db;padding:6px 8px;text-align:left}th{background:#f3f4f6}.kpi{display:flex;gap:12px;flex-wrap:wrap}.card{border:1px solid #d1d5db;border-radius:8px;padding:12px;min-width:140px}.risk{color:#b45309;font-weight:bold}</style></head><body>"@ + "<h1>RPG2Java Migration Report</h1>"@
}

/// The key figures: the Java target, the statements, the TODO items, the
/// TODO rate and the outcome of the Javac check.
pub open spec fn html_kpis(
    program: Program,
    ir: IrProgram,
    target: Seq<char>,
    check: Option<JavacCheckView>,
    rate: Seq<char>,
) -> Seq<char> {
    "<div class=\"kpi\"><div class=\"card\"><b>Java Target</b><br>"@ + escape_html(target)
        + "</div><div class=\"card\"><b>Statements</b><br>"@ + decimal(program.statements@.len())
        + "</div><div class=\"card\"><b>TODOs</b><br>"@ + decimal(todos_of(ir_views(ir.statements@)).len())
        + "</div><div class=\"card\"><b>TODO Rate</b><br>"@ + rate + "%</div><div class=\"card\"><b>Javac</b><br>"@
        + compile_status(check) + "</div></div>"@
}

pub open spec fn html_operations(stats: Seq<OperationStatView>) -> Seq<char> {
    let n = stats.len();
    "<h2>Operation Summary</h2>"@ + "<p>implemented="@ + decimal(level_total(stats, SupportLevel::Implemented, n))
        + " stub="@ + decimal(level_total(stats, SupportLevel::Stub, n)) + " planned="@
        + decimal(level_total(stats, SupportLevel::Planned, n))
        + "</p><table><tr><th>Operation</th><th>Count</th><th>Level</th></tr>"@ + concat_items(op_html_rows(stats))
        + "</table>"@
}

pub open spec fn html_top(stats: Seq<OperationStatView>) -> Seq<char> {
    "<h2>Top Unsupported Operations</h2>"@ + "<ol>"@ + concat_items(top_html_rows(top_unsupported(stats))) + "</ol>"@
}

pub open spec fn html_todos(ir: IrProgram) -> Seq<char> {
    "<h2>TODO Items</h2>"@ + "<ul>"@ + concat_items(todo_html_rows(todos_of(ir_views(ir.statements@)))) + "</ul>"@
}

pub open spec fn html_source_map(sm: Seq<SourceMapEntryView>) -> Seq<char> {
    "<h2>Source Map</h2>"@
        + "<table><tr><th>RPG Line</th><th>Java Line</th><th>Kind</th><th>Note</th></tr>"@
        + concat_items(map_html_rows(sm)) + "</table>"@
}

pub open spec fn html_diagnostics(program: Program) -> Seq<char> {
    "<h2>Diagnostics</h2>"@ + "<ul>"@ + concat_items(diag_html_rows(diag_views(program.diagnostics@))) + "</ul>"@
}

/// The HTML migration report; `rate` is the TODO rate as a percentage with
/// two decimals. After the page head and the key figures come the operation
/// summary, the top unsupported operations, the TODO items, the source map
/// and the diagnostics.
pub open spec fn html_report(
    program: Program,
    ir: IrProgram,
    target: Seq<char>,
    check: Option<JavacCheckView>,
    sm: Seq<SourceMapEntryView>,
    rate: Seq<char>,
) -> Seq<char> {
    let stats = stat_views(program.op_stats@);
    html_head(program, ir, target, check, rate) + html_operations(stats) + html_top(stats) + html_todos(ir)
        + html_source_map(sm) + html_diagnostics(program) + "</body></html>\n"@
}

fn html_kpis_chars(
    program: &Program,
    todos: &Vec<Vec<char>>,
    java_target: &str,
    javac_check: Option<&JavacCheckSummary>,
    todo_rate: &str,
) -> (r: Vec<char>)
    ensures
        r@ == "<div class=\"kpi\"><div class=\"card\"><b>Java Target</b><br>"@ + escape_html(java_target@)
            + "</div><div class=\"card\"><b>Statements</b><br>"@ + decimal(program.statements@.len())
            + "</div><div class=\"card\"><b>TODOs</b><br>"@ + decimal(todos@.len())
            + "</div><div class=\"card\"><b>TODO Rate</b><br>"@ + todo_rate@
            + "%</div><div class=\"card\"><b>Javac</b><br>"@ + compile_status(check_view(javac_check))
            + "</div></div>"@,
{
    let mut out = chars_of("<div class=\"kpi\"><div class=\"card\"><b>Java Target</b><br>");
    extend(&mut out, &escape_html_str(java_target));
    extend_str(&mut out, "</div><div class=\"card\"><b>Statements</b><br>");
    push_decimal(&mut out, program.statements.len() as u64);
    extend_str(&mut out, "</div><div class=\"card\"><b>TODOs</b><br>");
    push_decimal(&mut out, todos.len() as u64);
    extend_str(&mut out, "</div><div class=\"card\"><b>TODO Rate</b><br>");
    extend(&mut out, &chars_of(todo_rate));
    extend_str(&mut out, "%</div><div class=\"card\"><b>Javac</b><br>");
    extend_str(&mut out, compile_status_str(javac_check));
    extend_str(&mut out, "</div></div>");
    out
}

fn html_operations_chars(stats: &Vec<OperationStat>) -> (r: Vec<char>)
    requires
        level_totals_fit(stat_views(stats@)),
    ensures
        r@ == html_operations(stat_views(stats@)),
{
    let mut out = chars_of("<h2>Operation Summary</h2>");
    extend_str(&mut out, "<p>implemented=");
    push_decimal(&mut out, sum_level(stats, SupportLevel::Implemented) as u64);
    extend_str(&mut out, " stub=");
    push_decimal(&mut out, sum_level(stats, SupportLevel::Stub) as u64);
    extend_str(&mut out, " planned=");
    push_decimal(&mut out, sum_level(stats, SupportLevel::Planned) as u64);
    extend_str(&mut out, "</p><table><tr><th>Operation</th><th>Count</th><th>Level</th></tr>");
    push_all(&mut out, &op_html_items(stats));
    extend_str(&mut out, "</table>");
    out
}

/// Renders the HTML migration report; `todo_rate` is the TODO rate as a
/// percentage with two decimals.
#[verifier::spinoff_prover]
pub fn render_html(
    program: &Program,
    ir_program: &IrProgram,
    java_target: &str,
    javac_check: Option<&JavacCheckSummary>,
    source_map: &Vec<SourceMapEntry>,
    todo_rate: &str,
) -> (r: String)
    requires
        level_totals_fit(stat_views(program.op_stats@)),
    ensures
        r@ == html_report(*program, *ir_program, java_target@, check_view(javac_check), map_views(source_map@), todo_rate@),
{
    let stats = &program.op_stats;
    let todos = collect_todos(ir_program);
    let mut page = chars_of("<html lang=\"en\"><head><meta charset=\"utf-8\"><title>RPG2Java Migration Report</title><style>body{font-family:Arial,sans-serif;margin:24px;color:#1f2937}table{border-collapse:collapse;width:100%;margin:12px 0}th,td{border:1px solid #d1d5db;padding:6px 8px;text-align:left}th{background:#f3f4f6}.kpi{display:flex;gap:12px;flex-wrap:wrap}.card{border:1px solid #d1d5db;border-radius:8px;padding:12px;min-width:140px}.risk{color:#b45309;font-weight:bold}</style></head><body>");
    extend_str(&mut page, "<h1>RPG2Java Migration Report</h1>");
    let mut out = chars_of("<!doctype html>");
    extend(&mut out, &page);
    extend(&mut out, &html_kpis_chars(program, &todos, java_target, javac_check, todo_rate));
    proof {
        assert(out@ =~= html_head(*program, *ir_program, java_target@, check_view(javac_check), todo_rate@));
    }
    extend(&mut out, &html_operations_chars(stats));
    let mut top_part = chars_of("<h2>Top Unsupported Operations</h2>");
    extend_str(&mut top_part, "<ol>");
    let top = top_unsupported_operations(program);
    push_all(&mut top_part, &top_html_items(&top));
    extend_str(&mut top_part, "</ol>");
    extend(&mut out, &top_part);
    let mut todo_part = chars_of("<h2>TODO Items</h2>");
    extend_str(&mut todo_part, "<ul>");
    push_all(&mut todo_part, &todo_html_items(&todos));
    extend_str(&mut todo_part, "</ul>");
    extend(&mut out, &todo_part);
    let mut map_part = chars_of("<h2>Source Map</h2>");
    extend_str(&mut map_part, "<table><tr><th>RPG Line</th><th>Java Line</th><th>Kind</th><th>Note</th></tr>");
    push_all(&mut map_part, &map_html_items(source_map));
    extend_str(&mut map_part, "</table>");
    extend(&mut out, &map_part);
    let mut diag_part = chars_of("<h2>Diagnostics</h2>");
    extend_str(&mut diag_part, "<ul>");
    push_all(&mut diag_part, &diag_html_items(&program.diagnostics));
    extend_str(&mut diag_part, "</ul>");
    extend(&mut out, &diag_part);
    extend_str(&mut out, "</body></html>\n");
    string_of(&out)
}

#[verifier::external_type_specification]
#[verifier::external_body]
pub struct ExPath(std::path::Path);

/// Where each report goes; a report without a path is not written.
pub struct ReportOutputs<'a> {
    pub json_path: Option<&'a Path>,
    pub md_path: Option<&'a Path>,
    pub html_path: Option<&'a Path>,
    pub source_map_path: Option<&'a Path>,
}


pub open spec fn file_views<'a>(v: Seq<(&'a Path, String)>) -> Seq<(&'a Path, Seq<char>)> {
    v.map_values(|e: (&'a Path, String)| (e.0, e.1@))
}

/// One file when a path is given, none otherwise.
pub open spec fn opt_file<'a>(path: Option<&'a Path>, body: Seq<char>) -> Seq<(&'a Path, Seq<char>)> {
    match path {
        Some(p) => seq![(p, body)],
        None => seq![],
    }
}

/// The reports to write, each with its path, in the order JSON, Markdown,
/// HTML, source map.
pub open spec fn report_files<'a>(
    program: Program,
    ir: IrProgram,
    target: Seq<char>,
    check: Option<JavacCheckView>,
    sm: Seq<SourceMapEntryView>,
    outputs: ReportOutputs<'a>,
    rate: Seq<char>,
) -> Seq<(&'a Path, Seq<char>)> {
    opt_file(outputs.json_path, json_report(program, ir, target, check, sm))
        + opt_file(outputs.md_path, markdown_report(program, ir, target, check, sm))
        + opt_file(outputs.html_path, html_report(program, ir, target, check, sm, rate))
        + opt_file(outputs.source_map_path, source_map_json(sm))
}

fn push_file<'a>(files: &mut Vec<(&'a Path, String)>, path: Option<&'a Path>, body: String)
    ensures
        file_views(final(files)@) == file_views(old(files)@) + opt_file(path, body@),
{
    let ghost before = file_views(files@);
    match path {
        Some(p) => {
            files.push((p, body));
            proof {
                assert(file_views(files@) =~= before + opt_file(path, body@));
            }
        },
        None => {
            proof {
                assert(file_views(files@) =~= before + opt_file(path, body@));
            }
        },
    }
}

/// Renders the requested reports; `todo_rate` is the TODO rate as a
/// percentage with two decimals, used by the HTML report.
pub fn render_reports<'a>(
    program: &Program,
    ir_program: &IrProgram,
    java_target: &str,
    javac_check: Option<&JavacCheckSummary>,
    source_map: &Vec<SourceMapEntry>,
    outputs: ReportOutputs<'a>,
    todo_rate: &str,
) -> (r: Vec<(&'a Path, String)>)
    requires
        outputs.html_path is Some ==> level_totals_fit(stat_views(program.op_stats@)),
    ensures
        file_views(r@) == report_files(
            *program,
            *ir_program,
            java_target@,
            check_view(javac_check),
            map_views(source_map@),
            outputs,
            todo_rate@,
        ),
{
    let mut files: Vec<(&'a Path, String)> = Vec::new();
    proof {
        assert(file_views(files@) =~= Seq::<(&'a Path, Seq<char>)>::empty());
    }
    if outputs.json_path.is_some() {
        push_file(&mut files, outputs.json_path, render_json(program, ir_program, java_target, javac_check, source_map));
    }
    proof {
        assert(file_views(files@) =~= opt_file(outputs.json_path, json_report(*program, *ir_program, java_target@, check_view(javac_check), map_views(source_map@))));
    }
    let ghost a = file_views(files@);
    if outputs.md_path.is_some() {
        push_file(&mut files, outputs.md_path, render_markdown(program, ir_program, java_target, javac_check, source_map));
    }
    proof {
        assert(file_views(files@) =~= a + opt_file(outputs.md_path, markdown_report(*program, *ir_program, java_target@, check_view(javac_check), map_views(source_map@))));
    }
    let ghost b = file_views(files@);
    if outputs.html_path.is_some() {
        push_file(
            &mut files,
            outputs.html_path,
            render_html(program, ir_program, java_target, javac_check, source_map, todo_rate),
        );
    }
    proof {
        assert(file_views(files@) =~= b + opt_file(outputs.html_path, html_report(*program, *ir_program, java_target@, check_view(javac_check), map_views(source_map@), todo_rate@)));
    }
    let ghost c = file_views(files@);
    if outputs.source_map_path.is_some() {
        push_file(&mut files, outputs.source_map_path, render_source_map_json(source_map));
    }
    proof {
        assert(file_views(files@) =~= c + opt_file(outputs.source_map_path, source_map_json(map_views(source_map@))));
    }
    files
}


// ------------------------------------------------------------------
// Laws of the reports
// ------------------------------------------------------------------

/// The escaped text of a JSON string never holds a raw line feed.
pub proof fn lemma_escape_json_no_line_feed(v: Seq<char>)
    ensures
        !contains_char(escape_json(v), '\n'),
{
    let a = replace(replace(v, seq!['\\'], seq!['\\', '\\']), seq!['"'], seq!['\\', '"']);
    lemma_replace_from_removes(a, '\n', seq!['\\', 'n'], 0);
}

/// Escaped HTML text holds no `<`, `>` or `"`.
pub proof fn lemma_escape_html_no_markup(v: Seq<char>)
    ensures
        !contains_char(escape_html(v), '<'),
        !contains_char(escape_html(v), '>'),
        !contains_char(escape_html(v), '"'),
{
    reveal_strlit("&amp;");
    reveal_strlit("&lt;");
    reveal_strlit("&gt;");
    reveal_strlit("&quot;");
    let a = replace(v, seq!['&'], "&amp;"@);
    let b = replace(a, seq!['<'], "&lt;"@);
    let c = replace(b, seq!['>'], "&gt;"@);
    lemma_replace_from_removes(a, '<', "&lt;"@, 0);
    lemma_replace_from_removes(b, '>', "&gt;"@, 0);
    lemma_replace_from_absent(b, seq!['>'], "&gt;"@, 0, '<');
    lemma_replace_from_removes(c, '"', "&quot;"@, 0);
    lemma_replace_from_absent(c, seq!['"'], "&quot;"@, 0, '<');
    lemma_replace_from_absent(c, seq!['"'], "&quot;"@, 0, '>');
}

/// The operation summary accounts for every operation once: the counts per
/// support level add up to the number of distinct operations.
pub proof fn lemma_level_counts_cover(stats: Seq<OperationStatView>, k: nat)
    requires
        k <= stats.len(),
    ensures
        level_count(stats, SupportLevel::Implemented, k) + level_count(stats, SupportLevel::Stub, k)
            + level_count(stats, SupportLevel::Planned, k) == k,
    decreases k,
{
    if k > 0 {
        lemma_level_counts_cover(stats, (k - 1) as nat);
    }
}

/// The TODO text of an unsupported statement: `OP: args` for an operation the
/// translator does not handle, the line itself for an unrecognised line.
pub open spec fn unsupported_text(s: StmtView) -> Option<Seq<char>> {
    match s {
        StmtView::Operation { op, args } => Some(op + seq![':', ' '] + args),
        StmtView::Raw(src) => Some(src),
        _ => None,
    }
}

/// The TODO texts of the unsupported statements among the first `k`, in order.
pub open spec fn unsupported_items(stmts: Seq<StmtView>, k: nat) -> Seq<Seq<char>>
    decreases k,
{
    if k == 0 || k > stmts.len() {
        seq![]
    } else {
        match unsupported_text(stmts[k - 1]) {
            Some(x) => unsupported_items(stmts, (k - 1) as nat).push(x),
            None => unsupported_items(stmts, (k - 1) as nat),
        }
    }
}

proof fn lemma_todos_upto_unsupported(stmts: Seq<StmtView>, k: nat)
    requires
        k <= stmts.len(),
    ensures
        todos_upto(stmts.map_values(|s: StmtView| ir_stmt_of(s)), k) == unsupported_items(stmts, k),
    decreases k,
{
    if k > 0 {
        lemma_todos_upto_unsupported(stmts, (k - 1) as nat);
        let ir = stmts.map_values(|s: StmtView| ir_stmt_of(s));
        assert(ir[k - 1] == ir_stmt_of(stmts[k - 1]));
    }
}

/// Nothing the translator cannot handle is dropped: the TODO items of the
/// reports are exactly the unsupported operations and unrecognised lines of
/// the parsed program, in source order.
pub proof fn lemma_todos_are_unsupported(program: Program, ir: IrProgram)
    requires
        ir_matches(stmt_views(program.statements@), program.statement_lines@, ir),
    ensures
        todos_of(ir_views(ir.statements@)) == unsupported_items(
            stmt_views(program.statements@),
            program.statements@.len(),
        ),
{
    let stmts = stmt_views(program.statements@);
    lemma_todos_upto_unsupported(stmts, stmts.len());
    assert(ir_views(ir.statements@).len() == stmts.len());
}


/// No entry comes before an earlier one.
pub open spec fn top_sorted(l: Seq<OperationStatView>) -> bool {
    forall|i: int, j: int| 0 <= i < j < l.len() ==> !top_before(#[trigger] l[j], #[trigger] l[i])
}

proof fn lemma_top_before_trans(a: OperationStatView, b: OperationStatView, c: OperationStatView)
    requires
        top_before(a, b),
        top_before(b, c),
    ensures
        top_before(a, c),
{
    if a.count == b.count && b.count == c.count {
        lemma_seq_lt_trans(a.name, b.name, c.name);
    }
}

proof fn lemma_top_before_asym(a: OperationStatView, b: OperationStatView)
    ensures
        !(top_before(a, b) && top_before(b, a)),
{
    lemma_seq_lt_asym(a.name, b.name);
}

proof fn lemma_insert_top_bound(l: Seq<OperationStatView>, x: OperationStatView, b: OperationStatView)
    requires
        forall|i: int| 0 <= i < l.len() ==> !top_before(#[trigger] l[i], b),
        !top_before(x, b),
    ensures
        forall|i: int| 0 <= i < insert_top(l, x).len() ==> !top_before(#[trigger] insert_top(l, x)[i], b),
    decreases l.len(),
{
    if l.len() > 0 && !top_before(x, l[0]) {
        let rest = l.drop_first();
        assert forall|i: int| 0 <= i < rest.len() implies !top_before(#[trigger] rest[i], b) by {
            assert(rest[i] == l[i + 1]);
        }
        lemma_insert_top_bound(rest, x, b);
        let r = insert_top(l, x);
        assert forall|i: int| 0 <= i < r.len() implies !top_before(#[trigger] r[i], b) by {
            if i > 0 {
                assert(r[i] == insert_top(rest, x)[i - 1]);
            }
        }
    }
}

proof fn lemma_insert_top_sorted(l: Seq<OperationStatView>, x: OperationStatView)
    requires
        top_sorted(l),
        forall|i: int| 0 <= i < l.len() ==> (#[trigger] l[i]).level != SupportLevel::Implemented,
        x.level != SupportLevel::Implemented,
    ensures
        top_sorted(insert_top(l, x)),
        forall|i: int| 0 <= i < insert_top(l, x).len() ==> (#[trigger] insert_top(l, x)[i]).level != SupportLevel::Implemented,
        insert_top(l, x).len() == l.len() + 1,
    decreases l.len(),
{
    let r = insert_top(l, x);
    if l.len() == 0 {
    } else if top_before(x, l[0]) {
        assert forall|i: int, j: int| 0 <= i < j < r.len() implies !top_before(#[trigger] r[j], #[trigger] r[i]) by {
            if i == 0 {
                assert(r[j] == l[j - 1]);
                if top_before(l[j - 1], x) {
                    lemma_top_before_trans(l[j - 1], x, l[0]);
                    if j - 1 == 0 {
                        lemma_top_before_asym(l[0], l[0]);
                    }
                }
            } else {
                assert(r[i] == l[i - 1] && r[j] == l[j - 1]);
            }
        }
        assert forall|i: int| 0 <= i < r.len() implies (#[trigger] r[i]).level != SupportLevel::Implemented by {
            if i > 0 {
                assert(r[i] == l[i - 1]);
            }
        }
    } else {
        let rest = l.drop_first();
        assert forall|i: int, j: int| 0 <= i < j < rest.len() implies !top_before(#[trigger] rest[j], #[trigger] rest[i]) by {
            assert(rest[i] == l[i + 1] && rest[j] == l[j + 1]);
        }
        assert forall|i: int| 0 <= i < rest.len() implies (#[trigger] rest[i]).level != SupportLevel::Implemented && !top_before(rest[i], l[0]) by {
            assert(rest[i] == l[i + 1]);
        }
        lemma_insert_top_sorted(rest, x);
        lemma_insert_top_bound(rest, x, l[0]);
        let ir = insert_top(rest, x);
        assert forall|i: int, j: int| 0 <= i < j < r.len() implies !top_before(#[trigger] r[j], #[trigger] r[i]) by {
            assert(r[j] == ir[j - 1]);
            if i > 0 {
                assert(r[i] == ir[i - 1]);
            }
        }
        assert forall|i: int| 0 <= i < r.len() implies (#[trigger] r[i]).level != SupportLevel::Implemented by {
            if i > 0 {
                assert(r[i] == ir[i - 1]);
            }
        }
    }
}

/// The top unsupported operations are the stub and planned operations, all
/// of them, most frequent first and, among equally frequent ones, in name order.
pub proof fn lemma_top_unsupported(stats: Seq<OperationStatView>, k: nat)
    requires
        k <= stats.len(),
    ensures
        top_sorted(unsupported_upto(stats, k)),
        forall|i: int| 0 <= i < unsupported_upto(stats, k).len() ==> (#[trigger] unsupported_upto(stats, k)[i]).level != SupportLevel::Implemented,
        unsupported_upto(stats, k).len() == level_count(stats, SupportLevel::Stub, k) + level_count(stats, SupportLevel::Planned, k),
    decreases k,
{
    if k > 0 {
        lemma_top_unsupported(stats, (k - 1) as nat);
        if stats[k - 1].level != SupportLevel::Implemented {
            lemma_insert_top_sorted(unsupported_upto(stats, (k - 1) as nat), stats[k - 1]);
        }
    }
}


/// The multiset of a list after inserting `x` gains `x` and nothing else.
proof fn lemma_insert_top_multiset(l: Seq<OperationStatView>, x: OperationStatView)
    ensures
        insert_top(l, x).to_multiset() =~= l.to_multiset().insert(x),
    decreases l.len(),
{
    broadcast use vstd::seq_lib::group_to_multiset_ensures, vstd::multiset::group_multiset_axioms;

    if l.len() == 0 {
        assert(Seq::<OperationStatView>::empty().push(x) =~= seq![x]);
    } else if top_before(x, l[0]) {
        vstd::seq_lib::lemma_multiset_commutative(seq![x], l);
        assert(Seq::<OperationStatView>::empty().push(x) =~= seq![x]);
    } else {
        let t = l.drop_first();
        lemma_insert_top_multiset(t, x);
        assert(Seq::<OperationStatView>::empty().push(l[0]) =~= seq![l[0]]);
        vstd::seq_lib::lemma_multiset_commutative(seq![l[0]], insert_top(t, x));
        assert(l =~= seq![l[0]] + t);
        vstd::seq_lib::lemma_multiset_commutative(seq![l[0]], t);
    }
}

/// Whether an operation has a stub or is only planned.
pub open spec fn unsupported_stat() -> spec_fn(OperationStatView) -> bool {
    |s: OperationStatView| s.level != SupportLevel::Implemented
}

proof fn lemma_unsupported_upto_multiset(stats: Seq<OperationStatView>, k: nat)
    requires
        k <= stats.len(),
    ensures
        unsupported_upto(stats, k).to_multiset() =~= stats.subrange(0, k as int).filter(unsupported_stat()).to_multiset(),
    decreases k,
{
    broadcast use vstd::seq_lib::group_to_multiset_ensures;

    reveal(Seq::filter);
    let pred = unsupported_stat();
    if k == 0 {
        assert(stats.subrange(0, 0).filter(pred) =~= Seq::<OperationStatView>::empty());
    } else {
        lemma_unsupported_upto_multiset(stats, (k - 1) as nat);
        let sub = stats.subrange(0, k as int);
        assert(sub.drop_last() =~= stats.subrange(0, k - 1));
        assert(sub.last() == stats[k - 1]);
        let prev = sub.drop_last().filter(pred);
        if stats[k - 1].level != SupportLevel::Implemented {
            assert(sub.filter(pred) == prev.push(sub.last()));
            lemma_insert_top_multiset(unsupported_upto(stats, (k - 1) as nat), stats[k - 1]);
        } else {
            assert(sub.filter(pred) == prev);
        }
    }
}

/// The top unsupported operations hold each stub or planned operation of
/// the table exactly as often as the table does, and nothing else: they are
/// a reordering of the non-implemented operations.
pub proof fn lemma_top_unsupported_permutation(stats: Seq<OperationStatView>)
    ensures
        top_unsupported(stats).to_multiset() == stats.filter(unsupported_stat()).to_multiset(),
{
    lemma_unsupported_upto_multiset(stats, stats.len());
    assert(stats.subrange(0, stats.len() as int) =~= stats);
}


/// Each item is a part of the items written one after the other.
proof fn lemma_item_in_concat_all(items: Seq<Seq<char>>, k: nat, i: int)
    requires
        0 <= i < k <= items.len(),
    ensures
        has_part(concat_all(items, k), items[i]),
    decreases k,
{
    let prev = concat_all(items, (k - 1) as nat);
    lemma_has_part_ends(prev, items[k - 1]);
    if i < k - 1 {
        lemma_item_in_concat_all(items, (k - 1) as nat, i);
        lemma_has_part_trans(concat_all(items, k), prev, items[i]);
    }
}

pub proof fn lemma_item_in_concat(items: Seq<Seq<char>>, i: int)
    requires
        0 <= i < items.len(),
    ensures
        has_part(concat_items(items), items[i]),
        has_part(list_or_none(items), items[i]),
{
    lemma_item_in_concat_all(items, items.len(), i);
}


/// Each section of the Markdown report is a part of it.
proof fn lemma_markdown_sections(
    program: Program,
    ir: IrProgram,
    target: Seq<char>,
    check: Option<JavacCheckView>,
    sm: Seq<SourceMapEntryView>,
)
    ensures
        has_part(markdown_report(program, ir, target, check, sm), md_summary(program, ir, target, check)),
        has_part(markdown_report(program, ir, target, check, sm), md_top(stat_views(program.op_stats@))),
        has_part(markdown_report(program, ir, target, check, sm), md_todos(ir)),
        has_part(markdown_report(program, ir, target, check, sm), md_routes(program)),
        has_part(markdown_report(program, ir, target, check, sm), md_source_map(sm)),
        has_part(markdown_report(program, ir, target, check, sm), md_diagnostics(program)),
{
    let stats = stat_views(program.op_stats@);
    let s1 = md_summary(program, ir, target, check);
    let s2 = md_operations(stats);
    let s3 = md_top(stats);
    let s4 = md_symbols(ir);
    let s5 = md_todos(ir);
    let s6 = md_routes(program);
    let s7 = md_source_map(sm);
    let s8 = md_diagnostics(program);
    let p2 = s1 + s2;
    let p3 = p2 + s3;
    let p4 = p3 + s4;
    let p5 = p4 + s5;
    let p6 = p5 + s6;
    let p7 = p6 + s7;
    let p8 = p7 + s8;
    lemma_has_part_ends(s1, s2);
    lemma_has_part_grow(p2, s3, s1);
    lemma_has_part_grow(p3, s4, s1);
    lemma_has_part_grow(p4, s5, s1);
    lemma_has_part_grow(p5, s6, s1);
    lemma_has_part_grow(p6, s7, s1);
    lemma_has_part_grow(p7, s8, s1);
    lemma_has_part_ends(p2, s3);
    lemma_has_part_grow(p3, s4, s3);
    lemma_has_part_grow(p4, s5, s3);
    lemma_has_part_grow(p5, s6, s3);
    lemma_has_part_grow(p6, s7, s3);
    lemma_has_part_grow(p7, s8, s3);
    lemma_has_part_ends(p4, s5);
    lemma_has_part_grow(p5, s6, s5);
    lemma_has_part_grow(p6, s7, s5);
    lemma_has_part_grow(p7, s8, s5);
    lemma_has_part_ends(p5, s6);
    lemma_has_part_grow(p6, s7, s6);
    lemma_has_part_grow(p7, s8, s6);
    lemma_has_part_ends(p6, s7);
    lemma_has_part_grow(p7, s8, s7);
    lemma_has_part_ends(p7, s8);
}

proof fn lemma_summary_javac(program: Program, ir: IrProgram, target: Seq<char>, check: Option<JavacCheckView>)
    ensures
        has_part(md_summary(program, ir, target, check), javac_md(check)),
{
    let head = "# RPG to Java Migration Report\n\n## Summary\n\n"@ + "- Java Target: "@ + target + "\n"@;
    lemma_has_part_mid(head, javac_md(check), md_counts(program, ir));
}

proof fn lemma_listed_in_section(title: Seq<char>, items: Seq<Seq<char>>, i: int)
    requires
        0 <= i < items.len(),
    ensures
        has_part(title + list_or_none(items), items[i]),
{
    lemma_item_in_concat(items, i);
    lemma_has_part_ends(title, list_or_none(items));
    lemma_has_part_trans(title + list_or_none(items), list_or_none(items), items[i]);
}

/// The Markdown report shows the Javac line (`- Javac Check: ` and
/// `success`, `failed` or `skipped`), one `- [severity][code] ...: message`
/// line per diagnostic and one `- caller -> callee (line N)` line per
/// subroutine route; a section with nothing to list reads `- none`.
#[verifier::spinoff_prover]
pub proof fn lemma_markdown_lines(
    program: Program,
    ir: IrProgram,
    target: Seq<char>,
    check: Option<JavacCheckView>,
    sm: Seq<SourceMapEntryView>,
)
    ensures
        has_part(markdown_report(program, ir, target, check, sm), javac_md(check)),
        forall|i: int|
            0 <= i < program.diagnostics@.len() ==> has_part(
                markdown_report(program, ir, target, check, sm),
                #[trigger] diag_md(program.diagnostics@[i]@),
            ),
        forall|i: int|
            0 <= i < program.subroutine_routes@.len() ==> has_part(
                markdown_report(program, ir, target, check, sm),
                #[trigger] route_md(program.subroutine_routes@[i]@),
            ),
        program.diagnostics@.len() == 0 ==> has_part(
            markdown_report(program, ir, target, check, sm),
            "\n## Diagnostics\n\n"@ + "- none\n"@,
        ),
        program.subroutine_routes@.len() == 0 ==> has_part(
            markdown_report(program, ir, target, check, sm),
            "\n## Subroutine Routes\n\n"@ + "- none\n"@,
        ),
        todos_of(ir_views(ir.statements@)).len() == 0 ==> has_part(
            markdown_report(program, ir, target, check, sm),
            "\n## Unsupported / TODO Items\n\n"@ + "- none\n"@,
        ),
        top_unsupported(stat_views(program.op_stats@)).len() == 0 ==> has_part(
            markdown_report(program, ir, target, check, sm),
            "\n## Top Unsupported Operations\n\n"@ + "- none\n"@,
        ),
        sm.len() == 0 ==> has_part(markdown_report(program, ir, target, check, sm), "\n## Source Map\n\n"@ + "- none\n"@),
{
    let md = markdown_report(program, ir, target, check, sm);
    lemma_markdown_sections(program, ir, target, check, sm);
    lemma_summary_javac(program, ir, target, check);
    lemma_has_part_trans(md, md_summary(program, ir, target, check), javac_md(check));
    let drows = diag_md_rows(diag_views(program.diagnostics@));
    assert forall|i: int| 0 <= i < program.diagnostics@.len() implies has_part(
        md,
        #[trigger] diag_md(program.diagnostics@[i]@),
    ) by {
        lemma_listed_in_section("\n## Diagnostics\n\n"@, drows, i);
        assert(drows[i] == diag_md(program.diagnostics@[i]@));
        lemma_has_part_trans(md, md_diagnostics(program), drows[i]);
    }
    let rrows = route_md_rows(route_views(program.subroutine_routes@));
    assert forall|i: int| 0 <= i < program.subroutine_routes@.len() implies has_part(
        md,
        #[trigger] route_md(program.subroutine_routes@[i]@),
    ) by {
        lemma_listed_in_section("\n## Subroutine Routes\n\n"@, rrows, i);
        assert(rrows[i] == route_md(program.subroutine_routes@[i]@));
        lemma_has_part_trans(md, md_routes(program), rrows[i]);
    }
}


/// A section that opens with a heading holds the heading and its items.
proof fn lemma_html_section(heading: Seq<char>, open: Seq<char>, items: Seq<Seq<char>>, close: Seq<char>)
    ensures
        has_part(heading + open + concat_items(items) + close, heading),
        forall|i: int|
            0 <= i < items.len() ==> has_part(heading + open + concat_items(items) + close, #[trigger] items[i]),
{
    let sec = heading + open + concat_items(items) + close;
    assert(sec =~= heading + (open + concat_items(items) + close));
    lemma_has_part_ends(heading, open + concat_items(items) + close);
    lemma_has_part_mid(heading + open, concat_items(items), close);
    assert forall|i: int| 0 <= i < items.len() implies has_part(sec, #[trigger] items[i]) by {
        lemma_item_in_concat(items, i);
        lemma_has_part_trans(sec, concat_items(items), items[i]);
    }
}

/// Each section of the HTML report is a part of it, and the report starts
/// with its doctype.
proof fn lemma_html_sections(
    program: Program,
    ir: IrProgram,
    target: Seq<char>,
    check: Option<JavacCheckView>,
    sm: Seq<SourceMapEntryView>,
    rate: Seq<char>,
)
    ensures
        starts_with(html_report(program, ir, target, check, sm, rate), "<!doctype html>"@),
        has_part(html_report(program, ir, target, check, sm, rate), html_head(program, ir, target, check, rate)),
        has_part(html_report(program, ir, target, check, sm, rate), html_operations(stat_views(program.op_stats@))),
        has_part(html_report(program, ir, target, check, sm, rate), html_top(stat_views(program.op_stats@))),
        has_part(html_report(program, ir, target, check, sm, rate), html_todos(ir)),
        has_part(html_report(program, ir, target, check, sm, rate), html_source_map(sm)),
        has_part(html_report(program, ir, target, check, sm, rate), html_diagnostics(program)),
{
    let stats = stat_views(program.op_stats@);
    let s1 = html_head(program, ir, target, check, rate);
    let s2 = html_operations(stats);
    let s3 = html_top(stats);
    let s4 = html_todos(ir);
    let s5 = html_source_map(sm);
    let s6 = html_diagnostics(program);
    let s7 = "</body></html>\n"@;
    let p2 = s1 + s2;
    let p3 = p2 + s3;
    let p4 = p3 + s4;
    let p5 = p4 + s5;
    let p6 = p5 + s6;
    let d = "<!doctype html>"@;
    assert(s1.subrange(0, d.len() as int) =~= d);
    lemma_starts_with_grow(s1, s2, d);
    lemma_starts_with_grow(p2, s3, d);
    lemma_starts_with_grow(p3, s4, d);
    lemma_starts_with_grow(p4, s5, d);
    lemma_starts_with_grow(p5, s6, d);
    lemma_starts_with_grow(p6, s7, d);
    lemma_has_part_ends(s1, s2);
    lemma_has_part_grow(p2, s3, s1);
    lemma_has_part_grow(p3, s4, s1);
    lemma_has_part_grow(p4, s5, s1);
    lemma_has_part_grow(p5, s6, s1);
    lemma_has_part_grow(p6, s7, s1);
    lemma_has_part_grow(p2, s3, s2);
    lemma_has_part_grow(p3, s4, s2);
    lemma_has_part_grow(p4, s5, s2);
    lemma_has_part_grow(p5, s6, s2);
    lemma_has_part_grow(p6, s7, s2);
    lemma_has_part_ends(p2, s3);
    lemma_has_part_grow(p3, s4, s3);
    lemma_has_part_grow(p4, s5, s3);
    lemma_has_part_grow(p5, s6, s3);
    lemma_has_part_grow(p6, s7, s3);
    lemma_has_part_ends(p3, s4);
    lemma_has_part_grow(p4, s5, s4);
    lemma_has_part_grow(p5, s6, s4);
    lemma_has_part_grow(p6, s7, s4);
    lemma_has_part_ends(p4, s5);
    lemma_has_part_grow(p5, s6, s5);
    lemma_has_part_grow(p6, s7, s5);
    lemma_has_part_ends(p5, s6);
    lemma_has_part_grow(p6, s7, s6);
}

proof fn lemma_html_title(program: Program, ir: IrProgram, target: Seq<char>, check: Option<JavacCheckView>, rate: Seq<char>)
    ensures
        has_part(html_head(program, ir, target, check, rate), "<h1>RPG2Java Migration Report</h1>"@),
{
    let top = html_page_top();
    lemma_has_part_ends(
        "<html lang=\"en\"><head><meta charset=\"utf-8\"><title>RPG2Java Migration Report</title><style>body{font-family:Arial,sans-serif;margin:24px;color:#1f2937}table{border-collapse:collapse;width:100%;margin:12px 0}th,td{border:1px solid #d1d5db;padding:6px 8px;text-align:left}th{background:#f3f4f6}.kpi{display:flex;gap:12px;flex-wrap:wrap}.card{border:1px solid #d1d5db;border-radius:8px;padding:12px;min-width:140px}.risk{color:#b45309;font-weight:bold}</style></head><body>"@,
        "<h1>RPG2Java Migration Report</h1>"@,
    );
    lemma_has_part_mid("<!doctype html>"@, top, html_kpis(program, ir, target, check, rate));
    lemma_has_part_trans(html_head(program, ir, target, check, rate), top, "<h1>RPG2Java Migration Report</h1>"@);
}

proof fn lemma_html_operations_heading(stats: Seq<OperationStatView>)
    ensures
        has_part(html_operations(stats), "<h2>Operation Summary</h2>"@),
{
    let opsrest = "<p>implemented="@ + decimal(level_total(stats, SupportLevel::Implemented, stats.len())) + " stub="@
        + decimal(level_total(stats, SupportLevel::Stub, stats.len())) + " planned="@
        + decimal(level_total(stats, SupportLevel::Planned, stats.len()))
        + "</p><table><tr><th>Operation</th><th>Count</th><th>Level</th></tr>"@ + concat_items(op_html_rows(stats))
        + "</table>"@;
    assert(html_operations(stats) =~= "<h2>Operation Summary</h2>"@ + opsrest);
    lemma_has_part_ends("<h2>Operation Summary</h2>"@, opsrest);
}

/// The HTML report is a page that starts with its doctype, carries the
/// report title and a heading for each section (operation summary, top
/// unsupported operations, TODO items, source map, diagnostics).
#[verifier::spinoff_prover]
pub proof fn lemma_html_structure(
    program: Program,
    ir: IrProgram,
    target: Seq<char>,
    check: Option<JavacCheckView>,
    sm: Seq<SourceMapEntryView>,
    rate: Seq<char>,
)
    ensures
        starts_with(html_report(program, ir, target, check, sm, rate), "<!doctype html>"@),
        has_part(html_report(program, ir, target, check, sm, rate), "<h1>RPG2Java Migration Report</h1>"@),
        has_part(html_report(program, ir, target, check, sm, rate), "<h2>Operation Summary</h2>"@),
        has_part(html_report(program, ir, target, check, sm, rate), "<h2>Top Unsupported Operations</h2>"@),
        has_part(html_report(program, ir, target, check, sm, rate), "<h2>TODO Items</h2>"@),
        has_part(html_report(program, ir, target, check, sm, rate), "<h2>Source Map</h2>"@),
        has_part(html_report(program, ir, target, check, sm, rate), "<h2>Diagnostics</h2>"@),
{
    let html = html_report(program, ir, target, check, sm, rate);
    let stats = stat_views(program.op_stats@);
    lemma_html_sections(program, ir, target, check, sm, rate);
    lemma_html_title(program, ir, target, check, rate);
    lemma_has_part_trans(html, html_head(program, ir, target, check, rate), "<h1>RPG2Java Migration Report</h1>"@);
    lemma_html_operations_heading(stats);
    lemma_has_part_trans(html, html_operations(stats), "<h2>Operation Summary</h2>"@);
    lemma_html_section("<h2>Top Unsupported Operations</h2>"@, "<ol>"@, top_html_rows(top_unsupported(stats)), "</ol>"@);
    lemma_has_part_trans(html, html_top(stats), "<h2>Top Unsupported Operations</h2>"@);
    lemma_html_section("<h2>TODO Items</h2>"@, "<ul>"@, todo_html_rows(todos_of(ir_views(ir.statements@))), "</ul>"@);
    lemma_has_part_trans(html, html_todos(ir), "<h2>TODO Items</h2>"@);
    lemma_html_section(
        "<h2>Source Map</h2>"@,
        "<table><tr><th>RPG Line</th><th>Java Line</th><th>Kind</th><th>Note</th></tr>"@,
        map_html_rows(sm),
        "</table>"@,
    );
    lemma_has_part_trans(html, html_source_map(sm), "<h2>Source Map</h2>"@);
    lemma_html_section("<h2>Diagnostics</h2>"@, "<ul>"@, diag_html_rows(diag_views(program.diagnostics@)), "</ul>"@);
    lemma_has_part_trans(html, html_diagnostics(program), "<h2>Diagnostics</h2>"@);
}

/// The HTML report lists every stub or planned operation of the table as a
/// risk item: `<li><span class="risk">NAME</span>: COUNT (LEVEL)</li>`, the
/// name escaped.
#[verifier::spinoff_prover]
pub proof fn lemma_html_risks(
    program: Program,
    ir: IrProgram,
    target: Seq<char>,
    check: Option<JavacCheckView>,
    sm: Seq<SourceMapEntryView>,
    rate: Seq<char>,
)
    ensures
        forall|i: int|
            0 <= i < program.op_stats@.len() && program.op_stats@[i].level != SupportLevel::Implemented
                ==> has_part(
                html_report(program, ir, target, check, sm, rate),
                #[trigger] top_html(program.op_stats@[i]@),
            ),
{
    broadcast use vstd::seq_lib::group_to_multiset_ensures;

    let html = html_report(program, ir, target, check, sm, rate);
    let stats = stat_views(program.op_stats@);
    lemma_html_sections(program, ir, target, check, sm, rate);
    let rows = top_html_rows(top_unsupported(stats));
    lemma_html_section("<h2>Top Unsupported Operations</h2>"@, "<ol>"@, rows, "</ol>"@);
    lemma_top_unsupported_permutation(stats);
    let tu = top_unsupported(stats);
    assert forall|i: int|
        0 <= i < program.op_stats@.len() && program.op_stats@[i].level != SupportLevel::Implemented implies has_part(
        html,
        #[trigger] top_html(program.op_stats@[i]@),
    ) by {
        assert(stats[i] == program.op_stats@[i]@);
        stats.lemma_filter_contains(unsupported_stat(), i);
        assert(stats.filter(unsupported_stat()).to_multiset().count(stats[i]) > 0);
        assert(tu.contains(stats[i]));
        let j = choose|j: int| 0 <= j < tu.len() && tu[j] == stats[i];
        assert(rows[j] == top_html(stats[i]));
        lemma_has_part_trans(html, html_top(stats), rows[j]);
    }
}


proof fn lemma_item_in_join(parts: Seq<Seq<char>>, sep: Seq<char>, i: int)
    requires
        0 <= i < parts.len(),
    ensures
        has_part(join_sep(parts, sep), parts[i]),
    decreases parts.len(),
{
    if parts.len() == 1 {
        lemma_has_part_self(parts[0]);
    } else {
        let prev = join_sep(parts.drop_last(), sep);
        lemma_has_part_ends(prev + sep, parts.last());
        if i < parts.len() - 1 {
            lemma_item_in_join(parts.drop_last(), sep, i);
            assert(parts.drop_last()[i] == parts[i]);
            lemma_has_part_grow(prev, sep, parts[i]);
            lemma_has_part_grow(prev + sep, parts.last(), parts[i]);
        }
    }
}

/// The JSON report is one object whose members are, in this order,
/// `java_target`, `javac_check`, `total_statements`, `total_symbols`,
/// `symbols`, `operation_summary`, `top_unsupported_operations`,
/// `operations`, `todos`, `subroutine_routes`, `source_map` and
/// `diagnostics`, each on a line of its own. The target is a JSON string of
/// the escaped target; `javac_check` is `null` exactly when no check ran, and
/// otherwise carries the check's success flag.
pub proof fn lemma_json_report_object(
    program: Program,
    ir: IrProgram,
    target: Seq<char>,
    check: Option<JavacCheckView>,
    sm: Seq<SourceMapEntryView>,
)
    ensures
        json_report(program, ir, target, check, sm) == json_object(
            json_report_keys(),
            json_report_values(program, ir, target, check, sm),
        ),
        json_report_values(program, ir, target, check, sm).len() == json_report_keys().len(),
        forall|i: int|
            0 <= i < json_report_keys().len() ==> has_part(
                json_report(program, ir, target, check, sm),
                #[trigger] json_member(json_report_keys()[i], json_report_values(program, ir, target, check, sm)[i]),
            ),
        json_report_values(program, ir, target, check, sm)[0] == "\""@ + escape_json(target) + "\""@,
        json_report_values(program, ir, target, check, sm)[2] == decimal(program.statements@.len()),
        json_report_values(program, ir, target, check, sm)[3] == decimal(ir.symbols@.len()),
        json_report_values(program, ir, target, check, sm)[8] == "[\n"@ + all_rows(
            todos_of(ir_views(ir.statements@)).map_values(|t: Seq<char>| "    \""@ + escape_json(t) + "\""@),
        ) + "  ]"@,
        (check is None) <==> json_report_values(program, ir, target, check, sm)[1] == "null"@,
        forall|c: JavacCheckView|
            check == Some(c) ==> has_part(
                #[trigger] json_report_values(program, ir, target, Some(c), sm)[1],
                "\"success\": "@ + bool_text(c.success),
            ),
{
    let keys = json_report_keys();
    let values = json_report_values(program, ir, target, check, sm);
    let members = json_members(keys, values);
    let json = json_report(program, ir, target, check, sm);
    let todos = todos_of(ir_views(ir.statements@));
    assert(todo_json_rows(todos) =~= todos.map_values(|t: Seq<char>| "    \""@ + escape_json(t) + "\""@));
    lemma_has_part_mid("{\n"@, join_sep(members, ",\n"@), "\n}\n"@);
    assert forall|i: int| 0 <= i < keys.len() implies has_part(json, #[trigger] json_member(keys[i], values[i])) by {
        lemma_item_in_join(members, ",\n"@, i);
        lemma_has_part_trans(json, join_sep(members, ",\n"@), members[i]);
    }
    if let Some(c) = check {
        reveal_strlit("{\n    \"command\": \"");
        reveal_strlit("null");
        assert(values[1][0] == '{');
        assert("null"@[0] == 'n');
        let a = "{\n    \"command\": \""@ + escape_json(c.command) + "\",\n    \"success\": "@ + bool_text(c.success);
        let b = ",\n"@ + exit_code_json(c.exit_code) + "    \"detail\": \""@ + escape_json(c.detail) + "\"\n  }"@;
        let q = "{\n    \"command\": \""@ + escape_json(c.command) + "\",\n"@;
        reveal_strlit("\",\n    \"success\": ");
        reveal_strlit("\",\n");
        reveal_strlit("    \"success\": ");
        reveal_strlit("\"success\": ");
        reveal_strlit("    ");
        assert("\",\n    \"success\": "@ =~= "\",\n"@ + "    "@ + "\"success\": "@);
        assert(values[1] =~= (q + "    "@) + ("\"success\": "@ + bool_text(c.success)) + b);
        lemma_has_part_mid(q + "    "@, "\"success\": "@ + bool_text(c.success), b);
    }
}


/// The Javac card of the HTML report: it reads `success` when the check
/// succeeded, `failed` when it ran and failed, and `skipped` when no check ran.
#[verifier::spinoff_prover]
pub proof fn lemma_html_javac_card(
    program: Program,
    ir: IrProgram,
    target: Seq<char>,
    check: Option<JavacCheckView>,
    sm: Seq<SourceMapEntryView>,
    rate: Seq<char>,
)
    ensures
        forall|c: JavacCheckView|
            check == Some(c) && c.success ==> has_part(
                #[trigger] html_report(program, ir, target, Some(c), sm, rate),
                "%</div><div class=\"card\"><b>Javac</b><br>"@ + "success"@ + "</div></div>"@,
            ),
        forall|c: JavacCheckView|
            check == Some(c) && !c.success ==> has_part(
                #[trigger] html_report(program, ir, target, Some(c), sm, rate),
                "%</div><div class=\"card\"><b>Javac</b><br>"@ + "failed"@ + "</div></div>"@,
            ),
        check is None ==> has_part(
            html_report(program, ir, target, check, sm, rate),
            "%</div><div class=\"card\"><b>Javac</b><br>"@ + "skipped"@ + "</div></div>"@,
        ),
{
    let html = html_report(program, ir, target, check, sm, rate);
    lemma_html_sections(program, ir, target, check, sm, rate);
    let head = html_head(program, ir, target, check, rate);
    let kpis = html_kpis(program, ir, target, check, rate);
    let card = "%</div><div class=\"card\"><b>Javac</b><br>"@ + compile_status(check) + "</div></div>"@;
    let before = "<div class=\"kpi\"><div class=\"card\"><b>Java Target</b><br>"@ + escape_html(target)
        + "</div><div class=\"card\"><b>Statements</b><br>"@ + decimal(program.statements@.len())
        + "</div><div class=\"card\"><b>TODOs</b><br>"@ + decimal(todos_of(ir_views(ir.statements@)).len())
        + "</div><div class=\"card\"><b>TODO Rate</b><br>"@ + rate;
    assert(kpis =~= before + card);
    lemma_has_part_ends(before, card);
    lemma_has_part_ends("<!doctype html>"@ + html_page_top(), kpis);
    lemma_has_part_trans(head, kpis, card);
    lemma_has_part_trans(html, head, card);
}

proof fn lemma_javac_md_opens(c: JavacCheckView)
    ensures
        has_part(
            javac_md(Some(c)),
            "- Javac Check: "@ + (if c.success {
                "success"@
            } else {
                "failed"@
            }) + " (command: "@ + c.command + ", exit_code: "@,
        ),
{
    let word = if c.success {
        "success"@
    } else {
        "failed"@
    };
    let line = "- Javac Check: "@ + word + " (command: "@ + c.command + ", exit_code: "@;
    let rest = exit_code_md(c.exit_code) + ")\n"@ + detail_md(c.detail);
    assert(javac_md(Some(c)) =~= line + rest);
    lemma_has_part_ends(line, rest);
}

/// The Javac line of the Markdown summary: `- Javac Check: success (command:
/// ...` when the check succeeded, `- Javac Check: failed (command: ...` when
/// it ran and failed, `- Javac Check: skipped` when no check ran.
pub proof fn lemma_markdown_javac_line(
    program: Program,
    ir: IrProgram,
    target: Seq<char>,
    check: Option<JavacCheckView>,
    sm: Seq<SourceMapEntryView>,
)
    ensures
        check is Some && check->0.success ==> has_part(
            markdown_report(program, ir, target, check, sm),
            "- Javac Check: "@ + "success"@ + " (command: "@ + check->0.command + ", exit_code: "@,
        ),
        check is Some && !check->0.success ==> has_part(
            markdown_report(program, ir, target, check, sm),
            "- Javac Check: "@ + "failed"@ + " (command: "@ + check->0.command + ", exit_code: "@,
        ),
        check is None ==> has_part(markdown_report(program, ir, target, check, sm), "- Javac Check: skipped\n"@),
{
    lemma_markdown_lines(program, ir, target, check, sm);
    if let Some(c) = check {
        lemma_javac_md_opens(c);
        let line = "- Javac Check: "@ + (if c.success {
            "success"@
        } else {
            "failed"@
        }) + " (command: "@ + c.command + ", exit_code: "@;
        lemma_has_part_trans(markdown_report(program, ir, target, check, sm), javac_md(check), line);
    }
}


proof fn lemma_summary_parts(program: Program, ir: IrProgram, target: Seq<char>, check: Option<JavacCheckView>)
    ensures
        has_part(md_summary(program, ir, target, check), "- Java Target: "@ + target + "\n"@),
        has_part(md_summary(program, ir, target, check), md_counts(program, ir)),
{
    let s1 = md_summary(program, ir, target, check);
    let top = "# RPG to Java Migration Report\n\n## Summary\n\n"@;
    let t = "- Java Target: "@ + target + "\n"@;
    let counts = md_counts(program, ir);
    assert(s1 =~= top + t + (javac_md(check) + counts));
    lemma_has_part_mid(top, t, javac_md(check) + counts);
    assert(s1 =~= (top + t + javac_md(check)) + counts);
    lemma_has_part_ends(top + t + javac_md(check), counts);
}

/// The summary of the Markdown report names the Java target and counts the
/// statements, the symbols and the diagnostics.
#[verifier::spinoff_prover]
pub proof fn lemma_markdown_counts(
    program: Program,
    ir: IrProgram,
    target: Seq<char>,
    check: Option<JavacCheckView>,
    sm: Seq<SourceMapEntryView>,
)
    ensures
        has_part(markdown_report(program, ir, target, check, sm), "- Java Target: "@ + target + "\n"@),
        has_part(
            markdown_report(program, ir, target, check, sm),
            "- Statements: "@ + decimal(program.statements@.len()) + "\n- Symbols: "@ + decimal(ir.symbols@.len())
                + "\n- Diagnostics: "@ + decimal(program.diagnostics@.len()) + "\n"@,
        ),
{
    lemma_markdown_sections(program, ir, target, check, sm);
    lemma_summary_parts(program, ir, target, check);
    let md = markdown_report(program, ir, target, check, sm);
    let s1 = md_summary(program, ir, target, check);
    lemma_has_part_trans(md, s1, "- Java Target: "@ + target + "\n"@);
    lemma_has_part_trans(md, s1, md_counts(program, ir));
}

/// The key figures of the HTML report: the escaped Java target, the number
/// of statements and of TODO items, and the TODO rate.
pub proof fn lemma_html_figures(
    program: Program,
    ir: IrProgram,
    target: Seq<char>,
    check: Option<JavacCheckView>,
    sm: Seq<SourceMapEntryView>,
    rate: Seq<char>,
)
    ensures
        has_part(
            html_report(program, ir, target, check, sm, rate),
            "<b>Java Target</b><br>"@ + escape_html(target) + "</div><div class=\"card\"><b>Statements</b><br>"@
                + decimal(program.statements@.len()) + "</div><div class=\"card\"><b>TODOs</b><br>"@ + decimal(
                todos_of(ir_views(ir.statements@)).len(),
            ) + "</div><div class=\"card\"><b>TODO Rate</b><br>"@ + rate + "%</div>"@,
        ),
{
    let html = html_report(program, ir, target, check, sm, rate);
    lemma_html_sections(program, ir, target, check, sm, rate);
    let head = html_head(program, ir, target, check, rate);
    let kpis = html_kpis(program, ir, target, check, rate);
    let lead = "<div class=\"kpi\"><div class=\"card\">"@;
    let fig = "<b>Java Target</b><br>"@ + escape_html(target) + "</div><div class=\"card\"><b>Statements</b><br>"@
        + decimal(program.statements@.len()) + "</div><div class=\"card\"><b>TODOs</b><br>"@ + decimal(
        todos_of(ir_views(ir.statements@)).len(),
    ) + "</div><div class=\"card\"><b>TODO Rate</b><br>"@ + rate + "%</div>"@;
    let tail = "<div class=\"card\"><b>Javac</b><br>"@ + compile_status(check) + "</div></div>"@;
    reveal_strlit("<div class=\"kpi\"><div class=\"card\"><b>Java Target</b><br>");
    reveal_strlit("<div class=\"kpi\"><div class=\"card\">");
    reveal_strlit("<b>Java Target</b><br>");
    reveal_strlit("%</div><div class=\"card\"><b>Javac</b><br>");
    reveal_strlit("%</div>");
    reveal_strlit("<div class=\"card\"><b>Javac</b><br>");
    assert("<div class=\"kpi\"><div class=\"card\"><b>Java Target</b><br>"@ =~= lead + "<b>Java Target</b><br>"@);
    assert("%</div><div class=\"card\"><b>Javac</b><br>"@ =~= "%</div>"@ + "<div class=\"card\"><b>Javac</b><br>"@);
    assert(kpis =~= lead + fig + tail);
    lemma_has_part_mid(lead, fig, tail);
    lemma_has_part_ends("<!doctype html>"@ + html_page_top(), kpis);
    lemma_has_part_trans(head, kpis, fig);
    lemma_has_part_trans(html, head, fig);
}

/// How HTML escaping writes one character.
pub open spec fn html_char(x: char) -> Seq<char> {
    if x == '&' {
        "&amp;"@
    } else if x == '<' {
        "&lt;"@
    } else if x == '>' {
        "&gt;"@
    } else if x == '"' {
        "&quot;"@
    } else {
        seq![x]
    }
}

/// How JSON escaping writes one character.
pub open spec fn json_char(x: char) -> Seq<char> {
    if x == '\\' {
        seq!['\\', '\\']
    } else if x == '"' {
        seq!['\\', '"']
    } else if x == '\n' {
        seq!['\\', 'n']
    } else {
        seq![x]
    }
}

proof fn lemma_replace_char_one(x: char, c: char, t: Seq<char>)
    ensures
        replace(seq![x], seq![c], t) == char_replaced(x, c, t),
{
    lemma_replace_char_absent(Seq::<char>::empty(), c, t);
    lemma_replace_char_push(Seq::<char>::empty(), x, c, t);
    assert(Seq::<char>::empty().push(x) =~= seq![x]);
    assert(Seq::<char>::empty() + char_replaced(x, c, t) =~= char_replaced(x, c, t));
}

/// HTML escaping works character by character: nothing for nothing, and one
/// more character adds its entity (`&amp;`, `&lt;`, `&gt;`, `&quot;`) or
/// itself.
pub proof fn lemma_escape_html_chars(v: Seq<char>, x: char)
    ensures
        escape_html(Seq::<char>::empty()) == Seq::<char>::empty(),
        escape_html(v.push(x)) == escape_html(v) + html_char(x),
{
    reveal_strlit("&amp;");
    reveal_strlit("&lt;");
    reveal_strlit("&gt;");
    reveal_strlit("&quot;");
    let e = Seq::<char>::empty();
    lemma_replace_char_absent(e, '&', "&amp;"@);
    lemma_replace_char_absent(e, '<', "&lt;"@);
    lemma_replace_char_absent(e, '>', "&gt;"@);
    lemma_replace_char_absent(e, '"', "&quot;"@);
    let r1 = replace(v, seq!['&'], "&amp;"@);
    let r2 = replace(r1, seq!['<'], "&lt;"@);
    let r3 = replace(r2, seq!['>'], "&gt;"@);
    let c1 = char_replaced(x, '&', "&amp;"@);
    lemma_replace_char_push(v, x, '&', "&amp;"@);
    lemma_replace_char_add(r1, c1, '<', "&lt;"@);
    let c2 = replace(c1, seq!['<'], "&lt;"@);
    lemma_replace_char_add(r2, c2, '>', "&gt;"@);
    let c3 = replace(c2, seq!['>'], "&gt;"@);
    lemma_replace_char_add(r3, c3, '"', "&quot;"@);
    let c4 = replace(c3, seq!['"'], "&quot;"@);
    if x == '&' {
        lemma_replace_char_absent(c1, '<', "&lt;"@);
        lemma_replace_char_absent(c2, '>', "&gt;"@);
        lemma_replace_char_absent(c3, '"', "&quot;"@);
    } else {
        lemma_replace_char_one(x, '<', "&lt;"@);
        if x == '<' {
            lemma_replace_char_absent(c2, '>', "&gt;"@);
            lemma_replace_char_absent(c3, '"', "&quot;"@);
        } else {
            lemma_replace_char_one(x, '>', "&gt;"@);
            if x == '>' {
                lemma_replace_char_absent(c3, '"', "&quot;"@);
            } else {
                lemma_replace_char_one(x, '"', "&quot;"@);
            }
        }
    }
    assert(c4 == html_char(x));
}

/// JSON escaping works character by character: nothing for nothing, and one
/// more character adds `\\` for a backslash, `\"` for a double quote,
/// `\n` for a line feed, or itself.
pub proof fn lemma_escape_json_chars(v: Seq<char>, x: char)
    ensures
        escape_json(Seq::<char>::empty()) == Seq::<char>::empty(),
        escape_json(v.push(x)) == escape_json(v) + json_char(x),
{
    let e = Seq::<char>::empty();
    let b = seq!['\\'];
    let q = seq!['"'];
    let n = seq!['\n'];
    let tb = seq!['\\', '\\'];
    let tq = seq!['\\', '"'];
    let tn = seq!['\\', 'n'];
    lemma_replace_char_absent(e, '\\', tb);
    lemma_replace_char_absent(e, '"', tq);
    lemma_replace_char_absent(e, '\n', tn);
    let r1 = replace(v, b, tb);
    let r2 = replace(r1, q, tq);
    let c1 = char_replaced(x, '\\', tb);
    lemma_replace_char_push(v, x, '\\', tb);
    lemma_replace_char_add(r1, c1, '"', tq);
    let c2 = replace(c1, q, tq);
    lemma_replace_char_add(r2, c2, '\n', tn);
    let c3 = replace(c2, n, tn);
    if x == '\\' {
        lemma_replace_char_absent(c1, '"', tq);
        lemma_replace_char_absent(c2, '\n', tn);
    } else {
        lemma_replace_char_one(x, '"', tq);
        if x == '"' {
            lemma_replace_char_absent(c2, '\n', tn);
        } else {
            lemma_replace_char_one(x, '\n', tn);
        }
    }
    assert(c3 == json_char(x));
}
} // verus!
