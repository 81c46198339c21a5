//! Line-based parsing of RPG source (free and fixed format) into statements.
use vstd::prelude::*;
use crate::ir::{in_names, lemma_sorted_unique, sorted_names};
use crate::text::{after_first_token, after_first_token_chars, all_digit_chars, all_digits, back_ws, char_is_ascii_digit, char_is_ascii_ws, char_upper, chars_of, contains_char, decimal, eq_chars, eq_ignore_case, eq_ignore_case_chars, extend, extend_str, first_token, first_token_chars, index_of_char, index_of_from, is_ascii_digit, is_ascii_ws, is_lit, is_ws, join_chars, join_sep, lemma_back_ws_bounds, lemma_index_of_from, lemma_seq_lt_irrefl, lemma_seq_lt_total, lemma_seq_lt_trans, lemma_single_add, lemma_skip_non_ws_bounds, lemma_skip_ws_bounds, lemma_sub_single, lines_of, lt_chars, owned, push_decimal, rest_after, rest_after_lit, second_token, seq_lt, single_line, skip_non_ws, skip_ws, slice_of, split_char, split_char_of, split_lines, starts_with, starts_with_lit, string_of, strip_cr, to_upper, trim, trim_chars, trim_end, trim_end_chars, trim_start, upper, upper_char, utf8_len, utf8_len_exceeds, views};


verus! {

#[derive(Debug, Clone, Copy)]
pub enum ParseMode {
    Auto,
    Free,
    Fixed,
}

#[derive(Debug, Clone)]
pub struct Program {
    pub statements: Vec<Stmt>,
    pub statement_lines: Vec<usize>,
    pub diagnostics: Vec<Diagnostic>,
    pub op_stats: Vec<OperationStat>,
    pub subroutine_routes: Vec<SubroutineRoute>,
}

#[derive(Debug, Clone, Copy, PartialEq, Eq, Structural)]
pub enum DiagnosticSeverity {
    Warning,
}

impl DiagnosticSeverity {
    pub open spec fn name(self) -> Seq<char> {
        match self {
            DiagnosticSeverity::Warning => "warning"@,
        }
    }

    pub fn as_str(self) -> (r: &'static str)
        ensures
            r@ == self.name(),
    {
        match self {
            DiagnosticSeverity::Warning => "warning",
        }
    }
}

#[derive(Debug, Clone)]
pub struct Diagnostic {
    pub severity: DiagnosticSeverity,
    pub code: String,
    pub message: String,
    pub line: Option<usize>,
    pub column: Option<usize>,
}

pub struct DiagnosticView {
    pub severity: DiagnosticSeverity,
    pub code: Seq<char>,
    pub message: Seq<char>,
    pub line: Option<usize>,
    pub column: Option<usize>,
}

impl View for Diagnostic {
    type V = DiagnosticView;

    open spec fn view(&self) -> DiagnosticView {
        DiagnosticView {
            severity: self.severity,
            code: self.code@,
            message: self.message@,
            line: self.line,
            column: self.column,
        }
    }
}

/// `[severity][code]`, then ` line N` (and ` col M`) and `:` when a line is
/// known, then a space and the message.
pub open spec fn diagnostic_text(d: DiagnosticView) -> Seq<char> {
    let head = seq!['['] + d.severity.name() + seq![']', '['] + d.code + seq![']'];
    let pos = match d.line {
        Some(l) => " line "@ + decimal(l as nat) + match d.column {
            Some(c) => " col "@ + decimal(c as nat),
            None => Seq::<char>::empty(),
        } + seq![':'],
        None => Seq::<char>::empty(),
    };
    head + pos + seq![' '] + d.message
}

impl Diagnostic {
    pub fn as_text(&self) -> (r: String)
        ensures
            r@ == diagnostic_text(self@),
    {
        let mut out: Vec<char> = Vec::new();
        out.push('[');
        extend_str(&mut out, self.severity.as_str());
        out.push(']');
        out.push('[');
        let code = chars_of(self.code.as_str());
        extend(&mut out, &code);
        out.push(']');
        let ghost head = out@;
        if let Some(line) = self.line {
            extend_str(&mut out, " line ");
            push_decimal(&mut out, line as u64);
            if let Some(col) = self.column {
                extend_str(&mut out, " col ");
                push_decimal(&mut out, col as u64);
            }
            out.push(':');
        }
        let ghost with_pos = out@;
        out.push(' ');
        let msg = chars_of(self.message.as_str());
        extend(&mut out, &msg);
        proof {
            let d = self@;
            let pos = match d.line {
                Some(l) => " line "@ + decimal(l as nat) + match d.column {
                    Some(c) => " col "@ + decimal(c as nat),
                    None => Seq::<char>::empty(),
                } + seq![':'],
                None => Seq::<char>::empty(),
            };
            assert(head =~= seq!['['] + d.severity.name() + seq![']', '['] + d.code + seq![']']);
            assert(with_pos =~= head + pos);
            assert(out@ =~= diagnostic_text(d));
        }
        string_of(&out)
    }
}

#[derive(Debug, Clone)]
pub struct OperationStat {
    pub name: String,
    pub count: usize,
    pub level: SupportLevel,
}

pub struct OperationStatView {
    pub name: Seq<char>,
    pub count: usize,
    pub level: SupportLevel,
}

impl View for OperationStat {
    type V = OperationStatView;

    open spec fn view(&self) -> OperationStatView {
        OperationStatView { name: self.name@, count: self.count, level: self.level }
    }
}

#[derive(Debug, Clone)]
pub struct SubroutineRoute {
    pub caller: String,
    pub callee: String,
    pub line: usize,
}

pub struct SubroutineRouteView {
    pub caller: Seq<char>,
    pub callee: Seq<char>,
    pub line: usize,
}

impl View for SubroutineRoute {
    type V = SubroutineRouteView;

    open spec fn view(&self) -> SubroutineRouteView {
        SubroutineRouteView { caller: self.caller@, callee: self.callee@, line: self.line }
    }
}

#[derive(Debug, Clone, Copy, PartialEq, Eq, Structural)]
pub enum SupportLevel {
    Implemented,
    Stub,
    Planned,
}

#[derive(Debug, Clone)]
pub enum Stmt {
    Assign { left: String, right: String },
    If { cond: String },
    Else,
    EndIf,
    DoUntil { cond: String },
    EndDo,
    Call { proc_name: String },
    Write { target: String },
    Read { target: String },
    Operation { op: String, args: String },
    Raw(String),
}

pub enum StmtView {
    Assign { left: Seq<char>, right: Seq<char> },
    If { cond: Seq<char> },
    Else,
    EndIf,
    DoUntil { cond: Seq<char> },
    EndDo,
    Call { proc_name: Seq<char> },
    Write { target: Seq<char> },
    Read { target: Seq<char> },
    Operation { op: Seq<char>, args: Seq<char> },
    Raw(Seq<char>),
}

impl View for Stmt {
    type V = StmtView;

    open spec fn view(&self) -> StmtView {
        match self {
            Stmt::Assign { left, right } => StmtView::Assign { left: left@, right: right@ },
            Stmt::If { cond } => StmtView::If { cond: cond@ },
            Stmt::Else => StmtView::Else,
            Stmt::EndIf => StmtView::EndIf,
            Stmt::DoUntil { cond } => StmtView::DoUntil { cond: cond@ },
            Stmt::EndDo => StmtView::EndDo,
            Stmt::Call { proc_name } => StmtView::Call { proc_name: proc_name@ },
            Stmt::Write { target } => StmtView::Write { target: target@ },
            Stmt::Read { target } => StmtView::Read { target: target@ },
            Stmt::Operation { op, args } => StmtView::Operation { op: op@, args: args@ },
            Stmt::Raw(s) => StmtView::Raw(s@),
        }
    }
}

pub open spec fn stmt_views(v: Seq<Stmt>) -> Seq<StmtView> {
    v.map_values(|s: Stmt| s@)
}

pub open spec fn diag_views(v: Seq<Diagnostic>) -> Seq<DiagnosticView> {
    v.map_values(|d: Diagnostic| d@)
}

pub open spec fn stat_views(v: Seq<OperationStat>) -> Seq<OperationStatView> {
    v.map_values(|s: OperationStat| s@)
}

pub open spec fn route_views(v: Seq<SubroutineRoute>) -> Seq<SubroutineRouteView> {
    v.map_values(|r: SubroutineRoute| r@)
}

pub open spec fn opt_view(o: Option<Vec<char>>) -> Option<Seq<char>> {
    match o {
        Some(v) => Some(v@),
        None => None,
    }
}

// ------------------------------------------------------------------
// Operation catalogue
// ------------------------------------------------------------------

pub open spec fn is_implemented_op(u: Seq<char>) -> bool {
    u == "EVAL"@ || u == "MOVEL"@ || u == "IF"@ || u == "ELSE"@ || u == "ENDIF"@ || u == "CALLP"@
        || u == "READ"@ || u == "WRITE"@ || u == "DOU"@ || u == "ENDDO"@
}

pub open spec fn is_stub_op(u: Seq<char>) -> bool {
    u == "CHAIN"@ || u == "SETLL"@ || u == "READE"@ || u == "EXSR"@
}

/// The support level of an operation name, whatever its letter case.
pub open spec fn support_level(op: Seq<char>) -> SupportLevel {
    if is_implemented_op(upper(op)) {
        SupportLevel::Implemented
    } else if is_stub_op(upper(op)) {
        SupportLevel::Stub
    } else {
        SupportLevel::Planned
    }
}

fn is_implemented_op_exec(u: &Vec<char>) -> (r: bool)
    ensures
        r == is_implemented_op(u@),
{
    is_lit(u, "EVAL") || is_lit(u, "MOVEL") || is_lit(u, "IF") || is_lit(u, "ELSE") || is_lit(
        u,
        "ENDIF",
    ) || is_lit(u, "CALLP") || is_lit(u, "READ") || is_lit(u, "WRITE") || is_lit(u, "DOU")
        || is_lit(u, "ENDDO")
}

fn is_stub_op_exec(u: &Vec<char>) -> (r: bool)
    ensures
        r == is_stub_op(u@),
{
    is_lit(u, "CHAIN") || is_lit(u, "SETLL") || is_lit(u, "READE") || is_lit(u, "EXSR")
}

pub fn support_level_of(op: &Vec<char>) -> (r: SupportLevel)
    ensures
        r == support_level(op@),
{
    let u = to_upper(op);
    if is_implemented_op_exec(&u) {
        SupportLevel::Implemented
    } else if is_stub_op_exec(&u) {
        SupportLevel::Stub
    } else {
        SupportLevel::Planned
    }
}

pub fn lookup_support_level(op: &str) -> (r: SupportLevel)
    ensures
        r == support_level(op@),
{
    let cs = chars_of(op);
    support_level_of(&cs)
}

/// The opcodes the fixed-format parser recognises.
pub open spec fn is_known_opcode(t: Seq<char>) -> bool {
    is_implemented_op(t) || is_stub_op(t)
}

fn is_known_opcode_exec(t: &Vec<char>) -> (r: bool)
    ensures
        r == is_known_opcode(t@),
{
    is_implemented_op_exec(t) || is_stub_op_exec(t)
}

// ------------------------------------------------------------------
// Argument formatting
// ------------------------------------------------------------------

pub open spec fn comma_sep() -> Seq<char> {
    seq![',', ' ']
}

/// The non-empty factors, in order, joined with `, `.
pub open spec fn collect_args(f1: Seq<char>, f2: Seq<char>, r: Seq<char>) -> Seq<char> {
    let p1: Seq<Seq<char>> = if f1.len() > 0 { seq![f1] } else { seq![] };
    let p2: Seq<Seq<char>> = if f2.len() > 0 { seq![f2] } else { seq![] };
    let p3: Seq<Seq<char>> = if r.len() > 0 { seq![r] } else { seq![] };
    join_sep(p1 + p2 + p3, comma_sep())
}

fn comma_sep_exec() -> (r: Vec<char>)
    ensures
        r@ == comma_sep(),
{
    let mut r: Vec<char> = Vec::new();
    r.push(',');
    r.push(' ');
    assert(r@ =~= comma_sep());
    r
}

fn collect_args_exec(f1: &Vec<char>, f2: &Vec<char>, r: &Vec<char>) -> (out: Vec<char>)
    ensures
        out@ == collect_args(f1@, f2@, r@),
{
    let mut parts: Vec<Vec<char>> = Vec::new();
    if f1.len() > 0 {
        parts.push(f1.clone());
    }
    if f2.len() > 0 {
        parts.push(f2.clone());
    }
    if r.len() > 0 {
        parts.push(r.clone());
    }
    proof {
        let p1: Seq<Seq<char>> = if f1@.len() > 0 { seq![f1@] } else { seq![] };
        let p2: Seq<Seq<char>> = if f2@.len() > 0 { seq![f2@] } else { seq![] };
        let p3: Seq<Seq<char>> = if r@.len() > 0 { seq![r@] } else { seq![] };
        assert(views(parts@) =~= p1 + p2 + p3);
    }
    join_chars(&parts, &comma_sep_exec())
}

/// `key=value` for each pair whose trimmed value is not empty.
pub open spec fn named_parts(pairs: Seq<(Seq<char>, Seq<char>)>) -> Seq<Seq<char>>
    decreases pairs.len(),
{
    if pairs.len() == 0 {
        seq![]
    } else {
        let prev = named_parts(pairs.drop_last());
        let v = trim(pairs.last().1);
        if v.len() == 0 {
            prev
        } else {
            prev.push(pairs.last().0 + seq!['='] + v)
        }
    }
}

pub open spec fn join_named(pairs: Seq<(Seq<char>, Seq<char>)>) -> Seq<char> {
    join_sep(named_parts(pairs), comma_sep())
}

pub open spec fn pair_views(v: Seq<(Vec<char>, Vec<char>)>) -> Seq<(Seq<char>, Seq<char>)> {
    v.map_values(|p: (Vec<char>, Vec<char>)| (p.0@, p.1@))
}

fn join_named_args(pairs: &Vec<(Vec<char>, Vec<char>)>) -> (out: Vec<char>)
    ensures
        out@ == join_named(pair_views(pairs@)),
{
    let mut parts: Vec<Vec<char>> = Vec::new();
    let mut i: usize = 0;
    while i < pairs.len()
        invariant
            i <= pairs.len(),
            views(parts@) == named_parts(pair_views(pairs@).subrange(0, i as int)),
        decreases pairs.len() - i,
    {
        let ghost cur = pair_views(pairs@).subrange(0, i + 1);
        proof {
            assert(cur.drop_last() =~= pair_views(pairs@).subrange(0, i as int));
        }
        let value = trim_chars(&pairs[i].1);
        if value.len() > 0 {
            let mut piece = pairs[i].0.clone();
            piece.push('=');
            extend(&mut piece, &value);
            let ghost before = views(parts@);
            parts.push(piece);
            proof {
                assert(views(parts@) =~= before.push(piece@));
                assert(piece@ =~= cur.last().0 + seq!['='] + trim(cur.last().1));
            }
        }
        i += 1;
    }
    proof {
        assert(pair_views(pairs@).subrange(0, pairs@.len() as int) =~= pair_views(pairs@));
    }
    join_chars(&parts, &comma_sep_exec())
}

fn pair_of(key: &str, value: &Vec<char>) -> (r: (Vec<char>, Vec<char>))
    ensures
        r.0@ == key@,
        r.1@ == value@,
{
    (chars_of(key), value.clone())
}

/// `key=..., file=...` style arguments of a fixed-format stub operation.
pub open spec fn format_stub_args(op: Seq<char>, f1: Seq<char>, f2: Seq<char>, r: Seq<char>) -> Seq<
    char,
> {
    if op == "CHAIN"@ || op == "SETLL"@ {
        let key = if f1.len() > 0 { f1 } else { f2 };
        let file = if f1.len() > 0 {
            if f2.len() > 0 { f2 } else { r }
        } else if r.len() > 0 {
            r
        } else {
            f2
        };
        join_named(seq![("key"@, key), ("file"@, file)])
    } else if op == "READE"@ {
        let file = if f2.len() > 0 { f2 } else { r };
        let named = join_named(seq![("key"@, f1), ("file"@, file)]);
        if named.len() == 0 { collect_args(f1, f2, r) } else { named }
    } else if op == "EXSR"@ {
        let sub = if f2.len() > 0 { f2 } else if r.len() > 0 { r } else { f1 };
        let named = join_named(seq![("subroutine"@, sub)]);
        if named.len() == 0 { collect_args(f1, f2, r) } else { named }
    } else {
        collect_args(f1, f2, r)
    }
}

fn format_stub_args_exec(op: &Vec<char>, f1: &Vec<char>, f2: &Vec<char>, r: &Vec<char>) -> (out: Vec<
    char,
>)
    ensures
        out@ == format_stub_args(op@, f1@, f2@, r@),
{
    if is_lit(op, "CHAIN") || is_lit(op, "SETLL") {
        let key = if f1.len() > 0 { f1 } else { f2 };
        let file = if f1.len() > 0 {
            if f2.len() > 0 { f2 } else { r }
        } else if r.len() > 0 {
            r
        } else {
            f2
        };
        let mut pairs: Vec<(Vec<char>, Vec<char>)> = Vec::new();
        pairs.push(pair_of("key", key));
        pairs.push(pair_of("file", file));
        proof {
            assert(pair_views(pairs@) =~= seq![("key"@, key@), ("file"@, file@)]);
        }
        join_named_args(&pairs)
    } else if is_lit(op, "READE") {
        let file = if f2.len() > 0 { f2 } else { r };
        let mut pairs: Vec<(Vec<char>, Vec<char>)> = Vec::new();
        pairs.push(pair_of("key", f1));
        pairs.push(pair_of("file", file));
        proof {
            assert(pair_views(pairs@) =~= seq![("key"@, f1@), ("file"@, file@)]);
        }
        let named = join_named_args(&pairs);
        if named.len() == 0 {
            collect_args_exec(f1, f2, r)
        } else {
            named
        }
    } else if is_lit(op, "EXSR") {
        let sub = if f2.len() > 0 { f2 } else if r.len() > 0 { r } else { f1 };
        let mut pairs: Vec<(Vec<char>, Vec<char>)> = Vec::new();
        pairs.push(pair_of("subroutine", sub));
        proof {
            assert(pair_views(pairs@) =~= seq![("subroutine"@, sub@)]);
        }
        let named = join_named_args(&pairs);
        if named.len() == 0 {
            collect_args_exec(f1, f2, r)
        } else {
            named
        }
    } else {
        collect_args_exec(f1, f2, r)
    }
}

/// Arguments of a free-format stub operation from the text after its name.
pub open spec fn format_stub_args_from_free(op: Seq<char>, rest: Seq<char>) -> Seq<char> {
    let first = first_token(rest);
    let second = second_token(rest);
    if op == "CHAIN"@ || op == "SETLL"@ {
        let named = join_named(seq![("key"@, first), ("file"@, second)]);
        if named.len() == 0 { trim(rest) } else { named }
    } else if op == "READE"@ {
        let named = if second.len() == 0 {
            join_named(seq![("file"@, first)])
        } else {
            join_named(seq![("key"@, first), ("file"@, second)])
        };
        if named.len() == 0 { trim(rest) } else { named }
    } else if op == "EXSR"@ {
        let named = join_named(seq![("subroutine"@, first)]);
        if named.len() == 0 { trim(rest) } else { named }
    } else {
        trim(rest)
    }
}

fn format_stub_args_from_free_exec(op: &str, rest: &Vec<char>) -> (out: Vec<char>)
    ensures
        out@ == format_stub_args_from_free(op@, rest@),
{
    let opc = chars_of(op);
    let first = first_token_chars(rest);
    let after = after_first_token_chars(rest);
    let second = first_token_chars(&after);
    if is_lit(&opc, "CHAIN") || is_lit(&opc, "SETLL") {
        let mut pairs: Vec<(Vec<char>, Vec<char>)> = Vec::new();
        pairs.push(pair_of("key", &first));
        pairs.push(pair_of("file", &second));
        proof {
            assert(pair_views(pairs@) =~= seq![("key"@, first@), ("file"@, second@)]);
        }
        let named = join_named_args(&pairs);
        if named.len() == 0 {
            trim_chars(rest)
        } else {
            named
        }
    } else if is_lit(&opc, "READE") {
        let mut pairs: Vec<(Vec<char>, Vec<char>)> = Vec::new();
        if second.len() == 0 {
            pairs.push(pair_of("file", &first));
            proof {
                assert(pair_views(pairs@) =~= seq![("file"@, first@)]);
            }
        } else {
            pairs.push(pair_of("key", &first));
            pairs.push(pair_of("file", &second));
            proof {
                assert(pair_views(pairs@) =~= seq![("key"@, first@), ("file"@, second@)]);
            }
        }
        let named = join_named_args(&pairs);
        if named.len() == 0 {
            trim_chars(rest)
        } else {
            named
        }
    } else if is_lit(&opc, "EXSR") {
        let mut pairs: Vec<(Vec<char>, Vec<char>)> = Vec::new();
        pairs.push(pair_of("subroutine", &first));
        proof {
            assert(pair_views(pairs@) =~= seq![("subroutine"@, first@)]);
        }
        let named = join_named_args(&pairs);
        if named.len() == 0 {
            trim_chars(rest)
        } else {
            named
        }
    } else {
        trim_chars(rest)
    }
}


// ------------------------------------------------------------------
// Columns, indicators and conditions
// ------------------------------------------------------------------

/// The specification character: column 6, or column 7 when column 6 holds
/// a digit (a sequence number); a blank when the line is too short.
pub open spec fn spec_char_of(line: Seq<char>) -> char {
    let col6 = if line.len() > 5 { line[5] } else { ' ' };
    if is_ascii_digit(col6) {
        if line.len() > 6 { line[6] } else { ' ' }
    } else {
        col6
    }
}

fn detect_spec_char(line: &Vec<char>) -> (c: char)
    ensures
        c == spec_char_of(line@),
{
    let col6 = if line.len() > 5 { line[5] } else { ' ' };
    if char_is_ascii_digit(col6) {
        if line.len() > 6 { line[6] } else { ' ' }
    } else {
        col6
    }
}

/// Columns `start_col..=end_col` (1-based) of a line, clipped to its length.
pub open spec fn slice_cols(line: Seq<char>, start_col: nat, end_col: nat) -> Seq<char> {
    let start: int = if start_col >= 1 { start_col - 1 } else { 0 };
    let end: int = if end_col < line.len() { end_col as int } else { line.len() as int };
    if start >= end || start >= line.len() {
        seq![]
    } else {
        line.subrange(start, end)
    }
}

fn slice_cols_exec(line: &Vec<char>, start_col: usize, end_col: usize) -> (r: Vec<char>)
    ensures
        r@ == slice_cols(line@, start_col as nat, end_col as nat),
{
    let start = if start_col >= 1 { start_col - 1 } else { 0 };
    let end = if end_col < line.len() { end_col } else { line.len() };
    if start >= end || start >= line.len() {
        Vec::new()
    } else {
        slice_of(line, start, end)
    }
}

/// `NN`, `INNN` or `*INNN` (two digits) name an indicator.
pub open spec fn positive_indicator(t: Seq<char>) -> Option<Seq<char>> {
    if t.len() == 2 && all_digits(t) {
        Some(t)
    } else if t.len() == 4 && starts_with(t, "IN"@) && all_digits(t.subrange(2, 4)) {
        Some(t.subrange(2, 4))
    } else if t.len() == 5 && starts_with(t, "*IN"@) && all_digits(t.subrange(3, 5)) {
        Some(t.subrange(3, 5))
    } else {
        None
    }
}

/// `NNN` (N and two digits) or `NOT ` followed by a positive indicator.
pub open spec fn negative_indicator(t: Seq<char>) -> Option<Seq<char>> {
    if t.len() == 3 && t[0] == 'N' && all_digits(t.subrange(1, 3)) {
        Some(t.subrange(1, 3))
    } else if starts_with(t, "NOT "@) {
        positive_indicator(rest_after(t, "NOT "@))
    } else {
        None
    }
}

fn parse_positive_indicator_token(t: &Vec<char>) -> (r: Option<Vec<char>>)
    ensures
        opt_view(r) == positive_indicator(t@),
{
    if t.len() == 2 && all_digit_chars(t) {
        return Some(t.clone());
    }
    if t.len() == 4 && starts_with_lit(t, "IN") {
        let d = slice_of(t, 2, 4);
        if all_digit_chars(&d) {
            return Some(d);
        }
    }
    if t.len() == 5 && starts_with_lit(t, "*IN") {
        let d = slice_of(t, 3, 5);
        if all_digit_chars(&d) {
            return Some(d);
        }
    }
    None
}

fn parse_negative_indicator_token(t: &Vec<char>) -> (r: Option<Vec<char>>)
    ensures
        opt_view(r) == negative_indicator(t@),
{
    if t.len() == 3 && t[0] == 'N' {
        let d = slice_of(t, 1, 3);
        if all_digit_chars(&d) {
            return Some(d);
        }
    }
    if starts_with_lit(t, "NOT ") {
        let rest = rest_after_lit(t, "NOT ");
        return parse_positive_indicator_token(&rest);
    }
    None
}

/// A fixed-format condition with indicators written as `*INNN` / `NOT *INNN`.
pub open spec fn normalize_fixed_condition(cond: Seq<char>) -> Seq<char> {
    let tr = trim(cond);
    if tr.len() == 0 {
        seq![]
    } else {
        match positive_indicator(upper(tr)) {
            Some(ind) => "*IN"@ + ind,
            None => match negative_indicator(upper(tr)) {
                Some(ind) => "NOT *IN"@ + ind,
                None => tr,
            },
        }
    }
}

fn normalize_fixed_condition_exec(cond: &Vec<char>) -> (r: Vec<char>)
    ensures
        r@ == normalize_fixed_condition(cond@),
{
    let tr = trim_chars(cond);
    if tr.len() == 0 {
        return Vec::new();
    }
    let u = to_upper(&tr);
    if let Some(ind) = parse_positive_indicator_token(&u) {
        let mut out = chars_of("*IN");
        extend(&mut out, &ind);
        return out;
    }
    if let Some(ind) = parse_negative_indicator_token(&u) {
        let mut out = chars_of("NOT *IN");
        extend(&mut out, &ind);
        return out;
    }
    tr
}

/// `left = right`, both sides trimmed; `None` without `=`.
pub open spec fn split_assign(e: Seq<char>) -> Option<(Seq<char>, Seq<char>)> {
    let k = index_of_from(e, '=', 0);
    if k < 0 {
        None
    } else {
        Some((trim(e.subrange(0, k)), trim(e.subrange(k + 1, e.len() as int))))
    }
}

fn split_assign_exec(e: &Vec<char>) -> (r: Option<(Vec<char>, Vec<char>)>)
    ensures
        match r {
            Some((a, b)) => split_assign(e@) == Some((a@, b@)),
            None => split_assign(e@) is None,
        },
{
    match index_of_char(e, '=') {
        Some(k) => {
            proof {
                lemma_index_of_from(e@, '=', 0);
            }
            let l = slice_of(e, 0, k);
            let r = slice_of(e, k + 1, e.len());
            Some((trim_chars(&l), trim_chars(&r)))
        },
        None => None,
    }
}

// ------------------------------------------------------------------
// Locating a known opcode anywhere on a line
// ------------------------------------------------------------------

/// Scanning `u` from `i`, with `start` the start of the token being read
/// (or -1 between tokens): the first token separated by ASCII whitespace
/// that is a known opcode, with its 1-based column.
pub open spec fn find_opcode_from(u: Seq<char>, i: int, start: int) -> Option<(Seq<char>, int)>
    decreases u.len() - i,
{
    if i < 0 || i >= u.len() {
        if 0 <= start < u.len() && is_known_opcode(u.subrange(start, u.len() as int)) {
            Some((u.subrange(start, u.len() as int), start + 1))
        } else {
            None
        }
    } else if is_ascii_ws(u[i]) {
        if 0 <= start <= i && is_known_opcode(u.subrange(start, i)) {
            Some((u.subrange(start, i), start + 1))
        } else {
            find_opcode_from(u, i + 1, -1)
        }
    } else {
        find_opcode_from(u, i + 1, if start >= 0 { start } else { i })
    }
}

/// The first known opcode on the (upper-cased) line and its column.
pub open spec fn find_known_opcode(line: Seq<char>) -> Option<(Seq<char>, int)> {
    find_opcode_from(upper(line), 0, -1)
}

fn find_known_opcode_with_col(line: &Vec<char>) -> (r: Option<(Vec<char>, usize)>)
    ensures
        match r {
            Some((t, c)) => find_known_opcode(line@) == Some((t@, c as int)),
            None => find_known_opcode(line@) is None,
        },
{
    let u = to_upper(line);
    let mut i: usize = 0;
    let mut in_tok = false;
    let mut start: usize = 0;
    while i < u.len()
        invariant
            i <= u.len(),
            u@ == upper(line@),
            in_tok ==> start < i,
            find_opcode_from(u@, i as int, if in_tok { start as int } else { -1 }) == find_opcode_from(
                u@,
                0,
                -1,
            ),
        decreases u.len() - i,
    {
        if char_is_ascii_ws(u[i]) {
            if in_tok {
                let tok = slice_of(&u, start, i);
                if is_known_opcode_exec(&tok) {
                    return Some((tok, start + 1));
                }
            }
            in_tok = false;
        } else {
            if !in_tok {
                start = i;
                in_tok = true;
            }
        }
        i += 1;
    }
    if in_tok {
        let tok = slice_of(&u, start, u.len());
        if is_known_opcode_exec(&tok) {
            return Some((tok, start + 1));
        }
    }
    None
}


// ------------------------------------------------------------------
// Free-format statements
// ------------------------------------------------------------------

pub open spec fn parsed_view(r: Option<(Stmt, Option<Vec<char>>)>) -> Option<(StmtView, Option<Seq<char>>)> {
    match r {
        Some((s, o)) => Some((s@, opt_view(o))),
        None => None,
    }
}

/// One trimmed, non-empty free-format line: its statement and operation name.
pub open spec fn parse_common_line(line: Seq<char>) -> (StmtView, Option<Seq<char>>) {
    let u = upper(line);
    if starts_with(u, "EVAL "@) && split_assign(rest_after(line, "EVAL "@)) is Some {
        let (l, r) = split_assign(rest_after(line, "EVAL "@))->0;
        (StmtView::Assign { left: l, right: r }, Some("EVAL"@))
    } else if starts_with(u, "IF "@) {
        (StmtView::If { cond: trim(rest_after(line, "IF "@)) }, Some("IF"@))
    } else if u == "ELSE"@ {
        (StmtView::Else, Some("ELSE"@))
    } else if u == "ENDIF"@ {
        (StmtView::EndIf, Some("ENDIF"@))
    } else if starts_with(u, "DOU "@) {
        (StmtView::DoUntil { cond: trim(rest_after(line, "DOU "@)) }, Some("DOU"@))
    } else if u == "ENDDO"@ {
        (StmtView::EndDo, Some("ENDDO"@))
    } else if starts_with(u, "CALLP "@) {
        (StmtView::Call { proc_name: trim(rest_after(line, "CALLP "@)) }, Some("CALLP"@))
    } else if starts_with(u, "WRITE "@) {
        (StmtView::Write { target: trim(rest_after(line, "WRITE "@)) }, Some("WRITE"@))
    } else if starts_with(u, "READ "@) {
        (StmtView::Read { target: trim(rest_after(line, "READ "@)) }, Some("READ"@))
    } else if starts_with(u, "MOVEL "@) && first_token(trim(rest_after(line, "MOVEL "@))).len() > 0
        && second_token(trim(rest_after(line, "MOVEL "@))).len() > 0 {
        let rest = trim(rest_after(line, "MOVEL "@));
        (StmtView::Assign { left: second_token(rest), right: first_token(rest) }, Some("MOVEL"@))
    } else if starts_with(u, "CHAIN "@) {
        (
            StmtView::Operation {
                op: "CHAIN"@,
                args: format_stub_args_from_free("CHAIN"@, trim(rest_after(line, "CHAIN "@))),
            },
            Some("CHAIN"@),
        )
    } else if starts_with(u, "SETLL "@) {
        (
            StmtView::Operation {
                op: "SETLL"@,
                args: format_stub_args_from_free("SETLL"@, trim(rest_after(line, "SETLL "@))),
            },
            Some("SETLL"@),
        )
    } else if starts_with(u, "READE "@) {
        (
            StmtView::Operation {
                op: "READE"@,
                args: format_stub_args_from_free("READE"@, trim(rest_after(line, "READE "@))),
            },
            Some("READE"@),
        )
    } else if starts_with(u, "EXSR "@) {
        (
            StmtView::Operation {
                op: "EXSR"@,
                args: format_stub_args_from_free("EXSR"@, trim(rest_after(line, "EXSR "@))),
            },
            Some("EXSR"@),
        )
    } else {
        (StmtView::Raw(line), None)
    }
}

/// The trimmed text after the prefix `lit`, whose upper-cased form starts `u`.
fn after_prefix(line: &Vec<char>, u: &Vec<char>, lit: &str) -> (r: Vec<char>)
    requires
        u@ == upper(line@),
        starts_with(u@, lit@),
    ensures
        r@ == trim(rest_after(line@, lit@)),
{
    let rest = rest_after_lit(line, lit);
    trim_chars(&rest)
}

fn stub_from_free(line: &Vec<char>, u: &Vec<char>, lit: &str, op: &str) -> (r: (Stmt, Option<Vec<char>>))
    requires
        u@ == upper(line@),
        starts_with(u@, lit@),
    ensures
        r.0@ == (StmtView::Operation {
            op: op@,
            args: format_stub_args_from_free(op@, trim(rest_after(line@, lit@))),
        }),
        opt_view(r.1) == Some(op@),
{
    let rest = after_prefix(line, u, lit);
    let args = format_stub_args_from_free_exec(op, &rest);
    (Stmt::Operation { op: owned(op), args: string_of(&args) }, Some(chars_of(op)))
}

fn parse_common_line_exec(line: &Vec<char>) -> (r: (Stmt, Option<Vec<char>>))
    ensures
        (r.0@, opt_view(r.1)) == parse_common_line(line@),
{
    let u = to_upper(line);
    if starts_with_lit(&u, "EVAL ") {
        let rest = rest_after_lit(line, "EVAL ");
        if let Some((l, r)) = split_assign_exec(&rest) {
            return (Stmt::Assign { left: string_of(&l), right: string_of(&r) }, Some(chars_of("EVAL")));
        }
    }
    if starts_with_lit(&u, "IF ") {
        let c = after_prefix(line, &u, "IF ");
        return (Stmt::If { cond: string_of(&c) }, Some(chars_of("IF")));
    }
    if is_lit(&u, "ELSE") {
        return (Stmt::Else, Some(chars_of("ELSE")));
    }
    if is_lit(&u, "ENDIF") {
        return (Stmt::EndIf, Some(chars_of("ENDIF")));
    }
    if starts_with_lit(&u, "DOU ") {
        let c = after_prefix(line, &u, "DOU ");
        return (Stmt::DoUntil { cond: string_of(&c) }, Some(chars_of("DOU")));
    }
    if is_lit(&u, "ENDDO") {
        return (Stmt::EndDo, Some(chars_of("ENDDO")));
    }
    if starts_with_lit(&u, "CALLP ") {
        let c = after_prefix(line, &u, "CALLP ");
        return (Stmt::Call { proc_name: string_of(&c) }, Some(chars_of("CALLP")));
    }
    if starts_with_lit(&u, "WRITE ") {
        let c = after_prefix(line, &u, "WRITE ");
        return (Stmt::Write { target: string_of(&c) }, Some(chars_of("WRITE")));
    }
    if starts_with_lit(&u, "READ ") {
        let c = after_prefix(line, &u, "READ ");
        return (Stmt::Read { target: string_of(&c) }, Some(chars_of("READ")));
    }
    if starts_with_lit(&u, "MOVEL ") {
        let rest = after_prefix(line, &u, "MOVEL ");
        let r = first_token_chars(&rest);
        let after = after_first_token_chars(&rest);
        let l = first_token_chars(&after);
        if r.len() > 0 && l.len() > 0 {
            return (Stmt::Assign { left: string_of(&l), right: string_of(&r) }, Some(chars_of("MOVEL")));
        }
    }
    if starts_with_lit(&u, "CHAIN ") {
        return stub_from_free(line, &u, "CHAIN ", "CHAIN");
    }
    if starts_with_lit(&u, "SETLL ") {
        return stub_from_free(line, &u, "SETLL ", "SETLL");
    }
    if starts_with_lit(&u, "READE ") {
        return stub_from_free(line, &u, "READE ", "READE");
    }
    if starts_with_lit(&u, "EXSR ") {
        return stub_from_free(line, &u, "EXSR ", "EXSR");
    }
    (Stmt::Raw(string_of(line)), None)
}

/// A free-format line: blank lines and `*` comments give nothing.
pub open spec fn parse_free_line(raw: Seq<char>) -> Option<(StmtView, Option<Seq<char>>)> {
    let line = trim(raw);
    if line.len() == 0 || line[0] == '*' {
        None
    } else {
        Some(parse_common_line(line))
    }
}

fn parse_free_line_exec(raw: &Vec<char>) -> (r: Option<(Stmt, Option<Vec<char>>)>)
    ensures
        parsed_view(r) == parse_free_line(raw@),
{
    let line = trim_chars(raw);
    if line.len() == 0 || line[0] == '*' {
        return None;
    }
    Some(parse_common_line_exec(&line))
}


// ------------------------------------------------------------------
// Fixed-format statements
// ------------------------------------------------------------------

pub open spec fn warning(code: Seq<char>, line: usize, column: Option<usize>, message: Seq<char>) -> DiagnosticView {
    DiagnosticView {
        severity: DiagnosticSeverity::Warning,
        code,
        message,
        line: Some(line),
        column,
    }
}

pub open spec fn misaligned_warning(line: usize, tok: Seq<char>, col: int) -> DiagnosticView {
    warning(
        "PARSER_FIXED_OPCODE_MISALIGNED"@,
        line,
        Some(col as usize),
        "opcode '"@ + tok + "' is outside fixed opcode field (expected col 26-35)"@,
    )
}

/// The statement for a C-spec line with a non-empty opcode field.
pub open spec fn fixed_stmt(op: Seq<char>, f1: Seq<char>, f2: Seq<char>, r: Seq<char>) -> StmtView {
    if op == "EVAL"@ {
        if r.len() > 0 && f2.len() > 0 {
            StmtView::Assign { left: r, right: f2 }
        } else {
            StmtView::Operation { op, args: collect_args(f1, f2, r) }
        }
    } else if op == "MOVEL"@ {
        let right = if f2.len() > 0 { f2 } else { f1 };
        if right.len() > 0 && r.len() > 0 {
            StmtView::Assign { left: r, right }
        } else {
            StmtView::Operation { op, args: collect_args(f1, f2, r) }
        }
    } else if op == "IF"@ {
        StmtView::If { cond: normalize_fixed_condition(if f2.len() > 0 { f2 } else { f1 }) }
    } else if op == "DOU"@ {
        StmtView::DoUntil { cond: normalize_fixed_condition(if f2.len() > 0 { f2 } else { f1 }) }
    } else if op == "ENDIF"@ {
        StmtView::EndIf
    } else if op == "ENDDO"@ {
        StmtView::EndDo
    } else if op == "ELSE"@ {
        StmtView::Else
    } else if op == "CALLP"@ {
        StmtView::Call { proc_name: if f2.len() > 0 { f2 } else { r } }
    } else if op == "READ"@ {
        StmtView::Read { target: if f2.len() > 0 { f2 } else { r } }
    } else if op == "WRITE"@ {
        StmtView::Write { target: if f2.len() > 0 { f2 } else { r } }
    } else if is_stub_op(op) {
        StmtView::Operation { op, args: format_stub_args(op, f1, f2, r) }
    } else {
        StmtView::Operation { op, args: collect_args(f1, f2, r) }
    }
}

/// A fixed-format line numbered `n`: its statement and operation name, and
/// the diagnostics it raises.
pub open spec fn parse_fixed_line(raw: Seq<char>, n: usize) -> (
    Option<(StmtView, Option<Seq<char>>)>,
    Seq<DiagnosticView>,
) {
    let sc = upper_char(spec_char_of(raw));
    let raw_stmt = Some((StmtView::Raw(trim(raw)), None::<Seq<char>>));
    if trim(raw).len() == 0 || sc == '*' {
        (None, seq![])
    } else if sc != 'C' {
        (
            raw_stmt,
            seq![
                warning(
                    "PARSER_FIXED_UNSUPPORTED_SPEC"@,
                    n,
                    None,
                    "unsupported fixed spec '"@ + seq![sc] + "'"@,
                ),
            ],
        )
    } else {
        let op = upper(trim(slice_cols(raw, 26, 35)));
        let f1 = trim(slice_cols(raw, 12, 25));
        let f2 = trim(slice_cols(raw, 36, 49));
        let r = trim(slice_cols(raw, 50, 63));
        if op.len() == 0 {
            let short: Seq<DiagnosticView> = if raw.len() < 26 {
                seq![
                    warning(
                        "PARSER_FIXED_SHORT_LINE"@,
                        n,
                        Some(26),
                        "fixed C-spec line is too short for opcode field (expected col 26-35)"@,
                    ),
                ]
            } else {
                seq![]
            };
            let place: Seq<DiagnosticView> = match find_known_opcode(raw) {
                Some((tok, col)) => seq![misaligned_warning(n, tok, col)],
                None => if utf8_len(trim(raw)) > 7 {
                    seq![
                        warning(
                            "PARSER_FIXED_OPCODE_MISSING"@,
                            n,
                            Some(26),
                            "opcode not found in fixed opcode field"@,
                        ),
                    ]
                } else {
                    seq![]
                },
            };
            (raw_stmt, short + place)
        } else {
            let parsed = (Some((fixed_stmt(op, f1, f2, r), Some(op))), Seq::<DiagnosticView>::empty());
            if is_known_opcode(op) {
                parsed
            } else {
                match find_known_opcode(raw) {
                    Some((tok, col)) => if 26 <= col <= 35 {
                        parsed
                    } else {
                        (raw_stmt, seq![misaligned_warning(n, tok, col)])
                    },
                    None => parsed,
                }
            }
        }
    }
}

fn push_diagnostic(
    diagnostics: &mut Vec<Diagnostic>,
    severity: DiagnosticSeverity,
    code: &str,
    line: Option<usize>,
    column: Option<usize>,
    message: String,
)
    ensures
        diag_views(final(diagnostics)@) == diag_views(old(diagnostics)@).push(
            DiagnosticView { severity, code: code@, message: message@, line, column },
        ),
{
    let d = Diagnostic { severity, code: owned(code), message, line, column };
    diagnostics.push(d);
    proof {
        assert(diag_views(final(diagnostics)@) =~= diag_views(old(diagnostics)@).push(d@));
    }
}

fn fixed_stmt_exec(op: &Vec<char>, f1: &Vec<char>, f2: &Vec<char>, r: &Vec<char>) -> (s: Stmt)
    ensures
        s@ == fixed_stmt(op@, f1@, f2@, r@),
{
    if is_lit(op, "EVAL") {
        if r.len() > 0 && f2.len() > 0 {
            Stmt::Assign { left: string_of(r), right: string_of(f2) }
        } else {
            Stmt::Operation { op: string_of(op), args: string_of(&collect_args_exec(f1, f2, r)) }
        }
    } else if is_lit(op, "MOVEL") {
        let right = if f2.len() > 0 { f2 } else { f1 };
        if right.len() > 0 && r.len() > 0 {
            Stmt::Assign { left: string_of(r), right: string_of(right) }
        } else {
            Stmt::Operation { op: string_of(op), args: string_of(&collect_args_exec(f1, f2, r)) }
        }
    } else if is_lit(op, "IF") {
        let c = if f2.len() > 0 { f2 } else { f1 };
        Stmt::If { cond: string_of(&normalize_fixed_condition_exec(c)) }
    } else if is_lit(op, "DOU") {
        let c = if f2.len() > 0 { f2 } else { f1 };
        Stmt::DoUntil { cond: string_of(&normalize_fixed_condition_exec(c)) }
    } else if is_lit(op, "ENDIF") {
        Stmt::EndIf
    } else if is_lit(op, "ENDDO") {
        Stmt::EndDo
    } else if is_lit(op, "ELSE") {
        Stmt::Else
    } else if is_lit(op, "CALLP") {
        Stmt::Call { proc_name: string_of(if f2.len() > 0 { f2 } else { r }) }
    } else if is_lit(op, "READ") {
        Stmt::Read { target: string_of(if f2.len() > 0 { f2 } else { r }) }
    } else if is_lit(op, "WRITE") {
        Stmt::Write { target: string_of(if f2.len() > 0 { f2 } else { r }) }
    } else if is_stub_op_exec(op) {
        Stmt::Operation { op: string_of(op), args: string_of(&format_stub_args_exec(op, f1, f2, r)) }
    } else {
        Stmt::Operation { op: string_of(op), args: string_of(&collect_args_exec(f1, f2, r)) }
    }
}

fn misaligned_message(tok: &Vec<char>) -> (m: String)
    ensures
        m@ == "opcode '"@ + tok@ + "' is outside fixed opcode field (expected col 26-35)"@,
{
    let mut msg = chars_of("opcode '");
    extend(&mut msg, tok);
    extend_str(&mut msg, "' is outside fixed opcode field (expected col 26-35)");
    string_of(&msg)
}

fn parse_fixed_line_exec(raw: &Vec<char>, line_no: usize, diagnostics: &mut Vec<Diagnostic>) -> (r:
    Option<(Stmt, Option<Vec<char>>)>)
    ensures
        parsed_view(r) == parse_fixed_line(raw@, line_no).0,
        diag_views(final(diagnostics)@) == diag_views(old(diagnostics)@) + parse_fixed_line(
            raw@,
            line_no,
        ).1,
{
    let tr = trim_chars(raw);
    let sc = char_upper(detect_spec_char(raw));
    if tr.len() == 0 || sc == '*' {
        proof {
            assert(diag_views(old(diagnostics)@) + Seq::<DiagnosticView>::empty() =~= diag_views(
                old(diagnostics)@,
            ));
        }
        return None;
    }
    if sc != 'C' {
        let mut msg = chars_of("unsupported fixed spec '");
        msg.push(sc);
        extend_str(&mut msg, "'");
        push_diagnostic(
            diagnostics,
            DiagnosticSeverity::Warning,
            "PARSER_FIXED_UNSUPPORTED_SPEC",
            Some(line_no),
            None,
            string_of(&msg),
        );
        proof {
            assert(msg@ =~= "unsupported fixed spec '"@ + seq![sc] + "'"@);
        }
        return Some((Stmt::Raw(string_of(&tr)), None));
    }
    let op = to_upper(&trim_chars(&slice_cols_exec(raw, 26, 35)));
    let f1 = trim_chars(&slice_cols_exec(raw, 12, 25));
    let f2 = trim_chars(&slice_cols_exec(raw, 36, 49));
    let res = trim_chars(&slice_cols_exec(raw, 50, 63));
    if op.len() == 0 {
        let ghost before = diag_views(diagnostics@);
        if raw.len() < 26 {
            push_diagnostic(
                diagnostics,
                DiagnosticSeverity::Warning,
                "PARSER_FIXED_SHORT_LINE",
                Some(line_no),
                Some(26),
                owned("fixed C-spec line is too short for opcode field (expected col 26-35)"),
            );
        }
        let ghost mid = diag_views(diagnostics@);
        match find_known_opcode_with_col(raw) {
            Some((tok, col)) => {
                push_diagnostic(
                    diagnostics,
                    DiagnosticSeverity::Warning,
                    "PARSER_FIXED_OPCODE_MISALIGNED",
                    Some(line_no),
                    Some(col),
                    misaligned_message(&tok),
                );
            },
            None => {
                if utf8_len_exceeds(&tr, 7) {
                    push_diagnostic(
                        diagnostics,
                        DiagnosticSeverity::Warning,
                        "PARSER_FIXED_OPCODE_MISSING",
                        Some(line_no),
                        Some(26),
                        owned("opcode not found in fixed opcode field"),
                    );
                }
            },
        }
        proof {
            let spec = parse_fixed_line(raw@, line_no).1;
            assert(diag_views(diagnostics@) =~= before + spec);
        }
        return Some((Stmt::Raw(string_of(&tr)), None));
    }
    if !is_known_opcode_exec(&op) {
        if let Some((tok, col)) = find_known_opcode_with_col(raw) {
            if !(26 <= col && col <= 35) {
                push_diagnostic(
                    diagnostics,
                    DiagnosticSeverity::Warning,
                    "PARSER_FIXED_OPCODE_MISALIGNED",
                    Some(line_no),
                    Some(col),
                    misaligned_message(&tok),
                );
                proof {
                    assert(diag_views(final(diagnostics)@) =~= diag_views(old(diagnostics)@) + seq![
                        misaligned_warning(line_no, tok@, col as int),
                    ]);
                }
                return Some((Stmt::Raw(string_of(&tr)), None));
            }
        }
    }
    let stmt = fixed_stmt_exec(&op, &f1, &f2, &res);
    proof {
        assert(diag_views(old(diagnostics)@) + Seq::<DiagnosticView>::empty() =~= diag_views(
            old(diagnostics)@,
        ));
    }
    Some((stmt, Some(op)))
}


// ------------------------------------------------------------------
// Subroutine routes
// ------------------------------------------------------------------

/// Among the comma-separated pieces from `j` on, the first `subroutine=NAME`
/// with a non-empty name.
pub open spec fn callee_in_pieces(ps: Seq<Seq<char>>, j: int) -> Option<Seq<char>>
    decreases ps.len() - j,
{
    if j < 0 || j >= ps.len() {
        None
    } else {
        let p = trim(ps[j]);
        if starts_with(p, "subroutine="@) && trim(rest_after(p, "subroutine="@)).len() > 0 {
            Some(trim(rest_after(p, "subroutine="@)))
        } else {
            callee_in_pieces(ps, j + 1)
        }
    }
}

/// The subroutine an `EXSR` names: a `subroutine=` argument, else the first word.
pub open spec fn exsr_callee(args: Seq<char>) -> Option<Seq<char>> {
    let t = trim(args);
    if t.len() == 0 {
        None
    } else {
        match callee_in_pieces(split_char(t, ','), 0) {
            Some(c) => Some(c),
            None => if first_token(t).len() == 0 {
                None
            } else {
                Some(first_token(t))
            },
        }
    }
}

fn extract_exsr_callee(args: &Vec<char>) -> (r: Option<Vec<char>>)
    ensures
        opt_view(r) == exsr_callee(args@),
{
    let t = trim_chars(args);
    if t.len() == 0 {
        return None;
    }
    let pieces = split_char_of(&t, ',');
    let mut j: usize = 0;
    while j < pieces.len()
        invariant
            j <= pieces.len(),
            views(pieces@) == split_char(t@, ','),
            t@ == trim(args@),
            t@.len() > 0,
            callee_in_pieces(views(pieces@), j as int) == callee_in_pieces(views(pieces@), 0),
        decreases pieces.len() - j,
    {
        let p = trim_chars(&pieces[j]);
        proof {
            assert(views(pieces@)[j as int] == pieces@[j as int]@);
        }
        if starts_with_lit(&p, "subroutine=") {
            let rest = rest_after_lit(&p, "subroutine=");
            let callee = trim_chars(&rest);
            if callee.len() > 0 {
                proof {
                    assert(callee_in_pieces(views(pieces@), j as int) == Some(callee@));
                }
                return Some(callee);
            }
        }
        j += 1;
    }
    let first = first_token_chars(&t);
    if first.len() == 0 {
        None
    } else {
        Some(first)
    }
}

/// The route a statement on line `n` adds: `MAIN -> callee` for an `EXSR`.
pub open spec fn route_of(stmt: StmtView, n: usize) -> Option<SubroutineRouteView> {
    match stmt {
        StmtView::Operation { op, args } => if eq_ignore_case(op, "EXSR"@) {
            match exsr_callee(args) {
                Some(c) => Some(SubroutineRouteView { caller: "MAIN"@, callee: c, line: n }),
                None => None,
            }
        } else {
            None
        },
        _ => None,
    }
}

fn extract_subroutine_route(stmt: &Stmt, line_no: usize) -> (r: Option<SubroutineRoute>)
    ensures
        match r {
            Some(x) => route_of(stmt@, line_no) == Some(x@),
            None => route_of(stmt@, line_no) is None,
        },
{
    match stmt {
        Stmt::Operation { op, args } => {
            let opc = chars_of(op.as_str());
            let exsr = chars_of("EXSR");
            if eq_ignore_case_chars(&opc, &exsr) {
                let a = chars_of(args.as_str());
                match extract_exsr_callee(&a) {
                    Some(c) => Some(
                        SubroutineRoute { caller: owned("MAIN"), callee: string_of(&c), line: line_no },
                    ),
                    None => None,
                }
            } else {
                None
            }
        },
        _ => None,
    }
}

// ------------------------------------------------------------------
// Format detection
// ------------------------------------------------------------------

pub open spec fn is_fixed_spec_char(c: char) -> bool {
    c == 'H' || c == 'F' || c == 'E' || c == 'I' || c == 'L' || c == 'C' || c == 'O' || c == 'h'
        || c == 'f' || c == 'e' || c == 'i' || c == 'l' || c == 'c' || c == 'o'
}

/// Over the lines: (lines whose spec character marks fixed format, non-blank lines).
pub open spec fn mode_counts(ls: Seq<Seq<char>>) -> (nat, nat)
    decreases ls.len(),
{
    if ls.len() == 0 {
        (0, 0)
    } else {
        let (f, t) = mode_counts(ls.drop_last());
        let l = trim_end(ls.last());
        if l.len() == 0 {
            (f, t)
        } else {
            (f + if is_fixed_spec_char(spec_char_of(l)) { 1nat } else { 0nat }, t + 1)
        }
    }
}

/// Fixed when at least half of the non-blank lines look like fixed-format specs.
pub open spec fn detect_mode(source: Seq<char>) -> ParseMode {
    let (f, t) = mode_counts(split_lines(source));
    if t > 0 && f * 100 / t >= 50 {
        ParseMode::Fixed
    } else {
        ParseMode::Free
    }
}

proof fn lemma_mode_counts_bound(ls: Seq<Seq<char>>)
    ensures
        mode_counts(ls).0 <= mode_counts(ls).1 <= ls.len(),
    decreases ls.len(),
{
    if ls.len() > 0 {
        lemma_mode_counts_bound(ls.drop_last());
    }
}

fn detect_mode_exec(lines: &Vec<Vec<char>>) -> (m: ParseMode)
    ensures
        m == (if mode_counts(views(lines@)).1 > 0 && mode_counts(views(lines@)).0 * 100
            / mode_counts(views(lines@)).1 >= 50 {
            ParseMode::Fixed
        } else {
            ParseMode::Free
        }),
{
    let mut fixed_like: usize = 0;
    let mut total: usize = 0;
    let mut i: usize = 0;
    while i < lines.len()
        invariant
            i <= lines.len(),
            (fixed_like as nat, total as nat) == mode_counts(views(lines@).subrange(0, i as int)),
            fixed_like <= total <= i,
        decreases lines.len() - i,
    {
        proof {
            assert(views(lines@).subrange(0, i + 1).drop_last() =~= views(lines@).subrange(0, i as int));
        }
        let l = trim_end_chars(&lines[i]);
        if l.len() > 0 {
            total += 1;
            let c = detect_spec_char(&l);
            if c == 'H' || c == 'F' || c == 'E' || c == 'I' || c == 'L' || c == 'C' || c == 'O' || c
                == 'h' || c == 'f' || c == 'e' || c == 'i' || c == 'l' || c == 'c' || c == 'o' {
                fixed_like += 1;
            }
        }
        i += 1;
    }
    proof {
        assert(views(lines@).subrange(0, lines@.len() as int) =~= views(lines@));
        let f = fixed_like as nat;
        let t = total as nat;
        if t > 0 {
            assert(f * 100 / t >= 50 <==> f >= t - f) by (nonlinear_arith)
                requires
                    t > 0,
                    f <= t,
            ;
        }
    }
    if total > 0 && fixed_like >= total - fixed_like {
        ParseMode::Fixed
    } else {
        ParseMode::Free
    }
}


// ------------------------------------------------------------------
// Operation statistics
// ------------------------------------------------------------------

/// How many times `x` occurs in `ops`.
pub open spec fn count_in(ops: Seq<Seq<char>>, x: Seq<char>) -> nat
    decreases ops.len(),
{
    if ops.len() == 0 {
        0
    } else {
        count_in(ops.drop_last(), x) + if ops.last() == x { 1nat } else { 0nat }
    }
}

/// `stats` lists each distinct operation of `ops` once, in name order, with
/// its number of occurrences and its support level.
pub open spec fn op_stats_match(ops: Seq<Seq<char>>, stats: Seq<OperationStatView>) -> bool {
    &&& forall|i: int, j: int| 0 <= i < j < stats.len() ==> seq_lt(stats[i].name, stats[j].name)
    &&& forall|i: int|
        0 <= i < stats.len() ==> {
            &&& #[trigger] stats[i].count == count_in(ops, stats[i].name)
            &&& stats[i].count > 0
            &&& stats[i].level == support_level(stats[i].name)
        }
    &&& forall|k: int| 0 <= k < ops.len() ==> has_stat(stats, #[trigger] ops[k])
}

pub open spec fn has_stat(stats: Seq<OperationStatView>, name: Seq<char>) -> bool {
    exists|i: int| 0 <= i < stats.len() && stats[i].name == name
}

pub proof fn lemma_count_in_bound(ops: Seq<Seq<char>>, x: Seq<char>)
    ensures
        count_in(ops, x) <= ops.len(),
        count_in(ops, x) > 0 ==> exists|m: int| 0 <= m < ops.len() && ops[m] == x,
    decreases ops.len(),
{
    if ops.len() > 0 {
        lemma_count_in_bound(ops.drop_last(), x);
        if count_in(ops.drop_last(), x) > 0 {
            let m = choose|m: int| 0 <= m < ops.drop_last().len() && ops.drop_last()[m] == x;
            assert(ops[m] == x);
        }
        if ops.last() == x {
            assert(ops[ops.len() - 1] == x);
        }
    }
}

fn op_stats_of(ops: &Vec<Vec<char>>) -> (r: Vec<OperationStat>)
    ensures
        op_stats_match(views(ops@), stat_views(r@)),
{
    let ghost ov = views(ops@);
    let mut names: Vec<Vec<char>> = Vec::new();
    let mut counts: Vec<usize> = Vec::new();
    let mut k: usize = 0;
    while k < ops.len()
        invariant
            k <= ops.len(),
            ov == views(ops@),
            names.len() == counts.len(),
            forall|i: int, j: int|
                0 <= i < j < names.len() ==> seq_lt(#[trigger] names@[i]@, #[trigger] names@[j]@),
            forall|i: int|
                0 <= i < names.len() ==> #[trigger] counts@[i] == count_in(
                    ov.subrange(0, k as int),
                    names@[i]@,
                ) && counts@[i] > 0 && counts@[i] <= k,
            forall|m: int|
                0 <= m < k ==> exists|i: int| 0 <= i < names.len() && names@[i]@ == #[trigger] ov[m],
        decreases ops.len() - k,
    {
        let ghost pre = ov.subrange(0, k as int);
        let ghost cur = ov.subrange(0, k + 1);
        proof {
            assert(cur.drop_last() =~= pre);
            assert(cur.last() == ops@[k as int]@);
        }
        let op = &ops[k];
        let mut p: usize = 0;
        while p < names.len() && lt_chars(&names[p], op)
            invariant
                p <= names.len(),
                forall|i: int| 0 <= i < p ==> seq_lt(#[trigger] names@[i]@, op@),
            decreases names.len() - p,
        {
            p += 1;
        }
        if p < names.len() && eq_chars(&names[p], op) {
            let c = counts[p];
            proof {
                lemma_count_in_bound(pre, op@);
            }
            counts.set(p, c + 1);
            proof {
                assert forall|i: int| 0 <= i < names.len() implies #[trigger] counts@[i] == count_in(
                    cur,
                    names@[i]@,
                ) && counts@[i] > 0 && counts@[i] <= k + 1 by {
                    if i != p {
                        if names@[i]@ == op@ {
                            if i < p {
                                lemma_seq_lt_irrefl(op@);
                            } else {
                                lemma_seq_lt_irrefl(op@);
                                assert(seq_lt(names@[p as int]@, names@[i]@));
                            }
                        }
                    }
                }
                assert forall|m: int| 0 <= m < k + 1 implies exists|i: int|
                    0 <= i < names.len() && names@[i]@ == #[trigger] ov[m] by {
                    if m == k {
                        assert(names@[p as int]@ == ov[m]);
                    }
                }
            }
        } else {
            proof {
                // `op` is not yet among the names
                assert forall|i: int| 0 <= i < names.len() implies names@[i]@ != op@ by {
                    if i < p {
                        lemma_seq_lt_irrefl(op@);
                    } else {
                        lemma_seq_lt_total(names@[p as int]@, op@);
                        if i > p {
                            lemma_seq_lt_trans(op@, names@[p as int]@, names@[i]@);
                            lemma_seq_lt_irrefl(op@);
                        } else {
                            lemma_seq_lt_irrefl(op@);
                        }
                    }
                }
                lemma_count_in_bound(pre, op@);
                if count_in(pre, op@) > 0 {
                    let m = choose|m: int| 0 <= m < pre.len() && pre[m] == op@;
                    assert(ov[m] == op@);
                }
                if p < names.len() {
                    lemma_seq_lt_total(names@[p as int]@, op@);
                }
            }
            let ghost old_names = names@;
            let ghost old_counts = counts@;
            names.insert(p, op.clone());
            counts.insert(p, 1);
            proof {
                assert forall|i: int, j: int| 0 <= i < j < names.len() implies seq_lt(
                    #[trigger] names@[i]@,
                    #[trigger] names@[j]@,
                ) by {
                    if i < p && j < p {
                        assert(names@[i]@ == old_names[i]@);
                        assert(names@[j]@ == old_names[j]@);
                    } else if i < p && j == p {
                    } else if i < p && j > p {
                        assert(names@[j]@ == old_names[j - 1]@);
                    } else if i == p && j > p {
                        assert(names@[j]@ == old_names[j - 1]@);
                        if j - 1 > p {
                            lemma_seq_lt_trans(op@, old_names[p as int]@, old_names[j - 1]@);
                        }
                    } else {
                        assert(names@[i]@ == old_names[i - 1]@);
                        assert(names@[j]@ == old_names[j - 1]@);
                    }
                }
                assert forall|i: int| 0 <= i < names.len() implies #[trigger] counts@[i] == count_in(
                    cur,
                    names@[i]@,
                ) && counts@[i] > 0 && counts@[i] <= k + 1 by {
                    if i < p {
                        assert(names@[i]@ == old_names[i]@);
                        assert(counts@[i] == old_counts[i]);
                    } else if i > p {
                        assert(names@[i]@ == old_names[i - 1]@);
                        assert(counts@[i] == old_counts[i - 1]);
                    }
                }
                assert forall|m: int| 0 <= m < k + 1 implies exists|i: int|
                    0 <= i < names.len() && names@[i]@ == #[trigger] ov[m] by {
                    if m == k {
                        assert(names@[p as int]@ == ov[m]);
                    } else {
                        let i = choose|i: int| 0 <= i < old_names.len() && old_names[i]@ == ov[m];
                        if i < p {
                            assert(names@[i]@ == ov[m]);
                        } else {
                            assert(names@[i + 1]@ == ov[m]);
                        }
                    }
                }
            }
        }
        k += 1;
    }
    let mut out: Vec<OperationStat> = Vec::new();
    let mut i: usize = 0;
    while i < names.len()
        invariant
            i <= names.len(),
            names.len() == counts.len(),
            out.len() == i,
            forall|j: int|
                0 <= j < i ==> (#[trigger] out@[j])@ == (OperationStatView {
                    name: names@[j]@,
                    count: counts@[j],
                    level: support_level(names@[j]@),
                }),
        decreases names.len() - i,
    {
        let level = support_level_of(&names[i]);
        out.push(OperationStat { name: string_of(&names[i]), count: counts[i], level });
        i += 1;
    }
    proof {
        assert(ov.subrange(0, ops@.len() as int) =~= ov);
        let sv = stat_views(out@);
        assert forall|j: int| 0 <= j < sv.len() implies sv[j] == (OperationStatView {
            name: names@[j]@,
            count: counts@[j],
            level: support_level(names@[j]@),
        }) by {
            assert(sv[j] == out@[j]@);
        }
        assert forall|a: int, b: int| 0 <= a < b < sv.len() implies seq_lt(
            sv[a].name,
            sv[b].name,
        ) by {
            assert(seq_lt(names@[a]@, names@[b]@));
        }
        assert forall|a: int| 0 <= a < sv.len() implies {
            &&& #[trigger] sv[a].count == count_in(ov, sv[a].name)
            &&& sv[a].count > 0
            &&& sv[a].level == support_level(sv[a].name)
        } by {
            assert(counts@[a] == count_in(ov.subrange(0, k as int), names@[a]@));
        }
        assert forall|m: int| 0 <= m < ov.len() implies has_stat(sv, #[trigger] ov[m]) by {
            let j = choose|j: int| 0 <= j < names.len() && names@[j]@ == ov[m];
            assert(sv[j].name == ov[m]);
        }
        assert(op_stats_match(ov, sv));
    }
    out
}


// ------------------------------------------------------------------
// Whole programs
// ------------------------------------------------------------------

/// What parsing the first lines of a source yields.
pub struct ParseState {
    pub statements: Seq<StmtView>,
    pub statement_lines: Seq<usize>,
    pub diagnostics: Seq<DiagnosticView>,
    pub ops: Seq<Seq<char>>,
    pub routes: Seq<SubroutineRouteView>,
}

/// The mode a parse runs in: `Auto` is resolved by `detect_mode`.
pub open spec fn resolve_mode(source: Seq<char>, mode: ParseMode) -> ParseMode {
    match mode {
        ParseMode::Auto => detect_mode(source),
        m => m,
    }
}

pub open spec fn parse_line(mode: ParseMode, raw: Seq<char>, n: usize) -> (
    Option<(StmtView, Option<Seq<char>>)>,
    Seq<DiagnosticView>,
) {
    match mode {
        ParseMode::Fixed => parse_fixed_line(raw, n),
        _ => (parse_free_line(raw), seq![]),
    }
}

/// The state after the first `k` lines of `ls` (line numbers start at 1).
pub open spec fn parse_upto(ls: Seq<Seq<char>>, mode: ParseMode, k: nat) -> ParseState
    decreases k,
{
    if k == 0 {
        ParseState {
            statements: seq![],
            statement_lines: seq![],
            diagnostics: seq![],
            ops: seq![],
            routes: seq![],
        }
    } else {
        let st = parse_upto(ls, mode, (k - 1) as nat);
        let (parsed, d) = parse_line(mode, ls[k - 1], k as usize);
        match parsed {
            None => ParseState {
                statements: st.statements,
                statement_lines: st.statement_lines,
                diagnostics: st.diagnostics + d,
                ops: st.ops,
                routes: st.routes,
            },
            Some((stmt, op)) => ParseState {
                statements: st.statements.push(stmt),
                statement_lines: st.statement_lines.push(k as usize),
                diagnostics: st.diagnostics + d,
                ops: match op {
                    Some(o) => st.ops.push(o),
                    None => st.ops,
                },
                routes: match route_of(stmt, k as usize) {
                    Some(r) => st.routes.push(r),
                    None => st.routes,
                },
            },
        }
    }
}

/// Parsing a whole source.
pub open spec fn parse_source(source: Seq<char>, mode: ParseMode) -> ParseState {
    let ls = split_lines(source);
    parse_upto(ls, resolve_mode(source, mode), ls.len())
}

/// A program matches a parse state: the same statements, lines, diagnostics
/// and routes, and operation statistics that count the state's operations.
pub open spec fn program_matches(p: Program, st: ParseState) -> bool {
    &&& stmt_views(p.statements@) == st.statements
    &&& p.statement_lines@ == st.statement_lines
    &&& diag_views(p.diagnostics@) == st.diagnostics
    &&& route_views(p.subroutine_routes@) == st.routes
    &&& op_stats_match(st.ops, stat_views(p.op_stats@))
}

pub fn parse_program_with_mode(source: &str, mode: ParseMode) -> (p: Program)
    ensures
        program_matches(p, parse_source(source@, mode)),
{
    let chars = chars_of(source);
    let lines = lines_of(&chars);
    let actual = match mode {
        ParseMode::Auto => detect_mode_exec(&lines),
        ParseMode::Free => ParseMode::Free,
        ParseMode::Fixed => ParseMode::Fixed,
    };
    let ghost ls = views(lines@);
    let mut statements: Vec<Stmt> = Vec::new();
    let mut statement_lines: Vec<usize> = Vec::new();
    let mut diagnostics: Vec<Diagnostic> = Vec::new();
    let mut ops: Vec<Vec<char>> = Vec::new();
    let mut routes: Vec<SubroutineRoute> = Vec::new();
    let mut i: usize = 0;
    while i < lines.len()
        invariant
            i <= lines.len(),
            ls == views(lines@),
            actual == resolve_mode(source@, mode),
            ls == split_lines(source@),
            stmt_views(statements@) == parse_upto(ls, actual, i as nat).statements,
            statement_lines@ == parse_upto(ls, actual, i as nat).statement_lines,
            diag_views(diagnostics@) == parse_upto(ls, actual, i as nat).diagnostics,
            views(ops@) == parse_upto(ls, actual, i as nat).ops,
            route_views(routes@) == parse_upto(ls, actual, i as nat).routes,
        decreases lines.len() - i,
    {
        let line_no = i + 1;
        let ghost d_before = diag_views(diagnostics@);
        let parsed = match actual {
            ParseMode::Fixed => parse_fixed_line_exec(&lines[i], line_no, &mut diagnostics),
            _ => parse_free_line_exec(&lines[i]),
        };
        proof {
            assert(ls[i as int] == lines@[i as int]@);
            if !(actual is Fixed) {
                assert(d_before + Seq::<DiagnosticView>::empty() =~= d_before);
            }
        }
        if let Some((stmt, op)) = parsed {
            if let Some(op_name) = op {
                let ghost before = views(ops@);
                ops.push(op_name);
                proof {
                    assert(views(ops@) =~= before.push(op_name@));
                }
            }
            let route = extract_subroutine_route(&stmt, line_no);
            if let Some(r) = route {
                let ghost before = route_views(routes@);
                routes.push(r);
                proof {
                    assert(route_views(routes@) =~= before.push(r@));
                }
            }
            let ghost before = stmt_views(statements@);
            statements.push(stmt);
            statement_lines.push(line_no);
            proof {
                assert(stmt_views(statements@) =~= before.push(stmt@));
            }
        }
        i += 1;
    }
    let op_stats = op_stats_of(&ops);
    Program { statements, statement_lines, diagnostics, op_stats, subroutine_routes: routes }
}


// ------------------------------------------------------------------
// Laws of parsing
// ------------------------------------------------------------------

/// The statement that line `n` (holding `raw`) yields, if any.
pub open spec fn line_statement(mode: ParseMode, raw: Seq<char>, n: usize) -> Option<StmtView> {
    let (parsed, d) = parse_line(mode, raw, n);
    match parsed {
        Some((s, o)) => Some(s),
        None => None,
    }
}

/// Statements and line numbers pair up; the numbers strictly increase, each
/// names a line of the source (counting from 1), and the statement is the one
/// that line yields.
pub open spec fn lines_consistent(ls: Seq<Seq<char>>, mode: ParseMode, st: ParseState) -> bool {
    &&& st.statements.len() == st.statement_lines.len()
    &&& forall|i: int, j: int|
        0 <= i < j < st.statement_lines.len() ==> #[trigger] st.statement_lines[i] < #[trigger] st.statement_lines[j]
    &&& forall|i: int|
        0 <= i < st.statement_lines.len() ==> {
            let n = #[trigger] st.statement_lines[i];
            &&& 1 <= n <= ls.len()
            &&& line_statement(mode, ls[n - 1], n) == Some(st.statements[i])
        }
}

proof fn lemma_parse_upto_lines(ls: Seq<Seq<char>>, mode: ParseMode, k: nat)
    requires
        k <= ls.len(),
        ls.len() <= usize::MAX,
    ensures
        lines_consistent(ls, mode, parse_upto(ls, mode, k)),
        forall|i: int|
            0 <= i < parse_upto(ls, mode, k).statement_lines.len() ==> #[trigger] parse_upto(ls, mode, k).statement_lines[i] <= k,
    decreases k,
{
    if k > 0 {
        lemma_parse_upto_lines(ls, mode, (k - 1) as nat);
        let prev = parse_upto(ls, mode, (k - 1) as nat);
        let cur = parse_upto(ls, mode, k);
        let (parsed, d) = parse_line(mode, ls[k - 1], k as usize);
        if let Some((s, o)) = parsed {
            assert forall|i: int| 0 <= i < cur.statement_lines.len() implies {
                let n = #[trigger] cur.statement_lines[i];
                &&& 1 <= n <= ls.len()
                &&& line_statement(mode, ls[n - 1], n) == Some(cur.statements[i])
                &&& n <= k
            } by {
                if i < prev.statement_lines.len() {
                    assert(cur.statement_lines[i] == prev.statement_lines[i]);
                    assert(cur.statements[i] == prev.statements[i]);
                }
            }
            assert forall|i: int, j: int|
                0 <= i < j < cur.statement_lines.len() implies #[trigger] cur.statement_lines[i]
                < #[trigger] cur.statement_lines[j] by {
                assert(cur.statement_lines[i] == prev.statement_lines[i]);
                if j < prev.statement_lines.len() {
                    assert(cur.statement_lines[j] == prev.statement_lines[j]);
                }
            }
        }
    }
}

/// Parsing pairs every statement with the number of the source line it came
/// from: the numbers strictly increase, each is a line of the source, and
/// parsing that line alone yields the statement.
pub proof fn lemma_statement_lines(source: Seq<char>, mode: ParseMode)
    requires
        split_lines(source).len() <= usize::MAX,
    ensures
        lines_consistent(split_lines(source), resolve_mode(source, mode), parse_source(source, mode)),
{
    lemma_parse_upto_lines(split_lines(source), resolve_mode(source, mode), split_lines(source).len());
}

/// `Auto` parses a source exactly as the mode that `detect_mode` picks for it.
pub proof fn lemma_auto_mode(source: Seq<char>)
    ensures
        parse_source(source, ParseMode::Auto) == parse_source(source, detect_mode(source)),
{
}

/// Every text a statement holds is a single line.
pub open spec fn stmt_view_single(s: StmtView) -> bool {
    match s {
        StmtView::Assign { left, right } => single_line(left) && single_line(right),
        StmtView::If { cond } => single_line(cond),
        StmtView::DoUntil { cond } => single_line(cond),
        StmtView::Call { proc_name } => single_line(proc_name),
        StmtView::Write { target } => single_line(target),
        StmtView::Read { target } => single_line(target),
        StmtView::Operation { op, args } => single_line(op) && single_line(args),
        StmtView::Raw(t) => single_line(t),
        _ => true,
    }
}

proof fn lemma_trim_single(s: Seq<char>)
    requires
        single_line(s),
    ensures
        single_line(trim(s)),
{
    lemma_skip_ws_bounds(s, 0);
    lemma_sub_single(s, skip_ws(s, 0), s.len() as int);
    let t = trim_start(s);
    lemma_back_ws_bounds(t, t.len() as int);
    lemma_sub_single(t, 0, back_ws(t, t.len() as int));
}

proof fn lemma_upper_single(s: Seq<char>)
    requires
        single_line(s),
    ensures
        single_line(upper(s)),
{
    if contains_char(upper(s), '\n') {
        let i = choose|i: int| 0 <= i < upper(s).len() && upper(s)[i] == '\n';
        assert(upper(s)[i] == upper_char(s[i]));
        assert(s[i] != '\n');
    }
}

proof fn lemma_tokens_single(s: Seq<char>)
    requires
        single_line(s),
    ensures
        single_line(first_token(s)),
        single_line(after_first_token(s)),
        single_line(second_token(s)),
{
    lemma_skip_ws_bounds(s, 0);
    lemma_skip_non_ws_bounds(s, skip_ws(s, 0));
    lemma_sub_single(s, skip_ws(s, 0), skip_non_ws(s, skip_ws(s, 0)));
    lemma_sub_single(s, skip_non_ws(s, skip_ws(s, 0)), s.len() as int);
    lemma_first_token_single(after_first_token(s));
}

proof fn lemma_first_token_single(s: Seq<char>)
    requires
        single_line(s),
    ensures
        single_line(first_token(s)),
{
    lemma_skip_ws_bounds(s, 0);
    lemma_skip_non_ws_bounds(s, skip_ws(s, 0));
    lemma_sub_single(s, skip_ws(s, 0), skip_non_ws(s, skip_ws(s, 0)));
}

proof fn lemma_join_single(parts: Seq<Seq<char>>, sep: Seq<char>)
    requires
        single_line(sep),
        forall|i: int| 0 <= i < parts.len() ==> single_line(#[trigger] parts[i]),
    ensures
        single_line(join_sep(parts, sep)),
    decreases parts.len(),
{
    if parts.len() == 1 {
        assert(single_line(parts[0]));
    } else if parts.len() > 1 {
        assert forall|i: int| 0 <= i < parts.drop_last().len() implies single_line(#[trigger] parts.drop_last()[i]) by {
            assert(parts.drop_last()[i] == parts[i]);
        }
        lemma_join_single(parts.drop_last(), sep);
        assert(single_line(parts[parts.len() - 1]));
        lemma_single_add(join_sep(parts.drop_last(), sep), sep);
        lemma_single_add(join_sep(parts.drop_last(), sep) + sep, parts.last());
    }
}

proof fn lemma_named_single(pairs: Seq<(Seq<char>, Seq<char>)>)
    requires
        forall|i: int| 0 <= i < pairs.len() ==> single_line(#[trigger] pairs[i].0) && single_line(pairs[i].1),
    ensures
        forall|i: int| 0 <= i < named_parts(pairs).len() ==> single_line(#[trigger] named_parts(pairs)[i]),
        single_line(join_named(pairs)),
    decreases pairs.len(),
{
    if pairs.len() > 0 {
        assert forall|i: int| 0 <= i < pairs.drop_last().len() implies single_line(#[trigger] pairs.drop_last()[i].0)
            && single_line(pairs.drop_last()[i].1) by {
            assert(pairs.drop_last()[i] == pairs[i]);
        }
        lemma_named_single(pairs.drop_last());
        let last = pairs[pairs.len() - 1];
        assert(single_line(last.0) && single_line(last.1));
        lemma_trim_single(last.1);
        assert(single_line(seq!['=']));
        lemma_single_add(last.0, seq!['=']);
        lemma_single_add(last.0 + seq!['='], trim(last.1));
        let prev = named_parts(pairs.drop_last());
        let cur = named_parts(pairs);
        assert forall|i: int| 0 <= i < cur.len() implies single_line(#[trigger] cur[i]) by {
            if i < prev.len() {
                assert(cur[i] == prev[i]);
            }
        }
    }
    assert(single_line(comma_sep()));
    lemma_join_single(named_parts(pairs), comma_sep());
}

proof fn lemma_collect_args_single(f1: Seq<char>, f2: Seq<char>, r: Seq<char>)
    requires
        single_line(f1),
        single_line(f2),
        single_line(r),
    ensures
        single_line(collect_args(f1, f2, r)),
{
    let p1: Seq<Seq<char>> = if f1.len() > 0 { seq![f1] } else { seq![] };
    let p2: Seq<Seq<char>> = if f2.len() > 0 { seq![f2] } else { seq![] };
    let p3: Seq<Seq<char>> = if r.len() > 0 { seq![r] } else { seq![] };
    let ps = p1 + p2 + p3;
    assert forall|i: int| 0 <= i < ps.len() implies single_line(#[trigger] ps[i]) by {
        if i < p1.len() {
            assert(ps[i] == p1[i]);
        } else if i < p1.len() + p2.len() {
            assert(ps[i] == p2[i - p1.len()]);
        } else {
            assert(ps[i] == p3[i - p1.len() - p2.len()]);
        }
    }
    assert(single_line(comma_sep()));
    lemma_join_single(ps, comma_sep());
}

proof fn lemma_keys_single()
    ensures
        single_line("key"@),
        single_line("file"@),
        single_line("subroutine"@),
{
    reveal_strlit("key");
    reveal_strlit("file");
    reveal_strlit("subroutine");
}

proof fn lemma_stub_args_single(op: Seq<char>, f1: Seq<char>, f2: Seq<char>, r: Seq<char>)
    requires
        single_line(f1),
        single_line(f2),
        single_line(r),
    ensures
        single_line(format_stub_args(op, f1, f2, r)),
{
    lemma_keys_single();
    lemma_collect_args_single(f1, f2, r);
    let key = if f1.len() > 0 { f1 } else { f2 };
    let file = if f1.len() > 0 {
        if f2.len() > 0 { f2 } else { r }
    } else if r.len() > 0 {
        r
    } else {
        f2
    };
    let p1 = seq![("key"@, key), ("file"@, file)];
    assert forall|i: int| 0 <= i < p1.len() implies single_line(#[trigger] p1[i].0) && single_line(p1[i].1) by {}
    lemma_named_single(p1);
    let file2 = if f2.len() > 0 { f2 } else { r };
    let p2 = seq![("key"@, f1), ("file"@, file2)];
    assert forall|i: int| 0 <= i < p2.len() implies single_line(#[trigger] p2[i].0) && single_line(p2[i].1) by {}
    lemma_named_single(p2);
    let sub = if f2.len() > 0 { f2 } else if r.len() > 0 { r } else { f1 };
    let p3 = seq![("subroutine"@, sub)];
    assert forall|i: int| 0 <= i < p3.len() implies single_line(#[trigger] p3[i].0) && single_line(p3[i].1) by {}
    lemma_named_single(p3);
}

proof fn lemma_free_stub_args_single(op: Seq<char>, rest: Seq<char>)
    requires
        single_line(rest),
    ensures
        single_line(format_stub_args_from_free(op, rest)),
{
    lemma_keys_single();
    lemma_tokens_single(rest);
    lemma_trim_single(rest);
    let first = first_token(rest);
    let second = second_token(rest);
    let p1 = seq![("key"@, first), ("file"@, second)];
    assert forall|i: int| 0 <= i < p1.len() implies single_line(#[trigger] p1[i].0) && single_line(p1[i].1) by {}
    lemma_named_single(p1);
    let p2 = seq![("file"@, first)];
    assert forall|i: int| 0 <= i < p2.len() implies single_line(#[trigger] p2[i].0) && single_line(p2[i].1) by {}
    lemma_named_single(p2);
    let p3 = seq![("subroutine"@, first)];
    assert forall|i: int| 0 <= i < p3.len() implies single_line(#[trigger] p3[i].0) && single_line(p3[i].1) by {}
    lemma_named_single(p3);
}

proof fn lemma_indicator_single(t: Seq<char>)
    requires
        single_line(t),
    ensures
        positive_indicator(t) matches Some(x) ==> single_line(x),
        negative_indicator(t) matches Some(x) ==> single_line(x),
{
    if t.len() == 4 {
        lemma_sub_single(t, 2, 4);
    }
    if t.len() == 5 {
        lemma_sub_single(t, 3, 5);
    }
    if t.len() == 3 {
        lemma_sub_single(t, 1, 3);
    }
    reveal_strlit("NOT ");
    if starts_with(t, "NOT "@) {
        let rest = rest_after(t, "NOT "@);
        lemma_sub_single(t, 4, t.len() as int);
        if rest.len() == 4 {
            lemma_sub_single(rest, 2, 4);
        }
        if rest.len() == 5 {
            lemma_sub_single(rest, 3, 5);
        }
    }
}

proof fn lemma_fixed_condition_single(cond: Seq<char>)
    requires
        single_line(cond),
    ensures
        single_line(normalize_fixed_condition(cond)),
{
    let tr = trim(cond);
    lemma_trim_single(cond);
    lemma_upper_single(tr);
    lemma_indicator_single(upper(tr));
    reveal_strlit("*IN");
    reveal_strlit("NOT *IN");
    assert(single_line("*IN"@));
    assert(single_line("NOT *IN"@));
    if let Some(ind) = positive_indicator(upper(tr)) {
        lemma_single_add("*IN"@, ind);
    }
    if let Some(ind) = negative_indicator(upper(tr)) {
        lemma_single_add("NOT *IN"@, ind);
    }
}

proof fn lemma_split_assign_single(e: Seq<char>)
    requires
        single_line(e),
    ensures
        split_assign(e) matches Some((l, r)) ==> single_line(l) && single_line(r),
{
    let k = index_of_from(e, '=', 0);
    lemma_index_of_from(e, '=', 0);
    if k >= 0 {
        lemma_sub_single(e, 0, k);
        lemma_sub_single(e, k + 1, e.len() as int);
        lemma_trim_single(e.subrange(0, k));
        lemma_trim_single(e.subrange(k + 1, e.len() as int));
    }
}

proof fn lemma_prefix_rest_single(line: Seq<char>, lit: Seq<char>)
    requires
        single_line(line),
        starts_with(upper(line), lit),
    ensures
        single_line(rest_after(line, lit)),
        single_line(trim(rest_after(line, lit))),
{
    assert(upper(line).len() == line.len());
    lemma_sub_single(line, lit.len() as int, line.len() as int);
    lemma_trim_single(rest_after(line, lit));
}

proof fn lemma_common_line_single(line: Seq<char>)
    requires
        single_line(line),
    ensures
        stmt_view_single(parse_common_line(line).0),
{
    let u = upper(line);
    reveal_strlit("EVAL ");
    reveal_strlit("IF ");
    reveal_strlit("DOU ");
    reveal_strlit("CALLP ");
    reveal_strlit("WRITE ");
    reveal_strlit("READ ");
    reveal_strlit("MOVEL ");
    reveal_strlit("CHAIN ");
    reveal_strlit("SETLL ");
    reveal_strlit("READE ");
    reveal_strlit("EXSR ");
    reveal_strlit("CHAIN");
    reveal_strlit("SETLL");
    reveal_strlit("READE");
    reveal_strlit("EXSR");
    assert(single_line("CHAIN"@));
    assert(single_line("SETLL"@));
    assert(single_line("READE"@));
    assert(single_line("EXSR"@));
    if starts_with(u, "EVAL "@) {
        lemma_prefix_rest_single(line, "EVAL "@);
        lemma_split_assign_single(rest_after(line, "EVAL "@));
    }
    if starts_with(u, "IF "@) {
        lemma_prefix_rest_single(line, "IF "@);
    }
    if starts_with(u, "DOU "@) {
        lemma_prefix_rest_single(line, "DOU "@);
    }
    if starts_with(u, "CALLP "@) {
        lemma_prefix_rest_single(line, "CALLP "@);
    }
    if starts_with(u, "WRITE "@) {
        lemma_prefix_rest_single(line, "WRITE "@);
    }
    if starts_with(u, "READ "@) {
        lemma_prefix_rest_single(line, "READ "@);
    }
    if starts_with(u, "MOVEL "@) {
        lemma_prefix_rest_single(line, "MOVEL "@);
        lemma_tokens_single(trim(rest_after(line, "MOVEL "@)));
    }
    if starts_with(u, "CHAIN "@) {
        lemma_prefix_rest_single(line, "CHAIN "@);
        lemma_free_stub_args_single("CHAIN"@, trim(rest_after(line, "CHAIN "@)));
    }
    if starts_with(u, "SETLL "@) {
        lemma_prefix_rest_single(line, "SETLL "@);
        lemma_free_stub_args_single("SETLL"@, trim(rest_after(line, "SETLL "@)));
    }
    if starts_with(u, "READE "@) {
        lemma_prefix_rest_single(line, "READE "@);
        lemma_free_stub_args_single("READE"@, trim(rest_after(line, "READE "@)));
    }
    if starts_with(u, "EXSR "@) {
        lemma_prefix_rest_single(line, "EXSR "@);
        lemma_free_stub_args_single("EXSR"@, trim(rest_after(line, "EXSR "@)));
    }
}

proof fn lemma_slice_cols_single(line: Seq<char>, a: nat, b: nat)
    requires
        single_line(line),
    ensures
        single_line(slice_cols(line, a, b)),
        single_line(trim(slice_cols(line, a, b))),
{
    let start: int = if a >= 1 { a - 1 } else { 0 };
    let end: int = if b < line.len() { b as int } else { line.len() as int };
    if !(start >= end || start >= line.len()) {
        lemma_sub_single(line, start, end);
    }
    lemma_trim_single(slice_cols(line, a, b));
}

proof fn lemma_fixed_stmt_single(op: Seq<char>, f1: Seq<char>, f2: Seq<char>, r: Seq<char>)
    requires
        single_line(op),
        single_line(f1),
        single_line(f2),
        single_line(r),
    ensures
        stmt_view_single(fixed_stmt(op, f1, f2, r)),
{
    lemma_collect_args_single(f1, f2, r);
    lemma_stub_args_single(op, f1, f2, r);
    lemma_fixed_condition_single(if f2.len() > 0 { f2 } else { f1 });
}

proof fn lemma_fixed_line_single(raw: Seq<char>, n: usize)
    requires
        single_line(raw),
    ensures
        parse_fixed_line(raw, n).0 matches Some((s, o)) ==> stmt_view_single(s),
{
    lemma_trim_single(raw);
    lemma_slice_cols_single(raw, 26, 35);
    lemma_slice_cols_single(raw, 12, 25);
    lemma_slice_cols_single(raw, 36, 49);
    lemma_slice_cols_single(raw, 50, 63);
    lemma_upper_single(trim(slice_cols(raw, 26, 35)));
    lemma_fixed_stmt_single(
        upper(trim(slice_cols(raw, 26, 35))),
        trim(slice_cols(raw, 12, 25)),
        trim(slice_cols(raw, 36, 49)),
        trim(slice_cols(raw, 50, 63)),
    );
}

proof fn lemma_split_lines_single(s: Seq<char>)
    ensures
        forall|i: int| 0 <= i < split_lines(s).len() ==> single_line(#[trigger] split_lines(s)[i]),
    decreases s.len(),
{
    if s.len() > 0 {
        let k = index_of_from(s, '\n', 0);
        lemma_index_of_from(s, '\n', 0);
        if k < 0 {
            assert(split_lines(s) == seq![s]);
            assert(single_line(s));
        } else {
            let rest = s.subrange(k + 1, s.len() as int);
            lemma_split_lines_single(rest);
            let first = s.subrange(0, k);
            assert(single_line(first));
            if first.len() > 0 && first.last() == '\r' {
                lemma_sub_single(first, 0, first.len() - 1);
                assert(strip_cr(first) =~= first.subrange(0, first.len() - 1));
            }
            let all = split_lines(s);
            assert(all == seq![strip_cr(first)] + split_lines(rest));
            assert forall|i: int| 0 <= i < all.len() implies single_line(#[trigger] all[i]) by {
                if i > 0 {
                    assert(all[i] == split_lines(rest)[i - 1]);
                }
            }
        }
    }
}

proof fn lemma_parse_upto_single(ls: Seq<Seq<char>>, mode: ParseMode, k: nat)
    requires
        k <= ls.len(),
        forall|i: int| 0 <= i < ls.len() ==> single_line(#[trigger] ls[i]),
    ensures
        forall|i: int|
            0 <= i < parse_upto(ls, mode, k).statements.len() ==> stmt_view_single(
                #[trigger] parse_upto(ls, mode, k).statements[i],
            ),
    decreases k,
{
    if k > 0 {
        lemma_parse_upto_single(ls, mode, (k - 1) as nat);
        let raw = ls[k - 1];
        assert(single_line(raw));
        lemma_fixed_line_single(raw, k as usize);
        lemma_trim_single(raw);
        if trim(raw).len() > 0 {
            lemma_common_line_single(trim(raw));
        }
        let prev = parse_upto(ls, mode, (k - 1) as nat);
        let cur = parse_upto(ls, mode, k);
        assert forall|i: int| 0 <= i < cur.statements.len() implies stmt_view_single(#[trigger] cur.statements[i]) by {
            if i < prev.statements.len() {
                assert(cur.statements[i] == prev.statements[i]);
            }
        }
    }
}

/// Every text of a parsed statement is a single line: the parser reads a
/// source line by line, and what it keeps of a line holds no line break.
pub proof fn lemma_parsed_single_line(source: Seq<char>, mode: ParseMode)
    ensures
        forall|i: int|
            0 <= i < parse_source(source, mode).statements.len() ==> stmt_view_single(
                #[trigger] parse_source(source, mode).statements[i],
            ),
{
    let ls = split_lines(source);
    lemma_split_lines_single(source);
    lemma_parse_upto_single(ls, resolve_mode(source, mode), ls.len());
}

proof fn lemma_parse_upto_len(ls: Seq<Seq<char>>, mode: ParseMode, k: nat)
    ensures
        parse_upto(ls, mode, k).statements.len() == parse_upto(ls, mode, k).statement_lines.len(),
    decreases k,
{
    if k > 0 {
        lemma_parse_upto_len(ls, mode, (k - 1) as nat);
    }
}

/// Every parsed statement has its source line recorded.
pub proof fn lemma_statement_lines_len(source: Seq<char>, mode: ParseMode)
    ensures
        parse_source(source, mode).statements.len() == parse_source(source, mode).statement_lines.len(),
{
    let ls = split_lines(source);
    lemma_parse_upto_len(ls, resolve_mode(source, mode), ls.len());
}

pub open spec fn stat_names(stats: Seq<OperationStatView>) -> Seq<Seq<char>> {
    stats.map_values(|s: OperationStatView| s.name)
}

/// The operation table is determined by the operations: two tables that
/// match the same operations are equal.
pub proof fn lemma_op_stats_unique(ops: Seq<Seq<char>>, a: Seq<OperationStatView>, b: Seq<OperationStatView>)
    requires
        op_stats_match(ops, a),
        op_stats_match(ops, b),
    ensures
        a == b,
{
    let na = stat_names(a);
    let nb = stat_names(b);
    assert forall|y: Seq<char>| in_names(na, y) implies in_names(nb, y) by {
        let i = choose|i: int| 0 <= i < na.len() && na[i] == y;
        assert(a[i].count == count_in(ops, a[i].name));
        lemma_count_in_bound(ops, y);
        let m = choose|m: int| 0 <= m < ops.len() && ops[m] == y;
        assert(has_stat(b, ops[m]));
        let j = choose|j: int| 0 <= j < b.len() && b[j].name == y;
        assert(nb[j] == y);
    }
    assert forall|y: Seq<char>| in_names(nb, y) implies in_names(na, y) by {
        let i = choose|i: int| 0 <= i < nb.len() && nb[i] == y;
        assert(b[i].count == count_in(ops, b[i].name));
        lemma_count_in_bound(ops, y);
        let m = choose|m: int| 0 <= m < ops.len() && ops[m] == y;
        assert(has_stat(a, ops[m]));
        let j = choose|j: int| 0 <= j < a.len() && a[j].name == y;
        assert(na[j] == y);
    }
    assert(sorted_names(na)) by {
        assert forall|i: int, j: int| 0 <= i < j < na.len() implies seq_lt(na[i], na[j]) by {
            assert(seq_lt(a[i].name, a[j].name));
        }
    }
    assert(sorted_names(nb)) by {
        assert forall|i: int, j: int| 0 <= i < j < nb.len() implies seq_lt(nb[i], nb[j]) by {
            assert(seq_lt(b[i].name, b[j].name));
        }
    }
    lemma_sorted_unique(na, nb);
    assert(a.len() == b.len());
    assert forall|i: int| 0 <= i < a.len() implies a[i] == b[i] by {
        assert(na[i] == nb[i]);
        assert(a[i].count == count_in(ops, a[i].name));
        assert(b[i].count == count_in(ops, b[i].name));
    }
    assert(a =~= b);
}

/// Parsing is a function of the source and the mode: two programs that
/// match the same parse agree in every part, the operation table included.
pub proof fn lemma_parse_determined(p1: Program, p2: Program, st: ParseState)
    requires
        program_matches(p1, st),
        program_matches(p2, st),
    ensures
        stmt_views(p1.statements@) == stmt_views(p2.statements@),
        p1.statement_lines@ == p2.statement_lines@,
        diag_views(p1.diagnostics@) == diag_views(p2.diagnostics@),
        route_views(p1.subroutine_routes@) == route_views(p2.subroutine_routes@),
        stat_views(p1.op_stats@) == stat_views(p2.op_stats@),
{
    lemma_op_stats_unique(st.ops, stat_views(p1.op_stats@), stat_views(p2.op_stats@));
}

/// A source parsed in `Auto` mode and in the mode `detect_mode` picks gives
/// the same program, operation table included.
pub proof fn lemma_auto_program(source: Seq<char>, p1: Program, p2: Program)
    requires
        program_matches(p1, parse_source(source, ParseMode::Auto)),
        program_matches(p2, parse_source(source, detect_mode(source))),
    ensures
        stmt_views(p1.statements@) == stmt_views(p2.statements@),
        p1.statement_lines@ == p2.statement_lines@,
        diag_views(p1.diagnostics@) == diag_views(p2.diagnostics@),
        route_views(p1.subroutine_routes@) == route_views(p2.subroutine_routes@),
        stat_views(p1.op_stats@) == stat_views(p2.op_stats@),
{
    lemma_auto_mode(source);
    lemma_parse_determined(p1, p2, parse_source(source, detect_mode(source)));
}


/// A free-format line that holds a statement: neither blank nor a `*` comment.
pub open spec fn is_code_line(raw: Seq<char>) -> bool {
    trim(raw).len() > 0 && trim(raw)[0] != '*'
}

/// The numbers (from 1) of the code lines among the first `k` lines.
pub open spec fn code_line_numbers(ls: Seq<Seq<char>>, k: nat) -> Seq<usize>
    decreases k,
{
    if k == 0 {
        seq![]
    } else if is_code_line(ls[k - 1]) {
        code_line_numbers(ls, (k - 1) as nat).push(k as usize)
    } else {
        code_line_numbers(ls, (k - 1) as nat)
    }
}

proof fn lemma_free_upto(ls: Seq<Seq<char>>, k: nat)
    ensures
        parse_upto(ls, ParseMode::Free, k).diagnostics == Seq::<DiagnosticView>::empty(),
        parse_upto(ls, ParseMode::Free, k).statement_lines == code_line_numbers(ls, k),
    decreases k,
{
    if k > 0 {
        lemma_free_upto(ls, (k - 1) as nat);
        let prev = parse_upto(ls, ParseMode::Free, (k - 1) as nat);
        assert(prev.diagnostics + Seq::<DiagnosticView>::empty() =~= prev.diagnostics);
    }
}

/// Free-format parsing reports no diagnostics and yields one statement per
/// line that is neither blank nor a `*` comment, in line order.
pub proof fn lemma_free_format(source: Seq<char>, mode: ParseMode)
    requires
        resolve_mode(source, mode) is Free,
    ensures
        parse_source(source, mode).diagnostics == Seq::<DiagnosticView>::empty(),
        parse_source(source, mode).statement_lines == code_line_numbers(
            split_lines(source),
            split_lines(source).len(),
        ),
        parse_source(source, mode).statements.len() == code_line_numbers(
            split_lines(source),
            split_lines(source).len(),
        ).len(),
{
    let ls = split_lines(source);
    assert(resolve_mode(source, mode) == ParseMode::Free);
    lemma_free_upto(ls, ls.len());
    lemma_parse_upto_len(ls, ParseMode::Free, ls.len());
}

/// The routes that the first `k` statements add, each statement paired with
/// its line number: one per `EXSR` that names a subroutine.
pub open spec fn routes_of(stmts: Seq<StmtView>, lines: Seq<usize>, k: nat) -> Seq<SubroutineRouteView>
    decreases k,
{
    if k == 0 || k > stmts.len() || k > lines.len() {
        seq![]
    } else {
        match route_of(stmts[k - 1], lines[k - 1]) {
            Some(r) => routes_of(stmts, lines, (k - 1) as nat).push(r),
            None => routes_of(stmts, lines, (k - 1) as nat),
        }
    }
}

proof fn lemma_routes_of_prefix(
    stmts: Seq<StmtView>,
    lines: Seq<usize>,
    s: StmtView,
    n: usize,
    k: nat,
)
    requires
        k <= stmts.len(),
        k <= lines.len(),
    ensures
        routes_of(stmts.push(s), lines.push(n), k) == routes_of(stmts, lines, k),
    decreases k,
{
    if k > 0 {
        lemma_routes_of_prefix(stmts, lines, s, n, (k - 1) as nat);
        assert(stmts.push(s)[k - 1] == stmts[k - 1]);
        assert(lines.push(n)[k - 1] == lines[k - 1]);
    }
}

proof fn lemma_routes_upto(ls: Seq<Seq<char>>, mode: ParseMode, k: nat)
    ensures
        parse_upto(ls, mode, k).routes == routes_of(
            parse_upto(ls, mode, k).statements,
            parse_upto(ls, mode, k).statement_lines,
            parse_upto(ls, mode, k).statements.len(),
        ),
    decreases k,
{
    if k > 0 {
        lemma_routes_upto(ls, mode, (k - 1) as nat);
        lemma_parse_upto_len(ls, mode, (k - 1) as nat);
        let prev = parse_upto(ls, mode, (k - 1) as nat);
        let (parsed, d) = parse_line(mode, ls[k - 1], k as usize);
        if let Some((stmt, op)) = parsed {
            let n = prev.statements.len();
            lemma_routes_of_prefix(prev.statements, prev.statement_lines, stmt, k as usize, n);
            assert(prev.statements.push(stmt)[n as int] == stmt);
            assert(prev.statement_lines.push(k as usize)[n as int] == k as usize);
        }
    }
}

/// The subroutine routes are those of the statements in order: one for each
/// `EXSR` statement that names a subroutine, from `MAIN`, on that
/// statement's line.
pub proof fn lemma_routes_follow_statements(source: Seq<char>, mode: ParseMode)
    ensures
        parse_source(source, mode).routes == routes_of(
            parse_source(source, mode).statements,
            parse_source(source, mode).statement_lines,
            parse_source(source, mode).statements.len(),
        ),
{
    let ls = split_lines(source);
    lemma_routes_upto(ls, resolve_mode(source, mode), ls.len());
}


proof fn lemma_trim_keeps(s: Seq<char>, p: int)
    requires
        0 <= p < s.len(),
        !is_ws(s[p]),
    ensures
        trim(s).len() > 0,
{
    lemma_skip_ws_bounds(s, 0);
    let a = skip_ws(s, 0);
    assert(a <= p);
    let t = s.subrange(a, s.len() as int);
    lemma_back_ws_bounds(t, t.len() as int);
    assert(t[p - a] == s[p]);
    assert(back_ws(t, t.len() as int) > p - a);
}

/// A fixed-format `READ`: on a C-spec line whose opcode field (columns 26 to
/// 35) reads `READ` in any case, the statement reads the file named in
/// factor 2 (columns 36 to 49), or the one in the result field (columns 50
/// to 63) when factor 2 is blank; the operation counted is `READ`.
pub proof fn lemma_fixed_read(raw: Seq<char>, n: usize)
    requires
        upper_char(spec_char_of(raw)) == 'C',
        upper(trim(slice_cols(raw, 26, 35))) == "READ"@,
    ensures
        trim(slice_cols(raw, 36, 49)).len() > 0 ==> parse_fixed_line(raw, n).0 == Some(
            (StmtView::Read { target: trim(slice_cols(raw, 36, 49)) }, Some("READ"@)),
        ),
        trim(slice_cols(raw, 36, 49)).len() == 0 ==> parse_fixed_line(raw, n).0 == Some(
            (StmtView::Read { target: trim(slice_cols(raw, 50, 63)) }, Some("READ"@)),
        ),
        parse_fixed_line(raw, n).1 == Seq::<DiagnosticView>::empty(),
{
    reveal_strlit("READ");
    lemma_fixed_known_line(raw, n);
    lemma_op_names_differ();
}


/// The implemented opcode names differ from one another.
proof fn lemma_op_names_differ()
    ensures
        "MOVEL"@ != "EVAL"@,
        "IF"@ != "EVAL"@,
        "IF"@ != "MOVEL"@,
        "DOU"@ != "EVAL"@,
        "DOU"@ != "MOVEL"@,
        "DOU"@ != "IF"@,
        "ENDIF"@ != "EVAL"@,
        "ENDIF"@ != "MOVEL"@,
        "ENDIF"@ != "IF"@,
        "ENDIF"@ != "DOU"@,
        "ENDDO"@ != "EVAL"@,
        "ENDDO"@ != "MOVEL"@,
        "ENDDO"@ != "IF"@,
        "ENDDO"@ != "DOU"@,
        "ENDDO"@ != "ENDIF"@,
        "ELSE"@ != "EVAL"@,
        "ELSE"@ != "MOVEL"@,
        "ELSE"@ != "IF"@,
        "ELSE"@ != "DOU"@,
        "ELSE"@ != "ENDIF"@,
        "ELSE"@ != "ENDDO"@,
        "CALLP"@ != "EVAL"@,
        "CALLP"@ != "MOVEL"@,
        "CALLP"@ != "IF"@,
        "CALLP"@ != "DOU"@,
        "CALLP"@ != "ENDIF"@,
        "CALLP"@ != "ENDDO"@,
        "CALLP"@ != "ELSE"@,
        "READ"@ != "EVAL"@,
        "READ"@ != "MOVEL"@,
        "READ"@ != "IF"@,
        "READ"@ != "DOU"@,
        "READ"@ != "ENDIF"@,
        "READ"@ != "ENDDO"@,
        "READ"@ != "ELSE"@,
        "READ"@ != "CALLP"@,
        "WRITE"@ != "EVAL"@,
        "WRITE"@ != "MOVEL"@,
        "WRITE"@ != "IF"@,
        "WRITE"@ != "DOU"@,
        "WRITE"@ != "ENDIF"@,
        "WRITE"@ != "ENDDO"@,
        "WRITE"@ != "ELSE"@,
        "WRITE"@ != "CALLP"@,
        "WRITE"@ != "READ"@,
{
    reveal_strlit("EVAL");
    reveal_strlit("MOVEL");
    reveal_strlit("IF");
    reveal_strlit("DOU");
    reveal_strlit("ENDIF");
    reveal_strlit("ENDDO");
    reveal_strlit("ELSE");
    reveal_strlit("CALLP");
    reveal_strlit("READ");
    reveal_strlit("WRITE");
    assert("EVAL"@.len() == 4);
    assert("EVAL"@[0] == 'E');
    assert("EVAL"@[1] == 'V');
    assert("EVAL"@[2] == 'A');
    assert("EVAL"@[3] == 'L');
    assert("MOVEL"@.len() == 5);
    assert("MOVEL"@[0] == 'M');
    assert("MOVEL"@[1] == 'O');
    assert("MOVEL"@[2] == 'V');
    assert("MOVEL"@[3] == 'E');
    assert("MOVEL"@[4] == 'L');
    assert("IF"@.len() == 2);
    assert("IF"@[0] == 'I');
    assert("IF"@[1] == 'F');
    assert("DOU"@.len() == 3);
    assert("DOU"@[0] == 'D');
    assert("DOU"@[1] == 'O');
    assert("DOU"@[2] == 'U');
    assert("ENDIF"@.len() == 5);
    assert("ENDIF"@[0] == 'E');
    assert("ENDIF"@[1] == 'N');
    assert("ENDIF"@[2] == 'D');
    assert("ENDIF"@[3] == 'I');
    assert("ENDIF"@[4] == 'F');
    assert("ENDDO"@.len() == 5);
    assert("ENDDO"@[0] == 'E');
    assert("ENDDO"@[1] == 'N');
    assert("ENDDO"@[2] == 'D');
    assert("ENDDO"@[3] == 'D');
    assert("ENDDO"@[4] == 'O');
    assert("ELSE"@.len() == 4);
    assert("ELSE"@[0] == 'E');
    assert("ELSE"@[1] == 'L');
    assert("ELSE"@[2] == 'S');
    assert("ELSE"@[3] == 'E');
    assert("CALLP"@.len() == 5);
    assert("CALLP"@[0] == 'C');
    assert("CALLP"@[1] == 'A');
    assert("CALLP"@[2] == 'L');
    assert("CALLP"@[3] == 'L');
    assert("CALLP"@[4] == 'P');
    assert("READ"@.len() == 4);
    assert("READ"@[0] == 'R');
    assert("READ"@[1] == 'E');
    assert("READ"@[2] == 'A');
    assert("READ"@[3] == 'D');
    assert("WRITE"@.len() == 5);
    assert("WRITE"@[0] == 'W');
    assert("WRITE"@[1] == 'R');
    assert("WRITE"@[2] == 'I');
    assert("WRITE"@[3] == 'T');
    assert("WRITE"@[4] == 'E');
}

/// A C-spec line whose opcode field holds a known opcode yields that
/// opcode's statement built from its factor 1, factor 2 and result fields,
/// counts the opcode, and raises no diagnostic.
proof fn lemma_fixed_known_line(raw: Seq<char>, n: usize)
    requires
        upper_char(spec_char_of(raw)) == 'C',
        is_known_opcode(upper(trim(slice_cols(raw, 26, 35)))),
    ensures
        parse_fixed_line(raw, n) == (
            Some(
                (
                    fixed_stmt(
                        upper(trim(slice_cols(raw, 26, 35))),
                        trim(slice_cols(raw, 12, 25)),
                        trim(slice_cols(raw, 36, 49)),
                        trim(slice_cols(raw, 50, 63)),
                    ),
                    Some(upper(trim(slice_cols(raw, 26, 35)))),
                ),
            ),
            Seq::<DiagnosticView>::empty(),
        ),
{
    let c = spec_char_of(raw);
    let p: int = if raw.len() > 5 && is_ascii_digit(raw[5]) { 6 } else { 5 };
    assert(raw[p] == c);
    assert(!is_ws(c));
    lemma_trim_keeps(raw, p);
    reveal_strlit("EVAL");
    reveal_strlit("MOVEL");
    reveal_strlit("IF");
    reveal_strlit("DOU");
    reveal_strlit("ENDIF");
    reveal_strlit("ENDDO");
    reveal_strlit("ELSE");
    reveal_strlit("CALLP");
    reveal_strlit("READ");
    reveal_strlit("WRITE");
    reveal_strlit("CHAIN");
    reveal_strlit("SETLL");
    reveal_strlit("READE");
    reveal_strlit("EXSR");
    lemma_op_names_differ();
    assert(upper(trim(slice_cols(raw, 26, 35))).len() > 0);
}

/// The opcode field of a fixed-format line: columns 26 to 35, trimmed, in capitals.
pub open spec fn opcode_field(raw: Seq<char>) -> Seq<char> {
    upper(trim(slice_cols(raw, 26, 35)))
}

/// Factor 1: columns 12 to 25, trimmed.
pub open spec fn factor1_field(raw: Seq<char>) -> Seq<char> {
    trim(slice_cols(raw, 12, 25))
}

/// Factor 2: columns 36 to 49, trimmed.
pub open spec fn factor2_field(raw: Seq<char>) -> Seq<char> {
    trim(slice_cols(raw, 36, 49))
}

/// The result field: columns 50 to 63, trimmed.
pub open spec fn result_field(raw: Seq<char>) -> Seq<char> {
    trim(slice_cols(raw, 50, 63))
}

/// The factor 2 field, or `other` when factor 2 is blank.
pub open spec fn factor2_or(raw: Seq<char>, other: Seq<char>) -> Seq<char> {
    if factor2_field(raw).len() > 0 {
        factor2_field(raw)
    } else {
        other
    }
}

/// What each implemented fixed-format opcode yields on a C-spec line:
/// `EVAL` with a result field and factor 2 assigns factor 2 to the result;
/// `MOVEL` assigns factor 2 (factor 1 when factor 2 is blank) to the result;
/// `IF` and `DOU` test factor 2 (factor 1 when blank); `ENDIF`, `ENDDO` and
/// `ELSE` close or split blocks; `CALLP` calls, `READ` reads and `WRITE`
/// writes what factor 2 names (the result field when factor 2 is blank).
/// Each counts its opcode and raises no diagnostic.
pub proof fn lemma_fixed_statements(raw: Seq<char>, n: usize)
    requires
        upper_char(spec_char_of(raw)) == 'C',
    ensures
        opcode_field(raw) == "EVAL"@ && result_field(raw).len() > 0 && factor2_field(raw).len() > 0
            ==> parse_fixed_line(raw, n).0 == Some(
            (StmtView::Assign { left: result_field(raw), right: factor2_field(raw) }, Some("EVAL"@)),
        ),
        opcode_field(raw) == "MOVEL"@ && result_field(raw).len() > 0 && factor2_or(raw, factor1_field(raw)).len()
            > 0 ==> parse_fixed_line(raw, n).0 == Some(
            (
                StmtView::Assign { left: result_field(raw), right: factor2_or(raw, factor1_field(raw)) },
                Some("MOVEL"@),
            ),
        ),
        opcode_field(raw) == "IF"@ ==> parse_fixed_line(raw, n).0 == Some(
            (StmtView::If { cond: normalize_fixed_condition(factor2_or(raw, factor1_field(raw))) }, Some("IF"@)),
        ),
        opcode_field(raw) == "DOU"@ ==> parse_fixed_line(raw, n).0 == Some(
            (
                StmtView::DoUntil { cond: normalize_fixed_condition(factor2_or(raw, factor1_field(raw))) },
                Some("DOU"@),
            ),
        ),
        opcode_field(raw) == "ENDIF"@ ==> parse_fixed_line(raw, n).0 == Some((StmtView::EndIf, Some("ENDIF"@))),
        opcode_field(raw) == "ENDDO"@ ==> parse_fixed_line(raw, n).0 == Some((StmtView::EndDo, Some("ENDDO"@))),
        opcode_field(raw) == "ELSE"@ ==> parse_fixed_line(raw, n).0 == Some((StmtView::Else, Some("ELSE"@))),
        opcode_field(raw) == "CALLP"@ ==> parse_fixed_line(raw, n).0 == Some(
            (StmtView::Call { proc_name: factor2_or(raw, result_field(raw)) }, Some("CALLP"@)),
        ),
        opcode_field(raw) == "READ"@ ==> parse_fixed_line(raw, n).0 == Some(
            (StmtView::Read { target: factor2_or(raw, result_field(raw)) }, Some("READ"@)),
        ),
        opcode_field(raw) == "WRITE"@ ==> parse_fixed_line(raw, n).0 == Some(
            (StmtView::Write { target: factor2_or(raw, result_field(raw)) }, Some("WRITE"@)),
        ),
        is_implemented_op(opcode_field(raw)) ==> parse_fixed_line(raw, n).1 == Seq::<DiagnosticView>::empty(),
{
    lemma_op_names_differ();
    if is_implemented_op(opcode_field(raw)) {
        lemma_fixed_known_line(raw, n);
    }
}

proof fn lemma_prefix_chars(u: Seq<char>, p: Seq<char>, k: int)
    requires
        starts_with(u, p),
        0 <= k < p.len(),
    ensures
        u[k] == p[k],
{
    assert(u.subrange(0, p.len() as int)[k] == u[k]);
}

/// What a free-format line yields, by its leading keyword (in any case):
/// `EVAL target = expr` assigns the text after the first `=` to the text
/// before it; `IF` and `DOU` test the rest of the line; `CALLP` calls,
/// `WRITE` writes and `READ` reads what the rest of the line names; `ELSE`,
/// `ENDIF` and `ENDDO` alone split or close blocks. Each counts its keyword.
pub proof fn lemma_free_statements(line: Seq<char>)
    ensures
        forall|k: int|
            starts_with(upper(line), "EVAL "@) && 0 <= k < rest_after(line, "EVAL "@).len() && #[trigger] rest_after(
                line,
                "EVAL "@,
            )[k] == '=' && (forall|j: int| 0 <= j < k ==> rest_after(line, "EVAL "@)[j] != '=')
                ==> parse_common_line(line) == (
                StmtView::Assign {
                    left: trim(rest_after(line, "EVAL "@).subrange(0, k)),
                    right: trim(rest_after(line, "EVAL "@).subrange(k + 1, rest_after(line, "EVAL "@).len() as int)),
                },
                Some("EVAL"@),
            ),
        starts_with(upper(line), "IF "@) ==> parse_common_line(line) == (
            StmtView::If { cond: trim(rest_after(line, "IF "@)) },
            Some("IF"@),
        ),
        starts_with(upper(line), "DOU "@) ==> parse_common_line(line) == (
            StmtView::DoUntil { cond: trim(rest_after(line, "DOU "@)) },
            Some("DOU"@),
        ),
        starts_with(upper(line), "CALLP "@) ==> parse_common_line(line) == (
            StmtView::Call { proc_name: trim(rest_after(line, "CALLP "@)) },
            Some("CALLP"@),
        ),
        starts_with(upper(line), "WRITE "@) ==> parse_common_line(line) == (
            StmtView::Write { target: trim(rest_after(line, "WRITE "@)) },
            Some("WRITE"@),
        ),
        starts_with(upper(line), "READ "@) ==> parse_common_line(line) == (
            StmtView::Read { target: trim(rest_after(line, "READ "@)) },
            Some("READ"@),
        ),
        upper(line) == "ELSE"@ ==> parse_common_line(line) == (StmtView::Else, Some("ELSE"@)),
        upper(line) == "ENDIF"@ ==> parse_common_line(line) == (StmtView::EndIf, Some("ENDIF"@)),
        upper(line) == "ENDDO"@ ==> parse_common_line(line) == (StmtView::EndDo, Some("ENDDO"@)),
{
    reveal_strlit("EVAL ");
    reveal_strlit("IF ");
    reveal_strlit("ELSE");
    reveal_strlit("ENDIF");
    reveal_strlit("DOU ");
    reveal_strlit("ENDDO");
    reveal_strlit("CALLP ");
    reveal_strlit("WRITE ");
    reveal_strlit("READ ");
    reveal_strlit("MOVEL ");
    reveal_strlit("CHAIN ");
    reveal_strlit("SETLL ");
    reveal_strlit("READE ");
    reveal_strlit("EXSR ");
    let u = upper(line);
    if u.len() > 0 {
        if starts_with(u, "EVAL "@) {
            let rest = rest_after(line, "EVAL "@);
            lemma_index_of_from(rest, '=', 0);
            assert forall|k: int|
                0 <= k < rest.len() && #[trigger] rest[k] == '=' && (forall|j: int| 0 <= j < k ==> rest[j] != '=')
                    implies index_of_from(rest, '=', 0) == k by {
                let f = index_of_from(rest, '=', 0);
                if f != k {
                    if f == -1 {
                        assert(rest[k] != '=');
                    } else if f < k {
                        assert(rest[f] == '=');
                    }
                }
            }
        }
        if starts_with(u, "IF "@) {
            lemma_prefix_chars(u, "IF "@, 0);
            lemma_prefix_chars(u, "IF "@, 1);
        }
        if starts_with(u, "DOU "@) {
            lemma_prefix_chars(u, "DOU "@, 0);
        }
        if starts_with(u, "CALLP "@) {
            lemma_prefix_chars(u, "CALLP "@, 0);
        }
        if starts_with(u, "WRITE "@) {
            lemma_prefix_chars(u, "WRITE "@, 0);
        }
        if starts_with(u, "READ "@) {
            lemma_prefix_chars(u, "READ "@, 0);
            lemma_prefix_chars(u, "READ "@, 1);
            lemma_prefix_chars(u, "READ "@, 4);
        }
        if starts_with(u, "EVAL "@) {
            lemma_prefix_chars(u, "EVAL "@, 0);
        }
        if u == "ENDDO"@ {
            assert(u[3] != "ENDIF"@[3]);
            assert(u != "ENDIF"@);
        }
    }
}

/// A line of the source that is not blank, and whether it carries a
/// fixed-format specification letter (H, F, E, I, L, C or O, any case) in
/// column 6 (column 7 after a sequence digit).
pub open spec fn spec_marked(l: Seq<char>) -> bool {
    is_fixed_spec_char(spec_char_of(trim_end(l)))
}

proof fn lemma_mode_counts_uniform(ls: Seq<Seq<char>>)
    ensures
        (forall|i: int| 0 <= i < ls.len() && trim_end(ls[i]).len() > 0 ==> spec_marked(#[trigger] ls[i]))
            ==> mode_counts(ls).0 == mode_counts(ls).1,
        (forall|i: int| 0 <= i < ls.len() ==> !spec_marked(#[trigger] ls[i])) ==> mode_counts(ls).0 == 0,
        (exists|i: int| 0 <= i < ls.len() && trim_end(#[trigger] ls[i]).len() > 0) ==> mode_counts(ls).1 > 0,
    decreases ls.len(),
{
    if ls.len() > 0 {
        let d = ls.drop_last();
        lemma_mode_counts_uniform(d);
        if forall|i: int| 0 <= i < ls.len() && trim_end(ls[i]).len() > 0 ==> spec_marked(#[trigger] ls[i]) {
            assert forall|i: int| 0 <= i < d.len() && trim_end(d[i]).len() > 0 implies spec_marked(#[trigger] d[i]) by {
                assert(d[i] == ls[i]);
            }
            assert(trim_end(ls.last()).len() > 0 ==> spec_marked(ls[ls.len() - 1]));
        }
        if forall|i: int| 0 <= i < ls.len() ==> !spec_marked(#[trigger] ls[i]) {
            assert forall|i: int| 0 <= i < d.len() implies !spec_marked(#[trigger] d[i]) by {
                assert(d[i] == ls[i]);
            }
            assert(!spec_marked(ls[ls.len() - 1]));
        }
        if exists|i: int| 0 <= i < ls.len() && trim_end(#[trigger] ls[i]).len() > 0 {
            let i = choose|i: int| 0 <= i < ls.len() && trim_end(#[trigger] ls[i]).len() > 0;
            if i < d.len() {
                assert(d[i] == ls[i]);
            }
        }
    }
}

/// Format detection: a source whose non-blank lines all carry a fixed-format
/// specification letter, with at least one such line, is fixed format; a
/// source where no line carries one is free format.
pub proof fn lemma_detect_mode_uniform(source: Seq<char>)
    ensures
        (forall|i: int|
            0 <= i < split_lines(source).len() && trim_end(split_lines(source)[i]).len() > 0 ==> spec_marked(
                #[trigger] split_lines(source)[i],
            )) && (exists|i: int|
            0 <= i < split_lines(source).len() && trim_end(#[trigger] split_lines(source)[i]).len() > 0)
            ==> detect_mode(source) is Fixed,
        (forall|i: int| 0 <= i < split_lines(source).len() ==> !spec_marked(#[trigger] split_lines(source)[i]))
            ==> detect_mode(source) is Free,
{
    let ls = split_lines(source);
    lemma_mode_counts_uniform(ls);
    let (f, t) = mode_counts(ls);
    if t > 0 && f == t {
        assert(f * 100 / t == 100) by (nonlinear_arith)
            requires
                t > 0,
                f == t,
        ;
    }
}

proof fn lemma_named_two(k1: Seq<char>, v1: Seq<char>, k2: Seq<char>, v2: Seq<char>)
    requires
        trim(v1).len() > 0,
        trim(v2).len() > 0,
    ensures
        join_named(seq![(k1, v1), (k2, v2)]) == k1 + seq!['='] + trim(v1) + comma_sep() + k2 + seq!['='] + trim(v2),
{
    let pairs = seq![(k1, v1), (k2, v2)];
    assert(pairs.drop_last() =~= seq![(k1, v1)]);
    assert(seq![(k1, v1)].drop_last() =~= Seq::<(Seq<char>, Seq<char>)>::empty());
    let parts = named_parts(pairs);
    assert(named_parts(Seq::<(Seq<char>, Seq<char>)>::empty()) == Seq::<Seq<char>>::empty());
    assert(seq![(k1, v1)].last() == (k1, v1));
    assert(named_parts(seq![(k1, v1)]) =~= seq![k1 + seq!['='] + trim(v1)]);
    assert(parts =~= seq![k1 + seq!['='] + trim(v1), k2 + seq!['='] + trim(v2)]);
    assert(parts.drop_last() =~= seq![k1 + seq!['='] + trim(v1)]);
    assert(join_sep(parts.drop_last(), comma_sep()) == k1 + seq!['='] + trim(v1));
}

proof fn lemma_named_one(k1: Seq<char>, v1: Seq<char>)
    requires
        trim(v1).len() > 0,
    ensures
        join_named(seq![(k1, v1)]) == k1 + seq!['='] + trim(v1),
{
    assert(seq![(k1, v1)].drop_last() =~= Seq::<(Seq<char>, Seq<char>)>::empty());
    assert(named_parts(Seq::<(Seq<char>, Seq<char>)>::empty()) == Seq::<Seq<char>>::empty());
    assert(seq![(k1, v1)].last() == (k1, v1));
    assert(named_parts(seq![(k1, v1)]) =~= seq![k1 + seq!['='] + trim(v1)]);
}

/// The TODO arguments of a free-format stub operation name what its words
/// are: for `CHAIN` and `SETLL` the first word is the key and the second the
/// file; for `READE` a lone word is the file, two words the key and the
/// file; for `EXSR` the word is the subroutine.
pub proof fn lemma_free_stub_args(rest: Seq<char>)
    ensures
        trim(first_token(rest)).len() > 0 && trim(second_token(rest)).len() > 0 ==> format_stub_args_from_free(
            "CHAIN"@,
            rest,
        ) == "key"@ + seq!['='] + trim(first_token(rest)) + comma_sep() + "file"@ + seq!['='] + trim(
            second_token(rest),
        ) && format_stub_args_from_free("SETLL"@, rest) == "key"@ + seq!['='] + trim(first_token(rest))
            + comma_sep() + "file"@ + seq!['='] + trim(second_token(rest)) && format_stub_args_from_free(
            "READE"@,
            rest,
        ) == "key"@ + seq!['='] + trim(first_token(rest)) + comma_sep() + "file"@ + seq!['='] + trim(
            second_token(rest),
        ),
        trim(first_token(rest)).len() > 0 && second_token(rest).len() == 0 ==> format_stub_args_from_free(
            "READE"@,
            rest,
        ) == "file"@ + seq!['='] + trim(first_token(rest)),
        trim(first_token(rest)).len() > 0 ==> format_stub_args_from_free("EXSR"@, rest) == "subroutine"@ + seq!['=']
            + trim(first_token(rest)),
{
    reveal_strlit("CHAIN");
    reveal_strlit("SETLL");
    reveal_strlit("READE");
    reveal_strlit("EXSR");
    reveal_strlit("key");
    reveal_strlit("file");
    reveal_strlit("subroutine");
    assert("READE"@[0] != "CHAIN"@[0]);
    assert("READE"@[0] != "SETLL"@[0]);
    assert("EXSR"@.len() != "CHAIN"@.len());
    assert("EXSR"@.len() != "SETLL"@.len());
    assert("EXSR"@.len() != "READE"@.len());
    let first = first_token(rest);
    let second = second_token(rest);
    if trim(first).len() > 0 && trim(second).len() > 0 {
        lemma_named_two("key"@, first, "file"@, second);
    }
    if trim(first).len() > 0 {
        lemma_named_one("file"@, first);
        lemma_named_one("subroutine"@, first);
    }
}
} // verus!
