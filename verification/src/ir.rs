//! The intermediate representation: statements, symbols, and type inference.
use vstd::prelude::*;
use crate::parser::{Program, Stmt, StmtView, opt_view, stmt_views};
use crate::text::{all_digit_chars, all_digits, all_word, all_word_chars, char_is_ascii_digit, char_is_word, chars_of, contains, contains_char, contains_lit, eq_chars, eq_ignore_case, eq_ignore_case_chars, find, find_chars, find_from, has_char, is_ascii_digit, is_lit, is_word_char, lemma_find_from_bounds, lemma_seq_lt_asym, lemma_seq_lt_irrefl, lemma_seq_lt_total, lemma_seq_lt_trans, lemma_trim_idempotent, lower, lt_chars, rest_after, rest_after_lit, seq_lt, slice_of, starts_with, starts_with_lit, string_of, to_lower, to_upper, trim, trim_chars, upper, views};

verus! {

#[derive(Debug, Clone)]
pub struct IrProgram {
    pub statements: Vec<IrStmt>,
    /// The source line of each statement.
    pub statement_lines: Vec<usize>,
    pub symbols: Vec<SymbolInfo>,
}

#[derive(Debug, Clone)]
pub struct SymbolInfo {
    pub name: String,
    pub ty: ValueType,
    pub assigned_lines: Vec<usize>,
    pub referenced_lines: Vec<usize>,
}

#[derive(Debug, Clone, Copy, PartialEq, Eq, Structural)]
pub enum ValueType {
    Number,
    Text,
    Bool,
    Unknown,
}

#[derive(Debug, Clone)]
pub enum IrStmt {
    Assign { left: String, right: String },
    If { cond: String },
    Else,
    EndIf,
    DoUntil { cond: String },
    EndDo,
    Call { proc_name: String },
    Write { target: String },
    Read { target: String },
    Todo { op: Option<String>, src: String },
}

pub enum IrStmtView {
    Assign { left: Seq<char>, right: Seq<char> },
    If { cond: Seq<char> },
    Else,
    EndIf,
    DoUntil { cond: Seq<char> },
    EndDo,
    Call { proc_name: Seq<char> },
    Write { target: Seq<char> },
    Read { target: Seq<char> },
    Todo { op: Option<Seq<char>>, src: Seq<char> },
}

impl View for IrStmt {
    type V = IrStmtView;

    open spec fn view(&self) -> IrStmtView {
        match self {
            IrStmt::Assign { left, right } => IrStmtView::Assign { left: left@, right: right@ },
            IrStmt::If { cond } => IrStmtView::If { cond: cond@ },
            IrStmt::Else => IrStmtView::Else,
            IrStmt::EndIf => IrStmtView::EndIf,
            IrStmt::DoUntil { cond } => IrStmtView::DoUntil { cond: cond@ },
            IrStmt::EndDo => IrStmtView::EndDo,
            IrStmt::Call { proc_name } => IrStmtView::Call { proc_name: proc_name@ },
            IrStmt::Write { target } => IrStmtView::Write { target: target@ },
            IrStmt::Read { target } => IrStmtView::Read { target: target@ },
            IrStmt::Todo { op, src } => IrStmtView::Todo {
                op: match op {
                    Some(o) => Some(o@),
                    None => None,
                },
                src: src@,
            },
        }
    }
}

pub struct SymbolView {
    pub name: Seq<char>,
    pub ty: ValueType,
    pub assigned_lines: Seq<usize>,
    pub referenced_lines: Seq<usize>,
}

impl View for SymbolInfo {
    type V = SymbolView;

    open spec fn view(&self) -> SymbolView {
        SymbolView {
            name: self.name@,
            ty: self.ty,
            assigned_lines: self.assigned_lines@,
            referenced_lines: self.referenced_lines@,
        }
    }
}

pub open spec fn ir_views(v: Seq<IrStmt>) -> Seq<IrStmtView> {
    v.map_values(|s: IrStmt| s@)
}

pub open spec fn symbol_views(v: Seq<SymbolInfo>) -> Seq<SymbolView> {
    v.map_values(|s: SymbolInfo| s@)
}

// ------------------------------------------------------------------
// Literals and identifiers
// ------------------------------------------------------------------

/// The first index at or after `i` that does not hold an ASCII digit.
pub open spec fn digits_end(t: Seq<char>, i: int) -> int
    decreases t.len() - i,
{
    if 0 <= i < t.len() && is_ascii_digit(t[i]) {
        digits_end(t, i + 1)
    } else {
        i
    }
}

/// `Exp ::= 'e' Sign? Digit+` from position `i` (after the `e`) to the end.
pub open spec fn exponent_ok(t: Seq<char>, i: int) -> bool {
    let j = if i < t.len() && (t[i] == '+' || t[i] == '-') { i + 1 } else { i };
    digits_end(t, j) > j && digits_end(t, j) == t.len()
}

/// `Number ::= (Digit+ | Digit+ '.' Digit* | Digit* '.' Digit+) Exp?` over the
/// lower-cased text.
pub open spec fn is_decimal_number(t: Seq<char>) -> bool {
    let d1 = digits_end(t, 0);
    let has_dot = d1 < t.len() && t[d1] == '.';
    let d2 = if has_dot { digits_end(t, d1 + 1) } else { d1 };
    let mantissa = d1 + if has_dot { d2 - (d1 + 1) } else { 0 };
    mantissa > 0 && (d2 == t.len() || (d2 < t.len() && t[d2] == 'e' && exponent_ok(t, d2 + 1)))
}

/// The text `i64::from_str` or `f64::from_str` accepts: an optional sign, then
/// `inf`, `infinity`, `nan` or a decimal number, letters in any case.
pub open spec fn is_number_literal(e: Seq<char>) -> bool {
    let l = lower(e);
    let b: int = if l.len() > 0 && (l[0] == '+' || l[0] == '-') { 1 } else { 0 };
    let body = l.subrange(b, l.len() as int);
    body == "inf"@ || body == "infinity"@ || body == "nan"@ || is_decimal_number(body)
}

fn digits_end_exec(t: &Vec<char>, i: usize) -> (r: usize)
    requires
        i <= t.len(),
    ensures
        r == digits_end(t@, i as int),
        i <= r <= t.len(),
{
    let mut j = i;
    while j < t.len() && char_is_ascii_digit(t[j])
        invariant
            i <= j <= t.len(),
            digits_end(t@, j as int) == digits_end(t@, i as int),
        decreases t.len() - j,
    {
        j += 1;
    }
    j
}

fn is_decimal_number_exec(t: &Vec<char>) -> (r: bool)
    ensures
        r == is_decimal_number(t@),
{
    let d1 = digits_end_exec(t, 0);
    let has_dot = d1 < t.len() && t[d1] == '.';
    let d2 = if has_dot { digits_end_exec(t, d1 + 1) } else { d1 };
    let mantissa = d1 + if has_dot { d2 - (d1 + 1) } else { 0 };
    if mantissa == 0 {
        return false;
    }
    if d2 == t.len() {
        return true;
    }
    if t[d2] != 'e' {
        return false;
    }
    let i = d2 + 1;
    let j = if i < t.len() && (t[i] == '+' || t[i] == '-') { i + 1 } else { i };
    let k = digits_end_exec(t, j);
    k > j && k == t.len()
}

fn is_number_literal_exec(e: &Vec<char>) -> (r: bool)
    ensures
        r == is_number_literal(e@),
{
    let l = to_lower(e);
    let b: usize = if l.len() > 0 && (l[0] == '+' || l[0] == '-') { 1 } else { 0 };
    let body = slice_of(&l, b, l.len());
    is_lit(&body, "inf") || is_lit(&body, "infinity") || is_lit(&body, "nan") || is_decimal_number_exec(
        &body,
    )
}

pub open spec fn is_quoted(e: Seq<char>, q: char) -> bool {
    e.len() >= 2 && e[0] == q && e[e.len() - 1] == q
}

/// The type a literal has: quoted text, a boolean word, or a number.
pub open spec fn literal_type(expr: Seq<char>) -> Option<ValueType> {
    let e = trim(expr);
    if e.len() == 0 {
        None
    } else if is_quoted(e, '\'') || is_quoted(e, '"') {
        Some(ValueType::Text)
    } else if eq_ignore_case(e, "true"@) || eq_ignore_case(e, "false"@) || eq_ignore_case(e, "*ON"@)
        || eq_ignore_case(e, "*OFF"@) {
        Some(ValueType::Bool)
    } else if is_number_literal(e) {
        Some(ValueType::Number)
    } else {
        None
    }
}

fn ieq_lit(e: &Vec<char>, lit: &str) -> (r: bool)
    ensures
        r == eq_ignore_case(e@, lit@),
{
    let l = chars_of(lit);
    eq_ignore_case_chars(e, &l)
}

fn is_quoted_exec(e: &Vec<char>, q: char) -> (r: bool)
    ensures
        r == is_quoted(e@, q),
{
    e.len() >= 2 && e[0] == q && e[e.len() - 1] == q
}

fn infer_literal_type(expr: &Vec<char>) -> (r: Option<ValueType>)
    ensures
        r == literal_type(expr@),
{
    let e = trim_chars(expr);
    if e.len() == 0 {
        return None;
    }
    if is_quoted_exec(&e, '\'') || is_quoted_exec(&e, '"') {
        return Some(ValueType::Text);
    }
    if ieq_lit(&e, "true") || ieq_lit(&e, "false") || ieq_lit(&e, "*ON") || ieq_lit(&e, "*OFF") {
        return Some(ValueType::Bool);
    }
    if is_number_literal_exec(&e) {
        return Some(ValueType::Number);
    }
    None
}

/// A lone identifier (word characters, after at most one leading `*`).
pub open spec fn single_identifier(expr: Seq<char>) -> Option<Seq<char>> {
    let e = trim(expr);
    if e.len() == 0 {
        None
    } else {
        let s = if e[0] == '*' { e.drop_first() } else { e };
        if all_word(s) {
            Some(s)
        } else {
            None
        }
    }
}

fn extract_single_identifier(expr: &Vec<char>) -> (r: Option<Vec<char>>)
    ensures
        opt_view(r) == single_identifier(expr@),
{
    let e = trim_chars(expr);
    if e.len() == 0 {
        return None;
    }
    let s = if e[0] == '*' { slice_of(&e, 1, e.len()) } else { e };
    proof {
        if e@[0] == '*' {
            assert(s@ =~= e@.drop_first());
        }
    }
    if all_word_chars(&s) {
        Some(s)
    } else {
        None
    }
}

/// `IN` followed by one or more digits, in any letter case.
pub open spec fn is_indicator_name(name: Seq<char>) -> bool {
    let up = upper(name);
    starts_with(up, "IN"@) && rest_after(up, "IN"@).len() > 0 && all_digits(rest_after(up, "IN"@))
}

pub fn is_indicator_name_exec(name: &Vec<char>) -> (r: bool)
    ensures
        r == is_indicator_name(name@),
{
    let up = to_upper(name);
    if !starts_with_lit(&up, "IN") {
        return false;
    }
    let digits = rest_after_lit(&up, "IN");
    digits.len() > 0 && all_digit_chars(&digits)
}

pub open spec fn contains_logical_expr(u: Seq<char>) -> bool {
    contains(u, " AND "@) || contains(u, " OR "@) || starts_with(u, "NOT "@) || starts_with(
        u,
        "*NOT"@,
    )
}

fn contains_logical_expr_exec(u: &Vec<char>) -> (r: bool)
    ensures
        r == contains_logical_expr(u@),
{
    contains_lit(u, " AND ") || contains_lit(u, " OR ") || starts_with_lit(u, "NOT ")
        || starts_with_lit(u, "*NOT")
}

pub open spec fn contains_comparator_expr(u: Seq<char>, raw: Seq<char>) -> bool {
    contains(u, " *EQ "@) || contains(u, " *NE "@) || contains(u, " *GT "@) || contains(u, " *LT "@)
        || contains(u, " *GE "@) || contains(u, " *LE "@) || contains(raw, "=="@) || contains(
        raw,
        "!="@,
    ) || contains(raw, ">="@) || contains(raw, "<="@) || contains_char(raw, '>') || contains_char(
        raw,
        '<',
    )
}

fn contains_comparator_expr_exec(u: &Vec<char>, raw: &Vec<char>) -> (r: bool)
    ensures
        r == contains_comparator_expr(u@, raw@),
{
    contains_lit(u, " *EQ ") || contains_lit(u, " *NE ") || contains_lit(u, " *GT ") || contains_lit(
        u,
        " *LT ",
    ) || contains_lit(u, " *GE ") || contains_lit(u, " *LE ") || contains_lit(raw, "==")
        || contains_lit(raw, "!=") || contains_lit(raw, ">=") || contains_lit(raw, "<=") || has_char(
        raw,
        '>',
    ) || has_char(raw, '<')
}


// ------------------------------------------------------------------
// Variables of an expression
// ------------------------------------------------------------------

/// From `i`, the first index holding `q` (or the end).
pub open spec fn quote_end(c: Seq<char>, i: int, q: char) -> int
    decreases c.len() - i,
{
    if 0 <= i < c.len() && c[i] != q {
        quote_end(c, i + 1, q)
    } else {
        i
    }
}

/// From `i`, the first index holding a word character or `*` (or the end).
pub open spec fn skip_to_word(c: Seq<char>, i: int) -> int
    decreases c.len() - i,
{
    if 0 <= i < c.len() && !(is_word_char(c[i]) || c[i] == '*') {
        skip_to_word(c, i + 1)
    } else {
        i
    }
}

/// From `i`, the first index not holding a word character (or the end).
pub open spec fn word_end(c: Seq<char>, i: int) -> int
    decreases c.len() - i,
{
    if 0 <= i < c.len() && is_word_char(c[i]) {
        word_end(c, i + 1)
    } else {
        i
    }
}

pub proof fn lemma_quote_end(c: Seq<char>, i: int, q: char)
    requires
        0 <= i,
    ensures
        i <= quote_end(c, i, q),
        i <= c.len() ==> quote_end(c, i, q) <= c.len(),
    decreases c.len() - i,
{
    if 0 <= i < c.len() && c[i] != q {
        lemma_quote_end(c, i + 1, q);
    }
}

pub proof fn lemma_skip_to_word(c: Seq<char>, i: int)
    requires
        0 <= i <= c.len(),
    ensures
        i <= skip_to_word(c, i) <= c.len(),
        skip_to_word(c, i) < c.len() ==> (is_word_char(c[skip_to_word(c, i)]) || c[skip_to_word(
            c,
            i,
        )] == '*'),
    decreases c.len() - i,
{
    if i < c.len() && !(is_word_char(c[i]) || c[i] == '*') {
        lemma_skip_to_word(c, i + 1);
    }
}

pub proof fn lemma_word_end(c: Seq<char>, i: int)
    requires
        0 <= i <= c.len(),
    ensures
        i <= word_end(c, i) <= c.len(),
        i < c.len() && is_word_char(c[i]) ==> word_end(c, i) > i,
    decreases c.len() - i,
{
    if i < c.len() && is_word_char(c[i]) {
        lemma_word_end(c, i + 1);
    }
}

pub open spec fn is_operator_word(u: Seq<char>) -> bool {
    u == "EQ"@ || u == "NE"@ || u == "GT"@ || u == "LT"@ || u == "GE"@ || u == "LE"@ || u == "AND"@
        || u == "OR"@ || u == "NOT"@
}

/// Whether a token counts as a variable: after `*` only indicators (and not
/// the figurative constants), otherwise no numbers, booleans or operator words.
pub open spec fn keep_var(tok: Seq<char>, starred: bool) -> bool {
    if starred {
        let u = upper(tok);
        !(u == "ON"@ || u == "OFF"@ || u == "BLANK"@ || u == "ZEROS"@) && is_indicator_name(tok)
    } else {
        !all_digits(tok) && !eq_ignore_case(tok, "true"@) && !eq_ignore_case(tok, "false"@)
            && !is_operator_word(upper(tok))
    }
}

/// The variables of `c` read from position `i` on: quoted text at the start
/// of a step is skipped, then the next word (optionally after `*`) is taken.
pub open spec fn vars_from(c: Seq<char>, i: int) -> Seq<Seq<char>>
    decreases c.len() - i,
{
    if i < 0 || i >= c.len() {
        seq![]
    } else if c[i] == '\'' || c[i] == '"' {
        let j = quote_end(c, i + 1, c[i]);
        let nxt = if j < c.len() { j + 1 } else { j };
        proof {
            lemma_quote_end(c, i + 1, c[i]);
        }
        vars_from(c, nxt)
    } else {
        let j = skip_to_word(c, i);
        proof {
            lemma_skip_to_word(c, i);
        }
        if j >= c.len() {
            seq![]
        } else {
            let starred = c[j] == '*';
            let s = if starred { j + 1 } else { j };
            let e = word_end(c, s);
            proof {
                lemma_word_end(c, s);
            }
            let rest = vars_from(c, e);
            if s >= e {
                rest
            } else if keep_var(c.subrange(s, e), starred) {
                seq![c.subrange(s, e)] + rest
            } else {
                rest
            }
        }
    }
}

pub open spec fn vars_of(c: Seq<char>) -> Seq<Seq<char>> {
    vars_from(c, 0)
}

fn keep_var_exec(tok: &Vec<char>, starred: bool) -> (r: bool)
    ensures
        r == keep_var(tok@, starred),
{
    let u = to_upper(tok);
    if starred {
        !(is_lit(&u, "ON") || is_lit(&u, "OFF") || is_lit(&u, "BLANK") || is_lit(&u, "ZEROS"))
            && is_indicator_name_exec(tok)
    } else {
        !all_digit_chars(tok) && !ieq_lit(tok, "true") && !ieq_lit(tok, "false") && !(is_lit(
            &u,
            "EQ",
        ) || is_lit(&u, "NE") || is_lit(&u, "GT") || is_lit(&u, "LT") || is_lit(&u, "GE")
            || is_lit(&u, "LE") || is_lit(&u, "AND") || is_lit(&u, "OR") || is_lit(&u, "NOT"))
    }
}

fn collect_vars(c: &Vec<char>) -> (out: Vec<Vec<char>>)
    ensures
        views(out@) == vars_of(c@),
{
    let mut out: Vec<Vec<char>> = Vec::new();
    let mut i: usize = 0;
    while i < c.len()
        invariant
            i <= c.len(),
            views(out@) + vars_from(c@, i as int) == vars_of(c@),
        decreases c.len() - i,
    {
        let ghost i0 = i as int;
        if c[i] == '\'' || c[i] == '"' {
            let q = c[i];
            let mut j = i + 1;
            while j < c.len() && c[j] != q
                invariant
                    i0 + 1 <= j <= c.len(),
                    quote_end(c@, j as int, q) == quote_end(c@, i0 + 1, q),
                decreases c.len() - j,
            {
                j += 1;
            }
            i = if j < c.len() { j + 1 } else { j };
        } else {
            let mut j = i;
            while j < c.len() && !(char_is_word(c[j]) || c[j] == '*')
                invariant
                    i0 <= j <= c.len(),
                    skip_to_word(c@, j as int) == skip_to_word(c@, i0),
                decreases c.len() - j,
            {
                j += 1;
            }
            if j >= c.len() {
                i = c.len();
                proof {
                    assert(vars_from(c@, i0) =~= Seq::<Seq<char>>::empty());
                    assert(vars_from(c@, i as int) =~= Seq::<Seq<char>>::empty());
                }
            } else {
                let starred = c[j] == '*';
                let s = if starred { j + 1 } else { j };
                let mut e = s;
                while e < c.len() && char_is_word(c[e])
                    invariant
                        s <= e <= c.len(),
                        word_end(c@, e as int) == word_end(c@, s as int),
                    decreases c.len() - e,
                {
                    e += 1;
                }
                proof {
                    lemma_word_end(c@, s as int);
                }
                if s < e {
                    let tok = slice_of(c, s, e);
                    if keep_var_exec(&tok, starred) {
                        let ghost before = views(out@);
                        out.push(tok);
                        proof {
                            assert(views(out@) =~= before.push(tok@));
                            assert(views(out@) + vars_from(c@, e as int) =~= before + vars_from(
                                c@,
                                i0,
                            ));
                        }
                    }
                }
                i = e;
            }
        }
    }
    proof {
        assert(views(out@) + vars_from(c@, i as int) =~= views(out@));
    }
    out
}

// ------------------------------------------------------------------
// Conditions
// ------------------------------------------------------------------

/// Split `c` at the first occurrence of `needle`, naming the operator `op`.
pub open spec fn split_at_needle(c: Seq<char>, needle: Seq<char>, op: Seq<char>) -> Option<
    (Seq<char>, Seq<char>, Seq<char>),
> {
    let idx = find(c, needle);
    if idx < 0 {
        None
    } else {
        Some((c.subrange(0, idx), op, c.subrange(idx + needle.len(), c.len() as int)))
    }
}

pub open spec fn first_some<T>(s: Seq<Option<T>>) -> Option<T>
    decreases s.len(),
{
    if s.len() == 0 {
        None
    } else if s[0] is Some {
        s[0]
    } else {
        first_some(s.drop_first())
    }
}

/// The operators a condition is split at, tried in this order.
pub open spec fn cond_ops() -> Seq<(Seq<char>, Seq<char>)> {
    seq![
        (" *GE "@, "*GE"@),
        (" *LE "@, "*LE"@),
        (" *GT "@, "*GT"@),
        (" *LT "@, "*LT"@),
        (" *EQ "@, "*EQ"@),
        (" *NE "@, "*NE"@),
        (">="@, ">="@),
        ("<="@, "<="@),
        ("=="@, "=="@),
        ("!="@, "!="@),
        (">"@, ">"@),
        ("<"@, "<"@),
    ]
}

/// `left op right` at the first operator of `cond_ops` that occurs in `c`.
pub open spec fn split_condition(c: Seq<char>) -> Option<(Seq<char>, Seq<char>, Seq<char>)> {
    first_some(cond_ops().map_values(|p: (Seq<char>, Seq<char>)| split_at_needle(c, p.0, p.1)))
}

fn split_at_needle_exec(c: &Vec<char>, needle: &Vec<char>, op: &Vec<char>) -> (r: Option<
    (Vec<char>, Vec<char>, Vec<char>),
>)
    ensures
        match r {
            Some((a, o, b)) => split_at_needle(c@, needle@, op@) == Some((a@, o@, b@)),
            None => split_at_needle(c@, needle@, op@) is None,
        },
{
    match find_chars(c, needle) {
        Some(idx) => {
            proof {
                lemma_find_from_bounds(c@, needle@, 0);
                assert(find_from(c@, needle@, 0) == idx as int);
                assert(idx + needle@.len() <= c@.len());
            }
            let n = c.len();
            let nl = needle.len();
            assert(idx + nl <= n);
            let end = idx + nl;
            Some((slice_of(c, 0, idx), op.clone(), slice_of(c, end, c.len())))
        },
        None => None,
    }
}

fn cond_ops_exec() -> (r: Vec<(Vec<char>, Vec<char>)>)
    ensures
        r@.len() == cond_ops().len(),
        forall|k: int| 0 <= k < r@.len() ==> (#[trigger] r@[k].0@, r@[k].1@) == cond_ops()[k],
{
    let mut r: Vec<(Vec<char>, Vec<char>)> = Vec::new();
    r.push((chars_of(" *GE "), chars_of("*GE")));
    r.push((chars_of(" *LE "), chars_of("*LE")));
    r.push((chars_of(" *GT "), chars_of("*GT")));
    r.push((chars_of(" *LT "), chars_of("*LT")));
    r.push((chars_of(" *EQ "), chars_of("*EQ")));
    r.push((chars_of(" *NE "), chars_of("*NE")));
    r.push((chars_of(">="), chars_of(">=")));
    r.push((chars_of("<="), chars_of("<=")));
    r.push((chars_of("=="), chars_of("==")));
    r.push((chars_of("!="), chars_of("!=")));
    r.push((chars_of(">"), chars_of(">")));
    r.push((chars_of("<"), chars_of("<")));
    r
}

fn split_condition_exec(c: &Vec<char>) -> (r: Option<(Vec<char>, Vec<char>, Vec<char>)>)
    ensures
        match r {
            Some((a, o, b)) => split_condition(c@) == Some((a@, o@, b@)),
            None => split_condition(c@) is None,
        },
{
    let ops = cond_ops_exec();
    let ghost all = cond_ops().map_values(
        |p: (Seq<char>, Seq<char>)| split_at_needle(c@, p.0, p.1),
    );
    let mut k: usize = 0;
    proof {
        assert(all.subrange(0, all.len() as int) =~= all);
    }
    while k < ops.len()
        invariant
            k <= ops.len(),
            ops@.len() == cond_ops().len(),
            forall|j: int| 0 <= j < ops@.len() ==> (#[trigger] ops@[j].0@, ops@[j].1@) == cond_ops()[j],
            all == cond_ops().map_values(|p: (Seq<char>, Seq<char>)| split_at_needle(c@, p.0, p.1)),
            first_some(all.subrange(k as int, all.len() as int)) == first_some(all),
        decreases ops.len() - k,
    {
        let ghost tail = all.subrange(k as int, all.len() as int);
        proof {
            assert(tail.drop_first() =~= all.subrange(k + 1, all.len() as int));
            assert(tail[0] == all[k as int]);
            assert((ops@[k as int].0@, ops@[k as int].1@) == cond_ops()[k as int]);
        }
        let r = split_at_needle_exec(c, &ops[k].0, &ops[k].1);
        if r.is_some() {
            return r;
        }
        k += 1;
    }
    None
}

pub open spec fn is_numeric_comparator(op: Seq<char>) -> bool {
    op == ">"@ || op == "<"@ || op == ">="@ || op == "<="@ || op == "*GT"@ || op == "*LT"@ || op
        == "*GE"@ || op == "*LE"@
}

fn is_numeric_comparator_exec(op: &Vec<char>) -> (r: bool)
    ensures
        r == is_numeric_comparator(op@),
{
    is_lit(op, ">") || is_lit(op, "<") || is_lit(op, ">=") || is_lit(op, "<=") || is_lit(op, "*GT")
        || is_lit(op, "*LT") || is_lit(op, "*GE") || is_lit(op, "*LE")
}


// ------------------------------------------------------------------
// Type maps
// ------------------------------------------------------------------

pub open spec fn lookup(m: Map<Seq<char>, ValueType>, k: Seq<char>) -> Option<ValueType> {
    if m.dom().contains(k) {
        Some(m[k])
    } else {
        None
    }
}

/// `entry(k).or_insert(t)`
pub open spec fn or_insert(m: Map<Seq<char>, ValueType>, k: Seq<char>, t: ValueType) -> Map<
    Seq<char>,
    ValueType,
> {
    if m.dom().contains(k) {
        m
    } else {
        m.insert(k, t)
    }
}

/// A log of updates, later entries overriding earlier ones.
pub open spec fn log_map(v: Seq<(Seq<char>, ValueType)>) -> Map<Seq<char>, ValueType>
    decreases v.len(),
{
    if v.len() == 0 {
        Map::empty()
    } else {
        log_map(v.drop_last()).insert(v.last().0, v.last().1)
    }
}

pub open spec fn tviews(v: Seq<(Vec<char>, ValueType)>) -> Seq<(Seq<char>, ValueType)> {
    v.map_values(|p: (Vec<char>, ValueType)| (p.0@, p.1))
}

pub open spec fn type_map(v: Seq<(Vec<char>, ValueType)>) -> Map<Seq<char>, ValueType> {
    log_map(tviews(v))
}

proof fn lemma_log_map_prefix(v: Seq<(Seq<char>, ValueType)>, i: int, k: Seq<char>)
    requires
        0 <= i <= v.len(),
        forall|j: int| i <= j < v.len() ==> v[j].0 != k,
    ensures
        lookup(log_map(v), k) == lookup(log_map(v.subrange(0, i)), k),
    decreases v.len() - i,
{
    if i == v.len() {
        assert(v.subrange(0, i) =~= v);
    } else {
        let w = v.drop_last();
        lemma_log_map_prefix(w, i, k);
        assert(w.subrange(0, i) =~= v.subrange(0, i));
    }
}

pub fn lookup_type(log: &Vec<(Vec<char>, ValueType)>, key: &Vec<char>) -> (r: Option<ValueType>)
    ensures
        r == lookup(type_map(log@), key@),
{
    let ghost v = tviews(log@);
    let mut i = log.len();
    while i > 0
        invariant
            i <= log.len(),
            v == tviews(log@),
            forall|j: int| i <= j < v.len() ==> v[j].0 != key@,
        decreases i,
    {
        proof {
            assert(v[i - 1] == (log@[i - 1].0@, log@[i - 1].1));
        }
        if eq_chars(&log[i - 1].0, key) {
            proof {
                lemma_log_map_prefix(v, i as int, key@);
                assert(v.subrange(0, i as int).drop_last() =~= v.subrange(0, i - 1));
            }
            return Some(log[i - 1].1);
        }
        i -= 1;
    }
    proof {
        lemma_log_map_prefix(v, 0, key@);
        assert(log_map(v.subrange(0, 0)) =~= Map::<Seq<char>, ValueType>::empty());
    }
    None
}

fn set_type(log: &mut Vec<(Vec<char>, ValueType)>, key: &Vec<char>, t: ValueType)
    ensures
        type_map(final(log)@) == type_map(old(log)@).insert(key@, t),
{
    log.push((key.clone(), t));
    proof {
        assert(tviews(final(log)@).drop_last() =~= tviews(old(log)@));
    }
}

fn or_insert_type(log: &mut Vec<(Vec<char>, ValueType)>, key: &Vec<char>, t: ValueType)
    ensures
        type_map(final(log)@) == or_insert(type_map(old(log)@), key@, t),
{
    if lookup_type(log, key).is_none() {
        set_type(log, key, t);
    }
}

/// Each variable not yet typed becomes a number.
pub open spec fn hint_numeric(m: Map<Seq<char>, ValueType>, vs: Seq<Seq<char>>) -> Map<
    Seq<char>,
    ValueType,
>
    decreases vs.len(),
{
    if vs.len() == 0 {
        m
    } else {
        or_insert(hint_numeric(m, vs.drop_last()), vs.last(), ValueType::Number)
    }
}

/// Each indicator variable not yet typed becomes a boolean.
pub open spec fn hint_indicators(m: Map<Seq<char>, ValueType>, vs: Seq<Seq<char>>) -> Map<
    Seq<char>,
    ValueType,
>
    decreases vs.len(),
{
    if vs.len() == 0 {
        m
    } else {
        let prev = hint_indicators(m, vs.drop_last());
        if is_indicator_name(vs.last()) {
            or_insert(prev, vs.last(), ValueType::Bool)
        } else {
            prev
        }
    }
}

fn hint_numeric_vars(log: &mut Vec<(Vec<char>, ValueType)>, vars: &Vec<Vec<char>>)
    ensures
        type_map(final(log)@) == hint_numeric(type_map(old(log)@), views(vars@)),
{
    let mut i: usize = 0;
    while i < vars.len()
        invariant
            i <= vars.len(),
            type_map(log@) == hint_numeric(type_map(old(log)@), views(vars@).subrange(0, i as int)),
        decreases vars.len() - i,
    {
        proof {
            assert(views(vars@).subrange(0, i + 1).drop_last() =~= views(vars@).subrange(0, i as int));
        }
        or_insert_type(log, &vars[i], ValueType::Number);
        i += 1;
    }
    proof {
        assert(views(vars@).subrange(0, vars@.len() as int) =~= views(vars@));
    }
}

fn hint_indicator_vars(log: &mut Vec<(Vec<char>, ValueType)>, vars: &Vec<Vec<char>>)
    ensures
        type_map(final(log)@) == hint_indicators(type_map(old(log)@), views(vars@)),
{
    let mut i: usize = 0;
    while i < vars.len()
        invariant
            i <= vars.len(),
            type_map(log@) == hint_indicators(
                type_map(old(log)@),
                views(vars@).subrange(0, i as int),
            ),
        decreases vars.len() - i,
    {
        proof {
            assert(views(vars@).subrange(0, i + 1).drop_last() =~= views(vars@).subrange(0, i as int));
        }
        if is_indicator_name_exec(&vars[i]) {
            or_insert_type(log, &vars[i], ValueType::Bool);
        }
        i += 1;
    }
    proof {
        assert(views(vars@).subrange(0, vars@.len() as int) =~= views(vars@));
    }
}

/// Types learnt from a condition: indicators are booleans; the sides of a
/// numeric comparison are numbers; an identifier compared with a literal
/// takes the literal's type. Known types are kept.
pub open spec fn hint_condition_types(m: Map<Seq<char>, ValueType>, cond: Seq<char>) -> Map<
    Seq<char>,
    ValueType,
> {
    let m1 = hint_indicators(m, vars_of(cond));
    match split_condition(cond) {
        None => m1,
        Some((l, op, r)) => {
            let lt = trim(l);
            let rt = trim(r);
            let lid = single_identifier(lt);
            let rid = single_identifier(rt);
            if is_numeric_comparator(op) {
                let m2 = match lid {
                    Some(id) => or_insert(m1, id, ValueType::Number),
                    None => m1,
                };
                match rid {
                    Some(id) => or_insert(m2, id, ValueType::Number),
                    None => m2,
                }
            } else {
                let m2 = match (lid, literal_type(rt)) {
                    (Some(id), Some(t)) => or_insert(m1, id, t),
                    _ => m1,
                };
                match (rid, literal_type(lt)) {
                    (Some(id), Some(t)) => or_insert(m2, id, t),
                    _ => m2,
                }
            }
        },
    }
}

fn hint_condition_types_exec(log: &mut Vec<(Vec<char>, ValueType)>, cond: &Vec<char>)
    ensures
        type_map(final(log)@) == hint_condition_types(type_map(old(log)@), cond@),
{
    let vars = collect_vars(cond);
    hint_indicator_vars(log, &vars);
    if let Some((left, op, right)) = split_condition_exec(cond) {
        let lt = trim_chars(&left);
        let rt = trim_chars(&right);
        let lid = extract_single_identifier(&lt);
        let rid = extract_single_identifier(&rt);
        let llit = infer_literal_type(&lt);
        let rlit = infer_literal_type(&rt);
        if is_numeric_comparator_exec(&op) {
            if let Some(id) = &lid {
                or_insert_type(log, id, ValueType::Number);
            }
            if let Some(id) = &rid {
                or_insert_type(log, id, ValueType::Number);
            }
            return;
        }
        if let (Some(id), Some(t)) = (&lid, rlit) {
            or_insert_type(log, id, t);
        }
        if let (Some(id), Some(t)) = (&rid, llit) {
            or_insert_type(log, id, t);
        }
    }
}

/// The inferred type of an expression, given the types known so far.
pub open spec fn infer_expr_type(expr: Seq<char>, m: Map<Seq<char>, ValueType>) -> ValueType {
    let e = trim(expr);
    let u = upper(e);
    if e.len() == 0 {
        ValueType::Unknown
    } else if literal_type(e) is Some {
        literal_type(e)->0
    } else if single_identifier(e) is Some && is_indicator_name(single_identifier(e)->0) {
        ValueType::Bool
    } else if single_identifier(e) is Some && m.dom().contains(single_identifier(e)->0) {
        m[single_identifier(e)->0]
    } else if contains(u, " *CAT "@) || contains(e, "||"@) {
        ValueType::Text
    } else if contains_comparator_expr(u, e) || contains_logical_expr(u) {
        ValueType::Bool
    } else if is_quoted(e, '\'') {
        ValueType::Text
    } else if eq_ignore_case(e, "true"@) || eq_ignore_case(e, "false"@) {
        ValueType::Bool
    } else if is_number_literal(e) {
        ValueType::Number
    } else if contains_char(e, '+') || contains_char(e, '-') || contains_char(e, '*')
        || contains_char(e, '/') {
        ValueType::Number
    } else {
        ValueType::Unknown
    }
}

fn infer_expr_type_exec(expr: &Vec<char>, log: &Vec<(Vec<char>, ValueType)>) -> (t: ValueType)
    ensures
        t == infer_expr_type(expr@, type_map(log@)),
{
    let e = trim_chars(expr);
    if e.len() == 0 {
        return ValueType::Unknown;
    }
    if let Some(t) = infer_literal_type(&e) {
        return t;
    }
    if let Some(ident) = extract_single_identifier(&e) {
        if is_indicator_name_exec(&ident) {
            return ValueType::Bool;
        }
        if let Some(t) = lookup_type(log, &ident) {
            return t;
        }
    }
    let u = to_upper(&e);
    if contains_lit(&u, " *CAT ") || contains_lit(&e, "||") {
        return ValueType::Text;
    }
    if contains_comparator_expr_exec(&u, &e) || contains_logical_expr_exec(&u) {
        return ValueType::Bool;
    }
    if is_quoted_exec(&e, '\'') {
        return ValueType::Text;
    }
    if ieq_lit(&e, "true") || ieq_lit(&e, "false") {
        return ValueType::Bool;
    }
    if is_number_literal_exec(&e) {
        return ValueType::Number;
    }
    if has_char(&e, '+') || has_char(&e, '-') || has_char(&e, '*') || has_char(&e, '/') {
        return ValueType::Number;
    }
    ValueType::Unknown
}


// ------------------------------------------------------------------
// Building the IR
// ------------------------------------------------------------------

/// The IR statement a parsed statement becomes: operations and raw lines
/// become TODO items.
pub open spec fn ir_stmt_of(s: StmtView) -> IrStmtView {
    match s {
        StmtView::Assign { left, right } => IrStmtView::Assign { left, right },
        StmtView::If { cond } => IrStmtView::If { cond },
        StmtView::Else => IrStmtView::Else,
        StmtView::EndIf => IrStmtView::EndIf,
        StmtView::DoUntil { cond } => IrStmtView::DoUntil { cond },
        StmtView::EndDo => IrStmtView::EndDo,
        StmtView::Call { proc_name } => IrStmtView::Call { proc_name },
        StmtView::Write { target } => IrStmtView::Write { target },
        StmtView::Read { target } => IrStmtView::Read { target },
        StmtView::Operation { op, args } => IrStmtView::Todo { op: Some(op), src: args },
        StmtView::Raw(src) => IrStmtView::Todo { op: None, src },
    }
}

/// The source line of statement `i` (0 when the program records none).
pub open spec fn stmt_line(lines: Seq<usize>, i: int) -> usize {
    if 0 <= i < lines.len() {
        lines[i]
    } else {
        0
    }
}

/// The type map after one statement.
pub open spec fn types_step(m: Map<Seq<char>, ValueType>, s: StmtView) -> Map<Seq<char>, ValueType> {
    match s {
        StmtView::Assign { left, right } => {
            let inferred = infer_expr_type(right, m);
            let m1 = if inferred != ValueType::Unknown || !m.dom().contains(left) {
                m.insert(left, inferred)
            } else {
                m
            };
            if inferred == ValueType::Number {
                hint_numeric(m1, vars_of(right))
            } else {
                m1
            }
        },
        StmtView::If { cond } => hint_condition_types(m, cond),
        StmtView::DoUntil { cond } => hint_condition_types(m, cond),
        _ => m,
    }
}

/// The type map after the first `k` statements.
pub open spec fn types_upto(stmts: Seq<StmtView>, k: nat) -> Map<Seq<char>, ValueType>
    decreases k,
{
    if k == 0 || k > stmts.len() {
        Map::empty()
    } else {
        types_step(types_upto(stmts, (k - 1) as nat), stmts[k - 1])
    }
}

pub open spec fn with_line(vs: Seq<Seq<char>>, l: usize) -> Seq<(Seq<char>, usize)> {
    vs.map_values(|v: Seq<char>| (v, l))
}

/// The (name, line) pairs a statement on line `l` assigns.
pub open spec fn stmt_assigns(s: StmtView, l: usize) -> Seq<(Seq<char>, usize)> {
    match s {
        StmtView::Assign { left, right } => seq![(left, l)],
        _ => seq![],
    }
}

/// The (name, line) pairs a statement on line `l` reads.
pub open spec fn stmt_refs(s: StmtView, l: usize) -> Seq<(Seq<char>, usize)> {
    match s {
        StmtView::Assign { left, right } => with_line(vars_of(right), l),
        StmtView::If { cond } => with_line(vars_of(cond), l),
        StmtView::DoUntil { cond } => with_line(vars_of(cond), l),
        StmtView::Write { target } => seq![(target, l)],
        StmtView::Read { target } => seq![(target, l)],
        StmtView::Operation { op, args } => with_line(vars_of(args), l),
        _ => seq![],
    }
}

pub open spec fn assign_events(stmts: Seq<StmtView>, lines: Seq<usize>, k: nat) -> Seq<
    (Seq<char>, usize),
>
    decreases k,
{
    if k == 0 || k > stmts.len() {
        seq![]
    } else {
        assign_events(stmts, lines, (k - 1) as nat) + stmt_assigns(
            stmts[k - 1],
            stmt_line(lines, k - 1),
        )
    }
}

pub open spec fn ref_events(stmts: Seq<StmtView>, lines: Seq<usize>, k: nat) -> Seq<
    (Seq<char>, usize),
>
    decreases k,
{
    if k == 0 || k > stmts.len() {
        seq![]
    } else {
        ref_events(stmts, lines, (k - 1) as nat) + stmt_refs(stmts[k - 1], stmt_line(lines, k - 1))
    }
}

/// The lines paired with `x` in the events.
pub open spec fn lines_in(ev: Seq<(Seq<char>, usize)>, x: Seq<char>) -> Set<usize> {
    Set::new(|l: usize| exists|j: int| 0 <= j < ev.len() && ev[j] == (x, l))
}

pub open spec fn named_in(ev: Seq<(Seq<char>, usize)>, x: Seq<char>) -> bool {
    named_before(ev, ev.len() as int, x)
}

/// Some event before position `k` names `x`.
pub open spec fn named_before(ev: Seq<(Seq<char>, usize)>, k: int, x: Seq<char>) -> bool {
    exists|j: int| 0 <= j < k && ev[j].0 == x
}

pub open spec fn typed_before(tv: Seq<(Seq<char>, ValueType)>, k: int, x: Seq<char>) -> bool {
    exists|j: int| 0 <= j < k && tv[j].0 == x
}

proof fn lemma_named_step(ev: Seq<(Seq<char>, usize)>, k: int, y: Seq<char>)
    requires
        0 <= k < ev.len(),
    ensures
        named_before(ev, k + 1, y) <==> (named_before(ev, k, y) || ev[k].0 == y),
{
    if named_before(ev, k + 1, y) {
        let j = choose|j: int| 0 <= j < k + 1 && ev[j].0 == y;
        if j < k {
            assert(named_before(ev, k, y));
        }
    }
    if named_before(ev, k, y) {
        let j = choose|j: int| 0 <= j < k && ev[j].0 == y;
        assert(0 <= j < k + 1 && ev[j].0 == y);
    }
    if ev[k].0 == y {
        assert(0 <= k < k + 1 && ev[k].0 == y);
    }
}

proof fn lemma_typed_step(tv: Seq<(Seq<char>, ValueType)>, k: int, y: Seq<char>)
    requires
        0 <= k < tv.len(),
    ensures
        typed_before(tv, k + 1, y) <==> (typed_before(tv, k, y) || tv[k].0 == y),
{
    if typed_before(tv, k + 1, y) {
        let j = choose|j: int| 0 <= j < k + 1 && tv[j].0 == y;
        if j < k {
            assert(typed_before(tv, k, y));
        }
    }
    if typed_before(tv, k, y) {
        let j = choose|j: int| 0 <= j < k && tv[j].0 == y;
        assert(0 <= j < k + 1 && tv[j].0 == y);
    }
    if tv[k].0 == y {
        assert(0 <= k < k + 1 && tv[k].0 == y);
    }
}

pub open spec fn strictly_increasing(v: Seq<usize>) -> bool {
    forall|i: int, j: int| 0 <= i < j < v.len() ==> v[i] < v[j]
}

pub open spec fn evviews(v: Seq<(Vec<char>, usize)>) -> Seq<(Seq<char>, usize)> {
    v.map_values(|p: (Vec<char>, usize)| (p.0@, p.1))
}

/// What the IR of a parsed program is.
pub open spec fn ir_matches(stmts: Seq<StmtView>, lines: Seq<usize>, ir: IrProgram) -> bool {
    let n = stmts.len();
    let types = types_upto(stmts, n);
    let assigns = assign_events(stmts, lines, n);
    let refs = ref_events(stmts, lines, n);
    let syms = symbol_views(ir.symbols@);
    &&& ir_views(ir.statements@) == stmts.map_values(|s: StmtView| ir_stmt_of(s))
    &&& ir.statement_lines@ == Seq::new(n, |i: int| stmt_line(lines, i))
    &&& forall|i: int, j: int| 0 <= i < j < syms.len() ==> seq_lt(syms[i].name, syms[j].name)
    &&& forall|i: int|
        0 <= i < syms.len() ==> {
            let x = #[trigger] syms[i].name;
            &&& types.dom().contains(x) || named_in(assigns, x) || named_in(refs, x)
            &&& syms[i].ty == (if types.dom().contains(x) {
                types[x]
            } else {
                ValueType::Unknown
            })
            &&& strictly_increasing(syms[i].assigned_lines)
            &&& syms[i].assigned_lines.to_set() == lines_in(assigns, x)
            &&& strictly_increasing(syms[i].referenced_lines)
            &&& syms[i].referenced_lines.to_set() == lines_in(refs, x)
        }
    &&& forall|x: Seq<char>|
        (types.dom().contains(x) || named_in(assigns, x) || named_in(refs, x)) ==> has_symbol(syms, x)
}

pub open spec fn has_symbol(syms: Seq<SymbolView>, x: Seq<char>) -> bool {
    exists|i: int| 0 <= i < syms.len() && syms[i].name == x
}

fn ir_stmt_from(s: &Stmt) -> (r: IrStmt)
    ensures
        r@ == ir_stmt_of(s@),
{
    match s {
        Stmt::Assign { left, right } => IrStmt::Assign { left: left.clone(), right: right.clone() },
        Stmt::If { cond } => IrStmt::If { cond: cond.clone() },
        Stmt::Else => IrStmt::Else,
        Stmt::EndIf => IrStmt::EndIf,
        Stmt::DoUntil { cond } => IrStmt::DoUntil { cond: cond.clone() },
        Stmt::EndDo => IrStmt::EndDo,
        Stmt::Call { proc_name } => IrStmt::Call { proc_name: proc_name.clone() },
        Stmt::Write { target } => IrStmt::Write { target: target.clone() },
        Stmt::Read { target } => IrStmt::Read { target: target.clone() },
        Stmt::Operation { op, args } => IrStmt::Todo { op: Some(op.clone()), src: args.clone() },
        Stmt::Raw(src) => IrStmt::Todo { op: None, src: src.clone() },
    }
}

fn push_refs(log: &mut Vec<(Vec<char>, usize)>, vars: &Vec<Vec<char>>, line: usize)
    ensures
        evviews(final(log)@) == evviews(old(log)@) + with_line(views(vars@), line),
{
    let mut i: usize = 0;
    while i < vars.len()
        invariant
            i <= vars.len(),
            evviews(log@) == evviews(old(log)@) + with_line(views(vars@).subrange(0, i as int), line),
        decreases vars.len() - i,
    {
        let ghost before = evviews(log@);
        log.push((vars[i].clone(), line));
        proof {
            assert(evviews(log@) =~= before.push((vars@[i as int]@, line)));
            assert(with_line(views(vars@).subrange(0, i + 1), line) =~= with_line(
                views(vars@).subrange(0, i as int),
                line,
            ).push((vars@[i as int]@, line)));
        }
        i += 1;
    }
    proof {
        assert(views(vars@).subrange(0, vars@.len() as int) =~= views(vars@));
    }
}

fn push_ref(log: &mut Vec<(Vec<char>, usize)>, name: &String, line: usize)
    ensures
        evviews(final(log)@) == evviews(old(log)@) + seq![(name@, line)],
{
    let ghost before = evviews(log@);
    log.push((chars_of(name.as_str()), line));
    proof {
        assert(evviews(log@) =~= before + seq![(name@, line)]);
    }
}


proof fn lemma_log_map_dom(v: Seq<(Seq<char>, ValueType)>, x: Seq<char>)
    ensures
        log_map(v).dom().contains(x) <==> typed_before(v, v.len() as int, x),
    decreases v.len(),
{
    if v.len() > 0 {
        let w = v.drop_last();
        lemma_log_map_dom(w, x);
        lemma_typed_step(v, w.len() as int, x);
        assert(typed_before(w, w.len() as int, x) <==> typed_before(v, w.len() as int, x)) by {
            if typed_before(w, w.len() as int, x) {
                let j = choose|j: int| 0 <= j < w.len() && w[j].0 == x;
                assert(v[j].0 == x);
            }
            if typed_before(v, w.len() as int, x) {
                let j = choose|j: int| 0 <= j < w.len() && v[j].0 == x;
                assert(w[j].0 == x);
            }
        }
    }
}

pub open spec fn in_names(v: Seq<Seq<char>>, y: Seq<char>) -> bool {
    exists|i: int| 0 <= i < v.len() && v[i] == y
}

pub open spec fn sorted_names(v: Seq<Seq<char>>) -> bool {
    forall|i: int, j: int| 0 <= i < j < v.len() ==> seq_lt(v[i], v[j])
}

/// Two strictly sorted lists of names that hold the same names are equal.
pub proof fn lemma_sorted_unique(a: Seq<Seq<char>>, b: Seq<Seq<char>>)
    requires
        sorted_names(a),
        sorted_names(b),
        forall|y: Seq<char>| in_names(a, y) <==> in_names(b, y),
    ensures
        a == b,
    decreases a.len(),
{
    if a.len() == 0 {
        if b.len() > 0 {
            assert(in_names(b, b[0]));
        }
        assert(a =~= b);
    } else {
        assert(in_names(a, a[0]));
        assert(in_names(b, a[0]));
        if b.len() == 0 {
            assert(false);
        }
        assert(in_names(b, b[0]));
        assert(in_names(a, b[0]));
        let j = choose|j: int| 0 <= j < b.len() && b[j] == a[0];
        let i = choose|i: int| 0 <= i < a.len() && a[i] == b[0];
        if j > 0 {
            assert(seq_lt(b[0], b[j]));
            if i > 0 {
                assert(seq_lt(a[0], a[i]));
                lemma_seq_lt_asym(a[0], b[0]);
            } else {
                lemma_seq_lt_irrefl(b[0]);
            }
        }
        assert(a[0] == b[0]);
        let a1 = a.drop_first();
        let b1 = b.drop_first();
        assert forall|y: Seq<char>| in_names(a1, y) <==> in_names(b1, y) by {
            if in_names(a1, y) {
                let k = choose|k: int| 0 <= k < a1.len() && a1[k] == y;
                assert(in_names(a, y) && a[k + 1] == y);
                let m = choose|m: int| 0 <= m < b.len() && b[m] == y;
                if m == 0 {
                    lemma_seq_lt_irrefl(a[0]);
                    assert(seq_lt(a[0], a[k + 1]));
                }
                assert(b1[m - 1] == y);
            }
            if in_names(b1, y) {
                let k = choose|k: int| 0 <= k < b1.len() && b1[k] == y;
                assert(in_names(b, y) && b[k + 1] == y);
                let m = choose|m: int| 0 <= m < a.len() && a[m] == y;
                if m == 0 {
                    lemma_seq_lt_irrefl(b[0]);
                    assert(seq_lt(b[0], b[k + 1]));
                }
                assert(a1[m - 1] == y);
            }
        }
        lemma_sorted_unique(a1, b1);
        assert(a =~= seq![a[0]] + a1);
        assert(b =~= seq![b[0]] + b1);
    }
}

/// Adds `x` to a strictly sorted list of names unless it is there already.
pub fn insert_name(names: &mut Vec<Vec<char>>, x: &Vec<char>)
    requires
        sorted_names(views(old(names)@)),
    ensures
        sorted_names(views(final(names)@)),
        forall|y: Seq<char>|
            in_names(views(final(names)@), y) <==> (in_names(views(old(names)@), y) || y == x@),
{
    let ghost old_v = views(names@);
    let mut p: usize = 0;
    while p < names.len() && lt_chars(&names[p], x)
        invariant
            p <= names.len(),
            old_v == views(names@),
            forall|i: int| 0 <= i < p ==> seq_lt(#[trigger] names@[i]@, x@),
        decreases names.len() - p,
    {
        p += 1;
    }
    if p < names.len() && eq_chars(&names[p], x) {
        proof {
            assert(old_v[p as int] == x@);
        }
        return;
    }
    proof {
        if p < names.len() {
            lemma_seq_lt_total(names@[p as int]@, x@);
        }
    }
    names.insert(p, x.clone());
    proof {
        let nv = views(names@);
        assert(nv =~= old_v.insert(p as int, x@));
        assert forall|i: int, j: int| 0 <= i < j < nv.len() implies seq_lt(nv[i], nv[j]) by {
            if i < p && j < p {
            } else if i < p && j == p {
                assert(seq_lt(names@[i]@, x@));
            } else if i < p && j > p {
                assert(seq_lt(old_v[i], x@));
                if j - 1 > p {
                    assert(seq_lt(old_v[p as int], old_v[j - 1]));
                    lemma_seq_lt_trans(x@, old_v[p as int], old_v[j - 1]);
                }
                lemma_seq_lt_trans(old_v[i], x@, old_v[j - 1]);
            } else if i == p && j > p {
                if j - 1 > p {
                    assert(seq_lt(old_v[p as int], old_v[j - 1]));
                    lemma_seq_lt_trans(x@, old_v[p as int], old_v[j - 1]);
                }
            } else {
                assert(seq_lt(old_v[i - 1], old_v[j - 1]));
            }
        }
        assert forall|y: Seq<char>| in_names(nv, y) <==> (in_names(old_v, y) || y == x@) by {
            if in_names(nv, y) {
                let i = choose|i: int| 0 <= i < nv.len() && nv[i] == y;
                if i < p {
                    assert(old_v[i] == y);
                } else if i > p {
                    assert(old_v[i - 1] == y);
                }
            }
            if in_names(old_v, y) {
                let i = choose|i: int| 0 <= i < old_v.len() && old_v[i] == y;
                if i < p {
                    assert(nv[i] == y);
                } else {
                    assert(nv[i + 1] == y);
                }
            }
            if y == x@ {
                assert(nv[p as int] == y);
            }
        }
    }
}

/// Adds `x` to a strictly increasing list of lines unless it is there already.
fn insert_line(v: &mut Vec<usize>, x: usize)
    requires
        strictly_increasing(old(v)@),
    ensures
        strictly_increasing(final(v)@),
        final(v)@.to_set() == old(v)@.to_set().insert(x),
{
    let ghost old_v = v@;
    let mut p: usize = 0;
    while p < v.len() && v[p] < x
        invariant
            p <= v.len(),
            old_v == v@,
            forall|i: int| 0 <= i < p ==> v@[i] < x,
        decreases v.len() - p,
    {
        p += 1;
    }
    if p < v.len() && v[p] == x {
        proof {
            assert(old_v.to_set().insert(x) =~= old_v.to_set());
        }
        return;
    }
    v.insert(p, x);
    proof {
        let nv = v@;
        assert(nv =~= old_v.insert(p as int, x));
        assert forall|i: int, j: int| 0 <= i < j < nv.len() implies nv[i] < nv[j] by {
            if i < p && j < p {
            } else if i < p && j == p {
            } else if i < p && j > p {
                assert(nv[j] == old_v[j - 1]);
            } else if i == p && j > p {
                assert(nv[j] == old_v[j - 1]);
            } else {
                assert(nv[i] == old_v[i - 1]);
                assert(nv[j] == old_v[j - 1]);
            }
        }
        assert forall|y: usize| nv.to_set().contains(y) <==> old_v.to_set().insert(x).contains(y) by {
            if nv.contains(y) {
                let i = choose|i: int| 0 <= i < nv.len() && nv[i] == y;
                if i < p {
                    assert(old_v[i] == y);
                } else if i > p {
                    assert(old_v[i - 1] == y);
                }
            }
            if old_v.contains(y) {
                let i = choose|i: int| 0 <= i < old_v.len() && old_v[i] == y;
                if i < p {
                    assert(nv[i] == y);
                } else {
                    assert(nv[i + 1] == y);
                }
            }
            if y == x {
                assert(nv[p as int] == y);
            }
        }
        assert(nv.to_set() =~= old_v.to_set().insert(x));
    }
}

/// The lines paired with `name` in `log`, ascending and without repeats.
fn collect_lines(log: &Vec<(Vec<char>, usize)>, name: &Vec<char>) -> (out: Vec<usize>)
    ensures
        strictly_increasing(out@),
        out@.to_set() == lines_in(evviews(log@), name@),
{
    let ghost ev = evviews(log@);
    let mut out: Vec<usize> = Vec::new();
    let mut j: usize = 0;
    while j < log.len()
        invariant
            j <= log.len(),
            ev == evviews(log@),
            strictly_increasing(out@),
            out@.to_set() == lines_in(ev.subrange(0, j as int), name@),
        decreases log.len() - j,
    {
        let ghost before = out@.to_set();
        proof {
            assert(ev[j as int] == (log@[j as int].0@, log@[j as int].1));
        }
        if eq_chars(&log[j].0, name) {
            insert_line(&mut out, log[j].1);
        }
        proof {
            let a = lines_in(ev.subrange(0, j as int), name@);
            let b = lines_in(ev.subrange(0, j + 1), name@);
            assert forall|l: usize| b.contains(l) <==> out@.to_set().contains(l) by {
                if b.contains(l) {
                    let k = choose|k: int| 0 <= k < j + 1 && #[trigger] ev.subrange(0, j + 1)[k] == (name@, l);
                    if k < j {
                        assert(ev.subrange(0, j as int)[k] == (name@, l));
                        assert(a.contains(l));
                    }
                }
                if a.contains(l) {
                    let k = choose|k: int| 0 <= k < j && #[trigger] ev.subrange(0, j as int)[k] == (name@, l);
                    assert(ev.subrange(0, j + 1)[k] == (name@, l));
                }
                if ev[j as int] == (name@, l) {
                    assert(ev.subrange(0, j + 1)[j as int] == (name@, l));
                }
            }
            assert(b =~= out@.to_set());
        }
        j += 1;
    }
    proof {
        assert(ev.subrange(0, log@.len() as int) =~= ev);
    }
    out
}


/// The IR of a program: one IR statement per statement, and one symbol per
/// name that is typed, assigned or read, in name order.
pub fn build_ir(program: &Program) -> (ir: IrProgram)
    ensures
        ir_matches(stmt_views(program.statements@), program.statement_lines@, ir),
{
    let ghost stmts = stmt_views(program.statements@);
    let ghost lines = program.statement_lines@;
    let mut ir_statements: Vec<IrStmt> = Vec::new();
    let mut ir_lines: Vec<usize> = Vec::new();
    let mut tlog: Vec<(Vec<char>, ValueType)> = Vec::new();
    let mut alog: Vec<(Vec<char>, usize)> = Vec::new();
    let mut rlog: Vec<(Vec<char>, usize)> = Vec::new();
    let mut idx: usize = 0;
    proof {
        assert(type_map(tlog@) =~= Map::<Seq<char>, ValueType>::empty());
        assert(evviews(alog@) =~= Seq::<(Seq<char>, usize)>::empty());
        assert(evviews(rlog@) =~= Seq::<(Seq<char>, usize)>::empty());
        assert(ir_views(ir_statements@) =~= stmts.subrange(0, 0).map_values(
            |s: StmtView| ir_stmt_of(s),
        ));
    }
    while idx < program.statements.len()
        invariant
            idx <= program.statements.len(),
            stmts == stmt_views(program.statements@),
            lines == program.statement_lines@,
            type_map(tlog@) == types_upto(stmts, idx as nat),
            evviews(alog@) == assign_events(stmts, lines, idx as nat),
            evviews(rlog@) == ref_events(stmts, lines, idx as nat),
            ir_views(ir_statements@) == stmts.subrange(0, idx as int).map_values(
                |s: StmtView| ir_stmt_of(s),
            ),
            ir_lines@ == Seq::new(idx as nat, |i: int| stmt_line(lines, i)),
        decreases program.statements.len() - idx,
    {
        let line: usize = if idx < program.statement_lines.len() {
            program.statement_lines[idx]
        } else {
            0
        };
        let stmt = &program.statements[idx];
        proof {
            assert(stmts[idx as int] == stmt@);
            assert(line == stmt_line(lines, idx as int));
        }
        ir_lines.push(line);
        proof {
            assert(ir_lines@ =~= Seq::new((idx + 1) as nat, |i: int| stmt_line(lines, i)));
        }
        let ghost a0 = evviews(alog@);
        let ghost r0 = evviews(rlog@);
        match stmt {
            Stmt::Assign { left, right } => {
                let l = chars_of(left.as_str());
                let r = chars_of(right.as_str());
                let inferred = infer_expr_type_exec(&r, &tlog);
                if inferred != ValueType::Unknown || lookup_type(&tlog, &l).is_none() {
                    set_type(&mut tlog, &l, inferred);
                }
                alog.push((l, line));
                proof {
                    assert(evviews(alog@) =~= a0 + seq![(left@, line)]);
                }
                let vars = collect_vars(&r);
                push_refs(&mut rlog, &vars, line);
                if inferred == ValueType::Number {
                    hint_numeric_vars(&mut tlog, &vars);
                }
            },
            Stmt::If { cond } => {
                let c = chars_of(cond.as_str());
                let vars = collect_vars(&c);
                push_refs(&mut rlog, &vars, line);
                hint_condition_types_exec(&mut tlog, &c);
                proof {
                    assert(a0 + Seq::<(Seq<char>, usize)>::empty() =~= a0);
                }
            },
            Stmt::DoUntil { cond } => {
                let c = chars_of(cond.as_str());
                let vars = collect_vars(&c);
                push_refs(&mut rlog, &vars, line);
                hint_condition_types_exec(&mut tlog, &c);
                proof {
                    assert(a0 + Seq::<(Seq<char>, usize)>::empty() =~= a0);
                }
            },
            Stmt::Write { target } => {
                push_ref(&mut rlog, target, line);
                proof {
                    assert(a0 + Seq::<(Seq<char>, usize)>::empty() =~= a0);
                }
            },
            Stmt::Read { target } => {
                push_ref(&mut rlog, target, line);
                proof {
                    assert(a0 + Seq::<(Seq<char>, usize)>::empty() =~= a0);
                }
            },
            Stmt::Operation { op, args } => {
                let a = chars_of(args.as_str());
                let vars = collect_vars(&a);
                push_refs(&mut rlog, &vars, line);
                proof {
                    assert(a0 + Seq::<(Seq<char>, usize)>::empty() =~= a0);
                }
            },
            _ => {
                proof {
                    assert(a0 + Seq::<(Seq<char>, usize)>::empty() =~= a0);
                    assert(r0 + Seq::<(Seq<char>, usize)>::empty() =~= r0);
                }
            },
        }
        let ghost irs0 = ir_views(ir_statements@);
        ir_statements.push(ir_stmt_from(stmt));
        proof {
            assert(ir_views(ir_statements@) =~= irs0.push(ir_stmt_of(stmt@)));
            assert(stmts.subrange(0, idx + 1).map_values(|s: StmtView| ir_stmt_of(s)) =~= stmts.subrange(
                0,
                idx as int,
            ).map_values(|s: StmtView| ir_stmt_of(s)).push(ir_stmt_of(stmts[idx as int])));
        }
        idx += 1;
    }
    let ghost n = stmts.len();
    proof {
        assert(stmts.subrange(0, n as int) =~= stmts);
    }
    let ghost types = types_upto(stmts, n);
    let ghost assigns = assign_events(stmts, lines, n);
    let ghost refs = ref_events(stmts, lines, n);
    // all names, in order
    let mut names: Vec<Vec<char>> = Vec::new();
    let mut k: usize = 0;
    while k < tlog.len()
        invariant
            k <= tlog.len(),
            sorted_names(views(names@)),
            forall|y: Seq<char>|
                #![trigger in_names(views(names@), y)]
                in_names(views(names@), y) <==> typed_before(tviews(tlog@), k as int, y),
        decreases tlog.len() - k,
    {
        proof {
            assert(tviews(tlog@)[k as int].0 == tlog@[k as int].0@);
        }
        insert_name(&mut names, &tlog[k].0);
        proof {
            assert forall|y: Seq<char>| in_names(views(names@), y) <==> typed_before(
                tviews(tlog@),
                k + 1,
                y,
            ) by {
                lemma_typed_step(tviews(tlog@), k as int, y);
            }
        }
        k += 1;
    }
    let ghost after_types = views(names@);
    k = 0;
    while k < alog.len()
        invariant
            k <= alog.len(),
            sorted_names(views(names@)),
            forall|y: Seq<char>|
                #![trigger in_names(views(names@), y)]
                in_names(views(names@), y) <==> (in_names(after_types, y) || named_before(
                    evviews(alog@),
                    k as int,
                    y,
                )),
        decreases alog.len() - k,
    {
        proof {
            assert(evviews(alog@)[k as int].0 == alog@[k as int].0@);
        }
        insert_name(&mut names, &alog[k].0);
        proof {
            assert forall|y: Seq<char>| in_names(views(names@), y) <==> (in_names(after_types, y)
                || named_before(evviews(alog@), k + 1, y)) by {
                lemma_named_step(evviews(alog@), k as int, y);
            }
        }
        k += 1;
    }
    let ghost after_assigns = views(names@);
    k = 0;
    while k < rlog.len()
        invariant
            k <= rlog.len(),
            sorted_names(views(names@)),
            forall|y: Seq<char>|
                #![trigger in_names(views(names@), y)]
                in_names(views(names@), y) <==> (in_names(after_assigns, y) || named_before(
                    evviews(rlog@),
                    k as int,
                    y,
                )),
        decreases rlog.len() - k,
    {
        proof {
            assert(evviews(rlog@)[k as int].0 == rlog@[k as int].0@);
        }
        insert_name(&mut names, &rlog[k].0);
        proof {
            assert forall|y: Seq<char>| in_names(views(names@), y) <==> (in_names(after_assigns, y)
                || named_before(evviews(rlog@), k + 1, y)) by {
                lemma_named_step(evviews(rlog@), k as int, y);
            }
        }
        k += 1;
    }
    proof {
        assert forall|y: Seq<char>|
            #![trigger in_names(views(names@), y)]
            in_names(views(names@), y) <==> (types.dom().contains(y) || named_in(assigns, y)
                || named_in(refs, y)) by {
            lemma_log_map_dom(tviews(tlog@), y);
        }
    }
    let mut symbols: Vec<SymbolInfo> = Vec::new();
    let mut i: usize = 0;
    while i < names.len()
        invariant
            i <= names.len(),
            symbols.len() == i,
            types == type_map(tlog@),
            assigns == evviews(alog@),
            refs == evviews(rlog@),
            forall|y: Seq<char>|
                #![trigger in_names(views(names@), y)]
                in_names(views(names@), y) <==> (types.dom().contains(y) || named_in(assigns, y)
                    || named_in(refs, y)),
            forall|j: int|
                0 <= j < i ==> {
                    let sv = (#[trigger] symbols@[j])@;
                    &&& sv.name == names@[j]@
                    &&& sv.ty == (if types.dom().contains(sv.name) {
                        types[sv.name]
                    } else {
                        ValueType::Unknown
                    })
                    &&& strictly_increasing(sv.assigned_lines)
                    &&& sv.assigned_lines.to_set() == lines_in(assigns, sv.name)
                    &&& strictly_increasing(sv.referenced_lines)
                    &&& sv.referenced_lines.to_set() == lines_in(refs, sv.name)
                },
        decreases names.len() - i,
    {
        let name = &names[i];
        let ty = match lookup_type(&tlog, name) {
            Some(t) => t,
            None => ValueType::Unknown,
        };
        let assigned_lines = collect_lines(&alog, name);
        let referenced_lines = collect_lines(&rlog, name);
        symbols.push(SymbolInfo { name: string_of(name), ty, assigned_lines, referenced_lines });
        i += 1;
    }
    proof {
        let syms = symbol_views(symbols@);
        assert forall|a: int| 0 <= a < syms.len() implies syms[a] == symbols@[a]@ by {
        }
        assert forall|a: int, b: int| 0 <= a < b < syms.len() implies seq_lt(
            syms[a].name,
            syms[b].name,
        ) by {
            assert(syms[a] == symbols@[a]@);
            assert(syms[b] == symbols@[b]@);
            assert(views(names@)[a] == names@[a]@);
            assert(views(names@)[b] == names@[b]@);
        }
        assert forall|a: int| 0 <= a < syms.len() implies (types.dom().contains(#[trigger] syms[a].name)
            || named_in(assigns, syms[a].name) || named_in(refs, syms[a].name)) by {
            assert(syms[a] == symbols@[a]@);
            assert(views(names@)[a] == names@[a]@);
            assert(in_names(views(names@), syms[a].name));
        }
        assert forall|x: Seq<char>|
            (types.dom().contains(x) || named_in(assigns, x) || named_in(refs, x)) implies has_symbol(
            syms,
            x,
        ) by {
            assert(in_names(views(names@), x));
            let a = choose|a: int| 0 <= a < views(names@).len() && views(names@)[a] == x;
            assert(syms[a] == symbols@[a]@);
        }
    }
    IrProgram { statements: ir_statements, statement_lines: ir_lines, symbols }
}

proof fn lemma_word_run(c: Seq<char>, i: int)
    requires
        0 <= i <= c.len(),
    ensures
        forall|k: int| i <= k < word_end(c, i) ==> is_word_char(#[trigger] c[k]),
    decreases c.len() - i,
{
    if i < c.len() && is_word_char(c[i]) {
        lemma_word_run(c, i + 1);
    }
}

/// A name the variable collector keeps: word characters only, at least one,
/// and an indicator, or else no number, `true`, `false` or operator word.
pub open spec fn is_collected_name(v: Seq<char>) -> bool {
    &&& v.len() > 0
    &&& all_word(v)
    &&& is_indicator_name(v) || (!all_digits(v) && !eq_ignore_case(v, "true"@) && !eq_ignore_case(v, "false"@)
        && !is_operator_word(upper(v)))
}

proof fn lemma_vars_from_names(c: Seq<char>, i: int)
    ensures
        forall|n: int| 0 <= n < vars_from(c, i).len() ==> is_collected_name(#[trigger] vars_from(c, i)[n]),
    decreases c.len() - i,
{
    if 0 <= i < c.len() {
        if c[i] == '\'' || c[i] == '"' {
            let j = quote_end(c, i + 1, c[i]);
            lemma_quote_end(c, i + 1, c[i]);
            let nxt = if j < c.len() { j + 1 } else { j };
            lemma_vars_from_names(c, nxt);
            assert(vars_from(c, i) == vars_from(c, nxt));
        } else {
            let j = skip_to_word(c, i);
            lemma_skip_to_word(c, i);
            if j < c.len() {
                let starred = c[j] == '*';
                let st = if starred { j + 1 } else { j };
                let e = word_end(c, st);
                lemma_word_end(c, st);
                lemma_word_run(c, st);
                lemma_vars_from_names(c, e);
                let rest = vars_from(c, e);
                let all = vars_from(c, i);
                if st < e && keep_var(c.subrange(st, e), starred) {
                    let v = c.subrange(st, e);
                    assert(all_word(v)) by {
                        assert forall|k: int| 0 <= k < v.len() implies is_word_char(#[trigger] v[k]) by {
                            assert(v[k] == c[st + k]);
                        }
                    }
                    assert(all == seq![v] + rest);
                    assert(is_collected_name(v));
                    assert forall|n: int| 0 <= n < all.len() implies is_collected_name(#[trigger] all[n]) by {
                        if n > 0 {
                            assert(all[n] == rest[n - 1]);
                        }
                    }
                } else {
                    assert(all == rest);
                }
            }
        }
    }
}

/// The variable collector keeps only names: every name it reads from an
/// expression is a run of word characters that is an indicator, or else is
/// neither a number, `true`, `false` nor an operator word (`EQ`, `AND`, ...),
/// in any case. Quoted text and figurative constants give none.
pub proof fn lemma_collected_names(c: Seq<char>)
    ensures
        forall|n: int| 0 <= n < vars_of(c).len() ==> is_collected_name(#[trigger] vars_of(c)[n]),
{
    lemma_vars_from_names(c, 0);
}


/// An expression that joins text: the RPG concatenation ` *CAT ` (in any
/// letter case) or `||`, and that is not a lone literal or name.
pub open spec fn is_concatenation(expr: Seq<char>) -> bool {
    &&& literal_type(trim(expr)) is None
    &&& single_identifier(trim(expr)) is None
    &&& (contains(upper(trim(expr)), " *CAT "@) || contains(trim(expr), "||"@))
}

/// A concatenation is text, whatever types are known so far.
pub proof fn lemma_concatenation_is_text(expr: Seq<char>, m: Map<Seq<char>, ValueType>)
    requires
        is_concatenation(expr),
    ensures
        infer_expr_type(expr, m) == ValueType::Text,
{
    let e = trim(expr);
    reveal_strlit(" *CAT ");
    reveal_strlit("||");
    if e.len() == 0 {
        assert(upper(e).len() == 0);
        lemma_find_from_bounds(upper(e), " *CAT "@, 0);
        lemma_find_from_bounds(e, "||"@, 0);
        assert(false);
    }
    assert(literal_type(e) is None);
    assert(single_identifier(e) is None);
    assert(contains(upper(e), " *CAT "@) || contains(e, "||"@));
}

/// Assigning a concatenation makes the assigned name text, and leaves the
/// types of the names it joins as they were.
pub proof fn lemma_concatenation_assigns_text(
    m: Map<Seq<char>, ValueType>,
    left: Seq<char>,
    right: Seq<char>,
)
    requires
        is_concatenation(right),
    ensures
        types_step(m, StmtView::Assign { left, right }) == m.insert(left, ValueType::Text),
{
    lemma_concatenation_is_text(right, m);
}

/// In the IR of a program whose last statement assigns a concatenation, the
/// assigned name is a symbol of type text.
pub proof fn lemma_concatenation_symbol_is_text(
    stmts: Seq<StmtView>,
    lines: Seq<usize>,
    ir: IrProgram,
    left: Seq<char>,
    right: Seq<char>,
)
    requires
        ir_matches(stmts, lines, ir),
        stmts.len() > 0,
        stmts.last() == (StmtView::Assign { left, right }),
        is_concatenation(right),
    ensures
        exists|i: int|
            0 <= i < ir.symbols@.len() && (#[trigger] symbol_views(ir.symbols@)[i]).name == left
                && symbol_views(ir.symbols@)[i].ty == ValueType::Text,
{
    let n = stmts.len();
    let prev = types_upto(stmts, (n - 1) as nat);
    lemma_concatenation_assigns_text(prev, left, right);
    let types = types_upto(stmts, n);
    assert(types == prev.insert(left, ValueType::Text));
    assert(types.dom().contains(left));
    let syms = symbol_views(ir.symbols@);
    assert(has_symbol(syms, left));
    let i = choose|i: int| 0 <= i < syms.len() && syms[i].name == left;
    assert(syms[i].ty == ValueType::Text);
}


/// The inferred type of an expression, case by case: quoted text is text;
/// `true`, `false`, `*ON` and `*OFF` (any case) are booleans; a number is a
/// number; an indicator name is a boolean; a known name has its known type;
/// a comparison or logical expression that joins no text is a boolean; and
/// arithmetic that neither joins text nor compares is a number.
pub proof fn lemma_infer_cases(expr: Seq<char>, m: Map<Seq<char>, ValueType>)
    ensures
        is_quoted(trim(expr), '\'') || is_quoted(trim(expr), '"') ==> infer_expr_type(expr, m) == ValueType::Text,
        !is_quoted(trim(expr), '\'') && !is_quoted(trim(expr), '"') && (eq_ignore_case(trim(expr), "true"@)
            || eq_ignore_case(trim(expr), "false"@) || eq_ignore_case(trim(expr), "*ON"@) || eq_ignore_case(
            trim(expr),
            "*OFF"@,
        )) ==> infer_expr_type(expr, m) == ValueType::Bool,
        literal_type(trim(expr)) is None && single_identifier(trim(expr)) is Some && is_indicator_name(
            single_identifier(trim(expr))->0,
        ) ==> infer_expr_type(expr, m) == ValueType::Bool,
        literal_type(trim(expr)) is None && single_identifier(trim(expr)) is Some && !is_indicator_name(
            single_identifier(trim(expr))->0,
        ) && m.dom().contains(single_identifier(trim(expr))->0) ==> infer_expr_type(expr, m)
            == m[single_identifier(trim(expr))->0],
        trim(expr).len() > 0 && literal_type(trim(expr)) is None && single_identifier(trim(expr)) is None
            && !is_concatenation(expr) && (contains_comparator_expr(upper(trim(expr)), trim(expr)) || contains_logical_expr(upper(trim(expr))))
            ==> infer_expr_type(expr, m) == ValueType::Bool,
        literal_type(trim(expr)) is None && single_identifier(trim(expr)) is None && !is_concatenation(expr)
            && !contains_comparator_expr(upper(trim(expr)), trim(expr)) && !contains_logical_expr(upper(trim(expr)))
            && (contains_char(trim(expr), '+') || contains_char(trim(expr), '-') || contains_char(trim(expr), '*')
            || contains_char(trim(expr), '/')) ==> infer_expr_type(expr, m) == ValueType::Number,
{
    let e = trim(expr);
    lemma_trim_idempotent(expr);
    if is_quoted(e, '\'') || is_quoted(e, '"') {
        assert(literal_type(e) == Some(ValueType::Text));
    }
    if !is_quoted(e, '\'') && !is_quoted(e, '"') && (eq_ignore_case(e, "true"@) || eq_ignore_case(e, "false"@)
        || eq_ignore_case(e, "*ON"@) || eq_ignore_case(e, "*OFF"@)) {
        reveal_strlit("true");
        reveal_strlit("false");
        reveal_strlit("*ON");
        reveal_strlit("*OFF");
        assert(lower(e).len() == e.len());
        assert(e.len() > 0);
        assert(literal_type(e) == Some(ValueType::Bool));
    }
}

/// A number is a number, unless it is written as quoted text or a boolean word.
pub proof fn lemma_infer_number(expr: Seq<char>, m: Map<Seq<char>, ValueType>)
    requires
        trim(expr).len() > 0,
        is_number_literal(trim(expr)),
        !is_quoted(trim(expr), '\''),
        !is_quoted(trim(expr), '"'),
        !eq_ignore_case(trim(expr), "true"@),
        !eq_ignore_case(trim(expr), "false"@),
        !eq_ignore_case(trim(expr), "*ON"@),
        !eq_ignore_case(trim(expr), "*OFF"@),
    ensures
        infer_expr_type(expr, m) == ValueType::Number,
{
    lemma_trim_idempotent(expr);
}

/// Hinting variables as numbers keeps every known type and gives each
/// hinted variable that had none the type number.
pub proof fn lemma_hint_numeric(m: Map<Seq<char>, ValueType>, vs: Seq<Seq<char>>)
    ensures
        forall|k: Seq<char>| m.dom().contains(k) ==> #[trigger] hint_numeric(m, vs).dom().contains(k) && hint_numeric(m, vs)[k] == m[k],
        forall|i: int|
            0 <= i < vs.len() ==> hint_numeric(m, vs).dom().contains(#[trigger] vs[i]) && (!m.dom().contains(vs[i])
                ==> hint_numeric(m, vs)[vs[i]] == ValueType::Number),
        forall|k: Seq<char>|
            #[trigger] hint_numeric(m, vs).dom().contains(k) ==> m.dom().contains(k) || vs.contains(k),
    decreases vs.len(),
{
    if vs.len() > 0 {
        lemma_hint_numeric(m, vs.drop_last());
        assert forall|i: int| 0 <= i < vs.len() implies hint_numeric(m, vs).dom().contains(#[trigger] vs[i]) && (
        !m.dom().contains(vs[i]) ==> hint_numeric(m, vs)[vs[i]] == ValueType::Number) by {
            if i < vs.len() - 1 {
                assert(vs.drop_last()[i] == vs[i]);
            }
        }
        assert forall|k: Seq<char>| #[trigger] hint_numeric(m, vs).dom().contains(k) implies m.dom().contains(k)
            || vs.contains(k) by {
            if k != vs.last() {
                if vs.drop_last().contains(k) {
                    let j = choose|j: int| 0 <= j < vs.drop_last().len() && vs.drop_last()[j] == k;
                    assert(vs[j] == k);
                }
            } else {
                assert(vs[vs.len() - 1] == k);
            }
        }
    }
}
} // verus!
