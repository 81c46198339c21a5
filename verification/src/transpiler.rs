//! Java code generation from the IR.
use vstd::prelude::*;
use crate::ir::{IrProgram, IrStmt, IrStmtView, SymbolView, ValueType, in_names, insert_name, ir_views, is_indicator_name, is_indicator_name_exec, lemma_quote_end, lemma_sorted_unique, lemma_word_end, log_map, lookup_type, quote_end, sorted_names, stmt_line, symbol_views, tviews, type_map, word_end};
use crate::text::{char_is_ascii_alpha, char_is_ascii_digit, char_is_word, chars_of, contains, contains_char, contains_lit, decimal, digit_char, eq_chars, extend, extend_str, has_char, is_ascii_alpha, is_ascii_digit, is_lit, is_word_char, lemma_replace_middle, lemma_seq_lt_total, lemma_seq_lt_trans, owned, push_decimal, replace, replace_chars, replace_lit, seq_lt, slice_of, star_free, starred_word, starts_with, starts_with_chars, string_of, to_upper, upper, views};

verus! {

// ------------------------------------------------------------------
// Identifiers
// ------------------------------------------------------------------

/// What character `i` of a name becomes in a Java identifier: word
/// characters stay (a leading digit gets a `_` before it), others become `_`.
pub open spec fn sanitize_piece(c: char, i: int) -> Seq<char> {
    if is_word_char(c) {
        if i == 0 && is_ascii_digit(c) {
            seq!['_', c]
        } else {
            seq![c]
        }
    } else {
        seq!['_']
    }
}

pub open spec fn sanitize_upto(raw: Seq<char>, k: int) -> Seq<char>
    decreases k,
{
    if k <= 0 || k > raw.len() {
        seq![]
    } else {
        sanitize_upto(raw, k - 1) + sanitize_piece(raw[k - 1], k - 1)
    }
}

/// A Java identifier for `raw` (`value` when `raw` is empty).
pub open spec fn sanitize(raw: Seq<char>) -> Seq<char> {
    let out = sanitize_upto(raw, raw.len() as int);
    if out.len() == 0 {
        "value"@
    } else {
        out
    }
}

pub fn sanitize_ident(raw: &Vec<char>) -> (out: Vec<char>)
    ensures
        out@ == sanitize(raw@),
{
    let mut out: Vec<char> = Vec::new();
    let mut i: usize = 0;
    while i < raw.len()
        invariant
            i <= raw.len(),
            out@ == sanitize_upto(raw@, i as int),
        decreases raw.len() - i,
    {
        let c = raw[i];
        let ghost before = out@;
        if char_is_word(c) {
            if i == 0 && char_is_ascii_digit(c) {
                out.push('_');
            }
            out.push(c);
        } else {
            out.push('_');
        }
        proof {
            assert(out@ =~= before + sanitize_piece(c, i as int));
        }
        i += 1;
    }
    if out.len() == 0 {
        chars_of("value")
    } else {
        out
    }
}

/// The reserved words of Java, which cannot name anything.
pub open spec fn is_reserved(s: Seq<char>) -> bool {
    s == "abstract"@
        || s == "assert"@
        || s == "boolean"@
        || s == "break"@
        || s == "byte"@
        || s == "case"@
        || s == "catch"@
        || s == "char"@
        || s == "class"@
        || s == "const"@
        || s == "continue"@
        || s == "default"@
        || s == "do"@
        || s == "double"@
        || s == "else"@
        || s == "enum"@
        || s == "extends"@
        || s == "final"@
        || s == "finally"@
        || s == "float"@
        || s == "for"@
        || s == "goto"@
        || s == "if"@
        || s == "implements"@
        || s == "import"@
        || s == "instanceof"@
        || s == "int"@
        || s == "interface"@
        || s == "long"@
        || s == "native"@
        || s == "new"@
        || s == "package"@
        || s == "private"@
        || s == "protected"@
        || s == "public"@
        || s == "return"@
        || s == "short"@
        || s == "static"@
        || s == "strictfp"@
        || s == "super"@
        || s == "switch"@
        || s == "synchronized"@
        || s == "this"@
        || s == "throw"@
        || s == "throws"@
        || s == "transient"@
        || s == "try"@
        || s == "void"@
        || s == "volatile"@
        || s == "while"@
        || s == "true"@
        || s == "false"@
        || s == "null"@
        || s == "_"@
}

fn is_reserved_exec(s: &Vec<char>) -> (r: bool)
    ensures
        r == is_reserved(s@),
{
    is_lit(s, "abstract")
        || is_lit(s, "assert")
        || is_lit(s, "boolean")
        || is_lit(s, "break")
        || is_lit(s, "byte")
        || is_lit(s, "case")
        || is_lit(s, "catch")
        || is_lit(s, "char")
        || is_lit(s, "class")
        || is_lit(s, "const")
        || is_lit(s, "continue")
        || is_lit(s, "default")
        || is_lit(s, "do")
        || is_lit(s, "double")
        || is_lit(s, "else")
        || is_lit(s, "enum")
        || is_lit(s, "extends")
        || is_lit(s, "final")
        || is_lit(s, "finally")
        || is_lit(s, "float")
        || is_lit(s, "for")
        || is_lit(s, "goto")
        || is_lit(s, "if")
        || is_lit(s, "implements")
        || is_lit(s, "import")
        || is_lit(s, "instanceof")
        || is_lit(s, "int")
        || is_lit(s, "interface")
        || is_lit(s, "long")
        || is_lit(s, "native")
        || is_lit(s, "new")
        || is_lit(s, "package")
        || is_lit(s, "private")
        || is_lit(s, "protected")
        || is_lit(s, "public")
        || is_lit(s, "return")
        || is_lit(s, "short")
        || is_lit(s, "static")
        || is_lit(s, "strictfp")
        || is_lit(s, "super")
        || is_lit(s, "switch")
        || is_lit(s, "synchronized")
        || is_lit(s, "this")
        || is_lit(s, "throw")
        || is_lit(s, "throws")
        || is_lit(s, "transient")
        || is_lit(s, "try")
        || is_lit(s, "void")
        || is_lit(s, "volatile")
        || is_lit(s, "while")
        || is_lit(s, "true")
        || is_lit(s, "false")
        || is_lit(s, "null")
        || is_lit(s, "_")
}

/// A Java identifier for `raw`: sanitized, and with `_v` after a reserved word.
pub open spec fn java_ident(raw: Seq<char>) -> Seq<char> {
    if is_reserved(sanitize(raw)) {
        sanitize(raw) + "_v"@
    } else {
        sanitize(raw)
    }
}

fn java_ident_exec(raw: &Vec<char>) -> (r: Vec<char>)
    ensures
        r@ == java_ident(raw@),
{
    let mut s = sanitize_ident(raw);
    if is_reserved_exec(&s) {
        extend_str(&mut s, "_v");
    }
    s
}

/// The name of a called procedure: a Java identifier, with `_2` after a name
/// that the class itself uses (`main` and the helpers).
pub open spec fn proc_ident(raw: Seq<char>) -> Seq<char> {
    let b = java_ident(raw);
    if b == "main"@ || b == "writeRecord"@ || b == "readRecord"@ || b == "truthy"@ {
        b + "_2"@
    } else {
        b
    }
}

fn proc_ident_exec(raw: &Vec<char>) -> (r: Vec<char>)
    ensures
        r@ == proc_ident(raw@),
{
    let mut b = java_ident_exec(raw);
    if is_lit(&b, "main") || is_lit(&b, "writeRecord") || is_lit(&b, "readRecord") || is_lit(&b, "truthy") {
        extend_str(&mut b, "_2");
    }
    b
}

/// The names a symbol may not take: the class name and the parameter `args`.
pub open spec fn taken_names(class_name: Seq<char>) -> Seq<Seq<char>> {
    seq![sanitize(class_name), "args"@]
}

/// The preferred Java name of a symbol: `main` would clash with the entry point.
pub open spec fn base_name(name: Seq<char>) -> Seq<char> {
    if java_ident(name) == "main"@ {
        "mainValue"@
    } else {
        java_ident(name)
    }
}

/// The `n`-th candidate name: the base, then `base_2`, `base_3`, ...
pub open spec fn candidate(base: Seq<char>, n: nat) -> Seq<char> {
    if n <= 1 {
        base
    } else {
        base + seq!['_'] + decimal(n)
    }
}

/// The first candidate number whose name is not used yet.
pub open spec fn is_first_free(base: Seq<char>, used: Seq<Seq<char>>, n: nat) -> bool {
    &&& n >= 1
    &&& !used.contains(candidate(base, n))
    &&& forall|m: nat| 1 <= m < n ==> used.contains(#[trigger] candidate(base, m))
}

pub open spec fn first_free(base: Seq<char>, used: Seq<Seq<char>>) -> nat {
    choose|n: nat| is_first_free(base, used, n)
}

proof fn lemma_first_free_unique(base: Seq<char>, used: Seq<Seq<char>>, n: nat)
    requires
        is_first_free(base, used, n),
    ensures
        first_free(base, used) == n,
{
    let m = first_free(base, used);
    assert(is_first_free(base, used, m));
    if m < n {
        assert(used.contains(candidate(base, m)));
    } else if n < m {
        assert(used.contains(candidate(base, n)));
    }
}

/// The (symbol, Java name) entries and the names taken, after `k` symbols,
/// the names `init` being taken from the start.
pub open spec fn name_entries(names: Seq<Seq<char>>, init: Seq<Seq<char>>, k: nat) -> (Seq<
    (Seq<char>, Seq<char>),
>, Seq<Seq<char>>)
    decreases k,
{
    if k == 0 || k > names.len() {
        (seq![], init)
    } else {
        let (e, used) = name_entries(names, init, (k - 1) as nat);
        let b = base_name(names[k - 1]);
        let c = candidate(b, first_free(b, used));
        (e.push((names[k - 1], c)), used.push(c))
    }
}

/// A log of entries as a map, later entries overriding earlier ones.
pub open spec fn entry_map(e: Seq<(Seq<char>, Seq<char>)>) -> Map<Seq<char>, Seq<char>>
    decreases e.len(),
{
    if e.len() == 0 {
        Map::empty()
    } else {
        entry_map(e.drop_last()).insert(e.last().0, e.last().1)
    }
}

/// The Java name of every symbol, in symbol order.
pub open spec fn name_map(names: Seq<Seq<char>>, init: Seq<Seq<char>>) -> Map<Seq<char>, Seq<char>> {
    entry_map(name_entries(names, init, names.len()).0)
}

/// A name as written in Java: its mapped name, or its Java identifier.
pub open spec fn map_ident(raw: Seq<char>, m: Map<Seq<char>, Seq<char>>) -> Seq<char> {
    if m.dom().contains(raw) {
        m[raw]
    } else {
        java_ident(raw)
    }
}

proof fn lemma_digit_char_inj(a: nat, b: nat)
    requires
        a < 10,
        b < 10,
        digit_char(a) == digit_char(b),
    ensures
        a == b,
{
}

proof fn lemma_decimal_len(n: nat)
    ensures
        decimal(n).len() >= 1,
        n >= 10 ==> decimal(n).len() >= 2,
    decreases n,
{
    if n >= 10 {
        lemma_decimal_len(n / 10);
    }
}

pub proof fn lemma_decimal_inj(a: nat, b: nat)
    requires
        decimal(a) == decimal(b),
    ensures
        a == b,
    decreases a,
{
    lemma_decimal_len(a);
    lemma_decimal_len(b);
    if a < 10 && b < 10 {
        assert(decimal(a)[0] == digit_char(a));
        assert(decimal(b)[0] == digit_char(b));
        lemma_digit_char_inj(a, b);
    } else if a >= 10 && b >= 10 {
        let da = decimal(a);
        let db = decimal(b);
        assert(da.last() == digit_char(a % 10));
        assert(db.last() == digit_char(b % 10));
        lemma_digit_char_inj(a % 10, b % 10);
        assert(da.drop_last() =~= decimal(a / 10));
        assert(db.drop_last() =~= decimal(b / 10));
        lemma_decimal_inj(a / 10, b / 10);
    } else {
        lemma_decimal_len(a / 10);
    }
}

proof fn lemma_candidate_inj(base: Seq<char>, a: nat, b: nat)
    requires
        a >= 1,
        b >= 1,
        candidate(base, a) == candidate(base, b),
    ensures
        a == b,
{
    lemma_decimal_len(a);
    lemma_decimal_len(b);
    if a >= 2 && b >= 2 {
        let ca = candidate(base, a);
        let cb = candidate(base, b);
        assert(ca.subrange(base.len() + 1int, ca.len() as int) =~= decimal(a));
        assert(cb.subrange(base.len() + 1int, cb.len() as int) =~= decimal(b));
        lemma_decimal_inj(a, b);
    } else if a >= 2 {
        assert(candidate(base, a).len() > base.len());
    } else if b >= 2 {
        assert(candidate(base, b).len() > base.len());
    }
}

/// Distinct items of `u` are at most as many as `u`'s items.
proof fn lemma_pigeonhole(r: Seq<Seq<char>>, u: Seq<Seq<char>>)
    requires
        r.no_duplicates(),
        forall|i: int| 0 <= i < r.len() ==> u.contains(#[trigger] r[i]),
    ensures
        r.len() <= u.len(),
{
    r.unique_seq_to_set();
    u.lemma_cardinality_of_set();
    assert(r.to_set().subset_of(u.to_set())) by {
        assert forall|x: Seq<char>| r.to_set().contains(x) implies u.to_set().contains(x) by {
            let i = choose|i: int| 0 <= i < r.len() && r[i] == x;
            assert(u.contains(r[i]));
        }
    }
    vstd::set_lib::lemma_len_subset(r.to_set(), u.to_set());
}

fn contains_name(v: &Vec<Vec<char>>, x: &Vec<char>) -> (r: bool)
    ensures
        r == views(v@).contains(x@),
{
    let mut i: usize = 0;
    while i < v.len()
        invariant
            i <= v.len(),
            forall|j: int| 0 <= j < i ==> views(v@)[j] != x@,
        decreases v.len() - i,
    {
        if eq_chars(&v[i], x) {
            proof {
                assert(views(v@)[i as int] == x@);
            }
            return true;
        }
        i += 1;
    }
    false
}

fn candidate_exec(base: &Vec<char>, n: usize) -> (r: Vec<char>)
    ensures
        r@ == candidate(base@, n as nat),
{
    if n <= 1 {
        base.clone()
    } else {
        let mut r = base.clone();
        r.push('_');
        push_decimal(&mut r, n as u64);
        proof {
            assert(r@ =~= candidate(base@, n as nat));
        }
        r
    }
}

/// A fresh Java name for `base` among `used`.
fn fresh_name(base: &Vec<char>, used: &Vec<Vec<char>>) -> (r: Vec<char>)
    requires
        used.len() < usize::MAX,
    ensures
        r@ == candidate(base@, first_free(base@, views(used@))),
{
    let ghost u = views(used@);
    let mut idx: usize = 1;
    let mut cand = base.clone();
    let ghost mut rejected: Seq<Seq<char>> = seq![];
    while contains_name(used, &cand)
        invariant
            u == views(used@),
            used.len() < usize::MAX,
            1 <= idx,
            cand@ == candidate(base@, idx as nat),
            rejected.len() == idx - 1,
            rejected.no_duplicates(),
            forall|i: int| 0 <= i < rejected.len() ==> u.contains(#[trigger] rejected[i]),
            forall|i: int| 0 <= i < rejected.len() ==> #[trigger] rejected[i] == candidate(base@, (i + 1) as nat),
            forall|m: nat| 1 <= m < idx ==> u.contains(#[trigger] candidate(base@, m)),
        decreases used.len() + 1 - idx,
    {
        proof {
            lemma_pigeonhole(rejected, u);
            let r2 = rejected.push(cand@);
            assert forall|i: int, j: int| 0 <= i < r2.len() && 0 <= j < r2.len() && i != j implies r2[i]
                != r2[j] by {
                if r2[i] == r2[j] {
                    lemma_candidate_inj(base@, (i + 1) as nat, (j + 1) as nat);
                }
            }
            lemma_pigeonhole(r2, u);
            rejected = r2;
        }
        idx = idx + 1;
        cand = candidate_exec(base, idx);
        proof {
            assert forall|m: nat| 1 <= m < idx implies u.contains(#[trigger] candidate(base@, m)) by {
                if m == idx - 1 {
                    assert(rejected[m - 1] == candidate(base@, m));
                }
            }
        }
    }
    proof {
        assert(is_first_free(base@, u, idx as nat));
        lemma_first_free_unique(base@, u, idx as nat);
    }
    cand
}

fn base_name_exec(name: &Vec<char>) -> (r: Vec<char>)
    ensures
        r@ == base_name(name@),
{
    let b = java_ident_exec(name);
    if is_lit(&b, "main") {
        chars_of("mainValue")
    } else {
        b
    }
}

pub open spec fn entry_views(v: Seq<(Vec<char>, Vec<char>)>) -> Seq<(Seq<char>, Seq<char>)> {
    v.map_values(|p: (Vec<char>, Vec<char>)| (p.0@, p.1@))
}

/// The Java names of the symbols `names`, one fresh name per symbol.
fn build_name_map(names: &Vec<Vec<char>>, class_name: &Vec<char>) -> (r: Vec<(Vec<char>, Vec<char>)>)
    requires
        names@.len() < usize::MAX - 2,
    ensures
        entry_views(r@) == name_entries(views(names@), taken_names(class_name@), names@.len()).0,
{
    let ghost nv = views(names@);
    let ghost init = taken_names(class_name@);
    let mut entries: Vec<(Vec<char>, Vec<char>)> = Vec::new();
    let mut used: Vec<Vec<char>> = Vec::new();
    used.push(sanitize_ident(class_name));
    used.push(chars_of("args"));
    proof {
        assert(views(used@) =~= init);
        assert(entry_views(entries@) =~= Seq::<(Seq<char>, Seq<char>)>::empty());
    }
    let mut k: usize = 0;
    while k < names.len()
        invariant
            k <= names.len(),
            nv == views(names@),
            init == taken_names(class_name@),
            entry_views(entries@) == name_entries(nv, init, k as nat).0,
            views(used@) == name_entries(nv, init, k as nat).1,
            used.len() == k + 2,
            names@.len() < usize::MAX - 2,
        decreases names.len() - k,
    {
        proof {
            assert(nv[k as int] == names@[k as int]@);
        }
        let b = base_name_exec(&names[k]);
        let c = fresh_name(&b, &used);
        let ghost e0 = entry_views(entries@);
        let ghost u0 = views(used@);
        entries.push((names[k].clone(), c.clone()));
        used.push(c);
        proof {
            assert(entry_views(entries@) =~= e0.push((nv[k as int], c@)));
            assert(views(used@) =~= u0.push(c@));
        }
        k += 1;
    }
    entries
}

proof fn lemma_entry_map_prefix(v: Seq<(Seq<char>, Seq<char>)>, i: int, k: Seq<char>)
    requires
        0 <= i <= v.len(),
        forall|j: int| i <= j < v.len() ==> v[j].0 != k,
    ensures
        entry_map(v).dom().contains(k) == entry_map(v.subrange(0, i)).dom().contains(k),
        entry_map(v).dom().contains(k) ==> entry_map(v)[k] == entry_map(v.subrange(0, i))[k],
    decreases v.len() - i,
{
    if i == v.len() {
        assert(v.subrange(0, i) =~= v);
    } else {
        let w = v.drop_last();
        lemma_entry_map_prefix(w, i, k);
        assert(w.subrange(0, i) =~= v.subrange(0, i));
    }
}

/// `map_ident` over an entry log.
fn map_ident_exec(raw: &Vec<char>, entries: &Vec<(Vec<char>, Vec<char>)>) -> (r: Vec<char>)
    ensures
        r@ == map_ident(raw@, entry_map(entry_views(entries@))),
{
    let ghost v = entry_views(entries@);
    let mut i = entries.len();
    while i > 0
        invariant
            i <= entries.len(),
            v == entry_views(entries@),
            forall|j: int| i <= j < v.len() ==> v[j].0 != raw@,
        decreases i,
    {
        proof {
            assert(v[i - 1] == (entries@[i - 1].0@, entries@[i - 1].1@));
        }
        if eq_chars(&entries[i - 1].0, raw) {
            proof {
                lemma_entry_map_prefix(v, i as int, raw@);
                assert(v.subrange(0, i as int).drop_last() =~= v.subrange(0, i - 1));
            }
            return entries[i - 1].1.clone();
        }
        i -= 1;
    }
    proof {
        lemma_entry_map_prefix(v, 0, raw@);
        assert(entry_map(v.subrange(0, 0)) =~= Map::<Seq<char>, Seq<char>>::empty());
    }
    java_ident_exec(raw)
}


// ------------------------------------------------------------------
// Expressions and conditions
// ------------------------------------------------------------------

/// The type of a symbol by name (`Unknown` when it has none).
pub open spec fn type_or_unknown(tm: Map<Seq<char>, ValueType>, raw: Seq<char>) -> ValueType {
    if tm.dom().contains(raw) {
        tm[raw]
    } else {
        ValueType::Unknown
    }
}

/// An identifier in Java: its mapped name, cast to a number in a numeric
/// context unless its symbol is a number.
pub open spec fn ident_piece(
    raw: Seq<char>,
    nm: Map<Seq<char>, Seq<char>>,
    tm: Map<Seq<char>, ValueType>,
    numeric: bool,
) -> Seq<char> {
    if numeric && type_or_unknown(tm, raw) != ValueType::Number {
        "((Number)"@ + map_ident(raw, nm) + ").doubleValue()"@
    } else {
        map_ident(raw, nm)
    }
}

/// A `*` at `i` starts a special value: it comes first or after a character
/// that ends no operand, and a letter follows it.
pub open spec fn starts_special(c: Seq<char>, i: int) -> bool {
    &&& i == 0 || !(is_word_char(c[i - 1]) || c[i - 1] == ')')
    &&& i + 1 < c.len()
    &&& is_ascii_alpha(c[i + 1])
}

/// The Java for the special value `*w`: the figurative constants, or an
/// indicator as a name; `None` for a value that has no Java form.
pub open spec fn special_value(
    w: Seq<char>,
    nm: Map<Seq<char>, Seq<char>>,
    tm: Map<Seq<char>, ValueType>,
    numeric: bool,
) -> Option<Seq<char>> {
    let u = upper(w);
    if u == "ON"@ {
        Some("true"@)
    } else if u == "OFF"@ {
        Some("false"@)
    } else if u == "BLANK"@ || u == "BLANKS"@ {
        Some("\"\""@)
    } else if u == "ZERO"@ || u == "ZEROS"@ {
        Some("0"@)
    } else if is_indicator_name(w) {
        Some(ident_piece(w, nm, tm, numeric))
    } else {
        None
    }
}

/// The text of a quoted RPG string inside a Java string literal.
pub open spec fn java_string_body(s: Seq<char>) -> Seq<char> {
    replace(replace(s, seq!['\\'], seq!['\\', '\\']), seq!['"'], seq!['\\', '"'])
}

/// `p` in front of a translation, which stays `None` when it failed.
pub open spec fn prepend(p: Seq<char>, r: Option<Seq<char>>) -> Option<Seq<char>> {
    match r {
        Some(x) => Some(p + x),
        None => None,
    }
}

proof fn lemma_prepend_assoc(a: Seq<char>, b: Seq<char>, r: Option<Seq<char>>)
    ensures
        prepend(a, prepend(b, r)) == prepend(a + b, r),
{
    if let Some(x) = r {
        assert(a + (b + x) =~= (a + b) + x);
    }
}

/// An expression in Java from position `i` on: quoted strings become Java
/// strings, special values their Java form, identifiers their Java names;
/// other characters are kept. `None` when a string is not closed or a special
/// value has no Java form.
pub open spec fn translate_from(
    c: Seq<char>,
    i: int,
    nm: Map<Seq<char>, Seq<char>>,
    tm: Map<Seq<char>, ValueType>,
    numeric: bool,
) -> Option<Seq<char>>
    decreases c.len() - i,
{
    if i < 0 || i >= c.len() {
        Some(seq![])
    } else if c[i] == '\'' {
        let q = quote_end(c, i + 1, '\'');
        proof {
            lemma_quote_end(c, i + 1, '\'');
        }
        if q >= c.len() {
            None
        } else {
            prepend(
                seq!['"'] + java_string_body(c.subrange(i + 1, q)) + seq!['"'],
                translate_from(c, q + 1, nm, tm, numeric),
            )
        }
    } else if c[i] == '"' {
        let q = quote_end(c, i + 1, '"');
        proof {
            lemma_quote_end(c, i + 1, '"');
        }
        if q >= c.len() {
            None
        } else {
            prepend(c.subrange(i, q + 1), translate_from(c, q + 1, nm, tm, numeric))
        }
    } else if c[i] == '*' && starts_special(c, i) {
        let e = word_end(c, i + 1);
        proof {
            lemma_word_end(c, i + 1);
        }
        match special_value(c.subrange(i + 1, e), nm, tm, numeric) {
            Some(p) => prepend(p, translate_from(c, e, nm, tm, numeric)),
            None => None,
        }
    } else if is_ascii_alpha(c[i]) || c[i] == '_' {
        let e = word_end(c, i + 1);
        proof {
            lemma_word_end(c, i + 1);
        }
        prepend(ident_piece(c.subrange(i, e), nm, tm, numeric), translate_from(c, e, nm, tm, numeric))
    } else {
        prepend(seq![c[i]], translate_from(c, i + 1, nm, tm, numeric))
    }
}

pub open spec fn translate_expr(
    c: Seq<char>,
    nm: Map<Seq<char>, Seq<char>>,
    tm: Map<Seq<char>, ValueType>,
    numeric: bool,
) -> Option<Seq<char>> {
    translate_from(c, 0, nm, tm, numeric)
}

fn ident_piece_exec(
    raw: &Vec<char>,
    names: &Vec<(Vec<char>, Vec<char>)>,
    types: &Vec<(Vec<char>, ValueType)>,
    numeric: bool,
) -> (r: Vec<char>)
    ensures
        r@ == ident_piece(raw@, entry_map(entry_views(names@)), type_map(types@), numeric),
{
    let mapped = map_ident_exec(raw, names);
    if numeric {
        let ty = match lookup_type(types, raw) {
            Some(t) => t,
            None => ValueType::Unknown,
        };
        if ty != ValueType::Number {
            let mut out = lit("((Number)");
            extend(&mut out, &mapped);
            extend_str(&mut out, ").doubleValue()");
            return out;
        }
    }
    mapped
}

fn special_value_exec(
    w: &Vec<char>,
    names: &Vec<(Vec<char>, Vec<char>)>,
    types: &Vec<(Vec<char>, ValueType)>,
    numeric: bool,
) -> (r: Option<Vec<char>>)
    ensures
        match r {
            Some(x) => special_value(w@, entry_map(entry_views(names@)), type_map(types@), numeric) == Some(x@),
            None => special_value(w@, entry_map(entry_views(names@)), type_map(types@), numeric) is None,
        },
{
    let u = to_upper(w);
    if is_lit(&u, "ON") {
        Some(lit("true"))
    } else if is_lit(&u, "OFF") {
        Some(lit("false"))
    } else if is_lit(&u, "BLANK") || is_lit(&u, "BLANKS") {
        Some(lit("\"\""))
    } else if is_lit(&u, "ZERO") || is_lit(&u, "ZEROS") {
        Some(lit("0"))
    } else if is_indicator_name_exec(w) {
        Some(ident_piece_exec(w, names, types, numeric))
    } else {
        None
    }
}

/// The first index at or after `i` holding `q` (or the end).
fn quote_end_exec(c: &Vec<char>, i: usize, q: char) -> (r: usize)
    requires
        i <= c.len(),
    ensures
        r == quote_end(c@, i as int, q),
        i <= r <= c.len(),
{
    let mut j = i;
    while j < c.len() && c[j] != q
        invariant
            i <= j <= c.len(),
            quote_end(c@, j as int, q) == quote_end(c@, i as int, q),
        decreases c.len() - j,
    {
        j += 1;
    }
    j
}

fn java_string_body_exec(s: &Vec<char>) -> (r: Vec<char>)
    ensures
        r@ == java_string_body(s@),
{
    let mut bs: Vec<char> = Vec::new();
    bs.push('\\');
    let mut bs2: Vec<char> = Vec::new();
    bs2.push('\\');
    bs2.push('\\');
    let mut dq: Vec<char> = Vec::new();
    dq.push('"');
    let mut edq: Vec<char> = Vec::new();
    edq.push('\\');
    edq.push('"');
    proof {
        assert(bs@ =~= seq!['\\']);
        assert(bs2@ =~= seq!['\\', '\\']);
        assert(dq@ =~= seq!['"']);
        assert(edq@ =~= seq!['\\', '"']);
    }
    let a = replace_chars(s, &bs, &bs2);
    replace_chars(&a, &dq, &edq)
}

fn translate_expr_exec(
    c: &Vec<char>,
    names: &Vec<(Vec<char>, Vec<char>)>,
    types: &Vec<(Vec<char>, ValueType)>,
    numeric: bool,
) -> (r: Option<Vec<char>>)
    ensures
        match r {
            Some(x) => translate_expr(c@, entry_map(entry_views(names@)), type_map(types@), numeric) == Some(x@),
            None => translate_expr(c@, entry_map(entry_views(names@)), type_map(types@), numeric) is None,
        },
{
    let ghost nm = entry_map(entry_views(names@));
    let ghost tm = type_map(types@);
    let mut out: Vec<char> = Vec::new();
    let mut i: usize = 0;
    proof {
        assert(prepend(out@, translate_from(c@, 0, nm, tm, numeric)) == translate_expr(c@, nm, tm, numeric)) by {
            lemma_prepend_assoc(seq![], seq![], translate_from(c@, 0, nm, tm, numeric));
            if let Some(x) = translate_from(c@, 0, nm, tm, numeric) {
                assert(out@ + x =~= x);
            }
        }
    }
    while i < c.len()
        invariant
            i <= c.len(),
            nm == entry_map(entry_views(names@)),
            tm == type_map(types@),
            prepend(out@, translate_from(c@, i as int, nm, tm, numeric)) == translate_expr(c@, nm, tm, numeric),
        decreases c.len() - i,
    {
        let ch = c[i];
        let ghost before = out@;
        let ghost i0 = i as int;
        if ch == '\'' {
            let q = quote_end_exec(c, i + 1, '\'');
            if q >= c.len() {
                return None;
            }
            out.push('"');
            extend(&mut out, &java_string_body_exec(&slice_of(c, i + 1, q)));
            out.push('"');
            i = q + 1;
            proof {
                let p = seq!['"'] + java_string_body(c@.subrange(i0 + 1, q as int)) + seq!['"'];
                assert(out@ =~= before + p);
                lemma_prepend_assoc(before, p, translate_from(c@, i as int, nm, tm, numeric));
            }
        } else if ch == '"' {
            let q = quote_end_exec(c, i + 1, '"');
            if q >= c.len() {
                return None;
            }
            extend(&mut out, &slice_of(c, i, q + 1));
            i = q + 1;
            proof {
                lemma_prepend_assoc(before, c@.subrange(i0, i as int), translate_from(c@, i as int, nm, tm, numeric));
            }
        } else if ch == '*' && (i == 0 || !(char_is_word(c[i - 1]) || c[i - 1] == ')')) && i + 1 < c.len()
            && char_is_ascii_alpha(c[i + 1]) {
            let start = i + 1;
            let mut e = start;
            while e < c.len() && char_is_word(c[e])
                invariant
                    start <= e <= c.len(),
                    word_end(c@, e as int) == word_end(c@, start as int),
                decreases c.len() - e,
            {
                e += 1;
            }
            proof {
                lemma_word_end(c@, start as int);
            }
            let w = slice_of(c, start, e);
            match special_value_exec(&w, names, types, numeric) {
                None => {
                    return None;
                },
                Some(p) => {
                    extend(&mut out, &p);
                    i = e;
                    proof {
                        lemma_prepend_assoc(before, p@, translate_from(c@, i as int, nm, tm, numeric));
                    }
                },
            }
        } else if char_is_ascii_alpha(ch) || ch == '_' {
            let start = i;
            let mut e = i + 1;
            while e < c.len() && char_is_word(c[e])
                invariant
                    start < e <= c.len(),
                    word_end(c@, e as int) == word_end(c@, start + 1),
                decreases c.len() - e,
            {
                e += 1;
            }
            proof {
                lemma_word_end(c@, start + 1);
            }
            let raw = slice_of(c, start, e);
            let piece = ident_piece_exec(&raw, names, types, numeric);
            extend(&mut out, &piece);
            i = e;
            proof {
                lemma_prepend_assoc(before, piece@, translate_from(c@, i as int, nm, tm, numeric));
            }
        } else {
            out.push(ch);
            i += 1;
            proof {
                assert(out@ =~= before + seq![ch]);
                lemma_prepend_assoc(before, seq![ch], translate_from(c@, i as int, nm, tm, numeric));
            }
        }
    }
    proof {
        assert(out@ + Seq::<char>::empty() =~= out@);
    }
    Some(out)
}

/// RPG comparison, logical and concatenation operators written the Java way.
pub open spec fn normalize_expr(c: Seq<char>) -> Seq<char> {
    let a = replace(replace(replace(c, " *EQ "@, " == "@), " *NE "@, " != "@), " *GT "@, " > "@);
    let b = replace(replace(replace(a, " *LT "@, " < "@), " *GE "@, " >= "@), " *LE "@, " <= "@);
    replace(replace(replace(b, " *AND "@, " && "@), " *OR "@, " || "@), " *CAT "@, " + "@)
}

fn normalize_expr_exec(c: &Vec<char>) -> (r: Vec<char>)
    ensures
        r@ == normalize_expr(c@),
{
    proof {
        reveal_strlit(" *EQ ");
        reveal_strlit(" *NE ");
        reveal_strlit(" *GT ");
        reveal_strlit(" *LT ");
        reveal_strlit(" *GE ");
        reveal_strlit(" *LE ");
        reveal_strlit(" *AND ");
        reveal_strlit(" *OR ");
        reveal_strlit(" *CAT ");
    }
    let a = replace_lit(c, " *EQ ", " == ");
    let a = replace_lit(&a, " *NE ", " != ");
    let a = replace_lit(&a, " *GT ", " > ");
    let a = replace_lit(&a, " *LT ", " < ");
    let a = replace_lit(&a, " *GE ", " >= ");
    let a = replace_lit(&a, " *LE ", " <= ");
    let a = replace_lit(&a, " *AND ", " && ");
    let a = replace_lit(&a, " *OR ", " || ");
    replace_lit(&a, " *CAT ", " + ")
}

pub open spec fn contains_comparator(e: Seq<char>) -> bool {
    contains(e, "=="@) || contains(e, "!="@) || contains(e, ">="@) || contains(e, "<="@)
        || contains_char(e, '>') || contains_char(e, '<')
}

fn contains_comparator_exec(e: &Vec<char>) -> (r: bool)
    ensures
        r == contains_comparator(e@),
{
    contains_lit(e, "==") || contains_lit(e, "!=") || contains_lit(e, ">=") || contains_lit(e, "<=")
        || has_char(e, '>') || has_char(e, '<')
}

/// A condition in Java: `NOT` negates the rest; a comparison is translated as
/// it stands, its operands cast to numbers when it orders them; anything else
/// is wrapped in `truthy(..)`. `None` when the condition has no Java form.
pub open spec fn translate_cond(
    cond: Seq<char>,
    nm: Map<Seq<char>, Seq<char>>,
    tm: Map<Seq<char>, ValueType>,
) -> Option<Seq<char>>
    decreases cond.len(),
{
    if starts_with(upper(cond), seq!['N', 'O', 'T', ' ']) {
        prepend(seq!['!'], translate_cond(cond.subrange(4, cond.len() as int), nm, tm))
    } else {
        let c = normalize_expr(cond);
        if contains_comparator(c) {
            translate_expr(c, nm, tm, contains_char(c, '>') || contains_char(c, '<'))
        } else {
            match translate_expr(c, nm, tm, false) {
                Some(e) => Some("truthy("@ + e + seq![')']),
                None => None,
            }
        }
    }
}

fn translate_cond_exec(
    cond: &Vec<char>,
    names: &Vec<(Vec<char>, Vec<char>)>,
    types: &Vec<(Vec<char>, ValueType)>,
) -> (r: Option<Vec<char>>)
    ensures
        match r {
            Some(x) => translate_cond(cond@, entry_map(entry_views(names@)), type_map(types@)) == Some(x@),
            None => translate_cond(cond@, entry_map(entry_views(names@)), type_map(types@)) is None,
        },
{
    let ghost nm = entry_map(entry_views(names@));
    let ghost tm = type_map(types@);
    let mut prefix: Vec<char> = Vec::new();
    let mut cur = cond.clone();
    let mut not_seq: Vec<char> = Vec::new();
    not_seq.push('N');
    not_seq.push('O');
    not_seq.push('T');
    not_seq.push(' ');
    proof {
        assert(not_seq@ =~= seq!['N', 'O', 'T', ' ']);
        assert(prepend(prefix@, translate_cond(cur@, nm, tm)) == translate_cond(cond@, nm, tm)) by {
            if let Some(x) = translate_cond(cur@, nm, tm) {
                assert(prefix@ + x =~= x);
            }
        }
    }
    while starts_with_chars(&to_upper(&cur), &not_seq)
        invariant
            nm == entry_map(entry_views(names@)),
            tm == type_map(types@),
            not_seq@ == seq!['N', 'O', 'T', ' '],
            prepend(prefix@, translate_cond(cur@, nm, tm)) == translate_cond(cond@, nm, tm),
        decreases cur@.len(),
    {
        let ghost before = prefix@;
        let ghost c0 = cur@;
        prefix.push('!');
        cur = slice_of(&cur, 4, cur.len());
        proof {
            assert(upper(c0).len() == c0.len());
            lemma_prepend_assoc(before, seq!['!'], translate_cond(cur@, nm, tm));
            assert(prefix@ =~= before + seq!['!']);
        }
    }
    let c = normalize_expr_exec(&cur);
    let inner = if contains_comparator_exec(&c) {
        translate_expr_exec(&c, names, types, has_char(&c, '>') || has_char(&c, '<'))
    } else {
        match translate_expr_exec(&c, names, types, false) {
            Some(e) => {
                let mut w = lit("truthy(");
                extend(&mut w, &e);
                w.push(')');
                Some(w)
            },
            None => None,
        }
    };
    match inner {
        Some(x) => {
            let mut out = prefix;
            extend(&mut out, &x);
            Some(out)
        },
        None => None,
    }
}

// ------------------------------------------------------------------
// The Java class
// ------------------------------------------------------------------

/// `n` levels of four-space indentation.
pub open spec fn spaces(n: nat) -> Seq<char>
    decreases n,
{
    if n == 0 {
        seq![]
    } else {
        spaces((n - 1) as nat) + "    "@
    }
}

pub open spec fn java_line(indent: nat, text: Seq<char>) -> Seq<char> {
    spaces(indent) + text + seq!['\n']
}

fn push_line(buf: &mut Vec<char>, indent: usize, line: &Vec<char>)
    ensures
        final(buf)@ == old(buf)@ + java_line(indent as nat, line@),
{
    let mut k: usize = 0;
    while k < indent
        invariant
            k <= indent,
            buf@ == old(buf)@ + spaces(k as nat),
        decreases indent - k,
    {
        extend_str(buf, "    ");
        k += 1;
    }
    extend(buf, line);
    buf.push('\n');
    proof {
        assert(final(buf)@ =~= old(buf)@ + java_line(indent as nat, line@));
    }
}

pub open spec fn java_type(t: ValueType) -> Seq<char> {
    match t {
        ValueType::Number => "double"@,
        ValueType::Text => "String"@,
        ValueType::Bool => "boolean"@,
        ValueType::Unknown => "Object"@,
    }
}

pub open spec fn java_init(t: ValueType) -> Seq<char> {
    match t {
        ValueType::Number => " = 0;"@,
        ValueType::Text => " = \"\";"@,
        ValueType::Bool => " = false;"@,
        ValueType::Unknown => ";"@,
    }
}

pub open spec fn symbol_names(syms: Seq<SymbolView>) -> Seq<Seq<char>> {
    syms.map_values(|s: SymbolView| s.name)
}

pub open spec fn symbol_type_entries(syms: Seq<SymbolView>) -> Seq<(Seq<char>, ValueType)> {
    syms.map_values(|s: SymbolView| (s.name, s.ty))
}

/// One typed, initialised local variable per symbol.
pub open spec fn decl_text(syms: Seq<SymbolView>, nm: Map<Seq<char>, Seq<char>>, k: nat) -> Seq<char>
    decreases k,
{
    if k == 0 || k > syms.len() {
        seq![]
    } else {
        let s = syms[k - 1];
        decl_text(syms, nm, (k - 1) as nat) + java_line(
            2,
            java_type(s.ty) + seq![' '] + map_ident(s.name, nm) + java_init(s.ty),
        )
    }
}

/// One mapping from an RPG source line to the Java line its statement starts.
#[derive(Debug, Clone)]
pub struct SourceMapEntry {
    pub rpg_line: usize,
    pub java_line: usize,
    pub kind: String,
    pub note: String,
}

pub struct SourceMapEntryView {
    pub rpg_line: usize,
    pub java_line: usize,
    pub kind: Seq<char>,
    pub note: Seq<char>,
}

impl View for SourceMapEntry {
    type V = SourceMapEntryView;

    open spec fn view(&self) -> SourceMapEntryView {
        SourceMapEntryView {
            rpg_line: self.rpg_line,
            java_line: self.java_line,
            kind: self.kind@,
            note: self.note@,
        }
    }
}

pub open spec fn map_views(v: Seq<SourceMapEntry>) -> Seq<SourceMapEntryView> {
    v.map_values(|e: SourceMapEntry| e@)
}

/// The Java source of a program and where each statement went.
#[derive(Debug, Clone)]
pub struct JavaOutput {
    pub java: String,
    pub source_map: Vec<SourceMapEntry>,
}

pub struct EmitState {
    pub text: Seq<char>,
    pub indent: nat,
    pub calls: Seq<Seq<char>>,
    /// The number of lines emitted.
    pub lines: nat,
    pub entries: Seq<SourceMapEntryView>,
}

pub open spec fn dedent(n: nat) -> nat {
    if n >= 1 {
        (n - 1) as nat
    } else {
        0
    }
}

pub open spec fn map_entry(rpg: usize, java: nat, kind: Seq<char>, note: Seq<char>) -> SourceMapEntryView {
    SourceMapEntryView { rpg_line: rpg, java_line: java as usize, kind, note }
}

/// The line or lines that open a block on a condition: `head`, the condition
/// and `tail`; a condition without a Java form becomes `false`, after a TODO
/// line that keeps it.
pub open spec fn cond_lines(
    ind: nat,
    head: Seq<char>,
    tail: Seq<char>,
    translated: Option<Seq<char>>,
    cond: Seq<char>,
) -> Seq<char> {
    match translated {
        Some(c) => java_line(ind, head + c + tail),
        None => java_line(ind, "// TODO(FALLBACK_COND): "@ + cond) + java_line(ind, head + "false"@ + tail),
    }
}

pub open spec fn cond_line_count(translated: Option<Seq<char>>) -> nat {
    match translated {
        Some(c) => 1,
        None => 2,
    }
}

/// The statement of an assignment: the Java assignment, or a TODO line that
/// keeps an expression without a Java form.
pub open spec fn assign_text(
    left: Seq<char>,
    right: Seq<char>,
    nm: Map<Seq<char>, Seq<char>>,
    tm: Map<Seq<char>, ValueType>,
) -> Seq<char> {
    match translate_expr(normalize_expr(right), nm, tm, type_or_unknown(tm, left) == ValueType::Number) {
        Some(e) => map_ident(left, nm) + " = "@ + e + seq![';'],
        None => "// TODO(FALLBACK_EXPR): "@ + right,
    }
}

/// The comment that keeps a statement without a Java form.
pub open spec fn todo_comment(op: Option<Seq<char>>, src: Seq<char>) -> Seq<char> {
    match op {
        Some(o) => "// TODO("@ + o + "): "@ + src,
        None => "// TODO: "@ + src,
    }
}

/// The Java lines of one statement, opened at indentation `ind`.
pub open spec fn step_text(
    ind: nat,
    s: IrStmtView,
    nm: Map<Seq<char>, Seq<char>>,
    tm: Map<Seq<char>, ValueType>,
) -> Seq<char> {
    match s {
        IrStmtView::Assign { left, right } => java_line(ind, assign_text(left, right, nm, tm)),
        IrStmtView::If { cond } => cond_lines(ind, "if ("@, ") {"@, translate_cond(cond, nm, tm), cond),
        IrStmtView::Else => java_line(dedent(ind), "} else {"@),
        IrStmtView::EndIf => java_line(dedent(ind), seq!['}']),
        IrStmtView::DoUntil { cond } => cond_lines(ind, "while (!("@, ")) {"@, translate_cond(cond, nm, tm), cond),
        IrStmtView::EndDo => java_line(dedent(ind), seq!['}']),
        IrStmtView::Call { proc_name } => java_line(ind, proc_ident(proc_name) + "();"@),
        IrStmtView::Write { target } => java_line(ind, "writeRecord("@ + map_ident(target, nm) + ");"@),
        IrStmtView::Read { target } => java_line(ind, "readRecord("@ + map_ident(target, nm) + ");"@),
        IrStmtView::Todo { op, src } => java_line(ind, todo_comment(op, src)),
    }
}

/// The source-map row of one statement: its kind and the name or text it is about.
pub open spec fn step_entry(s: IrStmtView, l: usize, jl: nat) -> SourceMapEntryView {
    match s {
        IrStmtView::Assign { left, right } => map_entry(l, jl, "assign"@, left),
        IrStmtView::If { cond } => map_entry(l, jl, "if"@, cond),
        IrStmtView::Else => map_entry(l, jl, "else"@, ""@),
        IrStmtView::EndIf => map_entry(l, jl, "endif"@, ""@),
        IrStmtView::DoUntil { cond } => map_entry(l, jl, "loop"@, cond),
        IrStmtView::EndDo => map_entry(l, jl, "enddo"@, ""@),
        IrStmtView::Call { proc_name } => map_entry(l, jl, "call"@, proc_name),
        IrStmtView::Write { target } => map_entry(l, jl, "write"@, target),
        IrStmtView::Read { target } => map_entry(l, jl, "read"@, target),
        IrStmtView::Todo { op, src } => map_entry(
            l,
            jl,
            "todo"@,
            match op {
                Some(o) => o,
                None => ""@,
            },
        ),
    }
}

/// The indentation after a statement opened at indentation `ind`.
pub open spec fn step_indent(ind: nat, s: IrStmtView) -> nat {
    match s {
        IrStmtView::If { .. } => ind + 1,
        IrStmtView::DoUntil { .. } => ind + 1,
        IrStmtView::Else => dedent(ind) + 1,
        IrStmtView::EndIf => dedent(ind),
        IrStmtView::EndDo => dedent(ind),
        _ => ind,
    }
}

/// The number of Java lines of one statement.
pub open spec fn step_lines(s: IrStmtView, nm: Map<Seq<char>, Seq<char>>, tm: Map<Seq<char>, ValueType>) -> nat {
    match s {
        IrStmtView::If { cond } => cond_line_count(translate_cond(cond, nm, tm)),
        IrStmtView::DoUntil { cond } => cond_line_count(translate_cond(cond, nm, tm)),
        _ => 1,
    }
}

/// The Java for one statement from RPG line `l`, whose first line is Java
/// line `base + st.lines + 1`.
pub open spec fn emit_step(
    st: EmitState,
    s: IrStmtView,
    l: usize,
    base: nat,
    nm: Map<Seq<char>, Seq<char>>,
    tm: Map<Seq<char>, ValueType>,
) -> EmitState {
    EmitState {
        text: st.text + step_text(st.indent, s, nm, tm),
        indent: step_indent(st.indent, s),
        calls: match s {
            IrStmtView::Call { proc_name } => st.calls.push(proc_ident(proc_name)),
            _ => st.calls,
        },
        lines: st.lines + step_lines(s, nm, tm),
        entries: st.entries.push(step_entry(s, l, base + st.lines + 1)),
    }
}

/// The Java for the first `k` statements, starting inside `main`; their Java
/// lines count from `base`.
pub open spec fn emit_upto(
    stmts: Seq<IrStmtView>,
    lines: Seq<usize>,
    base: nat,
    nm: Map<Seq<char>, Seq<char>>,
    tm: Map<Seq<char>, ValueType>,
    k: nat,
) -> EmitState
    decreases k,
{
    if k == 0 || k > stmts.len() {
        EmitState { text: seq![], indent: 2, calls: seq![], lines: 0, entries: seq![] }
    } else {
        emit_step(
            emit_upto(stmts, lines, base, nm, tm, (k - 1) as nat),
            stmts[k - 1],
            stmt_line(lines, k - 1),
            base,
            nm,
            tm,
        )
    }
}

pub proof fn lemma_emit_upto_bounds(
    stmts: Seq<IrStmtView>,
    lines: Seq<usize>,
    base: nat,
    nm: Map<Seq<char>, Seq<char>>,
    tm: Map<Seq<char>, ValueType>,
    k: nat,
)
    requires
        k <= stmts.len(),
    ensures
        emit_upto(stmts, lines, base, nm, tm, k).lines <= 2 * k,
        emit_upto(stmts, lines, base, nm, tm, k).indent <= k + 2,
    decreases k,
{
    if k > 0 {
        lemma_emit_upto_bounds(stmts, lines, base, nm, tm, (k - 1) as nat);
    }
}

/// Closing braces for blocks still open, innermost first.
pub open spec fn closing_text(indent: nat) -> Seq<char>
    decreases indent,
{
    if indent <= 2 {
        seq![]
    } else {
        java_line((indent - 1) as nat, seq!['}']) + closing_text((indent - 1) as nat)
    }
}

pub open spec fn method_stub(proc: Seq<char>) -> Seq<char> {
    "    private static void "@ + proc + "() {\n"@ + "        // TODO: migrated from CALLP\n"@
        + "    }\n\n"@
}

pub open spec fn method_stubs(procs: Seq<Seq<char>>, k: nat) -> Seq<char>
    decreases k,
{
    if k == 0 || k > procs.len() {
        seq![]
    } else {
        method_stubs(procs, (k - 1) as nat) + method_stub(procs[k - 1])
    }
}

/// The record and truthiness helpers every class ends with.
pub open spec fn java_helpers() -> Seq<char> {
    "    private static void writeRecord(Object rec) {\n"@
        + "        // TODO: replace with repository/output adapter\n"@ + "    }\n"@ + "\n"@
        + "    private static void readRecord(Object rec) {\n"@
        + "        // TODO: replace with repository/input adapter\n"@ + "    }\n"@ + "\n"@
        + "    private static boolean truthy(Object v) {\n"@ + "        if (v == null) return false;\n"@
        + "        if (v instanceof Boolean) return (Boolean) v;\n"@
        + "        if (v instanceof Number) return ((Number) v).doubleValue() != 0.0;\n"@
        + "        return !v.toString().isBlank();\n"@ + "    }\n"@ + "}\n"@
}

/// The strictly sorted list of the distinct names in `s`.
pub open spec fn sorted_set_of(l: Seq<Seq<char>>, s: Seq<Seq<char>>) -> bool {
    sorted_names(l) && forall|y: Seq<char>| #![trigger in_names(l, y)] in_names(l, y) <==> in_names(s, y)
}

pub open spec fn sorted_distinct(s: Seq<Seq<char>>) -> Seq<Seq<char>> {
    choose|l: Seq<Seq<char>>| sorted_set_of(l, s)
}

/// The Java line before the first statement: the target comment, the class
/// and `main` lines, the declarations and the blank line after them.
pub open spec fn body_base(nsyms: nat) -> nat {
    3 + nsyms + if nsyms > 0 {
        1nat
    } else {
        0nat
    }
}

/// The Java names of a program's symbols, given its class name.
pub open spec fn program_names(ir: IrProgram, class_name: Seq<char>) -> Map<Seq<char>, Seq<char>> {
    name_map(symbol_names(symbol_views(ir.symbols@)), taken_names(class_name))
}

/// The types of a program's symbols by name.
pub open spec fn program_types(ir: IrProgram) -> Map<Seq<char>, ValueType> {
    log_map(symbol_type_entries(symbol_views(ir.symbols@)))
}

/// How the first `k` statements of a program are emitted.
pub open spec fn program_emit_upto(ir: IrProgram, class_name: Seq<char>, k: nat) -> EmitState {
    emit_upto(
        ir_views(ir.statements@),
        ir.statement_lines@,
        body_base(ir.symbols@.len()),
        program_names(ir, class_name),
        program_types(ir),
        k,
    )
}

/// How the statements of a program are emitted.
pub open spec fn program_emit(ir: IrProgram, class_name: Seq<char>) -> EmitState {
    program_emit_upto(ir, class_name, ir.statements@.len())
}

/// The first line of the generated file: the Java level it is meant for.
pub open spec fn target_line(target: JavaTarget) -> Seq<char> {
    "// target="@ + target.name() + "\n"@
}

/// The start of the class, before the first statement: the class and `main`
/// lines, the declarations and a blank line after them.
pub open spec fn class_head(ir: IrProgram, class_name: Seq<char>) -> Seq<char> {
    let syms = symbol_views(ir.symbols@);
    "public class "@ + java_ident(class_name) + " {\n"@ + "    public static void main(String[] args) {\n"@
        + decl_text(syms, program_names(ir, class_name), syms.len()) + (if syms.len() > 0 {
        seq!['\n']
    } else {
        seq![]
    })
}

/// The rest of the class after the statements: the blocks still open are
/// closed, then `main`, then a stub per called procedure and the helpers.
pub open spec fn class_tail(ir: IrProgram, class_name: Seq<char>) -> Seq<char> {
    let em = program_emit(ir, class_name);
    let procs = sorted_distinct(em.calls);
    closing_text(em.indent) + "    }\n"@ + "\n"@ + method_stubs(procs, procs.len()) + java_helpers()
}

/// The Java class for an IR program.
pub open spec fn java_class(ir: IrProgram, class_name: Seq<char>) -> Seq<char> {
    class_head(ir, class_name) + program_emit(ir, class_name).text + class_tail(ir, class_name)
}

/// The file before the first statement: the target line and the start of the class.
pub open spec fn java_head(ir: IrProgram, class_name: Seq<char>, target: JavaTarget) -> Seq<char> {
    target_line(target) + class_head(ir, class_name)
}

/// The generated file: the target line, then the class.
pub open spec fn java_source(ir: IrProgram, class_name: Seq<char>, target: JavaTarget) -> Seq<char> {
    target_line(target) + java_class(ir, class_name)
}

/// Where each statement of a program went in its Java class.
pub open spec fn source_map_of(ir: IrProgram, class_name: Seq<char>) -> Seq<SourceMapEntryView> {
    program_emit(ir, class_name).entries
}

fn lit(s: &str) -> (r: Vec<char>)
    ensures
        r@ == s@,
{
    chars_of(s)
}

/// Emits the line or lines that open a block on `cond`; returns how many.
fn cond_block(
    out: &mut Vec<char>,
    ind: usize,
    head: &str,
    tail: &str,
    cond: &Vec<char>,
    names: &Vec<(Vec<char>, Vec<char>)>,
    types: &Vec<(Vec<char>, ValueType)>,
) -> (n: usize)
    ensures
        final(out)@ == old(out)@ + cond_lines(
            ind as nat,
            head@,
            tail@,
            translate_cond(cond@, entry_map(entry_views(names@)), type_map(types@)),
            cond@,
        ),
        n as nat == cond_line_count(translate_cond(cond@, entry_map(entry_views(names@)), type_map(types@))),
{
    match translate_cond_exec(cond, names, types) {
        Some(c) => {
            let mut line = lit(head);
            extend(&mut line, &c);
            extend_str(&mut line, tail);
            push_line(out, ind, &line);
            1
        },
        None => {
            let ghost o0 = old(out)@;
            let mut t = lit("// TODO(FALLBACK_COND): ");
            extend(&mut t, cond);
            push_line(out, ind, &t);
            let mut line = lit(head);
            extend_str(&mut line, "false");
            extend_str(&mut line, tail);
            push_line(out, ind, &line);
            proof {
                assert(final(out)@ =~= o0 + java_line(ind as nat, "// TODO(FALLBACK_COND): "@ + cond@) + java_line(
                    ind as nat,
                    head@ + "false"@ + tail@,
                ));
            }
            2
        },
    }
}

fn assign_text_exec(
    left: &Vec<char>,
    right: &Vec<char>,
    names: &Vec<(Vec<char>, Vec<char>)>,
    types: &Vec<(Vec<char>, ValueType)>,
) -> (r: Vec<char>)
    ensures
        r@ == assign_text(left@, right@, entry_map(entry_views(names@)), type_map(types@)),
{
    let left_ty = match lookup_type(types, left) {
        Some(t) => t,
        None => ValueType::Unknown,
    };
    let n = normalize_expr_exec(right);
    match translate_expr_exec(&n, names, types, left_ty == ValueType::Number) {
        Some(e) => {
            let mut line = map_ident_exec(left, names);
            extend_str(&mut line, " = ");
            extend(&mut line, &e);
            line.push(';');
            line
        },
        None => {
            let mut line = lit("// TODO(FALLBACK_EXPR): ");
            extend(&mut line, right);
            line
        },
    }
}

fn map_entry_exec(rpg_line: usize, java_line: usize, kind: &str, note: &Vec<char>) -> (e: SourceMapEntry)
    ensures
        e@ == map_entry(rpg_line, java_line as nat, kind@, note@),
{
    SourceMapEntry { rpg_line, java_line, kind: owned(kind), note: string_of(note) }
}

/// The Java for one IR statement from RPG line `rpg_line`; updates the
/// indentation, the called procedures, the line count and the source map.
fn emit_stmt(
    out: &mut Vec<char>,
    indent: &mut usize,
    calls: &mut Vec<Vec<char>>,
    lines: &mut usize,
    entries: &mut Vec<SourceMapEntry>,
    stmt: &IrStmt,
    rpg_line: usize,
    base: usize,
    names: &Vec<(Vec<char>, Vec<char>)>,
    types: &Vec<(Vec<char>, ValueType)>,
    Ghost(calls_seq): Ghost<Seq<Seq<char>>>,
)
    requires
        *old(indent) < usize::MAX,
        *old(lines) + base + 3 < usize::MAX,
        sorted_set_of(views(old(calls)@), calls_seq),
    ensures
        ({
            let st = EmitState {
                text: old(out)@,
                indent: *old(indent) as nat,
                calls: calls_seq,
                lines: *old(lines) as nat,
                entries: map_views(old(entries)@),
            };
            let nx = emit_step(st, stmt@, rpg_line, base as nat, entry_map(entry_views(names@)), type_map(types@));
            &&& final(out)@ == nx.text
            &&& *final(indent) as nat == nx.indent
            &&& sorted_set_of(views(final(calls)@), nx.calls)
            &&& *final(lines) as nat == nx.lines
            &&& map_views(final(entries)@) == nx.entries
        }),
{
    let ghost nm = entry_map(entry_views(names@));
    let ghost tm = type_map(types@);
    let ghost e0 = map_views(entries@);
    let ind = *indent;
    let jl = base + *lines + 1;
    let e = match stmt {
        IrStmt::Assign { left, right } => {
            let l = chars_of(left.as_str());
            let line = assign_text_exec(&l, &chars_of(right.as_str()), names, types);
            push_line(out, ind, &line);
            *lines = *lines + 1;
            map_entry_exec(rpg_line, jl, "assign", &l)
        },
        IrStmt::If { cond } => {
            let c = chars_of(cond.as_str());
            let n = cond_block(out, ind, "if (", ") {", &c, names, types);
            *indent = ind + 1;
            *lines = *lines + n;
            map_entry_exec(rpg_line, jl, "if", &c)
        },
        IrStmt::Else => {
            let d = if ind >= 1 { ind - 1 } else { 0 };
            push_line(out, d, &lit("} else {"));
            *indent = d + 1;
            *lines = *lines + 1;
            map_entry_exec(rpg_line, jl, "else", &lit(""))
        },
        IrStmt::EndIf => {
            let d = if ind >= 1 { ind - 1 } else { 0 };
            let mut line: Vec<char> = Vec::new();
            line.push('}');
            push_line(out, d, &line);
            *indent = d;
            *lines = *lines + 1;
            proof {
                assert(line@ =~= seq!['}']);
            }
            map_entry_exec(rpg_line, jl, "endif", &lit(""))
        },
        IrStmt::DoUntil { cond } => {
            let c = chars_of(cond.as_str());
            let n = cond_block(out, ind, "while (!(", ")) {", &c, names, types);
            *indent = ind + 1;
            *lines = *lines + n;
            map_entry_exec(rpg_line, jl, "loop", &c)
        },
        IrStmt::EndDo => {
            let d = if ind >= 1 { ind - 1 } else { 0 };
            let mut line: Vec<char> = Vec::new();
            line.push('}');
            push_line(out, d, &line);
            *indent = d;
            *lines = *lines + 1;
            proof {
                assert(line@ =~= seq!['}']);
            }
            map_entry_exec(rpg_line, jl, "enddo", &lit(""))
        },
        IrStmt::Call { proc_name } => {
            let raw = chars_of(proc_name.as_str());
            let p = proc_ident_exec(&raw);
            insert_name(calls, &p);
            let mut line = p.clone();
            extend_str(&mut line, "();");
            push_line(out, ind, &line);
            *lines = *lines + 1;
            proof {
                let nc = calls_seq.push(p@);
                assert forall|y: Seq<char>| #![trigger in_names(views(calls@), y)] in_names(views(calls@), y) <==> in_names(nc, y) by {
                    if in_names(calls_seq, y) {
                        let i = choose|i: int| 0 <= i < calls_seq.len() && calls_seq[i] == y;
                        assert(nc[i] == y);
                    }
                    if in_names(nc, y) {
                        let i = choose|i: int| 0 <= i < nc.len() && nc[i] == y;
                        if i < calls_seq.len() {
                            assert(calls_seq[i] == y);
                        }
                    }
                    if y == p@ {
                        assert(nc[calls_seq.len() as int] == y);
                    }
                }
            }
            map_entry_exec(rpg_line, jl, "call", &raw)
        },
        IrStmt::Write { target } => {
            let raw = chars_of(target.as_str());
            let t = map_ident_exec(&raw, names);
            let mut line = lit("writeRecord(");
            extend(&mut line, &t);
            extend_str(&mut line, ");");
            push_line(out, ind, &line);
            *lines = *lines + 1;
            map_entry_exec(rpg_line, jl, "write", &raw)
        },
        IrStmt::Read { target } => {
            let raw = chars_of(target.as_str());
            let t = map_ident_exec(&raw, names);
            let mut line = lit("readRecord(");
            extend(&mut line, &t);
            extend_str(&mut line, ");");
            push_line(out, ind, &line);
            *lines = *lines + 1;
            map_entry_exec(rpg_line, jl, "read", &raw)
        },
        IrStmt::Todo { op, src } => {
            let s = chars_of(src.as_str());
            let mut line: Vec<char>;
            let note: Vec<char>;
            match op {
                Some(o) => {
                    let oc = chars_of(o.as_str());
                    line = lit("// TODO(");
                    extend(&mut line, &oc);
                    extend_str(&mut line, "): ");
                    extend(&mut line, &s);
                    note = oc;
                },
                None => {
                    line = lit("// TODO: ");
                    extend(&mut line, &s);
                    note = lit("");
                },
            }
            push_line(out, ind, &line);
            *lines = *lines + 1;
            map_entry_exec(rpg_line, jl, "todo", &note)
        },
    };
    entries.push(e);
    proof {
        assert(map_views(entries@) =~= e0.push(e@));
    }
}

proof fn lemma_emit_step_split(
    st: EmitState,
    s: IrStmtView,
    l: usize,
    base: nat,
    nm: Map<Seq<char>, Seq<char>>,
    tm: Map<Seq<char>, ValueType>,
)
    ensures
        ({
            let st0 = EmitState {
                text: Seq::<char>::empty(),
                indent: st.indent,
                calls: st.calls,
                lines: st.lines,
                entries: st.entries,
            };
            let a = emit_step(st0, s, l, base, nm, tm);
            let b = emit_step(st, s, l, base, nm, tm);
            &&& b.text == st.text + a.text
            &&& b.indent == a.indent
            &&& b.calls == a.calls
            &&& b.lines == a.lines
            &&& b.entries == a.entries
        }),
{
    let st0 = EmitState {
        text: Seq::<char>::empty(),
        indent: st.indent,
        calls: st.calls,
        lines: st.lines,
        entries: st.entries,
    };
    let a = emit_step(st0, s, l, base, nm, tm);
    let b = emit_step(st, s, l, base, nm, tm);
    assert(b.text =~= st.text + a.text);
}

/// The typed declarations of the symbols, one line each.
fn emit_decls(out: &mut Vec<char>, program: &IrProgram, nmap: &Vec<(Vec<char>, Vec<char>)>)
    ensures
        final(out)@ == old(out)@ + decl_text(
            symbol_views(program.symbols@),
            entry_map(entry_views(nmap@)),
            program.symbols@.len(),
        ),
{
    let ghost syms = symbol_views(program.symbols@);
    let ghost nm = entry_map(entry_views(nmap@));
    let ghost head = out@;
    let mut k: usize = 0;
    while k < program.symbols.len()
        invariant
            k <= program.symbols.len(),
            syms == symbol_views(program.symbols@),
            nm == entry_map(entry_views(nmap@)),
            out@ == head + decl_text(syms, nm, k as nat),
        decreases program.symbols.len() - k,
    {
        let sym = &program.symbols[k];
        proof {
            assert(syms[k as int] == sym@);
        }
        let mut line: Vec<char> = match sym.ty {
            ValueType::Number => lit("double"),
            ValueType::Text => lit("String"),
            ValueType::Bool => lit("boolean"),
            ValueType::Unknown => lit("Object"),
        };
        line.push(' ');
        let jn = map_ident_exec(&chars_of(sym.name.as_str()), nmap);
        extend(&mut line, &jn);
        match sym.ty {
            ValueType::Number => extend_str(&mut line, " = 0;"),
            ValueType::Text => extend_str(&mut line, " = \"\";"),
            ValueType::Bool => extend_str(&mut line, " = false;"),
            ValueType::Unknown => extend_str(&mut line, ";"),
        }
        push_line(out, 2, &line);
        proof {
            assert(line@ =~= java_type(sym.ty) + seq![' '] + map_ident(sym.name@, nm) + java_init(
                sym.ty,
            ));
            assert(out@ =~= head + decl_text(syms, nm, (k + 1) as nat));
        }
        k += 1;
    }
}

/// The statements of the program, from Java line `base + 1` on.
fn emit_body(
    out: &mut Vec<char>,
    indent: &mut usize,
    calls: &mut Vec<Vec<char>>,
    lines: &mut usize,
    entries: &mut Vec<SourceMapEntry>,
    program: &IrProgram,
    base: usize,
    nmap: &Vec<(Vec<char>, Vec<char>)>,
    types: &Vec<(Vec<char>, ValueType)>,
)
    requires
        *old(indent) == 2,
        old(calls)@.len() == 0,
        *old(lines) == 0,
        old(entries)@.len() == 0,
        program.statements@.len() < usize::MAX / 4,
        base < usize::MAX / 2,
    ensures
        ({
            let em = emit_upto(
                ir_views(program.statements@),
                program.statement_lines@,
                base as nat,
                entry_map(entry_views(nmap@)),
                type_map(types@),
                program.statements@.len(),
            );
            &&& final(out)@ == old(out)@ + em.text
            &&& *final(indent) as nat == em.indent
            &&& sorted_set_of(views(final(calls)@), em.calls)
            &&& *final(lines) as nat == em.lines
            &&& map_views(final(entries)@) == em.entries
        }),
{
    let ghost nm = entry_map(entry_views(nmap@));
    let ghost tm = type_map(types@);
    let ghost stmts = ir_views(program.statements@);
    let ghost slines = program.statement_lines@;
    let ghost start = out@;
    let mut k: usize = 0;
    proof {
        assert(out@ =~= start + emit_upto(stmts, slines, base as nat, nm, tm, 0).text);
        assert(sorted_set_of(views(calls@), emit_upto(stmts, slines, base as nat, nm, tm, 0).calls)) by {
            assert(views(calls@) =~= Seq::<Seq<char>>::empty());
        }
        assert(map_views(entries@) =~= Seq::<SourceMapEntryView>::empty());
    }
    while k < program.statements.len()
        invariant
            k <= program.statements.len(),
            program.statements@.len() < usize::MAX / 4,
            base < usize::MAX / 2,
            stmts == ir_views(program.statements@),
            slines == program.statement_lines@,
            nm == entry_map(entry_views(nmap@)),
            tm == type_map(types@),
            out@ == start + emit_upto(stmts, slines, base as nat, nm, tm, k as nat).text,
            *indent as nat == emit_upto(stmts, slines, base as nat, nm, tm, k as nat).indent,
            *lines as nat == emit_upto(stmts, slines, base as nat, nm, tm, k as nat).lines,
            map_views(entries@) == emit_upto(stmts, slines, base as nat, nm, tm, k as nat).entries,
            *indent <= k + 2,
            *lines <= 2 * k,
            sorted_set_of(views(calls@), emit_upto(stmts, slines, base as nat, nm, tm, k as nat).calls),
        decreases program.statements.len() - k,
    {
        let ghost prev = emit_upto(stmts, slines, base as nat, nm, tm, k as nat);
        proof {
            assert(stmts[k as int] == program.statements@[k as int]@);
            lemma_emit_upto_bounds(stmts, slines, base as nat, nm, tm, (k + 1) as nat);
        }
        let rpg_line: usize = if k < program.statement_lines.len() {
            program.statement_lines[k]
        } else {
            0
        };
        let mut piece: Vec<char> = Vec::new();
        emit_stmt(
            &mut piece,
            indent,
            calls,
            lines,
            entries,
            &program.statements[k],
            rpg_line,
            base,
            nmap,
            types,
            Ghost(prev.calls),
        );
        proof {
            assert(rpg_line == stmt_line(slines, k as int));
            lemma_emit_step_split(prev, stmts[k as int], rpg_line, base as nat, nm, tm);
        }
        let ghost o0 = out@;
        extend(out, &piece);
        proof {
            assert(out@ =~= start + emit_upto(stmts, slines, base as nat, nm, tm, (k + 1) as nat).text);
        }
        k += 1;
    }
}

/// Closes the blocks still open.
fn emit_closing(out: &mut Vec<char>, indent: usize)
    ensures
        final(out)@ == old(out)@ + closing_text(indent as nat),
{
    let ghost start = out@;
    let mut ind = indent;
    while ind > 2
        invariant
            ind <= indent,
            indent >= 2 ==> start + closing_text(indent as nat) == out@ + closing_text(ind as nat),
            indent < 2 ==> ind == indent && out@ == start,
        decreases ind,
    {
        let mut line: Vec<char> = Vec::new();
        line.push('}');
        let ghost before = out@;
        push_line(out, ind - 1, &line);
        proof {
            assert(line@ =~= seq!['}']);
            assert(before + closing_text(ind as nat) =~= out@ + closing_text((ind - 1) as nat));
        }
        ind -= 1;
    }
    proof {
        if indent >= 2 {
            assert(out@ + closing_text(ind as nat) =~= out@);
        } else {
            assert(closing_text(indent as nat) =~= Seq::<char>::empty());
            assert(start + closing_text(indent as nat) =~= out@);
        }
    }
}

/// One stub method per called procedure, then the helpers.
fn emit_methods(out: &mut Vec<char>, calls: &Vec<Vec<char>>)
    ensures
        final(out)@ == old(out)@ + method_stubs(views(calls@), calls@.len()) + java_helpers(),
{
    let ghost before_stubs = out@;
    let mut j: usize = 0;
    while j < calls.len()
        invariant
            j <= calls.len(),
            out@ == before_stubs + method_stubs(views(calls@), j as nat),
        decreases calls.len() - j,
    {
        proof {
            assert(views(calls@)[j as int] == calls@[j as int]@);
        }
        extend_str(out, "    private static void ");
        extend(out, &calls[j]);
        extend_str(out, "() {\n");
        extend_str(out, "        // TODO: migrated from CALLP\n");
        extend_str(out, "    }\n\n");
        proof {
            assert(out@ =~= before_stubs + method_stubs(views(calls@), (j + 1) as nat));
        }
        j += 1;
    }
    let ghost before_helpers = out@;
    extend_str(out, "    private static void writeRecord(Object rec) {\n");
    extend_str(out, "        // TODO: replace with repository/output adapter\n");
    extend_str(out, "    }\n");
    extend_str(out, "\n");
    extend_str(out, "    private static void readRecord(Object rec) {\n");
    extend_str(out, "        // TODO: replace with repository/input adapter\n");
    extend_str(out, "    }\n");
    extend_str(out, "\n");
    extend_str(out, "    private static boolean truthy(Object v) {\n");
    extend_str(out, "        if (v == null) return false;\n");
    extend_str(out, "        if (v instanceof Boolean) return (Boolean) v;\n");
    extend_str(out, "        if (v instanceof Number) return ((Number) v).doubleValue() != 0.0;\n");
    extend_str(out, "        return !v.toString().isBlank();\n");
    extend_str(out, "    }\n");
    extend_str(out, "}\n");
    proof {
        assert(out@ =~= before_helpers + java_helpers());
    }
}

/// The names and types of the symbols, in symbol order.
fn symbol_tables(program: &IrProgram) -> (r: (Vec<Vec<char>>, Vec<(Vec<char>, ValueType)>))
    ensures
        views(r.0@) == symbol_names(symbol_views(program.symbols@)),
        tviews(r.1@) == symbol_type_entries(symbol_views(program.symbols@)),
{
    let ghost syms = symbol_views(program.symbols@);
    let mut names: Vec<Vec<char>> = Vec::new();
    let mut types: Vec<(Vec<char>, ValueType)> = Vec::new();
    let mut k: usize = 0;
    while k < program.symbols.len()
        invariant
            k <= program.symbols.len(),
            syms == symbol_views(program.symbols@),
            views(names@) == symbol_names(syms).subrange(0, k as int),
            tviews(types@) == symbol_type_entries(syms).subrange(0, k as int),
        decreases program.symbols.len() - k,
    {
        let sym = &program.symbols[k];
        proof {
            assert(syms[k as int] == sym@);
        }
        let n = chars_of(sym.name.as_str());
        let n2 = chars_of(sym.name.as_str());
        let ghost n0 = views(names@);
        let ghost t0 = tviews(types@);
        names.push(n);
        types.push((n2, sym.ty));
        proof {
            assert(views(names@) =~= n0.push(sym.name@));
            assert(tviews(types@) =~= t0.push((sym.name@, sym.ty)));
            assert(symbol_names(syms)[k as int] == sym.name@);
            assert(symbol_type_entries(syms)[k as int] == (sym.name@, sym.ty));
            assert(views(names@) =~= symbol_names(syms).subrange(0, k + 1));
            assert(tviews(types@) =~= symbol_type_entries(syms).subrange(0, k + 1));
        }
        k += 1;
    }
    proof {
        assert(views(names@) =~= symbol_names(syms));
        assert(tviews(types@) =~= symbol_type_entries(syms));
    }
    (names, types)
}

/// Appends the Java class `class_name` for an IR program; gives where each
/// statement went, its Java lines counted in a file that starts with the
/// target line.
/// Appends the start of the class: the class and `main` lines and the declarations.
fn push_class_head(out: &mut Vec<char>, program: &IrProgram, cname: &Vec<char>, nmap: &Vec<(Vec<char>, Vec<char>)>)
    requires
        entry_map(entry_views(nmap@)) == program_names(*program, cname@),
    ensures
        final(out)@ == old(out)@ + class_head(*program, cname@),
{
    extend_str(out, "public class ");
    extend(out, &java_ident_exec(cname));
    extend_str(out, " {\n");
    extend_str(out, "    public static void main(String[] args) {\n");
    emit_decls(out, program, nmap);
    if program.symbols.len() > 0 {
        out.push('\n');
    }
    proof {
        assert(final(out)@ =~= old(out)@ + class_head(*program, cname@));
    }
}

/// Appends the Java class `class_name` for an IR program; gives where each
/// statement went, its Java lines counted in a file that starts with the
/// target line.
#[verifier::spinoff_prover]
fn push_class(out: &mut Vec<char>, program: &IrProgram, class_name: &str) -> (entries: Vec<SourceMapEntry>)
    requires
        program.statements@.len() < usize::MAX / 4,
        program.symbols@.len() < usize::MAX / 4,
    ensures
        final(out)@ == old(out)@ + java_class(*program, class_name@),
        map_views(entries@) == source_map_of(*program, class_name@),
{
    let mut text: Vec<char> = Vec::new();
    let ghost syms = symbol_views(program.symbols@);
    let (names, types) = symbol_tables(program);
    let cname = chars_of(class_name);
    let nmap = build_name_map(&names, &cname);
    let ghost nm = entry_map(entry_views(nmap@));
    let ghost tm = type_map(types@);
    proof {
        assert(nm == name_map(symbol_names(syms), taken_names(class_name@)));
        assert(nm == program_names(*program, class_name@));
        assert(tm == log_map(symbol_type_entries(syms)));
        assert(tm == program_types(*program));
    }
    push_class_head(&mut text, program, &cname, &nmap);
    let ghost after_head = text@;
    let base: usize = if program.symbols.len() > 0 {
        4 + program.symbols.len()
    } else {
        3
    };
    proof {
        assert(base as nat == body_base(program.symbols@.len()));
    }
    let mut indent: usize = 2;
    let mut calls: Vec<Vec<char>> = Vec::new();
    let mut lines: usize = 0;
    let mut entries: Vec<SourceMapEntry> = Vec::new();
    emit_body(&mut text, &mut indent, &mut calls, &mut lines, &mut entries, program, base, &nmap, &types);
    let ghost em = program_emit(*program, class_name@);
    proof {
        assert(text@ == after_head + em.text);
        assert(indent as nat == em.indent);
        assert(map_views(entries@) == em.entries);
    }
    let ghost after_body = text@;
    emit_closing(&mut text, indent);
    extend_str(&mut text, "    }\n");
    extend_str(&mut text, "\n");
    emit_methods(&mut text, &calls);
    proof {
        let procs = sorted_distinct(em.calls);
        assert(sorted_set_of(procs, em.calls));
        lemma_sorted_unique(procs, views(calls@));
        assert(text@ =~= after_body + class_tail(*program, class_name@));
        assert(text@ =~= java_class(*program, class_name@));
    }
    extend(out, &text);
    entries
}

/// The Java file for an IR program: a line naming the Java level `target`,
/// then the class `class_name`; with the Java line of each statement.
pub fn to_java_with_source_map(program: &IrProgram, class_name: &str, target: JavaTarget) -> (r: JavaOutput)
    requires
        program.statements@.len() < usize::MAX / 4,
        program.symbols@.len() < usize::MAX / 4,
    ensures
        r.java@ == java_source(*program, class_name@, target),
        map_views(r.source_map@) == source_map_of(*program, class_name@),
{
    let mut out = lit("// target=");
    extend_str(&mut out, target.as_str());
    extend_str(&mut out, "\n");
    let entries = push_class(&mut out, program, class_name);
    JavaOutput { java: string_of(&out), source_map: entries }
}

/// The Java class `class_name` for an IR program: it starts with the class line.
pub fn to_java(program: &IrProgram, class_name: &str) -> (out: String)
    requires
        program.statements@.len() < usize::MAX / 4,
        program.symbols@.len() < usize::MAX / 4,
    ensures
        out@ == java_class(*program, class_name@),
{
    let mut out: Vec<char> = Vec::new();
    let _ = push_class(&mut out, program, class_name);
    proof {
        assert(out@ =~= java_class(*program, class_name@));
    }
    string_of(&out)
}


// ------------------------------------------------------------------
// Java targets
// ------------------------------------------------------------------

/// The Java language level the generated source is meant for.
#[derive(Debug, Clone, Copy, PartialEq, Eq, Structural)]
pub enum JavaTarget {
    Java21,
    Java25Stable,
}

impl JavaTarget {
    pub open spec fn name(self) -> Seq<char> {
        match self {
            JavaTarget::Java21 => "java21"@,
            JavaTarget::Java25Stable => "java25-stable"@,
        }
    }

    pub fn as_str(self) -> (r: &'static str)
        ensures
            r@ == self.name(),
    {
        match self {
            JavaTarget::Java21 => "java21",
            JavaTarget::Java25Stable => "java25-stable",
        }
    }
}

/// The target named `v`, or the error message for an unknown name.
pub open spec fn java_target_result(v: Seq<char>) -> Result<JavaTarget, Seq<char>> {
    if v == "java21"@ {
        Ok(JavaTarget::Java21)
    } else if v == "java25-stable"@ {
        Ok(JavaTarget::Java25Stable)
    } else {
        Err("invalid --java-target '"@ + v + "', expected java21|java25-stable"@)
    }
}

pub open spec fn string_result_view<T>(r: Result<T, String>) -> Result<T, Seq<char>> {
    match r {
        Ok(t) => Ok(t),
        Err(e) => Err(e@),
    }
}

pub fn parse_java_target(value: &str) -> (r: Result<JavaTarget, String>)
    ensures
        string_result_view(r) == java_target_result(value@),
{
    let v = chars_of(value);
    if is_lit(&v, "java21") {
        Ok(JavaTarget::Java21)
    } else if is_lit(&v, "java25-stable") {
        Ok(JavaTarget::Java25Stable)
    } else {
        let mut msg = chars_of("invalid --java-target '");
        extend(&mut msg, &v);
        extend_str(&mut msg, "', expected java21|java25-stable");
        Err(string_of(&msg))
    }
}


// ------------------------------------------------------------------
// Laws of naming
// ------------------------------------------------------------------

/// A Java identifier of word characters: not empty, and not starting with a digit.
pub open spec fn is_java_identifier(s: Seq<char>) -> bool {
    &&& s.len() > 0
    &&& !is_ascii_digit(s[0])
    &&& forall|i: int| 0 <= i < s.len() ==> is_word_char(#[trigger] s[i])
}

proof fn lemma_sanitize_upto(raw: Seq<char>, k: int)
    requires
        0 <= k <= raw.len(),
    ensures
        forall|i: int| 0 <= i < sanitize_upto(raw, k).len() ==> is_word_char(#[trigger] sanitize_upto(raw, k)[i]),
        k > 0 ==> sanitize_upto(raw, k).len() > 0 && !is_ascii_digit(sanitize_upto(raw, k)[0]),
    decreases k,
{
    if k > 0 {
        lemma_sanitize_upto(raw, k - 1);
        let prev = sanitize_upto(raw, k - 1);
        let piece = sanitize_piece(raw[k - 1], k - 1);
        let cur = sanitize_upto(raw, k);
        assert(cur == prev + piece);
        assert forall|i: int| 0 <= i < cur.len() implies is_word_char(#[trigger] cur[i]) by {
            if i >= prev.len() {
                assert(cur[i] == piece[i - prev.len()]);
            } else {
                assert(cur[i] == prev[i]);
            }
        }
        if k == 1 {
            assert(prev.len() == 0);
            assert(cur[0] == piece[0]);
        } else {
            assert(cur[0] == prev[0]);
        }
    }
}

/// Every name becomes a Java identifier: word characters only, at least one,
/// and no digit first.
pub proof fn lemma_sanitize_identifier(raw: Seq<char>)
    ensures
        is_java_identifier(sanitize(raw)),
{
    lemma_sanitize_upto(raw, raw.len() as int);
    if raw.len() == 0 {
        reveal_strlit("value");
    }
}

/// A name that ends in a digit or in `_v` is no reserved word.
proof fn lemma_not_reserved_tail(s: Seq<char>)
    requires
        s.len() >= 2,
        is_ascii_digit(s.last()) || (s[s.len() - 2] == '_' && s.last() == 'v'),
    ensures
        !is_reserved(s),
{
    reveal_strlit("abstract");
    reveal_strlit("assert");
    reveal_strlit("boolean");
    reveal_strlit("break");
    reveal_strlit("byte");
    reveal_strlit("case");
    reveal_strlit("catch");
    reveal_strlit("char");
    reveal_strlit("class");
    reveal_strlit("const");
    reveal_strlit("continue");
    reveal_strlit("default");
    reveal_strlit("do");
    reveal_strlit("double");
    reveal_strlit("else");
    reveal_strlit("enum");
    reveal_strlit("extends");
    reveal_strlit("final");
    reveal_strlit("finally");
    reveal_strlit("float");
    reveal_strlit("for");
    reveal_strlit("goto");
    reveal_strlit("if");
    reveal_strlit("implements");
    reveal_strlit("import");
    reveal_strlit("instanceof");
    reveal_strlit("int");
    reveal_strlit("interface");
    reveal_strlit("long");
    reveal_strlit("native");
    reveal_strlit("new");
    reveal_strlit("package");
    reveal_strlit("private");
    reveal_strlit("protected");
    reveal_strlit("public");
    reveal_strlit("return");
    reveal_strlit("short");
    reveal_strlit("static");
    reveal_strlit("strictfp");
    reveal_strlit("super");
    reveal_strlit("switch");
    reveal_strlit("synchronized");
    reveal_strlit("this");
    reveal_strlit("throw");
    reveal_strlit("throws");
    reveal_strlit("transient");
    reveal_strlit("try");
    reveal_strlit("void");
    reveal_strlit("volatile");
    reveal_strlit("while");
    reveal_strlit("true");
    reveal_strlit("false");
    reveal_strlit("null");
    reveal_strlit("_");
}

proof fn lemma_not_reserved_ue(s: Seq<char>)
    requires
        s.len() == 9,
        s[7] == 'u',
        s[8] == 'e',
    ensures
        !is_reserved(s),
{
    reveal_strlit("abstract");
    reveal_strlit("assert");
    reveal_strlit("boolean");
    reveal_strlit("break");
    reveal_strlit("byte");
    reveal_strlit("case");
    reveal_strlit("catch");
    reveal_strlit("char");
    reveal_strlit("class");
    reveal_strlit("const");
    reveal_strlit("continue");
    reveal_strlit("default");
    reveal_strlit("do");
    reveal_strlit("double");
    reveal_strlit("else");
    reveal_strlit("enum");
    reveal_strlit("extends");
    reveal_strlit("final");
    reveal_strlit("finally");
    reveal_strlit("float");
    reveal_strlit("for");
    reveal_strlit("goto");
    reveal_strlit("if");
    reveal_strlit("implements");
    reveal_strlit("import");
    reveal_strlit("instanceof");
    reveal_strlit("int");
    reveal_strlit("interface");
    reveal_strlit("long");
    reveal_strlit("native");
    reveal_strlit("new");
    reveal_strlit("package");
    reveal_strlit("private");
    reveal_strlit("protected");
    reveal_strlit("public");
    reveal_strlit("return");
    reveal_strlit("short");
    reveal_strlit("static");
    reveal_strlit("strictfp");
    reveal_strlit("super");
    reveal_strlit("switch");
    reveal_strlit("synchronized");
    reveal_strlit("this");
    reveal_strlit("throw");
    reveal_strlit("throws");
    reveal_strlit("transient");
    reveal_strlit("try");
    reveal_strlit("void");
    reveal_strlit("volatile");
    reveal_strlit("while");
    reveal_strlit("true");
    reveal_strlit("false");
    reveal_strlit("null");
    reveal_strlit("_");
}

proof fn lemma_main_value_not_reserved()
    ensures
        !is_reserved("mainValue"@),
{
    reveal_strlit("mainValue");
    lemma_not_reserved_ue("mainValue"@);
}

/// A name that Java accepts for a variable, a method or a class.
pub open spec fn is_legal_java_name(s: Seq<char>) -> bool {
    is_java_identifier(s) && !is_reserved(s)
}

proof fn lemma_java_ident_legal(raw: Seq<char>)
    ensures
        is_legal_java_name(java_ident(raw)),
        is_legal_java_name(proc_ident(raw)),
        is_legal_java_name(base_name(raw)),
{
    lemma_sanitize_identifier(raw);
    let s = sanitize(raw);
    reveal_strlit("_v");
    reveal_strlit("_2");
    reveal_strlit("mainValue");
    if is_reserved(s) {
        let j = s + "_v"@;
        assert(j[j.len() - 2] == '_' && j.last() == 'v');
        lemma_not_reserved_tail(j);
        assert forall|i: int| 0 <= i < j.len() implies is_word_char(#[trigger] j[i]) by {
            if i < s.len() {
                assert(j[i] == s[i]);
            }
        }
        assert(j[0] == s[0]);
    }
    let b = java_ident(raw);
    if b == "main"@ || b == "writeRecord"@ || b == "readRecord"@ || b == "truthy"@ {
        let p = b + "_2"@;
        assert(is_ascii_digit(p.last()));
        lemma_not_reserved_tail(p);
        assert forall|i: int| 0 <= i < p.len() implies is_word_char(#[trigger] p[i]) by {
            if i < b.len() {
                assert(p[i] == b[i]);
            }
        }
        assert(p[0] == b[0]);
    }
    lemma_main_value_not_reserved();
}

proof fn lemma_decimal_digits(n: nat)
    ensures
        decimal(n).len() > 0,
        forall|i: int| 0 <= i < decimal(n).len() ==> is_ascii_digit(#[trigger] decimal(n)[i]),
    decreases n,
{
    if n >= 10 {
        lemma_decimal_digits(n / 10);
        let d = decimal(n / 10);
        assert forall|i: int| 0 <= i < decimal(n).len() implies is_ascii_digit(#[trigger] decimal(n)[i]) by {
            if i < d.len() {
                assert(decimal(n)[i] == d[i]);
            }
        }
    }
}

proof fn lemma_candidate_legal(base: Seq<char>, n: nat)
    requires
        is_legal_java_name(base),
    ensures
        is_legal_java_name(candidate(base, n)),
{
    if n > 1 {
        lemma_decimal_digits(n);
        let c = candidate(base, n);
        let d = decimal(n);
        assert(c == base + seq!['_'] + d);
        assert(c.last() == d.last());
        lemma_not_reserved_tail(c);
        assert forall|i: int| 0 <= i < c.len() implies is_word_char(#[trigger] c[i]) by {
            if i < base.len() {
                assert(c[i] == base[i]);
            } else if i > base.len() {
                assert(c[i] == d[i - base.len() - 1]);
            }
        }
        assert(c[0] == base[0]);
    }
}

proof fn lemma_name_entries_legal(names: Seq<Seq<char>>, init: Seq<Seq<char>>, k: nat)
    ensures
        forall|i: int|
            0 <= i < name_entries(names, init, k).0.len() ==> is_legal_java_name(
                #[trigger] name_entries(names, init, k).0[i].1,
            ),
    decreases k,
{
    if k > 0 && k <= names.len() {
        lemma_name_entries_legal(names, init, (k - 1) as nat);
        let (e, used) = name_entries(names, init, (k - 1) as nat);
        let b = base_name(names[k - 1]);
        lemma_java_ident_legal(names[k - 1]);
        lemma_candidate_legal(b, first_free(b, used));
        let e2 = name_entries(names, init, k).0;
        assert forall|i: int| 0 <= i < e2.len() implies is_legal_java_name(#[trigger] e2[i].1) by {
            if i < e.len() {
                assert(e2[i] == e[i]);
            }
        }
    }
}

proof fn lemma_entry_map_legal(e: Seq<(Seq<char>, Seq<char>)>)
    requires
        forall|i: int| 0 <= i < e.len() ==> is_legal_java_name(#[trigger] e[i].1),
    ensures
        forall|x: Seq<char>| #[trigger] entry_map(e).dom().contains(x) ==> is_legal_java_name(entry_map(e)[x]),
    decreases e.len(),
{
    if e.len() > 0 {
        assert forall|i: int| 0 <= i < e.drop_last().len() implies is_legal_java_name(#[trigger] e.drop_last()[i].1) by {
            assert(e.drop_last()[i] == e[i]);
        }
        lemma_entry_map_legal(e.drop_last());
        let m = entry_map(e);
        let m0 = entry_map(e.drop_last());
        assert(is_legal_java_name(e[e.len() - 1].1));
        assert forall|x: Seq<char>| #[trigger] m.dom().contains(x) implies is_legal_java_name(m[x]) by {
            if x != e.last().0 {
                assert(m0.dom().contains(x));
            }
        }
    }
}

/// Every name in the Java of a program is one that Java accepts: the class
/// name, the name of every symbol and every name an expression uses, and the
/// name of every called procedure; none of them is a reserved word.
pub proof fn lemma_java_names_legal(ir: IrProgram, class_name: Seq<char>, raw: Seq<char>)
    ensures
        is_legal_java_name(java_ident(class_name)),
        is_legal_java_name(proc_ident(raw)),
        is_legal_java_name(map_ident(raw, program_names(ir, class_name))),
        forall|x: Seq<char>|
            #[trigger] program_names(ir, class_name).dom().contains(x) ==> is_legal_java_name(
                program_names(ir, class_name)[x],
            ),
{
    let names = symbol_names(symbol_views(ir.symbols@));
    let init = taken_names(class_name);
    lemma_name_entries_legal(names, init, names.len());
    lemma_entry_map_legal(name_entries(names, init, names.len()).0);
    lemma_java_ident_legal(class_name);
    lemma_java_ident_legal(raw);
}

proof fn lemma_first_free_from(base: Seq<char>, used: Seq<Seq<char>>, i: nat, m: nat)
    requires
        1 <= i <= m,
        !used.contains(candidate(base, m)),
        forall|j: nat| 1 <= j < i ==> used.contains(#[trigger] candidate(base, j)),
    ensures
        is_first_free(base, used, first_free(base, used)),
    decreases m - i,
{
    if !used.contains(candidate(base, i)) {
        assert(is_first_free(base, used, i));
    } else {
        assert forall|j: nat| 1 <= j < i + 1 implies used.contains(#[trigger] candidate(base, j)) by {}
        lemma_first_free_from(base, used, i + 1, m);
    }
}

/// Among the candidates for a base, one is free.
proof fn lemma_first_free_exists(base: Seq<char>, used: Seq<Seq<char>>)
    ensures
        is_first_free(base, used, first_free(base, used)),
{
    let n = used.len();
    let r = Seq::new(n + 1, |i: int| candidate(base, (i + 1) as nat));
    assert forall|i: int, j: int| 0 <= i < r.len() && 0 <= j < r.len() && i != j implies r[i] != r[j] by {
        if r[i] == r[j] {
            lemma_candidate_inj(base, (i + 1) as nat, (j + 1) as nat);
        }
    }
    if forall|i: int| 0 <= i < r.len() ==> used.contains(#[trigger] r[i]) {
        lemma_pigeonhole(r, used);
        assert(false);
    }
    let k = choose|i: int| 0 <= i < r.len() && !used.contains(#[trigger] r[i]);
    lemma_first_free_from(base, used, 1, (k + 1) as nat);
}

proof fn lemma_candidate_not_main(base: Seq<char>, n: nat)
    requires
        base != "main"@,
    ensures
        candidate(base, n) != "main"@,
{
    reveal_strlit("main");
    if n > 1 {
        let c = candidate(base, n);
        assert(c[base.len() as int] == '_');
        assert(forall|i: int| 0 <= i < 4 ==> "main"@[i] != '_');
        if c == "main"@ {
            lemma_decimal_len(n);
            assert(c.len() == base.len() + 1 + decimal(n).len());
            assert("main"@.len() == 4);
            assert(base.len() < 4);
            assert(c[base.len() as int] != '_');
        }
    }
}

/// The symbols get pairwise distinct Java names; none of them is `main` or
/// one of the names taken from the start (the class name and `args`).
pub proof fn lemma_java_names_distinct(names: Seq<Seq<char>>, init: Seq<Seq<char>>, k: nat)
    requires
        k <= names.len(),
    ensures
        name_entries(names, init, k).1.len() == init.len() + k,
        name_entries(names, init, k).1.subrange(0, init.len() as int) == init,
        name_entries(names, init, k).0.len() == k,
        forall|i: int|
            0 <= i < k ==> (#[trigger] name_entries(names, init, k).0[i]) == (
                names[i],
                name_entries(names, init, k).1[init.len() + i],
            ),
        forall|i: int, j: int|
            init.len() <= i < name_entries(names, init, k).1.len() && 0 <= j < name_entries(names, init, k).1.len()
                && i != j ==> name_entries(names, init, k).1[i] != name_entries(names, init, k).1[j],
        forall|i: int|
            init.len() <= i < name_entries(names, init, k).1.len() ==> #[trigger] name_entries(names, init, k).1[i]
                != "main"@,
    decreases k,
{
    if k > 0 {
        lemma_java_names_distinct(names, init, (k - 1) as nat);
        let (e, used) = name_entries(names, init, (k - 1) as nat);
        let b = base_name(names[k - 1]);
        lemma_first_free_exists(b, used);
        let n = first_free(b, used);
        let c = candidate(b, n);
        reveal_strlit("main");
        reveal_strlit("mainValue");
        assert(b != "main"@);
        lemma_candidate_not_main(b, n);
        let u2 = used.push(c);
        assert(u2.subrange(0, init.len() as int) =~= used.subrange(0, init.len() as int));
        assert forall|i: int, j: int| init.len() <= i < u2.len() && 0 <= j < u2.len() && i != j implies u2[i] != u2[j] by {
            if i == used.len() {
                assert(u2[j] == used[j]);
                if u2[i] == u2[j] {
                    assert(used.contains(c));
                }
            } else if j == used.len() {
                assert(u2[i] == used[i]);
                if u2[i] == u2[j] {
                    assert(used.contains(c));
                }
            } else {
                assert(u2[i] == used[i] && u2[j] == used[j]);
            }
        }
        assert forall|i: int| init.len() <= i < u2.len() implies #[trigger] u2[i] != "main"@ by {
            if i < used.len() {
                assert(u2[i] == used[i]);
            }
        }
        let e2 = e.push((names[k - 1], c));
        assert forall|i: int| 0 <= i < k implies (#[trigger] e2[i]) == (names[i], u2[init.len() + i]) by {
            if i < k - 1 {
                assert(e2[i] == e[i]);
                assert(u2[init.len() + i] == used[init.len() + i]);
            }
        }
    }
}


// ------------------------------------------------------------------
// Laws of the generated class
// ------------------------------------------------------------------

/// `x` inserted before the first name that comes after it (unless it is there).
pub open spec fn insert_sorted_name(l: Seq<Seq<char>>, x: Seq<char>) -> Seq<Seq<char>>
    decreases l.len(),
{
    if l.len() == 0 {
        seq![x]
    } else if l[0] == x {
        l
    } else if seq_lt(x, l[0]) {
        seq![x] + l
    } else {
        seq![l[0]] + insert_sorted_name(l.drop_first(), x)
    }
}

proof fn lemma_insert_sorted_name(l: Seq<Seq<char>>, x: Seq<char>)
    requires
        sorted_names(l),
    ensures
        sorted_names(insert_sorted_name(l, x)),
        forall|y: Seq<char>| #![trigger in_names(insert_sorted_name(l, x), y)]
            in_names(insert_sorted_name(l, x), y) <==> (in_names(l, y) || y == x),
    decreases l.len(),
{
    let r = insert_sorted_name(l, x);
    if l.len() == 0 {
        assert forall|y: Seq<char>| #![trigger in_names(r, y)] in_names(r, y) <==> (in_names(l, y) || y == x) by {
            if y == x {
                assert(r[0] == x);
            }
        }
    } else if l[0] == x {
        assert forall|y: Seq<char>| #![trigger in_names(r, y)] in_names(r, y) <==> (in_names(l, y) || y == x) by {
            if y == x {
                assert(l[0] == y);
            }
        }
    } else if seq_lt(x, l[0]) {
        assert forall|i: int, j: int| 0 <= i < j < r.len() implies seq_lt(r[i], r[j]) by {
            if i == 0 {
                if j > 1 {
                    lemma_seq_lt_trans(x, l[0], l[j - 1]);
                }
            } else {
                assert(r[i] == l[i - 1] && r[j] == l[j - 1]);
            }
        }
        assert forall|y: Seq<char>| #![trigger in_names(r, y)] in_names(r, y) <==> (in_names(l, y) || y == x) by {
            if in_names(r, y) {
                let k = choose|k: int| 0 <= k < r.len() && r[k] == y;
                if k > 0 {
                    assert(l[k - 1] == y);
                }
            }
            if in_names(l, y) {
                let k = choose|k: int| 0 <= k < l.len() && l[k] == y;
                assert(r[k + 1] == y);
            }
            if y == x {
                assert(r[0] == y);
            }
        }
    } else {
        let rest = l.drop_first();
        assert forall|i: int, j: int| 0 <= i < j < rest.len() implies seq_lt(rest[i], rest[j]) by {
            assert(rest[i] == l[i + 1] && rest[j] == l[j + 1]);
        }
        lemma_insert_sorted_name(rest, x);
        let ir = insert_sorted_name(rest, x);
        lemma_seq_lt_total(x, l[0]);
        assert(r == seq![l[0]] + ir);
        assert forall|i: int, j: int| 0 <= i < j < r.len() implies seq_lt(r[i], r[j]) by {
            assert(r[j] == ir[j - 1]);
            if i == 0 {
                assert(in_names(ir, ir[j - 1]));
                if ir[j - 1] != x {
                    assert(in_names(rest, ir[j - 1]));
                    let k = choose|k: int| 0 <= k < rest.len() && rest[k] == ir[j - 1];
                    assert(rest[k] == l[k + 1]);
                }
            } else {
                assert(r[i] == ir[i - 1]);
            }
        }
        assert forall|y: Seq<char>| #![trigger in_names(r, y)] in_names(r, y) <==> (in_names(l, y) || y == x) by {
            if in_names(r, y) {
                let k = choose|k: int| 0 <= k < r.len() && r[k] == y;
                if k == 0 {
                    assert(l[0] == y);
                } else {
                    assert(in_names(ir, y) && ir[k - 1] == y);
                    if in_names(rest, y) {
                        let m = choose|m: int| 0 <= m < rest.len() && rest[m] == y;
                        assert(l[m + 1] == y);
                    }
                }
            }
            if in_names(l, y) {
                let k = choose|k: int| 0 <= k < l.len() && l[k] == y;
                if k == 0 {
                    assert(r[0] == y);
                } else {
                    assert(rest[k - 1] == y);
                    assert(in_names(rest, y));
                    assert(in_names(ir, y));
                    let m = choose|m: int| 0 <= m < ir.len() && ir[m] == y;
                    assert(r[m + 1] == y);
                }
            }
            if y == x {
                assert(in_names(ir, y));
                let m = choose|m: int| 0 <= m < ir.len() && ir[m] == y;
                assert(r[m + 1] == y);
            }
        }
    }
}

/// The sorted names of the first `k` entries of `s`, each once.
pub open spec fn sorted_names_upto(s: Seq<Seq<char>>, k: nat) -> Seq<Seq<char>>
    decreases k,
{
    if k == 0 || k > s.len() {
        seq![]
    } else {
        insert_sorted_name(sorted_names_upto(s, (k - 1) as nat), s[k - 1])
    }
}

proof fn lemma_sorted_names_upto(s: Seq<Seq<char>>, k: nat)
    requires
        k <= s.len(),
    ensures
        sorted_names(sorted_names_upto(s, k)),
        forall|y: Seq<char>| #![trigger in_names(sorted_names_upto(s, k), y)]
            in_names(sorted_names_upto(s, k), y) <==> in_names(s.take(k as int), y),
    decreases k,
{
    if k > 0 {
        lemma_sorted_names_upto(s, (k - 1) as nat);
        lemma_insert_sorted_name(sorted_names_upto(s, (k - 1) as nat), s[k - 1]);
        let cur = sorted_names_upto(s, k);
        assert forall|y: Seq<char>| #![trigger in_names(cur, y)] in_names(cur, y) <==> in_names(s.take(k as int), y) by {
            let pre = s.take(k - 1);
            let now = s.take(k as int);
            if in_names(pre, y) {
                let m = choose|m: int| 0 <= m < pre.len() && pre[m] == y;
                assert(now[m] == y);
            }
            if in_names(now, y) {
                let m = choose|m: int| 0 <= m < now.len() && now[m] == y;
                if m < k - 1 {
                    assert(pre[m] == y);
                }
            }
            if y == s[k - 1] {
                assert(now[k - 1] == y);
            }
        }
    } else {
        assert forall|y: Seq<char>| #![trigger in_names(sorted_names_upto(s, k), y)]
            in_names(sorted_names_upto(s, k), y) <==> in_names(s.take(k as int), y) by {}
    }
}

proof fn lemma_sorted_distinct(calls: Seq<Seq<char>>)
    ensures
        sorted_set_of(sorted_distinct(calls), calls),
{
    lemma_sorted_names_upto(calls, calls.len());
    assert(calls.take(calls.len() as int) =~= calls);
    let w = sorted_names_upto(calls, calls.len());
    assert(sorted_set_of(w, calls));
}


/// The procedures that the statements of a program call, in order of the calls.
pub open spec fn program_calls(ir: IrProgram, class_name: Seq<char>) -> Seq<Seq<char>> {
    program_emit(ir, class_name).calls
}

/// Every procedure that the program calls gets exactly one stub method in the
/// generated class, and the stubs come in name order.
pub proof fn lemma_call_stubs(ir: IrProgram, class_name: Seq<char>)
    ensures
        sorted_set_of(sorted_distinct(program_calls(ir, class_name)), program_calls(ir, class_name)),
{
    lemma_sorted_distinct(program_calls(ir, class_name));
}


/// The RPG operator words that expressions are written with.
pub open spec fn rpg_operators() -> Seq<Seq<char>> {
    seq![
        " *EQ "@,
        " *NE "@,
        " *GT "@,
        " *LT "@,
        " *GE "@,
        " *LE "@,
        " *AND "@,
        " *OR "@,
        " *CAT "@,
    ]
}

/// Their Java operators, in the same order.
pub open spec fn java_operators() -> Seq<Seq<char>> {
    seq![
        " == "@,
        " != "@,
        " > "@,
        " < "@,
        " >= "@,
        " <= "@,
        " && "@,
        " || "@,
        " + "@,
    ]
}

/// Normalising an expression turns an RPG operator word between two
/// operands into its Java operator (`*EQ` into `==`, `*NE` into `!=`, `*GT`,
/// `*LT`, `*GE` and `*LE` into `>`, `<`, `>=` and `<=`, `*AND` into `&&`,
/// `*OR` into `||`, `*CAT` into `+`), when the operands hold no `*`.
pub proof fn lemma_normalize_operator(a: Seq<char>, b: Seq<char>, k: int)
    requires
        star_free(a),
        star_free(b),
        0 <= k < rpg_operators().len(),
    ensures
        rpg_operators().len() == java_operators().len(),
        normalize_expr(a + rpg_operators()[k] + b) == a + java_operators()[k] + b,
{
    reveal_strlit(" *EQ ");
    reveal_strlit(" == ");
    reveal_strlit(" *NE ");
    reveal_strlit(" != ");
    reveal_strlit(" *GT ");
    reveal_strlit(" > ");
    reveal_strlit(" *LT ");
    reveal_strlit(" < ");
    reveal_strlit(" *GE ");
    reveal_strlit(" >= ");
    reveal_strlit(" *LE ");
    reveal_strlit(" <= ");
    reveal_strlit(" *AND ");
    reveal_strlit(" && ");
    reveal_strlit(" *OR ");
    reveal_strlit(" || ");
    reveal_strlit(" *CAT ");
    reveal_strlit(" + ");
    let g = rpg_operators()[k];
    assert(starred_word(g));
    assert(" *EQ "@[1] != " == "@[1]);
    assert(" *EQ "@[1] != " != "@[1]);
    assert(" *EQ "@[1] != " > "@[1]);
    assert(" *EQ "@[1] != " < "@[1]);
    assert(" *EQ "@[1] != " >= "@[1]);
    assert(" *EQ "@[1] != " <= "@[1]);
    assert(" *EQ "@[1] != " && "@[1]);
    assert(" *EQ "@[1] != " || "@[1]);
    assert(" *EQ "@[1] != " + "@[1]);
    assert(" *NE "@[1] != " == "@[1]);
    assert(" *NE "@[1] != " != "@[1]);
    assert(" *NE "@[1] != " > "@[1]);
    assert(" *NE "@[1] != " < "@[1]);
    assert(" *NE "@[1] != " >= "@[1]);
    assert(" *NE "@[1] != " <= "@[1]);
    assert(" *NE "@[1] != " && "@[1]);
    assert(" *NE "@[1] != " || "@[1]);
    assert(" *NE "@[1] != " + "@[1]);
    assert(" *GT "@[1] != " == "@[1]);
    assert(" *GT "@[1] != " != "@[1]);
    assert(" *GT "@[1] != " > "@[1]);
    assert(" *GT "@[1] != " < "@[1]);
    assert(" *GT "@[1] != " >= "@[1]);
    assert(" *GT "@[1] != " <= "@[1]);
    assert(" *GT "@[1] != " && "@[1]);
    assert(" *GT "@[1] != " || "@[1]);
    assert(" *GT "@[1] != " + "@[1]);
    assert(" *LT "@[1] != " == "@[1]);
    assert(" *LT "@[1] != " != "@[1]);
    assert(" *LT "@[1] != " > "@[1]);
    assert(" *LT "@[1] != " < "@[1]);
    assert(" *LT "@[1] != " >= "@[1]);
    assert(" *LT "@[1] != " <= "@[1]);
    assert(" *LT "@[1] != " && "@[1]);
    assert(" *LT "@[1] != " || "@[1]);
    assert(" *LT "@[1] != " + "@[1]);
    assert(" *GE "@[1] != " == "@[1]);
    assert(" *GE "@[1] != " != "@[1]);
    assert(" *GE "@[1] != " > "@[1]);
    assert(" *GE "@[1] != " < "@[1]);
    assert(" *GE "@[1] != " >= "@[1]);
    assert(" *GE "@[1] != " <= "@[1]);
    assert(" *GE "@[1] != " && "@[1]);
    assert(" *GE "@[1] != " || "@[1]);
    assert(" *GE "@[1] != " + "@[1]);
    assert(" *LE "@[1] != " == "@[1]);
    assert(" *LE "@[1] != " != "@[1]);
    assert(" *LE "@[1] != " > "@[1]);
    assert(" *LE "@[1] != " < "@[1]);
    assert(" *LE "@[1] != " >= "@[1]);
    assert(" *LE "@[1] != " <= "@[1]);
    assert(" *LE "@[1] != " && "@[1]);
    assert(" *LE "@[1] != " || "@[1]);
    assert(" *LE "@[1] != " + "@[1]);
    assert(" *AND "@[1] != " == "@[1]);
    assert(" *AND "@[1] != " != "@[1]);
    assert(" *AND "@[1] != " > "@[1]);
    assert(" *AND "@[1] != " < "@[1]);
    assert(" *AND "@[1] != " >= "@[1]);
    assert(" *AND "@[1] != " <= "@[1]);
    assert(" *AND "@[1] != " && "@[1]);
    assert(" *AND "@[1] != " || "@[1]);
    assert(" *AND "@[1] != " + "@[1]);
    assert(" *OR "@[1] != " == "@[1]);
    assert(" *OR "@[1] != " != "@[1]);
    assert(" *OR "@[1] != " > "@[1]);
    assert(" *OR "@[1] != " < "@[1]);
    assert(" *OR "@[1] != " >= "@[1]);
    assert(" *OR "@[1] != " <= "@[1]);
    assert(" *OR "@[1] != " && "@[1]);
    assert(" *OR "@[1] != " || "@[1]);
    assert(" *OR "@[1] != " + "@[1]);
    assert(" *CAT "@[1] != " == "@[1]);
    assert(" *CAT "@[1] != " != "@[1]);
    assert(" *CAT "@[1] != " > "@[1]);
    assert(" *CAT "@[1] != " < "@[1]);
    assert(" *CAT "@[1] != " >= "@[1]);
    assert(" *CAT "@[1] != " <= "@[1]);
    assert(" *CAT "@[1] != " && "@[1]);
    assert(" *CAT "@[1] != " || "@[1]);
    assert(" *CAT "@[1] != " + "@[1]);
    assert(" *EQ "@[2] != " *NE "@[2]);
    assert(" *EQ "@[2] != " *GT "@[2]);
    assert(" *EQ "@[2] != " *LT "@[2]);
    assert(" *EQ "@[2] != " *GE "@[2]);
    assert(" *EQ "@[2] != " *LE "@[2]);
    assert(" *EQ "@[2] != " *AND "@[2]);
    assert(" *EQ "@[2] != " *OR "@[2]);
    assert(" *EQ "@[2] != " *CAT "@[2]);
    assert(" *NE "@[2] != " *GT "@[2]);
    assert(" *NE "@[2] != " *LT "@[2]);
    assert(" *NE "@[2] != " *GE "@[2]);
    assert(" *NE "@[2] != " *LE "@[2]);
    assert(" *NE "@[2] != " *AND "@[2]);
    assert(" *NE "@[2] != " *OR "@[2]);
    assert(" *NE "@[2] != " *CAT "@[2]);
    assert(" *GT "@[2] != " *LT "@[2]);
    assert(" *GT "@[3] != " *GE "@[3]);
    assert(" *GT "@[2] != " *LE "@[2]);
    assert(" *GT "@[2] != " *AND "@[2]);
    assert(" *GT "@[2] != " *OR "@[2]);
    assert(" *GT "@[2] != " *CAT "@[2]);
    assert(" *LT "@[2] != " *GE "@[2]);
    assert(" *LT "@[3] != " *LE "@[3]);
    assert(" *LT "@[2] != " *AND "@[2]);
    assert(" *LT "@[2] != " *OR "@[2]);
    assert(" *LT "@[2] != " *CAT "@[2]);
    assert(" *GE "@[2] != " *LE "@[2]);
    assert(" *GE "@[2] != " *AND "@[2]);
    assert(" *GE "@[2] != " *OR "@[2]);
    assert(" *GE "@[2] != " *CAT "@[2]);
    assert(" *LE "@[2] != " *AND "@[2]);
    assert(" *LE "@[2] != " *OR "@[2]);
    assert(" *LE "@[2] != " *CAT "@[2]);
    assert(" *AND "@[2] != " *OR "@[2]);
    assert(" *AND "@[2] != " *CAT "@[2]);
    assert(" *OR "@[2] != " *CAT "@[2]);
    let m1 = if g == " *EQ "@ { " == "@ } else { g };
    lemma_replace_middle(a, g, b, " *EQ "@, " == "@);
    let m2 = if m1 == " *NE "@ { " != "@ } else { m1 };
    lemma_replace_middle(a, m1, b, " *NE "@, " != "@);
    let m3 = if m2 == " *GT "@ { " > "@ } else { m2 };
    lemma_replace_middle(a, m2, b, " *GT "@, " > "@);
    let m4 = if m3 == " *LT "@ { " < "@ } else { m3 };
    lemma_replace_middle(a, m3, b, " *LT "@, " < "@);
    let m5 = if m4 == " *GE "@ { " >= "@ } else { m4 };
    lemma_replace_middle(a, m4, b, " *GE "@, " >= "@);
    let m6 = if m5 == " *LE "@ { " <= "@ } else { m5 };
    lemma_replace_middle(a, m5, b, " *LE "@, " <= "@);
    let m7 = if m6 == " *AND "@ { " && "@ } else { m6 };
    lemma_replace_middle(a, m6, b, " *AND "@, " && "@);
    let m8 = if m7 == " *OR "@ { " || "@ } else { m7 };
    lemma_replace_middle(a, m7, b, " *OR "@, " || "@);
    let m9 = if m8 == " *CAT "@ { " + "@ } else { m8 };
    lemma_replace_middle(a, m8, b, " *CAT "@, " + "@);
    assert(m9 == java_operators()[k]);
}
} // verus!
