//! Character-level text primitives with their specifications.
//!
//! Text is modelled as `Seq<char>`; executable code works on `Vec<char>`
//! and converts to and from `String` / `&str` at the edges.
use vstd::prelude::*;

verus! {

// ------------------------------------------------------------------
// Character classes
// ------------------------------------------------------------------

pub open spec fn is_ascii_digit(c: char) -> bool {
    '0' <= c && c <= '9'
}

pub open spec fn is_ascii_upper(c: char) -> bool {
    'A' <= c && c <= 'Z'
}

pub open spec fn is_ascii_lower(c: char) -> bool {
    'a' <= c && c <= 'z'
}

pub open spec fn is_ascii_alpha(c: char) -> bool {
    is_ascii_upper(c) || is_ascii_lower(c)
}

pub open spec fn is_ascii_alnum(c: char) -> bool {
    is_ascii_alpha(c) || is_ascii_digit(c)
}

/// `[A-Za-z0-9_]`
pub open spec fn is_word_char(c: char) -> bool {
    is_ascii_alnum(c) || c == '_'
}

/// ASCII whitespace as `char::is_ascii_whitespace` documents it:
/// space, tab, line feed, form feed and carriage return.
pub open spec fn is_ascii_ws(c: char) -> bool {
    c == ' ' || c == '\t' || c == '\n' || c == '\x0C' || c == '\r'
}

/// Unicode `White_Space`, the set that `char::is_whitespace` documents.
pub open spec fn is_ws(c: char) -> bool {
    ('\t' <= c && c <= '\r') || c == ' ' || c == '\u{85}' || c == '\u{A0}' || c == '\u{1680}'
        || ('\u{2000}' <= c && c <= '\u{200A}') || c == '\u{2028}' || c == '\u{2029}'
        || c == '\u{202F}' || c == '\u{205F}' || c == '\u{3000}'
}

pub open spec fn upper_char(c: char) -> char {
    if is_ascii_lower(c) {
        ((c as u32) - 32) as char
    } else {
        c
    }
}

pub open spec fn lower_char(c: char) -> char {
    if is_ascii_upper(c) {
        ((c as u32) + 32) as char
    } else {
        c
    }
}

pub fn char_is_ascii_digit(c: char) -> (r: bool)
    ensures
        r == is_ascii_digit(c),
{
    '0' <= c && c <= '9'
}

pub fn char_is_ascii_alpha(c: char) -> (r: bool)
    ensures
        r == is_ascii_alpha(c),
{
    ('A' <= c && c <= 'Z') || ('a' <= c && c <= 'z')
}

pub fn char_is_ascii_alnum(c: char) -> (r: bool)
    ensures
        r == is_ascii_alnum(c),
{
    char_is_ascii_alpha(c) || char_is_ascii_digit(c)
}

pub fn char_is_word(c: char) -> (r: bool)
    ensures
        r == is_word_char(c),
{
    char_is_ascii_alnum(c) || c == '_'
}

pub fn char_is_ascii_ws(c: char) -> (r: bool)
    ensures
        r == is_ascii_ws(c),
{
    c == ' ' || c == '\t' || c == '\n' || c == '\x0C' || c == '\r'
}

pub fn char_is_ws(c: char) -> (r: bool)
    ensures
        r == is_ws(c),
{
    ('\t' <= c && c <= '\r') || c == ' ' || c == '\u{85}' || c == '\u{A0}' || c == '\u{1680}'
        || ('\u{2000}' <= c && c <= '\u{200A}') || c == '\u{2028}' || c == '\u{2029}'
        || c == '\u{202F}' || c == '\u{205F}' || c == '\u{3000}'
}

pub fn char_upper(c: char) -> (r: char)
    ensures
        r == upper_char(c),
{
    if 'a' <= c && c <= 'z' {
        let b: u8 = c as u8;
        (b - 32) as char
    } else {
        c
    }
}

pub fn char_lower(c: char) -> (r: char)
    ensures
        r == lower_char(c),
{
    if 'A' <= c && c <= 'Z' {
        let b: u8 = c as u8;
        (b + 32) as char
    } else {
        c
    }
}

// ------------------------------------------------------------------
// Whole-sequence predicates and maps
// ------------------------------------------------------------------

pub open spec fn upper(s: Seq<char>) -> Seq<char> {
    Seq::new(s.len(), |i: int| upper_char(s[i]))
}

pub open spec fn lower(s: Seq<char>) -> Seq<char> {
    Seq::new(s.len(), |i: int| lower_char(s[i]))
}

pub open spec fn all_digits(s: Seq<char>) -> bool {
    forall|i: int| 0 <= i < s.len() ==> is_ascii_digit(#[trigger] s[i])
}

pub open spec fn all_word(s: Seq<char>) -> bool {
    forall|i: int| 0 <= i < s.len() ==> is_word_char(#[trigger] s[i])
}

pub open spec fn starts_with(s: Seq<char>, p: Seq<char>) -> bool {
    p.len() <= s.len() && s.subrange(0, p.len() as int) == p
}

/// `eq_ignore_ascii_case`
pub open spec fn eq_ignore_case(a: Seq<char>, b: Seq<char>) -> bool {
    lower(a) == lower(b)
}

/// The index of the first occurrence of `p` in `s` at or after `i`, or -1.
pub open spec fn find_from(s: Seq<char>, p: Seq<char>, i: int) -> int
    decreases s.len() - i,
{
    if i < 0 || i + p.len() > s.len() {
        -1
    } else if s.subrange(i, i + p.len()) == p {
        i
    } else if i >= s.len() {
        -1
    } else {
        find_from(s, p, i + 1)
    }
}

pub open spec fn find(s: Seq<char>, p: Seq<char>) -> int {
    find_from(s, p, 0)
}

pub open spec fn contains(s: Seq<char>, p: Seq<char>) -> bool {
    find(s, p) >= 0
}

/// `p` occurs in `s` as a run of consecutive characters.
pub open spec fn has_part(s: Seq<char>, p: Seq<char>) -> bool {
    exists|i: int| 0 <= i && i + p.len() <= s.len() && #[trigger] s.subrange(i, i + p.len()) == p
}

/// A text holds whatever stands between its start and its end.
pub proof fn lemma_has_part_mid(a: Seq<char>, p: Seq<char>, b: Seq<char>)
    ensures
        has_part(a + p + b, p),
{
    let i = a.len() as int;
    assert((a + p + b).subrange(i, i + p.len()) =~= p);
}

/// Each of two joined texts is a part of the whole.
pub proof fn lemma_has_part_ends(a: Seq<char>, b: Seq<char>)
    ensures
        has_part(a + b, a),
        has_part(a + b, b),
{
    let i: int = 0;
    assert((a + b).subrange(i, i + a.len()) =~= a);
    let j: int = a.len() as int;
    assert((a + b).subrange(j, j + b.len()) =~= b);
}

/// A part stays a part when more text follows or precedes.
pub proof fn lemma_has_part_grow(a: Seq<char>, b: Seq<char>, p: Seq<char>)
    requires
        has_part(a, p),
    ensures
        has_part(a + b, p),
        has_part(b + a, p),
{
    lemma_has_part_ends(a, b);
    lemma_has_part_ends(b, a);
    lemma_has_part_trans(a + b, a, p);
    lemma_has_part_trans(b + a, a, p);
}

/// A text still starts with what its beginning starts with.
pub proof fn lemma_starts_with_grow(a: Seq<char>, b: Seq<char>, p: Seq<char>)
    requires
        starts_with(a, p),
    ensures
        starts_with(a + b, p),
{
    assert((a + b).subrange(0, p.len() as int) =~= a.subrange(0, p.len() as int));
}

/// A text is a part of itself.
pub proof fn lemma_has_part_self(p: Seq<char>)
    ensures
        has_part(p, p),
{
    assert(p.subrange(0int, 0int + p.len()) =~= p);
}

/// A part of a part is a part of the whole.
pub proof fn lemma_has_part_trans(s: Seq<char>, p: Seq<char>, q: Seq<char>)
    requires
        has_part(s, p),
        has_part(p, q),
    ensures
        has_part(s, q),
{
    let i = choose|i: int| 0 <= i && i + p.len() <= s.len() && #[trigger] s.subrange(i, i + p.len()) == p;
    let j = choose|j: int| 0 <= j && j + q.len() <= p.len() && #[trigger] p.subrange(j, j + q.len()) == q;
    assert(s.subrange(i + j, i + j + q.len()) =~= q);
}

pub open spec fn contains_char(s: Seq<char>, c: char) -> bool {
    exists|i: int| 0 <= i < s.len() && s[i] == c
}

// ------------------------------------------------------------------
// Trimming and whitespace tokens
// ------------------------------------------------------------------

/// The first index at or after `i` that does not hold whitespace.
pub open spec fn skip_ws(s: Seq<char>, i: int) -> int
    decreases s.len() - i,
{
    if 0 <= i < s.len() && is_ws(s[i]) {
        skip_ws(s, i + 1)
    } else {
        i
    }
}

/// The first index at or after `i` that holds whitespace (or the end).
pub open spec fn skip_non_ws(s: Seq<char>, i: int) -> int
    decreases s.len() - i,
{
    if 0 <= i < s.len() && !is_ws(s[i]) {
        skip_non_ws(s, i + 1)
    } else {
        i
    }
}

/// Walking back from `j`, the first position whose predecessor is not whitespace.
pub open spec fn back_ws(s: Seq<char>, j: int) -> int
    decreases j,
{
    if 0 < j <= s.len() && is_ws(s[j - 1]) {
        back_ws(s, j - 1)
    } else {
        j
    }
}

pub open spec fn trim_start(s: Seq<char>) -> Seq<char> {
    s.subrange(skip_ws(s, 0), s.len() as int)
}

pub open spec fn trim_end(s: Seq<char>) -> Seq<char> {
    s.subrange(0, back_ws(s, s.len() as int))
}

/// `str::trim`
pub open spec fn trim(s: Seq<char>) -> Seq<char> {
    trim_end(trim_start(s))
}

/// Trimming twice is trimming once.
pub proof fn lemma_trim_idempotent(s: Seq<char>)
    ensures
        trim(trim(s)) == trim(s),
{
    let a = skip_ws(s, 0);
    lemma_skip_ws_bounds(s, 0);
    let ts = trim_start(s);
    lemma_back_ws_bounds(ts, ts.len() as int);
    let t = trim(s);
    if t.len() > 0 {
        assert(t[0] == ts[0]);
        assert(ts[0] == s[a]);
        assert(!is_ws(t[0]));
        assert(t[t.len() - 1] == ts[back_ws(ts, ts.len() as int) - 1]);
        assert(skip_ws(t, 0) == 0);
        assert(trim_start(t) =~= t);
        assert(back_ws(t, t.len() as int) == t.len());
        assert(trim_end(t) =~= t);
    } else {
        assert(trim(t) =~= t);
    }
}

/// The first whitespace-separated token (empty when there is none).
pub open spec fn first_token(s: Seq<char>) -> Seq<char> {
    s.subrange(skip_ws(s, 0), skip_non_ws(s, skip_ws(s, 0)))
}

/// What follows the first token.
pub open spec fn after_first_token(s: Seq<char>) -> Seq<char> {
    s.subrange(skip_non_ws(s, skip_ws(s, 0)), s.len() as int)
}

pub open spec fn second_token(s: Seq<char>) -> Seq<char> {
    first_token(after_first_token(s))
}

pub proof fn lemma_skip_ws_bounds(s: Seq<char>, i: int)
    requires
        0 <= i <= s.len(),
    ensures
        i <= skip_ws(s, i) <= s.len(),
        skip_ws(s, i) < s.len() ==> !is_ws(s[skip_ws(s, i)]),
        forall|k: int| i <= k < skip_ws(s, i) ==> is_ws(#[trigger] s[k]),
    decreases s.len() - i,
{
    if i < s.len() && is_ws(s[i]) {
        lemma_skip_ws_bounds(s, i + 1);
    }
}

pub proof fn lemma_skip_non_ws_bounds(s: Seq<char>, i: int)
    requires
        0 <= i <= s.len(),
    ensures
        i <= skip_non_ws(s, i) <= s.len(),
        skip_non_ws(s, i) < s.len() ==> is_ws(s[skip_non_ws(s, i)]),
        forall|k: int| i <= k < skip_non_ws(s, i) ==> !is_ws(#[trigger] s[k]),
    decreases s.len() - i,
{
    if i < s.len() && !is_ws(s[i]) {
        lemma_skip_non_ws_bounds(s, i + 1);
    }
}

pub proof fn lemma_back_ws_bounds(s: Seq<char>, j: int)
    requires
        0 <= j <= s.len(),
    ensures
        0 <= back_ws(s, j) <= j,
        back_ws(s, j) > 0 ==> !is_ws(s[back_ws(s, j) - 1]),
        forall|k: int| back_ws(s, j) <= k < j ==> is_ws(#[trigger] s[k]),
    decreases j,
{
    if 0 < j && is_ws(s[j - 1]) {
        lemma_back_ws_bounds(s, j - 1);
    }
}

// ------------------------------------------------------------------
// Executable helpers
// ------------------------------------------------------------------

/// The characters of `s`, in order.
pub fn chars_of(s: &str) -> (out: Vec<char>)
    ensures
        out@ == s@,
{
    let mut out: Vec<char> = Vec::new();
    for c in it: s.chars()
        invariant
            out@ == it.history(),
    {
        out.push(c);
    }
    out
}

/// Calls `String::push` from std, whose contract is trusted here: the string's
/// characters afterwards are the earlier ones followed by `c`.
#[verifier::external_body]
pub(crate) fn push_char(s: &mut String, c: char)
    ensures
        final(s)@ == old(s)@.push(c),
{
    s.push(c);
}

/// A string holding exactly the characters `cs`.
pub fn string_of(cs: &Vec<char>) -> (out: String)
    ensures
        out@ == cs@,
{
    let mut out = String::new();
    let mut i: usize = 0;
    while i < cs.len()
        invariant
            i <= cs.len(),
            out@ == cs@.subrange(0, i as int),
        decreases cs.len() - i,
    {
        push_char(&mut out, cs[i]);
        i += 1;
        assert(out@ =~= cs@.subrange(0, i as int));
    }
    assert(out@ =~= cs@);
    out
}

/// Appends the characters of `s` to the vector `out`.
pub fn extend_str(out: &mut Vec<char>, s: &str)
    ensures
        final(out)@ == old(out)@ + s@,
{
    let cs = chars_of(s);
    extend(out, &cs);
}

/// Appends `cs` to the vector `out`.
pub fn extend(out: &mut Vec<char>, cs: &Vec<char>)
    ensures
        final(out)@ == old(out)@ + cs@,
{
    let mut i: usize = 0;
    while i < cs.len()
        invariant
            i <= cs.len(),
            out@ == old(out)@ + cs@.subrange(0, i as int),
        decreases cs.len() - i,
    {
        out.push(cs[i]);
        i += 1;
        assert(out@ =~= old(out)@ + cs@.subrange(0, i as int));
    }
    assert(cs@.subrange(0, cs@.len() as int) =~= cs@);
}

/// A copy of `s[a..b]`.
pub fn slice_of(s: &Vec<char>, a: usize, b: usize) -> (out: Vec<char>)
    requires
        a <= b <= s.len(),
    ensures
        out@ == s@.subrange(a as int, b as int),
{
    let mut out: Vec<char> = Vec::new();
    let mut i: usize = a;
    while i < b
        invariant
            a <= i <= b <= s.len(),
            out@ == s@.subrange(a as int, i as int),
        decreases b - i,
    {
        out.push(s[i]);
        i += 1;
        assert(out@ =~= s@.subrange(a as int, i as int));
    }
    out
}

pub fn to_upper(s: &Vec<char>) -> (out: Vec<char>)
    ensures
        out@ == upper(s@),
{
    let mut out: Vec<char> = Vec::new();
    let mut i: usize = 0;
    while i < s.len()
        invariant
            i <= s.len(),
            out@ =~= upper(s@.subrange(0, i as int)),
        decreases s.len() - i,
    {
        out.push(char_upper(s[i]));
        i += 1;
    }
    assert(s@.subrange(0, s@.len() as int) =~= s@);
    out
}

pub fn to_lower(s: &Vec<char>) -> (out: Vec<char>)
    ensures
        out@ == lower(s@),
{
    let mut out: Vec<char> = Vec::new();
    let mut i: usize = 0;
    while i < s.len()
        invariant
            i <= s.len(),
            out@ =~= lower(s@.subrange(0, i as int)),
        decreases s.len() - i,
    {
        out.push(char_lower(s[i]));
        i += 1;
    }
    assert(s@.subrange(0, s@.len() as int) =~= s@);
    out
}

pub fn eq_chars(a: &Vec<char>, b: &Vec<char>) -> (r: bool)
    ensures
        r == (a@ == b@),
{
    if a.len() != b.len() {
        return false;
    }
    let mut i: usize = 0;
    while i < a.len()
        invariant
            a.len() == b.len(),
            i <= a.len(),
            forall|k: int| 0 <= k < i ==> a@[k] == b@[k],
        decreases a.len() - i,
    {
        if a[i] != b[i] {
            return false;
        }
        i += 1;
    }
    assert(a@ =~= b@);
    true
}

/// Whether `s` equals the literal `lit`.
pub fn is_lit(s: &Vec<char>, lit: &str) -> (r: bool)
    ensures
        r == (s@ == lit@),
{
    let l = chars_of(lit);
    eq_chars(s, &l)
}

pub fn eq_ignore_case_chars(a: &Vec<char>, b: &Vec<char>) -> (r: bool)
    ensures
        r == eq_ignore_case(a@, b@),
{
    let la = to_lower(a);
    let lb = to_lower(b);
    eq_chars(&la, &lb)
}

/// Whether `s[i..]` begins with `p`.
pub fn matches_at(s: &Vec<char>, p: &Vec<char>, i: usize) -> (r: bool)
    requires
        i <= s.len(),
    ensures
        r == (i + p.len() <= s.len() && s@.subrange(i as int, i + p.len()) == p@),
{
    if p.len() > s.len() - i {
        return false;
    }
    let mut k: usize = 0;
    while k < p.len()
        invariant
            i + p.len() <= s.len(),
            k <= p.len(),
            forall|j: int| 0 <= j < k ==> s@[i + j] == p@[j],
        decreases p.len() - k,
    {
        if s[i + k] != p[k] {
            assert(s@.subrange(i as int, i + p.len())[k as int] != p@[k as int]);
            return false;
        }
        k += 1;
    }
    assert(s@.subrange(i as int, i + p.len()) =~= p@);
    true
}

pub fn starts_with_chars(s: &Vec<char>, p: &Vec<char>) -> (r: bool)
    ensures
        r == starts_with(s@, p@),
{
    matches_at(s, p, 0)
}

pub fn starts_with_lit(s: &Vec<char>, lit: &str) -> (r: bool)
    ensures
        r == starts_with(s@, lit@),
{
    let p = chars_of(lit);
    starts_with_chars(s, &p)
}

pub proof fn lemma_find_from_bounds(s: Seq<char>, p: Seq<char>, i: int)
    requires
        0 <= i,
    ensures
        find_from(s, p, i) == -1 || (i <= find_from(s, p, i) && find_from(s, p, i) + p.len()
            <= s.len() && s.subrange(find_from(s, p, i), find_from(s, p, i) + p.len()) == p),
    decreases s.len() - i,
{
    if i + p.len() <= s.len() && s.subrange(i, i + p.len()) != p && i < s.len() {
        lemma_find_from_bounds(s, p, i + 1);
    }
}

/// `find`: the first index at or after `from` where `p` occurs.
pub fn find_chars_from(s: &Vec<char>, p: &Vec<char>, from: usize) -> (r: Option<usize>)
    requires
        from <= s.len(),
    ensures
        match r {
            Some(k) => find_from(s@, p@, from as int) == k,
            None => find_from(s@, p@, from as int) == -1,
        },
{
    let mut i = from;
    loop
        invariant
            from <= i <= s.len(),
            find_from(s@, p@, from as int) == find_from(s@, p@, i as int),
        decreases s.len() - i,
    {
        if matches_at(s, p, i) {
            return Some(i);
        }
        if p.len() >= s.len() - i {
            proof {
                reveal_with_fuel(find_from, 2);
            }
            return None;
        }
        i += 1;
    }
}

pub fn find_chars(s: &Vec<char>, p: &Vec<char>) -> (r: Option<usize>)
    ensures
        match r {
            Some(k) => find(s@, p@) == k,
            None => find(s@, p@) == -1,
        },
{
    find_chars_from(s, p, 0)
}

pub fn contains_chars(s: &Vec<char>, p: &Vec<char>) -> (r: bool)
    ensures
        r == contains(s@, p@),
{
    find_chars(s, p).is_some()
}

pub fn contains_lit(s: &Vec<char>, lit: &str) -> (r: bool)
    ensures
        r == contains(s@, lit@),
{
    let p = chars_of(lit);
    contains_chars(s, &p)
}

pub fn has_char(s: &Vec<char>, c: char) -> (r: bool)
    ensures
        r == contains_char(s@, c),
{
    let mut i: usize = 0;
    while i < s.len()
        invariant
            i <= s.len(),
            forall|k: int| 0 <= k < i ==> s@[k] != c,
        decreases s.len() - i,
    {
        if s[i] == c {
            return true;
        }
        i += 1;
    }
    false
}

pub fn all_digit_chars(s: &Vec<char>) -> (r: bool)
    ensures
        r == all_digits(s@),
{
    let mut i: usize = 0;
    while i < s.len()
        invariant
            i <= s.len(),
            forall|k: int| 0 <= k < i ==> is_ascii_digit(#[trigger] s@[k]),
        decreases s.len() - i,
    {
        if !char_is_ascii_digit(s[i]) {
            return false;
        }
        i += 1;
    }
    true
}

pub fn all_word_chars(s: &Vec<char>) -> (r: bool)
    ensures
        r == all_word(s@),
{
    let mut i: usize = 0;
    while i < s.len()
        invariant
            i <= s.len(),
            forall|k: int| 0 <= k < i ==> is_word_char(#[trigger] s@[k]),
        decreases s.len() - i,
    {
        if !char_is_word(s[i]) {
            return false;
        }
        i += 1;
    }
    true
}

pub fn skip_ws_exec(s: &Vec<char>, from: usize) -> (r: usize)
    requires
        from <= s.len(),
    ensures
        r == skip_ws(s@, from as int),
{
    let mut i = from;
    while i < s.len() && char_is_ws(s[i])
        invariant
            from <= i <= s.len(),
            skip_ws(s@, i as int) == skip_ws(s@, from as int),
        decreases s.len() - i,
    {
        i += 1;
    }
    i
}

pub fn skip_non_ws_exec(s: &Vec<char>, from: usize) -> (r: usize)
    requires
        from <= s.len(),
    ensures
        r == skip_non_ws(s@, from as int),
{
    let mut i = from;
    while i < s.len() && !char_is_ws(s[i])
        invariant
            from <= i <= s.len(),
            skip_non_ws(s@, i as int) == skip_non_ws(s@, from as int),
        decreases s.len() - i,
    {
        i += 1;
    }
    i
}

pub fn back_ws_exec(s: &Vec<char>) -> (r: usize)
    ensures
        r == back_ws(s@, s@.len() as int),
{
    let mut j = s.len();
    while j > 0 && char_is_ws(s[j - 1])
        invariant
            j <= s.len(),
            back_ws(s@, j as int) == back_ws(s@, s@.len() as int),
        decreases j,
    {
        j -= 1;
    }
    j
}

pub fn trim_start_chars(s: &Vec<char>) -> (out: Vec<char>)
    ensures
        out@ == trim_start(s@),
{
    let a = skip_ws_exec(s, 0);
    proof {
        lemma_skip_ws_bounds(s@, 0);
    }
    slice_of(s, a, s.len())
}

pub fn trim_end_chars(s: &Vec<char>) -> (out: Vec<char>)
    ensures
        out@ == trim_end(s@),
{
    let b = back_ws_exec(s);
    proof {
        lemma_back_ws_bounds(s@, s@.len() as int);
    }
    slice_of(s, 0, b)
}

pub fn trim_chars(s: &Vec<char>) -> (out: Vec<char>)
    ensures
        out@ == trim(s@),
{
    let t = trim_start_chars(s);
    trim_end_chars(&t)
}

pub fn first_token_chars(s: &Vec<char>) -> (out: Vec<char>)
    ensures
        out@ == first_token(s@),
{
    let a = skip_ws_exec(s, 0);
    proof {
        lemma_skip_ws_bounds(s@, 0);
    }
    let b = skip_non_ws_exec(s, a);
    proof {
        lemma_skip_non_ws_bounds(s@, a as int);
    }
    slice_of(s, a, b)
}

pub fn after_first_token_chars(s: &Vec<char>) -> (out: Vec<char>)
    ensures
        out@ == after_first_token(s@),
{
    let a = skip_ws_exec(s, 0);
    proof {
        lemma_skip_ws_bounds(s@, 0);
    }
    let b = skip_non_ws_exec(s, a);
    proof {
        lemma_skip_non_ws_bounds(s@, a as int);
    }
    slice_of(s, b, s.len())
}


// ------------------------------------------------------------------
// Splitting, joining, replacing
// ------------------------------------------------------------------

/// The views of a sequence of character vectors.
pub open spec fn views(v: Seq<Vec<char>>) -> Seq<Seq<char>> {
    v.map_values(|x: Vec<char>| x@)
}

/// The first index at or after `i` that holds `c`, or -1.
pub open spec fn index_of_from(s: Seq<char>, c: char, i: int) -> int
    decreases s.len() - i,
{
    if i < 0 || i >= s.len() {
        -1
    } else if s[i] == c {
        i
    } else {
        index_of_from(s, c, i + 1)
    }
}

pub proof fn lemma_index_of_from(s: Seq<char>, c: char, i: int)
    requires
        0 <= i,
    ensures
        index_of_from(s, c, i) == -1 || (i <= index_of_from(s, c, i) < s.len() && s[index_of_from(
            s,
            c,
            i,
        )] == c && forall|j: int| i <= j < index_of_from(s, c, i) ==> s[j] != c),
        index_of_from(s, c, i) == -1 ==> forall|j: int| i <= j < s.len() ==> s[j] != c,
    decreases s.len() - i,
{
    if i < s.len() && s[i] != c {
        lemma_index_of_from(s, c, i + 1);
    }
}

pub proof fn lemma_index_of_at(s: Seq<char>, c: char, i: int, k: int)
    requires
        0 <= i <= k < s.len(),
        s[k] == c,
        forall|j: int| i <= j < k ==> s[j] != c,
    ensures
        index_of_from(s, c, i) == k,
    decreases k - i,
{
    if i < k {
        lemma_index_of_at(s, c, i + 1, k);
    }
}

pub proof fn lemma_index_of_none(s: Seq<char>, c: char, i: int)
    requires
        0 <= i,
        forall|j: int| i <= j < s.len() ==> s[j] != c,
    ensures
        index_of_from(s, c, i) == -1,
    decreases s.len() - i,
{
    if i < s.len() {
        lemma_index_of_none(s, c, i + 1);
    }
}

/// A line without the `\r` of a `\r\n` ending.
pub open spec fn strip_cr(l: Seq<char>) -> Seq<char> {
    if l.len() > 0 && l.last() == '\r' {
        l.drop_last()
    } else {
        l
    }
}

/// `str::lines`: split at `\n`, drop a `\r` before it, no final empty line.
pub open spec fn split_lines(s: Seq<char>) -> Seq<Seq<char>>
    decreases s.len(),
{
    if s.len() == 0 {
        seq![]
    } else {
        let k = index_of_from(s, '\n', 0);
        if k < 0 {
            seq![s]
        } else {
            proof {
                lemma_index_of_from(s, '\n', 0);
            }
            seq![strip_cr(s.subrange(0, k))] + split_lines(s.subrange(k + 1, s.len() as int))
        }
    }
}

/// `str::split(c)`.
pub open spec fn split_char(s: Seq<char>, c: char) -> Seq<Seq<char>>
    decreases s.len(),
{
    let k = index_of_from(s, c, 0);
    if k < 0 {
        seq![s]
    } else {
        proof {
            lemma_index_of_from(s, c, 0);
        }
        seq![s.subrange(0, k)] + split_char(s.subrange(k + 1, s.len() as int), c)
    }
}

/// The pieces joined with `sep` between them.
pub open spec fn join_sep(parts: Seq<Seq<char>>, sep: Seq<char>) -> Seq<char>
    decreases parts.len(),
{
    if parts.len() == 0 {
        seq![]
    } else if parts.len() == 1 {
        parts[0]
    } else {
        join_sep(parts.drop_last(), sep) + sep + parts.last()
    }
}

pub fn lines_of(s: &Vec<char>) -> (out: Vec<Vec<char>>)
    ensures
        views(out@) == split_lines(s@),
{
    let mut out: Vec<Vec<char>> = Vec::new();
    let mut start: usize = 0;
    let mut i: usize = 0;
    proof {
        assert(s@.subrange(0, s@.len() as int) =~= s@);
        assert(views(out@) =~= Seq::<Seq<char>>::empty());
    }
    while i < s.len()
        invariant
            start <= i <= s.len(),
            forall|j: int| start <= j < i ==> s@[j] != '\n',
            views(out@) + split_lines(s@.subrange(start as int, s@.len() as int)) == split_lines(
                s@,
            ),
        decreases s.len() - i,
    {
        if s[i] == '\n' {
            let ghost rest = s@.subrange(start as int, s@.len() as int);
            proof {
                lemma_index_of_at(rest, '\n', 0, i - start);
                assert(rest.subrange(0, i - start) =~= s@.subrange(start as int, i as int));
                assert(rest.subrange(i - start + 1, rest.len() as int) =~= s@.subrange(
                    i + 1,
                    s@.len() as int,
                ));
            }
            let mut end = i;
            if end > start && s[end - 1] == '\r' {
                end = end - 1;
            }
            let line = slice_of(s, start, end);
            proof {
                let l = s@.subrange(start as int, i as int);
                assert(strip_cr(l) =~= line@);
            }
            let ghost before = out@;
            out.push(line);
            proof {
                assert(views(out@) =~= views(before).push(line@));
                assert(views(out@) + split_lines(s@.subrange(i + 1, s@.len() as int)) =~= views(
                    before,
                ) + split_lines(rest));
            }
            start = i + 1;
        }
        i += 1;
    }
    proof {
        let rest = s@.subrange(start as int, s@.len() as int);
        lemma_index_of_none(rest, '\n', 0);
    }
    if start < s.len() {
        let line = slice_of(s, start, s.len());
        out.push(line);
    }
    proof {
        assert(views(out@) =~= split_lines(s@));
    }
    out
}

/// `str::split(c)` on a vector of characters.
pub fn split_char_of(s: &Vec<char>, c: char) -> (out: Vec<Vec<char>>)
    ensures
        views(out@) == split_char(s@, c),
{
    let mut out: Vec<Vec<char>> = Vec::new();
    let mut start: usize = 0;
    let mut i: usize = 0;
    proof {
        assert(s@.subrange(0, s@.len() as int) =~= s@);
        assert(views(out@) =~= Seq::<Seq<char>>::empty());
    }
    while i < s.len()
        invariant
            start <= i <= s.len(),
            forall|j: int| start <= j < i ==> s@[j] != c,
            views(out@) + split_char(s@.subrange(start as int, s@.len() as int), c) == split_char(
                s@,
                c,
            ),
        decreases s.len() - i,
    {
        if s[i] == c {
            let ghost rest = s@.subrange(start as int, s@.len() as int);
            proof {
                lemma_index_of_at(rest, c, 0, i - start);
                assert(rest.subrange(0, i - start) =~= s@.subrange(start as int, i as int));
                assert(rest.subrange(i - start + 1, rest.len() as int) =~= s@.subrange(
                    i + 1,
                    s@.len() as int,
                ));
            }
            let piece = slice_of(s, start, i);
            out.push(piece);
            start = i + 1;
        }
        i += 1;
    }
    proof {
        let rest = s@.subrange(start as int, s@.len() as int);
        lemma_index_of_none(rest, c, 0);
    }
    let piece = slice_of(s, start, s.len());
    out.push(piece);
    proof {
        assert(views(out@) =~= split_char(s@, c));
    }
    out
}

pub fn join_chars(parts: &Vec<Vec<char>>, sep: &Vec<char>) -> (out: Vec<char>)
    ensures
        out@ == join_sep(views(parts@), sep@),
{
    let mut out: Vec<char> = Vec::new();
    let mut i: usize = 0;
    while i < parts.len()
        invariant
            i <= parts.len(),
            out@ == join_sep(views(parts@).subrange(0, i as int), sep@),
        decreases parts.len() - i,
    {
        let ghost prev = views(parts@).subrange(0, i as int);
        if i > 0 {
            extend(&mut out, sep);
        }
        extend(&mut out, &parts[i]);
        i += 1;
        proof {
            let cur = views(parts@).subrange(0, i as int);
            assert(cur.drop_last() =~= prev);
            if i == 1 {
                assert(out@ =~= cur[0]);
            }
        }
    }
    proof {
        assert(views(parts@).subrange(0, parts@.len() as int) =~= views(parts@));
    }
    out
}

/// `str::replace` with a non-empty pattern, from position `i` on.
pub open spec fn replace_from(s: Seq<char>, f: Seq<char>, t: Seq<char>, i: int) -> Seq<char>
    decreases s.len() - i,
{
    if i < 0 || i >= s.len() {
        seq![]
    } else if f.len() > 0 && i + f.len() <= s.len() && s.subrange(i, i + f.len()) == f {
        t + replace_from(s, f, t, i + f.len())
    } else {
        seq![s[i]] + replace_from(s, f, t, i + 1)
    }
}

pub open spec fn replace(s: Seq<char>, f: Seq<char>, t: Seq<char>) -> Seq<char> {
    replace_from(s, f, t, 0)
}

pub fn replace_chars(s: &Vec<char>, f: &Vec<char>, t: &Vec<char>) -> (out: Vec<char>)
    requires
        f.len() > 0,
    ensures
        out@ == replace(s@, f@, t@),
{
    let mut out: Vec<char> = Vec::new();
    let mut i: usize = 0;
    while i < s.len()
        invariant
            i <= s.len(),
            f.len() > 0,
            out@ + replace_from(s@, f@, t@, i as int) == replace(s@, f@, t@),
        decreases s.len() - i,
    {
        if matches_at(s, f, i) {
            let ghost before = out@;
            extend(&mut out, t);
            proof {
                assert(before + replace_from(s@, f@, t@, i as int) =~= out@ + replace_from(
                    s@,
                    f@,
                    t@,
                    i + f@.len(),
                ));
            }
            i = i + f.len();
        } else {
            let ghost before = out@;
            out.push(s[i]);
            proof {
                assert(before + replace_from(s@, f@, t@, i as int) =~= out@ + replace_from(
                    s@,
                    f@,
                    t@,
                    i + 1,
                ));
            }
            i += 1;
        }
    }
    proof {
        assert(out@ + replace_from(s@, f@, t@, i as int) =~= out@);
    }
    out
}

pub fn replace_lit(s: &Vec<char>, f: &str, t: &str) -> (out: Vec<char>)
    requires
        f@.len() > 0,
    ensures
        out@ == replace(s@, f@, t@),
{
    let fc = chars_of(f);
    let tc = chars_of(t);
    replace_chars(s, &fc, &tc)
}

// ------------------------------------------------------------------
// Numbers
// ------------------------------------------------------------------

pub open spec fn digit_char(d: nat) -> char {
    ((48 + d) as u32) as char
}

/// The decimal rendering of `n` (`usize::to_string`).
pub open spec fn decimal(n: nat) -> Seq<char>
    decreases n,
{
    if n < 10 {
        seq![digit_char(n)]
    } else {
        decimal(n / 10).push(digit_char(n % 10))
    }
}

/// The rendering of a signed integer (`i32::to_string`).
pub open spec fn signed_decimal(n: int) -> Seq<char> {
    if n < 0 {
        seq!['-'] + decimal((-n) as nat)
    } else {
        decimal(n as nat)
    }
}

fn digit_of(d: u64) -> (c: char)
    requires
        d < 10,
    ensures
        c == digit_char(d as nat),
{
    let b: u8 = d as u8;
    (b + 48) as char
}

pub fn push_decimal(out: &mut Vec<char>, n: u64)
    ensures
        final(out)@ == old(out)@ + decimal(n as nat),
    decreases n,
{
    if n >= 10 {
        push_decimal(out, n / 10);
    }
    let c = digit_of(n % 10);
    out.push(c);
    proof {
        if n >= 10 {
            assert(final(out)@ =~= old(out)@ + decimal(n as nat));
        } else {
            assert(final(out)@ =~= old(out)@ + decimal(n as nat));
        }
    }
}

/// `push_decimal` for the widest unsigned integers.
pub fn push_decimal_u128(out: &mut Vec<char>, n: u128)
    ensures
        final(out)@ == old(out)@ + decimal(n as nat),
    decreases n,
{
    if n >= 10 {
        push_decimal_u128(out, n / 10);
    }
    let d: u8 = (n % 10) as u8;
    let c = (d + 48) as char;
    proof {
        assert(c == digit_char((n % 10) as nat));
    }
    out.push(c);
    proof {
        assert(final(out)@ =~= old(out)@ + decimal(n as nat));
    }
}

pub fn signed_decimal_chars(n: i32) -> (out: Vec<char>)
    ensures
        out@ == signed_decimal(n as int),
{
    let mut out: Vec<char> = Vec::new();
    if n < 0 {
        out.push('-');
        let m: i64 = n as i64;
        let a: u64 = (-m) as u64;
        push_decimal(&mut out, a);
    } else {
        push_decimal(&mut out, n as u64);
    }
    assert(out@ =~= signed_decimal(n as int));
    out
}

/// The number of bytes `c` takes in UTF-8.
pub open spec fn utf8_width(c: char) -> nat {
    if (c as u32) < 0x80 {
        1
    } else if (c as u32) < 0x800 {
        2
    } else if (c as u32) < 0x10000 {
        3
    } else {
        4
    }
}

/// The UTF-8 length in bytes (`str::len`).
pub open spec fn utf8_len(s: Seq<char>) -> nat
    decreases s.len(),
{
    if s.len() == 0 {
        0
    } else {
        utf8_len(s.drop_last()) + utf8_width(s.last())
    }
}

pub proof fn lemma_utf8_len_mono(s: Seq<char>, i: int)
    requires
        0 <= i <= s.len(),
    ensures
        utf8_len(s.subrange(0, i)) <= utf8_len(s),
    decreases s.len() - i,
{
    if i < s.len() {
        lemma_utf8_len_mono(s, i + 1);
        assert(s.subrange(0, i + 1).drop_last() =~= s.subrange(0, i));
    } else {
        assert(s.subrange(0, i) =~= s);
    }
}

/// Whether `s` takes more than `n` bytes in UTF-8.
pub fn utf8_len_exceeds(s: &Vec<char>, n: u64) -> (r: bool)
    ensures
        r == (utf8_len(s@) > n),
{
    let mut total: u64 = 0;
    let mut i: usize = 0;
    while i < s.len()
        invariant
            i <= s.len(),
            total == utf8_len(s@.subrange(0, i as int)),
            total <= n,
        decreases s.len() - i,
    {
        let c = s[i];
        let w: u64 = if (c as u32) < 0x80 {
            1
        } else if (c as u32) < 0x800 {
            2
        } else if (c as u32) < 0x10000 {
            3
        } else {
            4
        };
        proof {
            assert(s@.subrange(0, i + 1).drop_last() =~= s@.subrange(0, i as int));
        }
        if w > n - total {
            proof {
                lemma_utf8_len_mono(s@, i + 1);
            }
            return true;
        }
        total = total + w;
        i += 1;
    }
    assert(s@.subrange(0, s@.len() as int) =~= s@);
    false
}


pub fn index_of_char(s: &Vec<char>, c: char) -> (r: Option<usize>)
    ensures
        match r {
            Some(k) => index_of_from(s@, c, 0) == k,
            None => index_of_from(s@, c, 0) == -1,
        },
{
    let mut i: usize = 0;
    while i < s.len()
        invariant
            i <= s.len(),
            index_of_from(s@, c, i as int) == index_of_from(s@, c, 0),
        decreases s.len() - i,
    {
        if s[i] == c {
            return Some(i);
        }
        i += 1;
    }
    None
}

/// An owned copy of a literal.
pub fn owned(lit: &str) -> (r: String)
    ensures
        r@ == lit@,
{
    lit.to_owned()
}

/// The characters after the prefix `lit` of `line`.
pub open spec fn rest_after(line: Seq<char>, lit: Seq<char>) -> Seq<char> {
    line.subrange(lit.len() as int, line.len() as int)
}

pub fn rest_after_lit(line: &Vec<char>, lit: &str) -> (r: Vec<char>)
    requires
        lit@.len() <= line@.len(),
    ensures
        r@ == rest_after(line@, lit@),
{
    let p = chars_of(lit);
    slice_of(line, p.len(), line.len())
}


// ------------------------------------------------------------------
// Ordering (`String::cmp`: code points compared in order, a proper
// prefix first)
// ------------------------------------------------------------------

pub open spec fn seq_lt(a: Seq<char>, b: Seq<char>) -> bool
    decreases a.len(),
{
    if b.len() == 0 {
        false
    } else if a.len() == 0 {
        true
    } else if a[0] != b[0] {
        a[0] < b[0]
    } else {
        seq_lt(a.drop_first(), b.drop_first())
    }
}

pub proof fn lemma_seq_lt_irrefl(a: Seq<char>)
    ensures
        !seq_lt(a, a),
    decreases a.len(),
{
    if a.len() > 0 {
        lemma_seq_lt_irrefl(a.drop_first());
    }
}

pub proof fn lemma_seq_lt_asym(a: Seq<char>, b: Seq<char>)
    ensures
        !(seq_lt(a, b) && seq_lt(b, a)),
    decreases a.len(),
{
    if a.len() > 0 && b.len() > 0 && a[0] == b[0] {
        lemma_seq_lt_asym(a.drop_first(), b.drop_first());
    }
}

pub proof fn lemma_seq_lt_trans(a: Seq<char>, b: Seq<char>, c: Seq<char>)
    requires
        seq_lt(a, b),
        seq_lt(b, c),
    ensures
        seq_lt(a, c),
    decreases a.len(),
{
    if a.len() > 0 && b.len() > 0 && c.len() > 0 && a[0] == b[0] && b[0] == c[0] {
        lemma_seq_lt_trans(a.drop_first(), b.drop_first(), c.drop_first());
    }
}

pub proof fn lemma_seq_lt_total(a: Seq<char>, b: Seq<char>)
    ensures
        a == b || seq_lt(a, b) || seq_lt(b, a),
    decreases a.len(),
{
    if a.len() > 0 && b.len() > 0 && a[0] == b[0] {
        lemma_seq_lt_total(a.drop_first(), b.drop_first());
        if a.drop_first() == b.drop_first() {
            assert(a =~= seq![a[0]] + a.drop_first());
            assert(b =~= seq![b[0]] + b.drop_first());
        }
    } else if a.len() == 0 && b.len() == 0 {
        assert(a =~= b);
    }
}

pub fn lt_chars(a: &Vec<char>, b: &Vec<char>) -> (r: bool)
    ensures
        r == seq_lt(a@, b@),
{
    let mut i: usize = 0;
    proof {
        assert(a@.subrange(0, a@.len() as int) =~= a@);
        assert(b@.subrange(0, b@.len() as int) =~= b@);
    }
    while i < a.len() && i < b.len() && a[i] == b[i]
        invariant
            i <= a.len(),
            i <= b.len(),
            seq_lt(a@.subrange(i as int, a@.len() as int), b@.subrange(i as int, b@.len() as int))
                == seq_lt(a@, b@),
        decreases a.len() - i,
    {
        proof {
            let sa = a@.subrange(i as int, a@.len() as int);
            let sb = b@.subrange(i as int, b@.len() as int);
            assert(sa.drop_first() =~= a@.subrange(i + 1, a@.len() as int));
            assert(sb.drop_first() =~= b@.subrange(i + 1, b@.len() as int));
        }
        i += 1;
    }
    proof {
        assert(a@.subrange(0, a@.len() as int) =~= a@);
        assert(b@.subrange(0, b@.len() as int) =~= b@);
    }
    if i == b.len() {
        false
    } else if i == a.len() {
        true
    } else {
        a[i] < b[i]
    }
}


/// A character that neither the text nor the replacement holds is not in the result.
pub proof fn lemma_replace_from_absent(s: Seq<char>, f: Seq<char>, t: Seq<char>, i: int, d: char)
    requires
        !contains_char(t, d),
        forall|j: int| 0 <= j < s.len() ==> s[j] != d,
    ensures
        !contains_char(replace_from(s, f, t, i), d),
    decreases s.len() - i,
{
    if 0 <= i < s.len() {
        let r = replace_from(s, f, t, i);
        if f.len() > 0 && i + f.len() <= s.len() && s.subrange(i, i + f.len()) == f {
            lemma_replace_from_absent(s, f, t, i + f.len(), d);
            let rest = replace_from(s, f, t, i + f.len());
            assert forall|j: int| 0 <= j < r.len() implies r[j] != d by {
                if j < t.len() {
                    assert(r[j] == t[j]);
                } else {
                    assert(r[j] == rest[j - t.len()]);
                }
            }
        } else {
            lemma_replace_from_absent(s, f, t, i + 1, d);
            let rest = replace_from(s, f, t, i + 1);
            assert forall|j: int| 0 <= j < r.len() implies r[j] != d by {
                if j > 0 {
                    assert(r[j] == rest[j - 1]);
                }
            }
        }
    }
}

/// Replacing every `c` by a text without `c` leaves no `c`.
pub proof fn lemma_replace_from_removes(s: Seq<char>, c: char, t: Seq<char>, i: int)
    requires
        !contains_char(t, c),
    ensures
        !contains_char(replace_from(s, seq![c], t, i), c),
    decreases s.len() - i,
{
    if 0 <= i < s.len() {
        let r = replace_from(s, seq![c], t, i);
        if i + 1 <= s.len() && s.subrange(i, i + 1) == seq![c] {
            lemma_replace_from_removes(s, c, t, i + 1);
            let rest = replace_from(s, seq![c], t, i + 1);
            assert forall|j: int| 0 <= j < r.len() implies r[j] != c by {
                if j < t.len() {
                    assert(r[j] == t[j]);
                } else {
                    assert(r[j] == rest[j - t.len()]);
                }
            }
        } else {
            assert(s[i] != c) by {
                if s[i] == c {
                    assert(s.subrange(i, i + 1) =~= seq![c]);
                }
            }
            lemma_replace_from_removes(s, c, t, i + 1);
            let rest = replace_from(s, seq![c], t, i + 1);
            assert forall|j: int| 0 <= j < r.len() implies r[j] != c by {
                if j > 0 {
                    assert(r[j] == rest[j - 1]);
                }
            }
        }
    }
}

// ------------------------------------------------------------------
// Lines
// ------------------------------------------------------------------

/// The number of line breaks in `s`.
pub open spec fn line_breaks(s: Seq<char>) -> nat
    decreases s.len(),
{
    if s.len() == 0 {
        0
    } else {
        line_breaks(s.drop_last()) + if s.last() == '\n' {
            1nat
        } else {
            0nat
        }
    }
}

pub proof fn lemma_line_breaks_add(a: Seq<char>, b: Seq<char>)
    ensures
        line_breaks(a + b) == line_breaks(a) + line_breaks(b),
    decreases b.len(),
{
    if b.len() == 0 {
        assert(a + b =~= a);
    } else {
        lemma_line_breaks_add(a, b.drop_last());
        assert((a + b).drop_last() =~= a + b.drop_last());
        assert((a + b).last() == b.last());
    }
}

pub proof fn lemma_line_breaks_none(s: Seq<char>)
    requires
        !contains_char(s, '\n'),
    ensures
        line_breaks(s) == 0,
    decreases s.len(),
{
    if s.len() > 0 {
        assert(!contains_char(s.drop_last(), '\n')) by {
            if contains_char(s.drop_last(), '\n') {
                let i = choose|i: int| 0 <= i < s.drop_last().len() && s.drop_last()[i] == '\n';
                assert(s[i] == '\n');
            }
        }
        lemma_line_breaks_none(s.drop_last());
        assert(s.last() == s[s.len() - 1]);
    }
}

/// A character is in `a + b` exactly when it is in `a` or in `b`.
pub proof fn lemma_contains_char_add(a: Seq<char>, b: Seq<char>, c: char)
    ensures
        contains_char(a + b, c) <==> contains_char(a, c) || contains_char(b, c),
{
    let ab = a + b;
    if contains_char(ab, c) {
        let i = choose|i: int| 0 <= i < ab.len() && ab[i] == c;
        if i < a.len() {
            assert(a[i] == c);
        } else {
            assert(b[i - a.len()] == c);
        }
    }
    if contains_char(a, c) {
        let i = choose|i: int| 0 <= i < a.len() && a[i] == c;
        assert(ab[i] == c);
    }
    if contains_char(b, c) {
        let i = choose|i: int| 0 <= i < b.len() && b[i] == c;
        assert(ab[a.len() + i] == c);
    }
}

/// No line break in `s`.
pub open spec fn single_line(s: Seq<char>) -> bool {
    !contains_char(s, '\n')
}

pub proof fn lemma_single_add(a: Seq<char>, b: Seq<char>)
    ensures
        single_line(a + b) <==> single_line(a) && single_line(b),
{
    lemma_contains_char_add(a, b, '\n');
}

pub proof fn lemma_sub_single(c: Seq<char>, a: int, b: int)
    requires
        single_line(c),
        0 <= a <= b <= c.len(),
    ensures
        single_line(c.subrange(a, b)),
{
    if contains_char(c.subrange(a, b), '\n') {
        let j = choose|j: int| 0 <= j < c.subrange(a, b).len() && c.subrange(a, b)[j] == '\n';
        assert(c[a + j] == '\n');
    }
}



/// Replacing a text that does not occur from `i` on leaves the rest as it is.
pub proof fn lemma_replace_none(s: Seq<char>, f: Seq<char>, t: Seq<char>, i: int)
    requires
        f.len() > 0,
        0 <= i <= s.len(),
        forall|j: int| i <= j && j + f.len() <= s.len() ==> #[trigger] s.subrange(j, j + f.len()) != f,
    ensures
        replace_from(s, f, t, i) == s.subrange(i, s.len() as int),
    decreases s.len() - i,
{
    if i < s.len() {
        lemma_replace_none(s, f, t, i + 1);
        assert(seq![s[i]] + s.subrange(i + 1, s.len() as int) =~= s.subrange(i, s.len() as int));
    } else {
        assert(s.subrange(i, s.len() as int) =~= Seq::<char>::empty());
    }
}

/// Replacing a text that occurs once from `i` on, at `p`, puts the
/// replacement there and leaves everything else.
pub proof fn lemma_replace_once(s: Seq<char>, f: Seq<char>, t: Seq<char>, i: int, p: int)
    requires
        f.len() > 0,
        0 <= i <= p,
        p + f.len() <= s.len(),
        s.subrange(p, p + f.len()) == f,
        forall|j: int| i <= j && j != p && j + f.len() <= s.len() ==> #[trigger] s.subrange(j, j + f.len()) != f,
    ensures
        replace_from(s, f, t, i) == s.subrange(i, p) + t + s.subrange(p + f.len(), s.len() as int),
    decreases p - i,
{
    if i == p {
        lemma_replace_none(s, f, t, p + f.len());
        assert(s.subrange(i, p) =~= Seq::<char>::empty());
        assert(replace_from(s, f, t, i) =~= s.subrange(i, p) + t + s.subrange(p + f.len(), s.len() as int));
    } else {
        lemma_replace_once(s, f, t, i + 1, p);
        assert(s.subrange(i, i + f.len()) != f);
        assert(seq![s[i]] + (s.subrange(i + 1, p) + t + s.subrange(p + f.len(), s.len() as int)) =~= s.subrange(i, p)
            + t + s.subrange(p + f.len(), s.len() as int));
    }
}

/// A text without `*`.
pub open spec fn star_free(s: Seq<char>) -> bool {
    forall|i: int| 0 <= i < s.len() ==> s[i] != '*'
}

/// An operator word written with a star after its leading blank, and no other star.
pub open spec fn starred_word(g: Seq<char>) -> bool {
    &&& g.len() >= 5
    &&& g[1] == '*'
    &&& forall|i: int| 0 <= i < g.len() && i != 1 ==> g[i] != '*'
}

/// One replacement of a starred word in `a + mid + b`, where `a` and `b`
/// hold no star and `mid` is either a starred word or holds no star: the
/// word is replaced when `mid` is it, and nothing changes otherwise.
pub proof fn lemma_replace_middle(a: Seq<char>, mid: Seq<char>, b: Seq<char>, f: Seq<char>, t: Seq<char>)
    requires
        star_free(a),
        star_free(b),
        starred_word(f),
        star_free(mid) || starred_word(mid),
        mid == f || star_free(mid) || mid[2] != f[2] || mid[3] != f[3],
    ensures
        replace(a + mid + b, f, t) == a + (if mid == f {
            t
        } else {
            mid
        }) + b,
{
    let s = a + mid + b;
    let p = a.len() as int;
    assert forall|j: int| 0 <= j && j != p && j + f.len() <= s.len() implies #[trigger] s.subrange(j, j + f.len()) != f by {
        if s.subrange(j, j + f.len()) == f {
            assert(s[j + 1] == f[1]);
            if j + 1 < p {
                assert(s[j + 1] == a[j + 1]);
            } else if j + 1 < p + mid.len() {
                assert(s[j + 1] == mid[j + 1 - p]);
            } else {
                assert(s[j + 1] == b[j + 1 - p - mid.len()]);
            }
        }
    }
    if mid == f {
        assert(s.subrange(p, p + f.len()) =~= f);
        lemma_replace_once(s, f, t, 0, p);
        assert(s.subrange(0, p) =~= a);
        assert(s.subrange(p + f.len(), s.len() as int) =~= b);
    } else {
        if p + f.len() <= s.len() && s.subrange(p, p + f.len()) == f {
            assert(s[p + 1] == f[1]);
            assert(s[p + 1] == mid[1]);
            assert(s[p + 2] == f[2]);
            assert(s[p + 3] == f[3]);
            assert(s[p + 2] == mid[2]);
            assert(s[p + 3] == mid[3]);
        }
        lemma_replace_none(s, f, t, 0);
        assert(s.subrange(0, s.len() as int) =~= s);
    }
}

/// The replacement of one character `c`: `t` for `c`, the character itself otherwise.
pub open spec fn char_replaced(x: char, c: char, t: Seq<char>) -> Seq<char> {
    if x == c {
        t
    } else {
        seq![x]
    }
}

proof fn lemma_replace_char_from(s: Seq<char>, c: char, t: Seq<char>, i: int)
    requires
        0 <= i <= s.len(),
    ensures
        s.len() > 0 && i < s.len() ==> replace_from(s, seq![c], t, i) == replace_from(s.drop_last(), seq![c], t, i)
            + char_replaced(s.last(), c, t),
        i == s.len() ==> replace_from(s, seq![c], t, i) == Seq::<char>::empty(),
    decreases s.len() - i,
{
    let f = seq![c];
    if i < s.len() {
        lemma_replace_char_from(s, c, t, i + 1);
        let d = s.drop_last();
        assert(s.subrange(i, i + 1) =~= seq![s[i]]);
        assert(f.len() == 1);
        assert(s[i] == c ==> s.subrange(i, i + f.len()) == f);
        if i + 1 < s.len() {
            assert(d.subrange(i, i + 1) =~= seq![d[i]]);
            assert(d[i] == s[i]);
            lemma_replace_char_from(d, c, t, i + 1);
            if s[i] == c {
                assert(replace_from(s, f, t, i) =~= replace_from(d, f, t, i) + char_replaced(s.last(), c, t));
            } else {
                assert(replace_from(s, f, t, i) =~= replace_from(d, f, t, i) + char_replaced(s.last(), c, t));
            }
        } else {
            assert(replace_from(d, f, t, i) == Seq::<char>::empty());
            assert(s.last() == s[i]);
            assert(replace_from(s, f, t, i + 1) == Seq::<char>::empty());
            if s[i] == c {
                assert(s.subrange(i, i + f.len()) == f);
                assert(replace_from(s, f, t, i) == t + replace_from(s, f, t, i + f.len()));
                assert(t + Seq::<char>::empty() =~= t);
            } else {
                assert(s.subrange(i, i + f.len())[0] != f[0]);
                assert(replace_from(s, f, t, i) == seq![s[i]] + replace_from(s, f, t, i + 1));
                assert(replace_from(s, f, t, i) =~= char_replaced(s.last(), c, t));
            }
        }
    }
}

/// Replacing a character works character by character: one more character
/// at the end adds its replacement at the end.
pub proof fn lemma_replace_char_push(s: Seq<char>, x: char, c: char, t: Seq<char>)
    ensures
        replace(s.push(x), seq![c], t) == replace(s, seq![c], t) + char_replaced(x, c, t),
{
    lemma_replace_char_from(s.push(x), c, t, 0);
    assert(s.push(x).drop_last() =~= s);
    if s.len() == 0 {
        lemma_replace_char_from(s, c, t, 0);
    }
}

/// Replacing a character in a joined text replaces it in each part.
pub proof fn lemma_replace_char_add(a: Seq<char>, b: Seq<char>, c: char, t: Seq<char>)
    ensures
        replace(a + b, seq![c], t) == replace(a, seq![c], t) + replace(b, seq![c], t),
    decreases b.len(),
{
    if b.len() == 0 {
        assert(a + b =~= a);
        lemma_replace_char_from(b, c, t, 0);
        assert(replace(a, seq![c], t) + replace(b, seq![c], t) =~= replace(a, seq![c], t));
    } else {
        let b0 = b.drop_last();
        lemma_replace_char_add(a, b0, c, t);
        assert(a + b =~= (a + b0).push(b.last()));
        assert(b =~= b0.push(b.last()));
        lemma_replace_char_push(a + b0, b.last(), c, t);
        lemma_replace_char_push(b0, b.last(), c, t);
    }
}

/// A text without `c` is left as it is.
pub proof fn lemma_replace_char_absent(s: Seq<char>, c: char, t: Seq<char>)
    requires
        forall|i: int| 0 <= i < s.len() ==> s[i] != c,
    ensures
        replace(s, seq![c], t) == s,
    decreases s.len(),
{
    if s.len() == 0 {
        lemma_replace_char_from(s, c, t, 0);
    } else {
        let d = s.drop_last();
        lemma_replace_char_absent(d, c, t);
        assert(s =~= d.push(s.last()));
        lemma_replace_char_push(d, s.last(), c, t);
    }
}
} // verus!
