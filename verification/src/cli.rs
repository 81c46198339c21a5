//! Command-line decisions: arguments, output names, failure categories and policies.
use vstd::prelude::*;
use crate::ir::{IrProgram, IrStmt, SymbolInfo, SymbolView, ir_views, symbol_views};
use crate::parser::{Diagnostic, DiagnosticView, OperationStat, OperationStatView, ParseMode, Program, SubroutineRoute, SubroutineRouteView, diag_views, diagnostic_text, route_views, stat_views};
use crate::report::{concat_items, format_subroute_markdown, html_report, level_name, level_name_str, pad, push_all, rows, subroute_markdown, todos_of, todos_upto, value_type_name, value_type_name_str};
use crate::text::{all_digits, char_is_ascii_alnum, char_is_ascii_digit, char_upper, chars_of, contains, contains_char, contains_lit, decimal, digit_char, eq_chars, extend, extend_str, has_char, has_part, is_ascii_alnum, is_ascii_digit, is_lit, lemma_has_part_mid, lemma_seq_lt_total, lemma_seq_lt_trans, lower, lt_chars, owned, push_decimal, replace, replace_chars, seq_lt, slice_of, string_of, to_lower, trim, trim_chars, upper, upper_char, views};
use crate::transpiler::{JavaTarget, java_target_result, parse_java_target, string_result_view};

verus! {

// ------------------------------------------------------------------
// Parse modes
// ------------------------------------------------------------------

/// The parse mode named by `v` (in any ASCII case), or the error message.
pub open spec fn mode_result(v: Seq<char>) -> Result<ParseMode, Seq<char>> {
    let l = lower(v);
    if l == "auto"@ {
        Ok(ParseMode::Auto)
    } else if l == "free"@ {
        Ok(ParseMode::Free)
    } else if l == "fixed"@ {
        Ok(ParseMode::Fixed)
    } else {
        Err("invalid mode '"@ + v + "', expected auto|free|fixed"@)
    }
}

pub fn parse_mode(value: &str) -> (r: Result<ParseMode, String>)
    ensures
        string_result_view(r) == mode_result(value@),
{
    let v = chars_of(value);
    let l = to_lower(&v);
    if is_lit(&l, "auto") {
        Ok(ParseMode::Auto)
    } else if is_lit(&l, "free") {
        Ok(ParseMode::Free)
    } else if is_lit(&l, "fixed") {
        Ok(ParseMode::Fixed)
    } else {
        let mut msg = chars_of("invalid mode '");
        extend(&mut msg, &v);
        extend_str(&mut msg, "', expected auto|free|fixed");
        Err(string_of(&msg))
    }
}

// ------------------------------------------------------------------
// Unsigned integers
// ------------------------------------------------------------------

/// The number that a string of ASCII digits spells in base ten.
pub open spec fn digits_value(d: Seq<char>) -> nat
    decreases d.len(),
{
    if d.len() == 0 {
        0
    } else {
        digits_value(d.drop_last()) * 10 + (((d.last() as int) - ('0' as int)) as nat)
    }
}

/// The digits of an unsigned number: a leading `+` is allowed.
pub open spec fn usize_digits(s: Seq<char>) -> Seq<char> {
    if s.len() > 0 && s[0] == '+' {
        s.drop_first()
    } else {
        s
    }
}

/// What `str::parse::<usize>` gives: one or more digits after an optional
/// `+`, whose value fits in a `usize`.
pub open spec fn usize_value(s: Seq<char>) -> Option<nat> {
    let d = usize_digits(s);
    if d.len() > 0 && all_digits(d) && digits_value(d) <= usize::MAX {
        Some(digits_value(d))
    } else {
        None
    }
}

proof fn lemma_digits_value_step(d: Seq<char>, k: int)
    requires
        0 <= k < d.len(),
    ensures
        digits_value(d.take(k + 1)) == digits_value(d.take(k)) * 10 + (((d[k] as int) - ('0' as int)) as nat),
{
    assert(d.take(k + 1).drop_last() =~= d.take(k));
}

proof fn lemma_digits_value_mono(d: Seq<char>, j: int, k: int)
    requires
        0 <= j <= k <= d.len(),
        all_digits(d),
    ensures
        digits_value(d.take(j)) <= digits_value(d.take(k)),
    decreases k - j,
{
    if j < k {
        lemma_digits_value_mono(d, j, k - 1);
        lemma_digits_value_step(d, k - 1);
        assert(is_ascii_digit(d[k - 1]));
    }
}

pub fn parse_usize(s: &str) -> (r: Option<usize>)
    ensures
        match r {
            Some(n) => usize_value(s@) == Some(n as nat),
            None => usize_value(s@) is None,
        },
{
    let cs = chars_of(s);
    let start: usize = if cs.len() > 0 && cs[0] == '+' {
        1
    } else {
        0
    };
    let ghost d = usize_digits(s@);
    proof {
        assert(d =~= cs@.subrange(start as int, cs@.len() as int));
    }
    if start >= cs.len() {
        return None;
    }
    let mut n: usize = 0;
    let mut i: usize = start;
    while i < cs.len()
        invariant
            start <= i <= cs.len(),
            d == cs@.subrange(start as int, cs@.len() as int),
            d == usize_digits(s@),
            n == digits_value(d.take(i - start)),
            forall|j: int| 0 <= j < i - start ==> is_ascii_digit(#[trigger] d[j]),
        decreases cs.len() - i,
    {
        let c = cs[i];
        let ghost k = i - start;
        proof {
            assert(d[k] == c);
        }
        if !char_is_ascii_digit(c) {
            proof {
                assert(!is_ascii_digit(d[k]));
            }
            return None;
        }
        let dg: usize = ((c as u32) - ('0' as u32)) as usize;
        proof {
            lemma_digits_value_step(d, k);
            if all_digits(d) {
                lemma_digits_value_mono(d, k + 1, d.len() as int);
                assert(d.take(d.len() as int) =~= d);
            }
        }
        match n.checked_mul(10) {
            None => {
                proof {
                    assert(digits_value(d.take(k + 1)) > usize::MAX);
                }
                return None;
            },
            Some(m) => match m.checked_add(dg) {
                None => {
                    return None;
                },
                Some(v) => {
                    n = v;
                },
            },
        }
        i += 1;
    }
    proof {
        assert(d.take(d.len() as int) =~= d);
    }
    Some(n)
}

// ------------------------------------------------------------------
// Class names
// ------------------------------------------------------------------

/// Whether the next letter or digit after the first `k` characters is capitalised.
pub open spec fn camel_upper(s: Seq<char>, k: int) -> bool {
    k == 0 || !is_ascii_alnum(s[k - 1])
}

/// The letters and digits of the first `k` characters, each one that follows
/// another character (or starts the text) capitalised.
pub open spec fn camel_out(s: Seq<char>, k: nat) -> Seq<char>
    decreases k,
{
    if k == 0 || k > s.len() {
        Seq::empty()
    } else {
        let prev = camel_out(s, (k - 1) as nat);
        let c = s[k - 1];
        if is_ascii_alnum(c) {
            prev.push(
                if camel_upper(s, k - 1) {
                    upper_char(c)
                } else {
                    c
                },
            )
        } else {
            prev
        }
    }
}

/// The Java class name for a file stem: its words in upper camel case, or
/// `MainProgram` when the stem is missing or has no letter or digit.
pub open spec fn class_name_of(stem: Option<Seq<char>>) -> Seq<char> {
    let s = match stem {
        Some(x) => x,
        None => "MainProgram"@,
    };
    let o = camel_out(s, s.len());
    if o.len() == 0 {
        "MainProgram"@
    } else {
        o
    }
}

pub open spec fn opt_str_view(v: Option<&str>) -> Option<Seq<char>> {
    match v {
        Some(x) => Some(x@),
        None => None,
    }
}

pub fn class_name_from_stem(stem: Option<&str>) -> (r: String)
    ensures
        r@ == class_name_of(opt_str_view(stem)),
{
    let s = match stem {
        Some(x) => chars_of(x),
        None => chars_of("MainProgram"),
    };
    let mut out: Vec<char> = Vec::new();
    let mut upper = true;
    let mut i: usize = 0;
    while i < s.len()
        invariant
            i <= s.len(),
            out@ == camel_out(s@, i as nat),
            upper == camel_upper(s@, i as int),
        decreases s.len() - i,
    {
        let ch = s[i];
        if char_is_ascii_alnum(ch) {
            if upper {
                out.push(char_upper(ch));
                upper = false;
            } else {
                out.push(ch);
            }
        } else {
            upper = true;
        }
        i += 1;
    }
    if out.len() == 0 {
        owned("MainProgram")
    } else {
        string_of(&out)
    }
}

// ------------------------------------------------------------------
// Small renderings
// ------------------------------------------------------------------

/// The size band of an input of `bytes` bytes.
pub open spec fn band_of(bytes: nat) -> Seq<char> {
    if bytes <= 1023 {
        "<1KiB"@
    } else if bytes <= 10239 {
        "1-10KiB"@
    } else if bytes <= 102399 {
        "10-100KiB"@
    } else if bytes <= 1048575 {
        "100KiB-1MiB"@
    } else {
        ">=1MiB"@
    }
}

pub fn size_band(bytes: u64) -> (r: &'static str)
    ensures
        r@ == band_of(bytes as nat),
{
    if bytes <= 1023 {
        "<1KiB"
    } else if bytes <= 10239 {
        "1-10KiB"
    } else if bytes <= 102399 {
        "10-100KiB"
    } else if bytes <= 1048575 {
        "100KiB-1MiB"
    } else {
        ">=1MiB"
    }
}

/// A CSV field: quoted, with doubled quotes, when it holds a comma, a quote or a line feed.
pub open spec fn csv_field(s: Seq<char>) -> Seq<char> {
    if contains_char(s, ',') || contains_char(s, '"') || contains_char(s, '\n') {
        seq!['"'] + replace(s, seq!['"'], seq!['"', '"']) + seq!['"']
    } else {
        s
    }
}

pub fn csv_escape(s: &str) -> (r: String)
    ensures
        r@ == csv_field(s@),
{
    let cs = chars_of(s);
    if has_char(&cs, ',') || has_char(&cs, '"') || has_char(&cs, '\n') {
        let mut q: Vec<char> = Vec::new();
        q.push('"');
        let mut dq: Vec<char> = Vec::new();
        dq.push('"');
        dq.push('"');
        let mut out: Vec<char> = Vec::new();
        out.push('"');
        extend(&mut out, &replace_chars(&cs, &q, &dq));
        out.push('"');
        proof {
            assert(q@ =~= seq!['"']);
            assert(dq@ =~= seq!['"', '"']);
            assert(out@ =~= csv_field(s@));
        }
        string_of(&out)
    } else {
        owned(s)
    }
}

/// At most `max` characters; a longer text is cut there and marked.
pub open spec fn truncated(s: Seq<char>, max: nat) -> Seq<char> {
    if s.len() <= max {
        s
    } else {
        s.take(max as int) + " ...<truncated>"@
    }
}

pub fn truncate_detail(input: &str, max: usize) -> (r: String)
    ensures
        r@ == truncated(input@, max as nat),
{
    let cs = chars_of(input);
    if cs.len() <= max {
        return owned(input);
    }
    let mut buf = slice_of(&cs, 0, max);
    extend_str(&mut buf, " ...<truncated>");
    string_of(&buf)
}

/// The detail of a compiler run: its trimmed error and standard output, joined
/// by a line feed when both are there, cut at 1200 characters.
pub open spec fn javac_detail_of(stderr: Seq<char>, stdout: Seq<char>) -> Seq<char> {
    let e = trim(stderr);
    let o = trim(stdout);
    let joined = if e.len() == 0 {
        o
    } else if o.len() == 0 {
        e
    } else {
        e + seq!['\n'] + o
    };
    truncated(joined, 1200)
}

pub fn javac_detail(stderr: &str, stdout: &str) -> (r: String)
    ensures
        r@ == javac_detail_of(stderr@, stdout@),
{
    let e = trim_chars(&chars_of(stderr));
    let o = trim_chars(&chars_of(stdout));
    let joined = if e.len() == 0 {
        o
    } else if o.len() == 0 {
        e
    } else {
        let mut j = e;
        j.push('\n');
        extend(&mut j, &o);
        j
    };
    truncate_detail(string_of(&joined).as_str(), 1200)
}

/// The performance report that goes with a metrics file of the given stem.
pub open spec fn perf_report_name_of(stem: Option<Seq<char>>) -> Seq<char> {
    let s = match stem {
        Some(s) => s,
        None => "metrics"@,
    };
    s + ".summary.json"@
}

pub fn perf_report_file_name(stem: Option<&str>) -> (r: String)
    ensures
        r@ == perf_report_name_of(opt_str_view(stem)),
{
    let mut out = match stem {
        Some(s) => chars_of(s),
        None => chars_of("metrics"),
    };
    extend_str(&mut out, ".summary.json");
    string_of(&out)
}

/// Batch mode converts the files whose extension is `rpg` or `txt`, in any ASCII case.
pub open spec fn is_batch_source_ext(ext: Option<Seq<char>>) -> bool {
    let l = match ext {
        Some(e) => lower(e),
        None => Seq::empty(),
    };
    l == "rpg"@ || l == "txt"@
}

pub fn is_batch_source(ext: Option<&str>) -> (r: bool)
    ensures
        r == is_batch_source_ext(opt_str_view(ext)),
{
    let l = match ext {
        Some(e) => to_lower(&chars_of(e)),
        None => Vec::new(),
    };
    proof {
        if ext is None {
            assert(l@ =~= Seq::<char>::empty());
        }
    }
    is_lit(&l, "rpg") || is_lit(&l, "txt")
}


// ------------------------------------------------------------------
// Command-line arguments
// ------------------------------------------------------------------

/// What `str::parse::<f64>` and the range check from 0 to 1 found in an argument.
#[derive(Debug, Clone, Copy, PartialEq, Eq, Structural)]
pub enum RateCheck {
    Valid,
    OutOfRange,
    Invalid,
}

/// The options of a conversion run; paths are kept as given.
#[derive(Debug, Clone)]
pub struct Cli {
    /// The source file of single-file mode.
    pub input: Option<String>,
    /// The directory of batch mode.
    pub batch_dir: Option<String>,
    /// Where single-file mode writes the Java source.
    pub output: Option<String>,
    /// Where batch mode writes its outputs.
    pub output_dir: Option<String>,
    /// Where Java snapshots are kept.
    pub snapshot_dir: Option<String>,
    /// Rewrite snapshots instead of comparing.
    pub update_snapshots: bool,
    /// The JSON report of single-file mode.
    pub report_json: Option<String>,
    /// The Markdown report of single-file mode.
    pub report_md: Option<String>,
    /// The HTML report of single-file mode.
    pub report_html: Option<String>,
    /// The source map of single-file mode.
    pub source_map: Option<String>,
    /// Batch mode also writes HTML reports.
    pub html_report: bool,
    /// Batch mode also writes source maps.
    pub source_map_report: bool,
    /// Fail when any TODO item is left.
    pub strict: bool,
    /// The highest TODO rate accepted, as given (a number from 0 to 1).
    pub fail_on_todo_rate: Option<String>,
    /// Validate without writing files.
    pub dry_run: bool,
    /// The metrics file of batch mode.
    pub metrics_csv: Option<String>,
    /// The performance report of batch mode.
    pub perf_report_json: Option<String>,
    /// Compile the generated source.
    pub javac_check: bool,
    /// The compiler command.
    pub javac_cmd: String,
    /// The Java class name of single-file mode.
    pub class_name: String,
    /// The Java language level.
    pub java_target: JavaTarget,
    /// How source lines are read.
    pub mode: ParseMode,
    /// How many workers batch mode uses.
    pub jobs: usize,
}

pub struct CliView {
    pub input: Option<Seq<char>>,
    pub batch_dir: Option<Seq<char>>,
    pub output: Option<Seq<char>>,
    pub output_dir: Option<Seq<char>>,
    pub snapshot_dir: Option<Seq<char>>,
    pub update_snapshots: bool,
    pub report_json: Option<Seq<char>>,
    pub report_md: Option<Seq<char>>,
    pub report_html: Option<Seq<char>>,
    pub source_map: Option<Seq<char>>,
    pub html_report: bool,
    pub source_map_report: bool,
    pub strict: bool,
    pub fail_on_todo_rate: Option<Seq<char>>,
    pub dry_run: bool,
    pub metrics_csv: Option<Seq<char>>,
    pub perf_report_json: Option<Seq<char>>,
    pub javac_check: bool,
    pub javac_cmd: Seq<char>,
    pub class_name: Seq<char>,
    pub java_target: JavaTarget,
    pub mode: ParseMode,
    pub jobs: usize,
}

pub open spec fn opt_string_view(o: Option<String>) -> Option<Seq<char>> {
    match o {
        Some(v) => Some(v@),
        None => None,
    }
}

impl View for Cli {
    type V = CliView;

    open spec fn view(&self) -> CliView {
        CliView {
            input: opt_string_view(self.input),
            batch_dir: opt_string_view(self.batch_dir),
            output: opt_string_view(self.output),
            output_dir: opt_string_view(self.output_dir),
            snapshot_dir: opt_string_view(self.snapshot_dir),
            update_snapshots: self.update_snapshots,
            report_json: opt_string_view(self.report_json),
            report_md: opt_string_view(self.report_md),
            report_html: opt_string_view(self.report_html),
            source_map: opt_string_view(self.source_map),
            html_report: self.html_report,
            source_map_report: self.source_map_report,
            strict: self.strict,
            fail_on_todo_rate: opt_string_view(self.fail_on_todo_rate),
            dry_run: self.dry_run,
            metrics_csv: opt_string_view(self.metrics_csv),
            perf_report_json: opt_string_view(self.perf_report_json),
            javac_check: self.javac_check,
            javac_cmd: self.javac_cmd@,
            class_name: self.class_name@,
            java_target: self.java_target,
            mode: self.mode,
            jobs: self.jobs,
        }
    }
}

/// What a run of the command line asks for.
#[derive(Debug, Clone)]
pub enum CliCommand {
    Run(Cli),
    Help,
    Doctor,
}

pub enum CliOutcome {
    Run(CliView),
    Help,
    Doctor,
    Failed(Seq<char>),
}

pub open spec fn command_outcome(r: Result<CliCommand, String>) -> CliOutcome {
    match r {
        Ok(CliCommand::Run(c)) => CliOutcome::Run(c@),
        Ok(CliCommand::Help) => CliOutcome::Help,
        Ok(CliCommand::Doctor) => CliOutcome::Doctor,
        Err(e) => CliOutcome::Failed(e@),
    }
}

/// The options before any argument is read.
pub open spec fn default_cli() -> CliView {
    CliView {
        input: None,
        batch_dir: None,
        output: None,
        output_dir: None,
        snapshot_dir: None,
        update_snapshots: false,
        report_json: None,
        report_md: None,
        report_html: None,
        source_map: None,
        html_report: false,
        source_map_report: false,
        strict: false,
        fail_on_todo_rate: None,
        dry_run: false,
        metrics_csv: None,
        perf_report_json: None,
        javac_check: false,
        javac_cmd: "javac"@,
        class_name: "MainProgram"@,
        java_target: JavaTarget::Java21,
        mode: ParseMode::Auto,
        jobs: 1,
    }
}

fn default_cli_exec() -> (r: Cli)
    ensures
        r@ == default_cli(),
{
    Cli {
        input: None,
        batch_dir: None,
        output: None,
        output_dir: None,
        snapshot_dir: None,
        update_snapshots: false,
        report_json: None,
        report_md: None,
        report_html: None,
        source_map: None,
        html_report: false,
        source_map_report: false,
        strict: false,
        fail_on_todo_rate: None,
        dry_run: false,
        metrics_csv: None,
        perf_report_json: None,
        javac_check: false,
        javac_cmd: owned("javac"),
        class_name: owned("MainProgram"),
        java_target: JavaTarget::Java21,
        mode: ParseMode::Auto,
        jobs: 1,
    }
}

/// The kinds of arguments.
#[derive(Debug, Clone, Copy, PartialEq, Eq, Structural)]
pub enum CliFlag {
    Input,
    BatchDir,
    Output,
    OutputDir,
    SnapshotDir,
    UpdateSnapshots,
    ClassName,
    Target,
    ReportJson,
    ReportMd,
    ReportHtml,
    SourceMap,
    HtmlReport,
    SourceMapReport,
    Strict,
    FailOnTodoRate,
    DryRun,
    Redact,
    Reserved,
    MetricsCsv,
    PerfReportJson,
    JavacCheck,
    JavacCmd,
    Mode,
    Jobs,
    Help,
    Unknown,
}

/// The kind of the argument `a`.
pub open spec fn flag_of(a: Seq<char>) -> CliFlag {
    if a == "--input"@ || a == "-i"@ {
        CliFlag::Input
    } else if a == "--batch-dir"@ {
        CliFlag::BatchDir
    } else if a == "--output"@ || a == "-o"@ {
        CliFlag::Output
    } else if a == "--output-dir"@ {
        CliFlag::OutputDir
    } else if a == "--snapshot-dir"@ {
        CliFlag::SnapshotDir
    } else if a == "--update-snapshots"@ {
        CliFlag::UpdateSnapshots
    } else if a == "--class-name"@ {
        CliFlag::ClassName
    } else if a == "--java-target"@ {
        CliFlag::Target
    } else if a == "--report-json"@ {
        CliFlag::ReportJson
    } else if a == "--report-md"@ {
        CliFlag::ReportMd
    } else if a == "--report-html"@ {
        CliFlag::ReportHtml
    } else if a == "--source-map"@ {
        CliFlag::SourceMap
    } else if a == "--html-report"@ {
        CliFlag::HtmlReport
    } else if a == "--source-map-report"@ {
        CliFlag::SourceMapReport
    } else if a == "--strict"@ {
        CliFlag::Strict
    } else if a == "--fail-on-todo-rate"@ {
        CliFlag::FailOnTodoRate
    } else if a == "--dry-run"@ {
        CliFlag::DryRun
    } else if a == "--redact"@ {
        CliFlag::Redact
    } else if a == "--config"@ || a == "--profile"@ || a == "--baseline"@ || a == "--sarif"@ {
        CliFlag::Reserved
    } else if a == "--metrics-csv"@ {
        CliFlag::MetricsCsv
    } else if a == "--perf-report-json"@ {
        CliFlag::PerfReportJson
    } else if a == "--javac-check"@ {
        CliFlag::JavacCheck
    } else if a == "--javac-cmd"@ {
        CliFlag::JavacCmd
    } else if a == "--mode"@ {
        CliFlag::Mode
    } else if a == "--jobs"@ {
        CliFlag::Jobs
    } else if a == "--help"@ || a == "-h"@ {
        CliFlag::Help
    } else {
        CliFlag::Unknown
    }
}

fn classify_flag(a: &Vec<char>) -> (r: CliFlag)
    ensures
        r == flag_of(a@),
{
    if is_lit(a, "--input") || is_lit(a, "-i") {
        CliFlag::Input
    } else if is_lit(a, "--batch-dir") {
        CliFlag::BatchDir
    } else if is_lit(a, "--output") || is_lit(a, "-o") {
        CliFlag::Output
    } else if is_lit(a, "--output-dir") {
        CliFlag::OutputDir
    } else if is_lit(a, "--snapshot-dir") {
        CliFlag::SnapshotDir
    } else if is_lit(a, "--update-snapshots") {
        CliFlag::UpdateSnapshots
    } else if is_lit(a, "--class-name") {
        CliFlag::ClassName
    } else if is_lit(a, "--java-target") {
        CliFlag::Target
    } else if is_lit(a, "--report-json") {
        CliFlag::ReportJson
    } else if is_lit(a, "--report-md") {
        CliFlag::ReportMd
    } else if is_lit(a, "--report-html") {
        CliFlag::ReportHtml
    } else if is_lit(a, "--source-map") {
        CliFlag::SourceMap
    } else if is_lit(a, "--html-report") {
        CliFlag::HtmlReport
    } else if is_lit(a, "--source-map-report") {
        CliFlag::SourceMapReport
    } else if is_lit(a, "--strict") {
        CliFlag::Strict
    } else if is_lit(a, "--fail-on-todo-rate") {
        CliFlag::FailOnTodoRate
    } else if is_lit(a, "--dry-run") {
        CliFlag::DryRun
    } else if is_lit(a, "--redact") {
        CliFlag::Redact
    } else if is_lit(a, "--config") || is_lit(a, "--profile") || is_lit(a, "--baseline") || is_lit(a, "--sarif") {
        CliFlag::Reserved
    } else if is_lit(a, "--metrics-csv") {
        CliFlag::MetricsCsv
    } else if is_lit(a, "--perf-report-json") {
        CliFlag::PerfReportJson
    } else if is_lit(a, "--javac-check") {
        CliFlag::JavacCheck
    } else if is_lit(a, "--javac-cmd") {
        CliFlag::JavacCmd
    } else if is_lit(a, "--mode") {
        CliFlag::Mode
    } else if is_lit(a, "--jobs") {
        CliFlag::Jobs
    } else if is_lit(a, "--help") || is_lit(a, "-h") {
        CliFlag::Help
    } else {
        CliFlag::Unknown
    }
}

/// The arguments that take the next argument as their value.
pub open spec fn takes_value(f: CliFlag) -> bool {
    match f {
        CliFlag::Input => true,
        CliFlag::BatchDir => true,
        CliFlag::Output => true,
        CliFlag::OutputDir => true,
        CliFlag::SnapshotDir => true,
        CliFlag::ClassName => true,
        CliFlag::Target => true,
        CliFlag::ReportJson => true,
        CliFlag::ReportMd => true,
        CliFlag::ReportHtml => true,
        CliFlag::SourceMap => true,
        CliFlag::FailOnTodoRate => true,
        CliFlag::MetricsCsv => true,
        CliFlag::PerfReportJson => true,
        CliFlag::JavacCmd => true,
        CliFlag::Mode => true,
        CliFlag::Jobs => true,
        CliFlag::Reserved => true,
        _ => false,
    }
}

fn takes_value_exec(f: CliFlag) -> (r: bool)
    ensures
        r == takes_value(f),
{
    match f {
        CliFlag::Input => true,
        CliFlag::BatchDir => true,
        CliFlag::Output => true,
        CliFlag::OutputDir => true,
        CliFlag::SnapshotDir => true,
        CliFlag::ClassName => true,
        CliFlag::Target => true,
        CliFlag::ReportJson => true,
        CliFlag::ReportMd => true,
        CliFlag::ReportHtml => true,
        CliFlag::SourceMap => true,
        CliFlag::FailOnTodoRate => true,
        CliFlag::MetricsCsv => true,
        CliFlag::PerfReportJson => true,
        CliFlag::JavacCmd => true,
        CliFlag::Mode => true,
        CliFlag::Jobs => true,
        CliFlag::Reserved => true,
        _ => false,
    }
}

/// The name under which a value argument is reported as missing.
pub open spec fn flag_name(f: CliFlag) -> Seq<char> {
    match f {
        CliFlag::Input => "--input"@,
        CliFlag::BatchDir => "--batch-dir"@,
        CliFlag::Output => "--output"@,
        CliFlag::OutputDir => "--output-dir"@,
        CliFlag::SnapshotDir => "--snapshot-dir"@,
        CliFlag::ClassName => "--class-name"@,
        CliFlag::Target => "--java-target"@,
        CliFlag::ReportJson => "--report-json"@,
        CliFlag::ReportMd => "--report-md"@,
        CliFlag::ReportHtml => "--report-html"@,
        CliFlag::SourceMap => "--source-map"@,
        CliFlag::FailOnTodoRate => "--fail-on-todo-rate"@,
        CliFlag::MetricsCsv => "--metrics-csv"@,
        CliFlag::PerfReportJson => "--perf-report-json"@,
        CliFlag::JavacCmd => "--javac-cmd"@,
        CliFlag::Mode => "--mode"@,
        CliFlag::Jobs => "--jobs"@,
        _ => ""@,
    }
}

fn flag_name_str(f: CliFlag) -> (r: &'static str)
    ensures
        r@ == flag_name(f),
{
    match f {
        CliFlag::Input => "--input",
        CliFlag::BatchDir => "--batch-dir",
        CliFlag::Output => "--output",
        CliFlag::OutputDir => "--output-dir",
        CliFlag::SnapshotDir => "--snapshot-dir",
        CliFlag::ClassName => "--class-name",
        CliFlag::Target => "--java-target",
        CliFlag::ReportJson => "--report-json",
        CliFlag::ReportMd => "--report-md",
        CliFlag::ReportHtml => "--report-html",
        CliFlag::SourceMap => "--source-map",
        CliFlag::FailOnTodoRate => "--fail-on-todo-rate",
        CliFlag::MetricsCsv => "--metrics-csv",
        CliFlag::PerfReportJson => "--perf-report-json",
        CliFlag::JavacCmd => "--javac-cmd",
        CliFlag::Mode => "--mode",
        CliFlag::Jobs => "--jobs",
        _ => "",
    }
}

/// The message for a value argument `a` that comes last.
pub open spec fn missing_message(f: CliFlag, a: Seq<char>) -> Seq<char> {
    "missing value for "@ + if f == CliFlag::Reserved {
        a
    } else {
        flag_name(f)
    }
}

fn missing_message_exec(f: CliFlag, a: &Vec<char>) -> (r: String)
    ensures
        r@ == missing_message(f, a@),
{
    let mut m = chars_of("missing value for ");
    if f == CliFlag::Reserved {
        extend(&mut m, a);
    } else {
        extend_str(&mut m, flag_name_str(f));
    }
    string_of(&m)
}

/// The options after the value argument `f` with value `v`, or the error it meets.
pub open spec fn apply_value(f: CliFlag, v: Seq<char>, rc: RateCheck, st: CliView) -> Result<CliView, Seq<char>> {
    match f {
        CliFlag::Input => Ok(CliView { input: Some(v), ..st }),
        CliFlag::BatchDir => Ok(CliView { batch_dir: Some(v), ..st }),
        CliFlag::Output => Ok(CliView { output: Some(v), ..st }),
        CliFlag::OutputDir => Ok(CliView { output_dir: Some(v), ..st }),
        CliFlag::SnapshotDir => Ok(CliView { snapshot_dir: Some(v), ..st }),
        CliFlag::ReportJson => Ok(CliView { report_json: Some(v), ..st }),
        CliFlag::ReportMd => Ok(CliView { report_md: Some(v), ..st }),
        CliFlag::ReportHtml => Ok(CliView { report_html: Some(v), ..st }),
        CliFlag::SourceMap => Ok(CliView { source_map: Some(v), ..st }),
        CliFlag::MetricsCsv => Ok(CliView { metrics_csv: Some(v), ..st }),
        CliFlag::PerfReportJson => Ok(CliView { perf_report_json: Some(v), ..st }),
        CliFlag::ClassName => Ok(CliView { class_name: v, ..st }),
        CliFlag::JavacCmd => Ok(CliView { javac_cmd: v, ..st }),
        CliFlag::Target => match java_target_result(v) {
            Ok(t) => Ok(CliView { java_target: t, ..st }),
            Err(e) => Err(e),
        },
        CliFlag::Mode => match mode_result(v) {
            Ok(m) => Ok(CliView { mode: m, ..st }),
            Err(e) => Err(e),
        },
        CliFlag::FailOnTodoRate => match rc {
            RateCheck::Invalid => Err("invalid --fail-on-todo-rate '"@ + v + "'"@),
            RateCheck::OutOfRange => Err("--fail-on-todo-rate must be between 0.0 and 1.0"@),
            RateCheck::Valid => Ok(CliView { fail_on_todo_rate: Some(v), ..st }),
        },
        CliFlag::Jobs => match usize_value(v) {
            None => Err("invalid --jobs '"@ + v + "'"@),
            Some(n) => if n == 0 {
                Err("--jobs must be >= 1"@)
            } else {
                Ok(CliView { jobs: n as usize, ..st })
            },
        },
        _ => Ok(st),
    }
}

fn quoted_error(head: &str, v: &String) -> (r: String)
    ensures
        r@ == head@ + v@ + "'"@,
{
    let mut m = chars_of(head);
    extend(&mut m, &chars_of(v.as_str()));
    extend_str(&mut m, "'");
    string_of(&m)
}

fn apply_value_exec(f: CliFlag, v: &String, rc: RateCheck, st: &mut Cli) -> (r: Result<(), String>)
    ensures
        match r {
            Ok(_) => apply_value(f, v@, rc, old(st)@) == Ok::<CliView, Seq<char>>(final(st)@),
            Err(e) => apply_value(f, v@, rc, old(st)@) == Err::<CliView, Seq<char>>(e@),
        },
{
    match f {
        CliFlag::Input => {
            st.input = Some(v.clone());
        },
        CliFlag::BatchDir => {
            st.batch_dir = Some(v.clone());
        },
        CliFlag::Output => {
            st.output = Some(v.clone());
        },
        CliFlag::OutputDir => {
            st.output_dir = Some(v.clone());
        },
        CliFlag::SnapshotDir => {
            st.snapshot_dir = Some(v.clone());
        },
        CliFlag::ReportJson => {
            st.report_json = Some(v.clone());
        },
        CliFlag::ReportMd => {
            st.report_md = Some(v.clone());
        },
        CliFlag::ReportHtml => {
            st.report_html = Some(v.clone());
        },
        CliFlag::SourceMap => {
            st.source_map = Some(v.clone());
        },
        CliFlag::MetricsCsv => {
            st.metrics_csv = Some(v.clone());
        },
        CliFlag::PerfReportJson => {
            st.perf_report_json = Some(v.clone());
        },
        CliFlag::ClassName => {
            st.class_name = v.clone();
        },
        CliFlag::JavacCmd => {
            st.javac_cmd = v.clone();
        },
        CliFlag::Target => {
            match parse_java_target(v.as_str()) {
                Ok(t) => {
                    st.java_target = t;
                },
                Err(e) => {
                    return Err(e);
                },
            }
        },
        CliFlag::Mode => {
            match parse_mode(v.as_str()) {
                Ok(m) => {
                    st.mode = m;
                },
                Err(e) => {
                    return Err(e);
                },
            }
        },
        CliFlag::FailOnTodoRate => {
            match rc {
                RateCheck::Invalid => {
                    return Err(quoted_error("invalid --fail-on-todo-rate '", v));
                },
                RateCheck::OutOfRange => {
                    return Err(owned("--fail-on-todo-rate must be between 0.0 and 1.0"));
                },
                RateCheck::Valid => {
                    st.fail_on_todo_rate = Some(v.clone());
                },
            }
        },
        CliFlag::Jobs => {
            match parse_usize(v.as_str()) {
                None => {
                    return Err(quoted_error("invalid --jobs '", v));
                },
                Some(n) => {
                    if n == 0 {
                        return Err(owned("--jobs must be >= 1"));
                    }
                    st.jobs = n;
                },
            }
        },
        _ => {},
    }
    Ok(())
}

/// The options after the switch `f`.
pub open spec fn apply_switch(f: CliFlag, st: CliView) -> CliView {
    match f {
        CliFlag::UpdateSnapshots => CliView { update_snapshots: true, ..st },
        CliFlag::HtmlReport => CliView { html_report: true, ..st },
        CliFlag::SourceMapReport => CliView { source_map_report: true, ..st },
        CliFlag::Strict => CliView { strict: true, ..st },
        CliFlag::DryRun => CliView { dry_run: true, ..st },
        CliFlag::JavacCheck => CliView { javac_check: true, ..st },
        _ => st,
    }
}

fn apply_switch_exec(f: CliFlag, st: &mut Cli)
    ensures
        final(st)@ == apply_switch(f, old(st)@),
{
    match f {
        CliFlag::UpdateSnapshots => {
            st.update_snapshots = true;
        },
        CliFlag::HtmlReport => {
            st.html_report = true;
        },
        CliFlag::SourceMapReport => {
            st.source_map_report = true;
        },
        CliFlag::Strict => {
            st.strict = true;
        },
        CliFlag::DryRun => {
            st.dry_run = true;
        },
        CliFlag::JavacCheck => {
            st.javac_check = true;
        },
        _ => {},
    }
}

/// The checks made once all arguments are read.
pub open spec fn finish(st: CliView) -> CliOutcome {
    if st.input is Some && st.batch_dir is Some {
        CliOutcome::Failed("--input and --batch-dir are mutually exclusive"@)
    } else if st.input is None && st.batch_dir is None {
        CliOutcome::Failed("either --input or --batch-dir is required"@)
    } else if st.batch_dir is Some && st.output is Some {
        CliOutcome::Failed("--output is not used in --batch-dir mode, use --output-dir"@)
    } else if st.batch_dir is Some && (st.report_json is Some || st.report_md is Some) {
        CliOutcome::Failed("--report-json/--report-md are per-file in batch mode and auto-generated to --output-dir"@)
    } else if st.batch_dir is Some && st.report_html is Some {
        CliOutcome::Failed("--report-html is per-file in batch mode and auto-generated when --html-report is used"@)
    } else if st.batch_dir is Some && st.source_map is Some {
        CliOutcome::Failed("--source-map is per-file in batch mode and auto-generated when --source-map-report is used"@)
    } else if st.batch_dir is None && st.metrics_csv is Some {
        CliOutcome::Failed("--metrics-csv is available only in --batch-dir mode"@)
    } else if st.batch_dir is None && st.perf_report_json is Some {
        CliOutcome::Failed("--perf-report-json is available only in --batch-dir mode"@)
    } else if st.input is Some && st.batch_dir is None && st.javac_check && st.output is None {
        CliOutcome::Failed("--javac-check requires --output in single-file mode"@)
    } else {
        CliOutcome::Run(st)
    }
}

fn finish_exec(st: Cli) -> (r: Result<CliCommand, String>)
    ensures
        command_outcome(r) == finish(st@),
{
    if st.input.is_some() && st.batch_dir.is_some() {
        Err(owned("--input and --batch-dir are mutually exclusive"))
    } else if st.input.is_none() && st.batch_dir.is_none() {
        Err(owned("either --input or --batch-dir is required"))
    } else if st.batch_dir.is_some() && st.output.is_some() {
        Err(owned("--output is not used in --batch-dir mode, use --output-dir"))
    } else if st.batch_dir.is_some() && (st.report_json.is_some() || st.report_md.is_some()) {
        Err(owned("--report-json/--report-md are per-file in batch mode and auto-generated to --output-dir"))
    } else if st.batch_dir.is_some() && st.report_html.is_some() {
        Err(owned("--report-html is per-file in batch mode and auto-generated when --html-report is used"))
    } else if st.batch_dir.is_some() && st.source_map.is_some() {
        Err(owned("--source-map is per-file in batch mode and auto-generated when --source-map-report is used"))
    } else if st.batch_dir.is_none() && st.metrics_csv.is_some() {
        Err(owned("--metrics-csv is available only in --batch-dir mode"))
    } else if st.batch_dir.is_none() && st.perf_report_json.is_some() {
        Err(owned("--perf-report-json is available only in --batch-dir mode"))
    } else if st.input.is_some() && st.batch_dir.is_none() && st.javac_check && st.output.is_none() {
        Err(owned("--javac-check requires --output in single-file mode"))
    } else {
        Ok(CliCommand::Run(st))
    }
}

/// The outcome of reading the arguments from index `i` on, with options `st` so far.
pub open spec fn parse_from(args: Seq<Seq<char>>, rcs: Seq<RateCheck>, i: nat, st: CliView) -> CliOutcome
    decreases args.len() - i,
{
    if i >= args.len() {
        finish(st)
    } else {
        let f = flag_of(args[i as int]);
        if f == CliFlag::Help {
            CliOutcome::Help
        } else if f == CliFlag::Unknown {
            CliOutcome::Failed("unknown argument: "@ + args[i as int])
        } else if takes_value(f) {
            if i + 1 >= args.len() {
                CliOutcome::Failed(missing_message(f, args[i as int]))
            } else {
                match apply_value(f, args[i + 1 as int], rcs[i + 1 as int], st) {
                    Ok(next) => parse_from(args, rcs, (i + 2) as nat, next),
                    Err(e) => CliOutcome::Failed(e),
                }
            }
        } else {
            parse_from(args, rcs, (i + 1) as nat, apply_switch(f, st))
        }
    }
}

/// The words that may stand before the options.
pub open spec fn is_subcommand(a: Seq<char>) -> bool {
    a == "convert"@ || a == "batch"@ || a == "report"@ || a == "verify"@ || a == "coverage"@
}

pub open spec fn arg_views(args: Seq<String>) -> Seq<Seq<char>> {
    args.map_values(|a: String| a@)
}

/// What the command line `args` (the program name first) asks for, where
/// `rcs[i]` is what a number parse says of `args[i]`.
pub open spec fn cli_outcome(args: Seq<Seq<char>>, rcs: Seq<RateCheck>) -> CliOutcome {
    if args.len() > 1 && args[1] == "doctor"@ {
        CliOutcome::Doctor
    } else if args.len() > 1 && is_subcommand(args[1]) {
        parse_from(args, rcs, 2, default_cli())
    } else {
        parse_from(args, rcs, 1, default_cli())
    }
}

/// Reads the command line; `rate_checks[i]` says whether `args[i]` is a
/// number from 0 to 1.
pub fn parse_args(args: &Vec<String>, rate_checks: &Vec<RateCheck>) -> (r: Result<CliCommand, String>)
    requires
        rate_checks@.len() == args@.len(),
    ensures
        command_outcome(r) == cli_outcome(arg_views(args@), rate_checks@),
{
    let ghost av = arg_views(args@);
    let mut i: usize = 1;
    if args.len() > 1 {
        let a1 = chars_of(args[1].as_str());
        proof {
            assert(av[1] == a1@);
        }
        if is_lit(&a1, "doctor") {
            return Ok(CliCommand::Doctor);
        }
        if is_lit(&a1, "convert") || is_lit(&a1, "batch") || is_lit(&a1, "report") || is_lit(&a1, "verify")
            || is_lit(&a1, "coverage") {
            i = 2;
        }
    }
    let mut st = default_cli_exec();
    while i < args.len()
        invariant
            av == arg_views(args@),
            rate_checks@.len() == args@.len(),
            parse_from(av, rate_checks@, i as nat, st@) == cli_outcome(av, rate_checks@),
        decreases args.len() - i,
    {
        let a = chars_of(args[i].as_str());
        proof {
            assert(av[i as int] == a@);
        }
        let f = classify_flag(&a);
        if f == CliFlag::Help {
            return Ok(CliCommand::Help);
        }
        if f == CliFlag::Unknown {
            let mut m = chars_of("unknown argument: ");
            extend(&mut m, &a);
            return Err(string_of(&m));
        }
        if takes_value_exec(f) {
            if i + 1 >= args.len() {
                return Err(missing_message_exec(f, &a));
            }
            proof {
                assert(av[i + 1] == args@[i + 1]@);
            }
            match apply_value_exec(f, &args[i + 1], rate_checks[i + 1], &mut st) {
                Err(e) => {
                    return Err(e);
                },
                Ok(_) => {
                    i = i + 2;
                },
            }
        } else {
            apply_switch_exec(f, &mut st);
            i = i + 1;
        }
    }
    finish_exec(st)
}


// ------------------------------------------------------------------
// Failure categories
// ------------------------------------------------------------------

/// The category key of a failure message, found in its ASCII-lowercased text.
pub open spec fn failure_key(e: Seq<char>) -> Seq<char> {
    let l = lower(e);
    if contains(l, "snapshot mismatch"@) {
        "snapshot_mismatch"@
    } else if contains(l, "javac check failed"@) {
        "javac_check_failed"@
    } else if contains(l, "valid utf-8"@) || (contains(l, "read failed"@) && contains(l, "utf-8"@)) {
        "input_decode"@
    } else if contains(l, "read failed"@) {
        "input_read"@
    } else if contains(l, "write failed"@) || contains(l, "failed to write"@) {
        "output_write"@
    } else if contains(l, "stat failed"@) {
        "input_stat"@
    } else if contains(l, "worker thread panicked"@) {
        "worker_panic"@
    } else {
        "other"@
    }
}

/// The readable label of a failure message's category.
pub open spec fn failure_label(e: Seq<char>) -> Seq<char> {
    let l = lower(e);
    if contains(l, "snapshot mismatch"@) {
        "snapshot mismatch"@
    } else if contains(l, "javac check failed"@) {
        "javac check failed"@
    } else if contains(l, "valid utf-8"@) || (contains(l, "read failed"@) && contains(l, "utf-8"@)) {
        "input decode"@
    } else if contains(l, "read failed"@) {
        "input read"@
    } else if contains(l, "write failed"@) || contains(l, "failed to write"@) {
        "output write"@
    } else if contains(l, "stat failed"@) {
        "input stat"@
    } else if contains(l, "worker thread panicked"@) {
        "worker panic"@
    } else {
        "other"@
    }
}

/// The category of a failure message: its key and its label.
pub fn classify_failure_reason(error: &str) -> (r: (&'static str, &'static str))
    ensures
        r.0@ == failure_key(error@),
        r.1@ == failure_label(error@),
{
    let l = to_lower(&chars_of(error));
    if contains_lit(&l, "snapshot mismatch") {
        ("snapshot_mismatch", "snapshot mismatch")
    } else if contains_lit(&l, "javac check failed") {
        ("javac_check_failed", "javac check failed")
    } else if contains_lit(&l, "valid utf-8") || (contains_lit(&l, "read failed") && contains_lit(&l, "utf-8")) {
        ("input_decode", "input decode")
    } else if contains_lit(&l, "read failed") {
        ("input_read", "input read")
    } else if contains_lit(&l, "write failed") || contains_lit(&l, "failed to write") {
        ("output_write", "output write")
    } else if contains_lit(&l, "stat failed") {
        ("input_stat", "input stat")
    } else if contains_lit(&l, "worker thread panicked") {
        ("worker_panic", "worker panic")
    } else {
        ("other", "other")
    }
}

/// A file that batch mode could not convert.
#[derive(Debug, Clone)]
pub struct FailedRun {
    /// The input path, as displayed.
    pub input: String,
    pub error: Option<String>,
}

pub struct FailedRunView {
    pub input: Seq<char>,
    pub error: Option<Seq<char>>,
}

impl View for FailedRun {
    type V = FailedRunView;

    open spec fn view(&self) -> FailedRunView {
        FailedRunView { input: self.input@, error: opt_string_view(self.error) }
    }
}

/// The failures of one category: how many, and the first three as samples.
#[derive(Debug, Clone)]
pub struct FailureCategory {
    pub key: String,
    pub label: String,
    pub count: usize,
    pub samples: Vec<String>,
}

pub struct FailureCategoryView {
    pub key: Seq<char>,
    pub label: Seq<char>,
    pub count: nat,
    pub samples: Seq<Seq<char>>,
}

pub open spec fn string_views(v: Seq<String>) -> Seq<Seq<char>> {
    v.map_values(|s: String| s@)
}

impl View for FailureCategory {
    type V = FailureCategoryView;

    open spec fn view(&self) -> FailureCategoryView {
        FailureCategoryView {
            key: self.key@,
            label: self.label@,
            count: self.count as nat,
            samples: string_views(self.samples@),
        }
    }
}

pub open spec fn failed_views(v: Seq<FailedRun>) -> Seq<FailedRunView> {
    v.map_values(|r: FailedRun| r@)
}

pub open spec fn category_views(v: Seq<FailureCategory>) -> Seq<FailureCategoryView> {
    v.map_values(|c: FailureCategory| c@)
}

/// The message of a failure, `unknown error` when there is none.
pub open spec fn error_text(r: FailedRunView) -> Seq<char> {
    match r.error {
        Some(e) => e,
        None => "unknown error"@,
    }
}

/// `input: message`, the message cut at 160 characters.
pub open spec fn failure_sample(r: FailedRunView) -> Seq<char> {
    r.input + ": "@ + truncated(error_text(r), 160)
}

/// The index of the category with key `k`, or -1.
pub open spec fn category_index(cats: Seq<FailureCategoryView>, k: Seq<char>) -> int
    decreases cats.len(),
{
    if cats.len() == 0 {
        -1
    } else if cats.last().key == k {
        cats.len() - 1
    } else {
        category_index(cats.drop_last(), k)
    }
}

/// `c` inserted before the first category whose key comes after its own.
pub open spec fn insert_category(cats: Seq<FailureCategoryView>, c: FailureCategoryView) -> Seq<FailureCategoryView>
    decreases cats.len(),
{
    if cats.len() == 0 {
        seq![c]
    } else if seq_lt(c.key, cats[0].key) {
        seq![c] + cats
    } else {
        seq![cats[0]] + insert_category(cats.drop_first(), c)
    }
}

/// One more failure in category `c`, kept as a sample while there are fewer than three.
pub open spec fn bump_category(c: FailureCategoryView, sample: Seq<char>) -> FailureCategoryView {
    FailureCategoryView {
        key: c.key,
        label: c.label,
        count: c.count + 1,
        samples: if c.samples.len() < 3 {
            c.samples.push(sample)
        } else {
            c.samples
        },
    }
}

/// The categories after one more failure.
pub open spec fn add_failure(cats: Seq<FailureCategoryView>, r: FailedRunView) -> Seq<FailureCategoryView> {
    let e = error_text(r);
    let k = failure_key(e);
    let p = category_index(cats, k);
    if p >= 0 {
        cats.update(p, bump_category(cats[p], failure_sample(r)))
    } else {
        insert_category(
            cats,
            FailureCategoryView { key: k, label: failure_label(e), count: 1, samples: seq![failure_sample(r)] },
        )
    }
}

/// The categories of the first `k` failures.
pub open spec fn categories_upto(rows: Seq<FailedRunView>, k: nat) -> Seq<FailureCategoryView>
    decreases k,
{
    if k == 0 || k > rows.len() {
        seq![]
    } else {
        add_failure(categories_upto(rows, (k - 1) as nat), rows[k - 1])
    }
}

/// The failure categories, by key.
pub open spec fn failure_categories(rows: Seq<FailedRunView>) -> Seq<FailureCategoryView> {
    categories_upto(rows, rows.len())
}

proof fn lemma_category_index(cats: Seq<FailureCategoryView>, k: Seq<char>)
    ensures
        -1 <= category_index(cats, k) < cats.len(),
        category_index(cats, k) >= 0 ==> cats[category_index(cats, k)].key == k,
        category_index(cats, k) < 0 ==> forall|i: int| 0 <= i < cats.len() ==> #[trigger] cats[i].key != k,
    decreases cats.len(),
{
    if cats.len() > 0 {
        lemma_category_index(cats.drop_last(), k);
        assert forall|i: int| 0 <= i < cats.len() - 1 implies #[trigger] cats[i] == cats.drop_last()[i] by {}
    }
}

proof fn lemma_category_index_last(cats: Seq<FailureCategoryView>, k: Seq<char>, q: int)
    requires
        0 <= q < cats.len(),
        cats[q].key == k,
        forall|j: int| q < j < cats.len() ==> #[trigger] cats[j].key != k,
    ensures
        category_index(cats, k) == q,
    decreases cats.len(),
{
    if q < cats.len() - 1 {
        assert(cats.last() == cats[cats.len() - 1]);
        lemma_category_index_last(cats.drop_last(), k, q);
    }
}

proof fn lemma_insert_category_at(cats: Seq<FailureCategoryView>, c: FailureCategoryView, p: int)
    requires
        0 <= p <= cats.len(),
        forall|i: int| 0 <= i < p ==> !seq_lt(c.key, #[trigger] cats[i].key),
        p == cats.len() || seq_lt(c.key, cats[p].key),
    ensures
        insert_category(cats, c) == cats.subrange(0, p) + seq![c] + cats.subrange(p, cats.len() as int),
    decreases cats.len(),
{
    if cats.len() == 0 || p == 0 {
        assert(insert_category(cats, c) =~= cats.subrange(0, p) + seq![c] + cats.subrange(p, cats.len() as int));
    } else {
        let t = cats.drop_first();
        assert forall|i: int| 0 <= i < p - 1 implies !seq_lt(c.key, #[trigger] t[i].key) by {
            assert(t[i] == cats[i + 1]);
        }
        if p < cats.len() {
            assert(t[p - 1] == cats[p]);
        }
        lemma_insert_category_at(t, c, p - 1);
        assert(insert_category(cats, c) =~= cats.subrange(0, p) + seq![c] + cats.subrange(p, cats.len() as int));
    }
}

fn sample_exec(r: &FailedRun) -> (s: String)
    ensures
        s@ == failure_sample(r@),
{
    let mut out = chars_of(r.input.as_str());
    extend_str(&mut out, ": ");
    let t = match &r.error {
        Some(e) => truncate_detail(e.as_str(), 160),
        None => truncate_detail("unknown error", 160),
    };
    extend(&mut out, &chars_of(t.as_str()));
    string_of(&out)
}

/// Groups the failures by category key, in key order, with a count and up to
/// three samples each.
pub fn collect_failure_categories(rows: &Vec<FailedRun>) -> (r: Vec<FailureCategory>)
    ensures
        category_views(r@) == failure_categories(failed_views(rows@)),
{
    let ghost rv = failed_views(rows@);
    let mut cats: Vec<FailureCategory> = Vec::new();
    let mut i: usize = 0;
    while i < rows.len()
        invariant
            i <= rows.len(),
            rv == failed_views(rows@),
            category_views(cats@) == categories_upto(rv, i as nat),
            forall|j: int| 0 <= j < cats@.len() ==> #[trigger] cats@[j].count <= i,
        decreases rows.len() - i,
    {
        let row = &rows[i];
        proof {
            assert(rv[i as int] == row@);
        }
        let err: &str = match &row.error {
            Some(e) => e.as_str(),
            None => "unknown error",
        };
        proof {
            assert(err@ == error_text(row@));
        }
        let (key, label) = classify_failure_reason(err);
        let kc = chars_of(key);
        let sample = sample_exec(row);
        let ghost cv = category_views(cats@);
        proof {
            lemma_category_index(cv, key@);
        }
        let mut p: usize = cats.len();
        while p > 0 && !eq_chars(&chars_of(cats[p - 1].key.as_str()), &kc)
            invariant
                p <= cats.len(),
                cv == category_views(cats@),
                kc@ == key@,
                forall|j: int| p <= j < cats@.len() ==> #[trigger] cv[j].key != kc@,
            decreases p,
        {
            p -= 1;
        }
        if p > 0 {
            proof {
                lemma_category_index_last(cv, key@, p - 1);
            }
            let ghost oc = cv[p - 1];
            let ghost sv = sample@;
            let mut c = cats.remove(p - 1);
            proof {
                assert(c@ == oc);
            }
            c.count = c.count + 1;
            if c.samples.len() < 3 {
                c.samples.push(sample);
                proof {
                    assert(string_views(c.samples@) =~= oc.samples.push(sv));
                }
            }
            proof {
                assert(c@ == bump_category(oc, sv));
            }
            cats.insert(p - 1, c);
            proof {
                assert(category_views(cats@) =~= cv.update(p - 1, bump_category(cv[p - 1], failure_sample(row@))));
            }
        } else {
            let mut q: usize = 0;
            while q < cats.len() && !lt_chars(&kc, &chars_of(cats[q].key.as_str()))
                invariant
                    q <= cats.len(),
                    cv == category_views(cats@),
                    kc@ == key@,
                    forall|j: int| 0 <= j < q ==> !seq_lt(kc@, #[trigger] cv[j].key),
                decreases cats.len() - q,
            {
                q += 1;
            }
            let mut samples: Vec<String> = Vec::new();
            samples.push(sample);
            let c = FailureCategory { key: owned(key), label: owned(label), count: 1, samples };
            let ghost nc = c@;
            proof {
                assert(nc.samples =~= seq![failure_sample(row@)]);
                lemma_insert_category_at(cv, nc, q as int);
            }
            cats.insert(q, c);
            proof {
                assert(category_views(cats@) =~= cv.subrange(0, q as int) + seq![nc] + cv.subrange(q as int, cv.len() as int));
            }
        }
        i += 1;
    }
    cats
}


/// The categories are in strictly increasing key order.
pub open spec fn keys_increasing(cats: Seq<FailureCategoryView>) -> bool {
    forall|i: int, j: int| 0 <= i < j < cats.len() ==> seq_lt(#[trigger] cats[i].key, #[trigger] cats[j].key)
}

/// The counts of the categories, added up.
pub open spec fn count_sum(cats: Seq<FailureCategoryView>) -> nat
    decreases cats.len(),
{
    if cats.len() == 0 {
        0
    } else {
        cats[0].count + count_sum(cats.drop_first())
    }
}

/// A category holds at least one failure and keeps as many samples as it
/// holds failures, up to three.
pub open spec fn category_ok(c: FailureCategoryView) -> bool {
    &&& c.count >= 1
    &&& c.samples.len() == if c.count < 3 {
        c.count
    } else {
        3
    }
}

proof fn lemma_insert_lower_bound(cats: Seq<FailureCategoryView>, c: FailureCategoryView, b: Seq<char>)
    requires
        forall|i: int| 0 <= i < cats.len() ==> seq_lt(b, #[trigger] cats[i].key),
        seq_lt(b, c.key),
    ensures
        forall|i: int| 0 <= i < insert_category(cats, c).len() ==> seq_lt(b, #[trigger] insert_category(cats, c)[i].key),
    decreases cats.len(),
{
    if cats.len() > 0 && !seq_lt(c.key, cats[0].key) {
        let rest = cats.drop_first();
        assert forall|i: int| 0 <= i < rest.len() implies seq_lt(b, #[trigger] rest[i].key) by {
            assert(rest[i] == cats[i + 1]);
        }
        lemma_insert_lower_bound(rest, c, b);
        let r = insert_category(cats, c);
        assert forall|i: int| 0 <= i < r.len() implies seq_lt(b, #[trigger] r[i].key) by {
            if i > 0 {
                assert(r[i] == insert_category(rest, c)[i - 1]);
            }
        }
    }
}

proof fn lemma_insert_category_props(cats: Seq<FailureCategoryView>, c: FailureCategoryView)
    requires
        keys_increasing(cats),
        forall|i: int| 0 <= i < cats.len() ==> #[trigger] cats[i].key != c.key,
        forall|i: int| 0 <= i < cats.len() ==> category_ok(#[trigger] cats[i]),
        category_ok(c),
    ensures
        keys_increasing(insert_category(cats, c)),
        count_sum(insert_category(cats, c)) == count_sum(cats) + c.count,
        forall|i: int| 0 <= i < insert_category(cats, c).len() ==> category_ok(#[trigger] insert_category(cats, c)[i]),
        insert_category(cats, c).len() == cats.len() + 1,
    decreases cats.len(),
{
    let r = insert_category(cats, c);
    if cats.len() == 0 {
        assert(r.drop_first() =~= Seq::<FailureCategoryView>::empty());
        assert(count_sum(r.drop_first()) == 0);
    } else if seq_lt(c.key, cats[0].key) {
        assert(r.drop_first() =~= cats);
        assert forall|i: int, j: int| 0 <= i < j < r.len() implies seq_lt(#[trigger] r[i].key, #[trigger] r[j].key) by {
            if i == 0 {
                if j > 1 {
                    lemma_seq_lt_trans(c.key, cats[0].key, cats[j - 1].key);
                }
            } else {
                assert(r[i] == cats[i - 1] && r[j] == cats[j - 1]);
            }
        }
    } else {
        let rest = cats.drop_first();
        assert forall|i: int, j: int| 0 <= i < j < rest.len() implies seq_lt(#[trigger] rest[i].key, #[trigger] rest[j].key) by {
            assert(rest[i] == cats[i + 1] && rest[j] == cats[j + 1]);
        }
        assert forall|i: int| 0 <= i < rest.len() implies #[trigger] rest[i].key != c.key && category_ok(rest[i]) by {
            assert(rest[i] == cats[i + 1]);
        }
        lemma_insert_category_props(rest, c);
        lemma_seq_lt_total(c.key, cats[0].key);
        assert forall|i: int| 0 <= i < rest.len() implies seq_lt(cats[0].key, #[trigger] rest[i].key) by {
            assert(rest[i] == cats[i + 1]);
        }
        lemma_insert_lower_bound(rest, c, cats[0].key);
        let ir = insert_category(rest, c);
        assert(r.drop_first() =~= ir);
        assert(count_sum(r) == r[0].count + count_sum(ir));
        assert forall|i: int, j: int| 0 <= i < j < r.len() implies seq_lt(#[trigger] r[i].key, #[trigger] r[j].key) by {
            assert(r[j] == ir[j - 1]);
            if i > 0 {
                assert(r[i] == ir[i - 1]);
            }
        }
        assert forall|i: int| 0 <= i < r.len() implies category_ok(#[trigger] r[i]) by {
            if i > 0 {
                assert(r[i] == ir[i - 1]);
            }
        }
    }
}

proof fn lemma_count_sum_update(cats: Seq<FailureCategoryView>, p: int, x: FailureCategoryView)
    requires
        0 <= p < cats.len(),
    ensures
        count_sum(cats.update(p, x)) + cats[p].count == count_sum(cats) + x.count,
    decreases cats.len(),
{
    if p == 0 {
        assert(cats.update(p, x).drop_first() =~= cats.drop_first());
    } else {
        lemma_count_sum_update(cats.drop_first(), p - 1, x);
        assert(cats.update(p, x).drop_first() =~= cats.drop_first().update(p - 1, x));
    }
}

/// Batch failures are grouped into categories that come out in strictly
/// increasing key order, one per key; each holds at least one failure and
/// keeps as many samples as it holds, up to three; and the counts add up to
/// the number of failures.
pub proof fn lemma_failure_categories(rows: Seq<FailedRunView>, k: nat)
    requires
        k <= rows.len(),
    ensures
        keys_increasing(categories_upto(rows, k)),
        forall|i: int| 0 <= i < categories_upto(rows, k).len() ==> category_ok(#[trigger] categories_upto(rows, k)[i]),
        count_sum(categories_upto(rows, k)) == k,
    decreases k,
{
    if k == 0 {
        assert(count_sum(categories_upto(rows, k)) == 0);
    } else {
        lemma_failure_categories(rows, (k - 1) as nat);
        let cats = categories_upto(rows, (k - 1) as nat);
        let r = rows[k - 1];
        let e = error_text(r);
        let key = failure_key(e);
        let p = category_index(cats, key);
        lemma_category_index(cats, key);
        if p >= 0 {
            let nc = bump_category(cats[p], failure_sample(r));
            lemma_count_sum_update(cats, p, nc);
            let u = cats.update(p, nc);
            assert forall|i: int, j: int| 0 <= i < j < u.len() implies seq_lt(#[trigger] u[i].key, #[trigger] u[j].key) by {
                assert(u[i].key == cats[i].key && u[j].key == cats[j].key);
            }
            assert forall|i: int| 0 <= i < u.len() implies category_ok(#[trigger] u[i]) by {
                if i != p {
                    assert(u[i] == cats[i]);
                }
            }
        } else {
            let nc = FailureCategoryView { key, label: failure_label(e), count: 1, samples: seq![failure_sample(r)] };
            lemma_insert_category_props(cats, nc);
        }
    }
}


// ------------------------------------------------------------------
// TODO policies
// ------------------------------------------------------------------

/// The number of TODO statements of a program.
pub fn count_todos(ir_program: &IrProgram) -> (r: usize)
    ensures
        r == todos_of(ir_views(ir_program.statements@)).len(),
{
    let ghost stmts = ir_views(ir_program.statements@);
    let mut c: usize = 0;
    let mut i: usize = 0;
    while i < ir_program.statements.len()
        invariant
            i <= ir_program.statements.len(),
            stmts == ir_views(ir_program.statements@),
            c == todos_upto(stmts, i as nat).len(),
            c <= i,
        decreases ir_program.statements.len() - i,
    {
        proof {
            assert(stmts[i as int] == ir_program.statements@[i as int]@);
        }
        if let IrStmt::Todo { .. } = &ir_program.statements[i] {
            c += 1;
        }
        i += 1;
    }
    c
}

/// Strict mode refuses any TODO item: the message counts them.
pub open spec fn strict_result(strict: bool, todos: nat) -> Result<(), Seq<char>> {
    if strict && todos > 0 {
        Err("strict mode violation: unsupported operations found ("@ + decimal(todos)
            + " TODO item(s))"@)
    } else {
        Ok(())
    }
}

pub fn check_strict(strict: bool, todos: usize) -> (r: Result<(), String>)
    ensures
        string_result_view(r) == strict_result(strict, todos as nat),
{
    if strict && todos > 0 {
        let mut m = chars_of("strict mode violation: unsupported operations found (");
        push_decimal(&mut m, todos as u64);
        extend_str(&mut m, " TODO item(s))");
        Err(string_of(&m))
    } else {
        Ok(())
    }
}

/// The p95 time above which a batch has a slow tail: twice the median, at least 20 ms.
pub open spec fn slow_tail_threshold_of(p50: nat) -> nat {
    let d = if 2 * p50 > u128::MAX {
        u128::MAX as nat
    } else {
        2 * p50
    };
    if d < 20 {
        20
    } else {
        d
    }
}

pub fn slow_tail_threshold(p50_ms: u128) -> (r: u128)
    ensures
        r == slow_tail_threshold_of(p50_ms as nat),
{
    let d = if p50_ms > u128::MAX / 2 {
        u128::MAX
    } else {
        p50_ms * 2
    };
    if d < 20 {
        20
    } else {
        d
    }
}

/// The fewest workers a batch of `rows` files should use.
pub open spec fn min_jobs_of(rows: nat) -> nat {
    if rows >= 4 {
        2
    } else {
        1
    }
}

pub fn min_jobs(rows: usize) -> (r: usize)
    ensures
        r == min_jobs_of(rows as nat),
{
    if rows >= 4 {
        2
    } else {
        1
    }
}

// ------------------------------------------------------------------
// Workers
// ------------------------------------------------------------------

/// How many workers a batch of `n` files gets with `jobs` requested.
pub open spec fn worker_count(jobs: nat, n: nat) -> nat {
    let j = if jobs < 1 {
        1
    } else {
        jobs
    };
    let m = if n < 1 {
        1
    } else {
        n
    };
    if j < m {
        j
    } else {
        m
    }
}

/// The indices below `n` that worker `b` of `w` gets: those equal to `b` modulo `w`, in order.
pub open spec fn bucket(n: nat, w: nat, b: nat) -> Seq<usize>
    decreases n,
{
    if n == 0 {
        seq![]
    } else if ((n - 1) as nat) % w == b {
        bucket((n - 1) as nat, w, b).push((n - 1) as usize)
    } else {
        bucket((n - 1) as nat, w, b)
    }
}

/// Deals the indices of `n` files round robin to the workers.
pub fn round_robin_buckets(n: usize, jobs: usize) -> (r: Vec<Vec<usize>>)
    ensures
        r@.len() == worker_count(jobs as nat, n as nat),
        forall|b: int| 0 <= b < r@.len() ==> #[trigger] r@[b]@ == bucket(n as nat, r@.len() as nat, b as nat),
{
    let j = if jobs < 1 {
        1
    } else {
        jobs
    };
    let m = if n < 1 {
        1
    } else {
        n
    };
    let w = if j < m {
        j
    } else {
        m
    };
    let mut buckets: Vec<Vec<usize>> = Vec::new();
    let mut b: usize = 0;
    while b < w
        invariant
            b <= w,
            buckets@.len() == b,
            forall|k: int| 0 <= k < b ==> #[trigger] buckets@[k]@ == bucket(0, w as nat, k as nat),
        decreases w - b,
    {
        buckets.push(Vec::new());
        proof {
            assert(buckets@[b as int]@ =~= bucket(0, w as nat, b as nat));
        }
        b += 1;
    }
    let mut i: usize = 0;
    while i < n
        invariant
            i <= n,
            w >= 1,
            buckets@.len() == w,
            forall|k: int| 0 <= k < w ==> #[trigger] buckets@[k]@ == bucket(i as nat, w as nat, k as nat),
        decreases n - i,
    {
        let k = i % w;
        let ghost old_b = buckets@;
        let mut v = buckets.remove(k);
        v.push(i);
        buckets.insert(k, v);
        proof {
            assert forall|q: int| 0 <= q < w implies #[trigger] buckets@[q]@ == bucket((i + 1) as nat, w as nat, q as nat) by {
                if q != k {
                    assert(buckets@[q] == old_b[q]);
                }
            }
        }
        i += 1;
    }
    buckets
}

/// Batch mode hands every file to exactly one worker, the one its index
/// equals modulo the number of workers, and each worker takes its files in order.
pub proof fn lemma_bucket_members(n: nat, w: nat, b: nat)
    requires
        w >= 1,
        n <= usize::MAX,
    ensures
        forall|x: usize| #[trigger] bucket(n, w, b).contains(x) <==> (x < n && x as nat % w == b),
        forall|i: int, j: int| 0 <= i < j < bucket(n, w, b).len() ==> bucket(n, w, b)[i] < bucket(n, w, b)[j],
    decreases n,
{
    if n > 0 {
        lemma_bucket_members((n - 1) as nat, w, b);
        let prev = bucket((n - 1) as nat, w, b);
        if ((n - 1) as nat) % w == b {
            let cur = prev.push((n - 1) as usize);
            assert forall|x: usize| #[trigger] cur.contains(x) <==> (x < n && x as nat % w == b) by {
                if x == n - 1 {
                    assert(cur[prev.len() as int] == x);
                } else if cur.contains(x) {
                    let k = choose|k: int| 0 <= k < cur.len() && cur[k] == x;
                    if k < prev.len() {
                        assert(prev[k] == x);
                        assert(prev.contains(x));
                    }
                } else if x < n && x as nat % w == b {
                    assert(prev.contains(x));
                    let k = choose|k: int| 0 <= k < prev.len() && prev[k] == x;
                    assert(cur[k] == x);
                    assert(cur.contains(x));
                }
            }
            assert forall|i: int, j: int| 0 <= i < j < cur.len() implies cur[i] < cur[j] by {
                if j == prev.len() {
                    assert(prev.contains(prev[i]));
                } else {
                    assert(cur[i] == prev[i] && cur[j] == prev[j]);
                }
            }
        }
    }
}

// ------------------------------------------------------------------
// The run summary
// ------------------------------------------------------------------

/// `s` padded with spaces to `w` characters.
pub open spec fn pad_right(s: Seq<char>, w: nat) -> Seq<char> {
    if s.len() < w {
        s + pad((w - s.len()) as nat)
    } else {
        s
    }
}

fn push_pad_right(out: &mut Vec<char>, s: &Vec<char>, w: usize)
    ensures
        final(out)@ == old(out)@ + pad_right(s@, w as nat),
{
    extend(out, s);
    if s.len() < w {
        let mut k: usize = s.len();
        let ghost base = out@;
        while k < w
            invariant
                s@.len() <= k <= w,
                out@ == base + pad((k - s@.len()) as nat),
            decreases w - k,
        {
            out.push(' ');
            k += 1;
            proof {
                assert(out@ =~= base + pad((k - s@.len()) as nat));
            }
        }
        proof {
            assert(final(out)@ =~= old(out)@ + pad_right(s@, w as nat));
        }
    }
}

/// A block of the summary: its heading and lines, or nothing when there are no lines.
pub open spec fn block(heading: Seq<char>, items: Seq<Seq<char>>) -> Seq<char> {
    if items.len() == 0 {
        Seq::empty()
    } else {
        heading + concat_items(items)
    }
}

fn push_block(out: &mut Vec<char>, heading: &str, items: &Vec<Vec<char>>)
    ensures
        final(out)@ == old(out)@ + block(heading@, views(items@)),
{
    if items.len() > 0 {
        extend_str(out, heading);
        push_all(out, items);
    } else {
        proof {
            assert(final(out)@ =~= old(out)@ + block(heading@, views(items@)));
        }
    }
}

pub open spec fn diag_line_rows(xs: Seq<DiagnosticView>) -> Seq<Seq<char>> {
    xs.map_values(|x: DiagnosticView| diag_line(x))
}

pub open spec fn diag_line(s: DiagnosticView) -> Seq<char> {
    "  - "@ + diagnostic_text(s) + "\n"@
}

fn diag_line_exec(s: &Diagnostic) -> (r: Vec<char>)
    ensures
        r@ == diag_line(s@),
{
    let mut out = chars_of("  - ");
    extend(&mut out, &chars_of(s.as_text().as_str()));
    extend_str(&mut out, "\n");
    out
}

fn diag_line_items(xs: &Vec<Diagnostic>) -> (r: Vec<Vec<char>>)
    ensures
        views(r@) == diag_line_rows(diag_views(xs@)),
{
    let mut r: Vec<Vec<char>> = Vec::new();
    let mut i: usize = 0;
    while i < xs.len()
        invariant
            i <= xs.len(),
            r@.len() == i,
            forall|j: int| 0 <= j < i ==> #[trigger] r@[j]@ == diag_line(xs@[j]@),
        decreases xs.len() - i,
    {
        let row = diag_line_exec(&xs[i]);
        r.push(row);
        i += 1;
    }
    assert(views(r@) =~= diag_line_rows(diag_views(xs@)));
    r
}

pub open spec fn op_line_rows(xs: Seq<OperationStatView>) -> Seq<Seq<char>> {
    xs.map_values(|x: OperationStatView| op_line(x))
}

pub open spec fn op_line(s: OperationStatView) -> Seq<char> {
    "  - "@ + pad_right(s.name, 10) + " count="@ + decimal(s.count as nat) + " level="@ + level_name(s.level) + "\n"@
}

fn op_line_exec(s: &OperationStat) -> (r: Vec<char>)
    ensures
        r@ == op_line(s@),
{
    let mut out = chars_of("  - ");
    push_pad_right(&mut out, &chars_of(s.name.as_str()), 10);
    extend_str(&mut out, " count=");
    push_decimal(&mut out, s.count as u64);
    extend_str(&mut out, " level=");
    extend_str(&mut out, level_name_str(s.level));
    extend_str(&mut out, "\n");
    out
}

fn op_line_items(xs: &Vec<OperationStat>) -> (r: Vec<Vec<char>>)
    ensures
        views(r@) == op_line_rows(stat_views(xs@)),
{
    let mut r: Vec<Vec<char>> = Vec::new();
    let mut i: usize = 0;
    while i < xs.len()
        invariant
            i <= xs.len(),
            r@.len() == i,
            forall|j: int| 0 <= j < i ==> #[trigger] r@[j]@ == op_line(xs@[j]@),
        decreases xs.len() - i,
    {
        let row = op_line_exec(&xs[i]);
        r.push(row);
        i += 1;
    }
    assert(views(r@) =~= op_line_rows(stat_views(xs@)));
    r
}

pub open spec fn route_line_rows(xs: Seq<SubroutineRouteView>) -> Seq<Seq<char>> {
    xs.map_values(|x: SubroutineRouteView| route_line(x))
}

pub open spec fn route_line(s: SubroutineRouteView) -> Seq<char> {
    "  - "@ + subroute_markdown(s) + "\n"@
}

fn route_line_exec(s: &SubroutineRoute) -> (r: Vec<char>)
    ensures
        r@ == route_line(s@),
{
    let mut out = chars_of("  - ");
    extend(&mut out, &format_subroute_markdown(s));
    extend_str(&mut out, "\n");
    out
}

fn route_line_items(xs: &Vec<SubroutineRoute>) -> (r: Vec<Vec<char>>)
    ensures
        views(r@) == route_line_rows(route_views(xs@)),
{
    let mut r: Vec<Vec<char>> = Vec::new();
    let mut i: usize = 0;
    while i < xs.len()
        invariant
            i <= xs.len(),
            r@.len() == i,
            forall|j: int| 0 <= j < i ==> #[trigger] r@[j]@ == route_line(xs@[j]@),
        decreases xs.len() - i,
    {
        let row = route_line_exec(&xs[i]);
        r.push(row);
        i += 1;
    }
    assert(views(r@) =~= route_line_rows(route_views(xs@)));
    r
}

pub open spec fn symbol_line_rows(xs: Seq<SymbolView>) -> Seq<Seq<char>> {
    xs.map_values(|x: SymbolView| symbol_line(x))
}

pub open spec fn symbol_line(s: SymbolView) -> Seq<char> {
    "  - "@ + pad_right(s.name, 20) + " "@ + value_type_name(s.ty) + "\n"@
}

fn symbol_line_exec(s: &SymbolInfo) -> (r: Vec<char>)
    ensures
        r@ == symbol_line(s@),
{
    let mut out = chars_of("  - ");
    push_pad_right(&mut out, &chars_of(s.name.as_str()), 20);
    extend_str(&mut out, " ");
    extend_str(&mut out, value_type_name_str(s.ty));
    extend_str(&mut out, "\n");
    out
}

fn symbol_line_items(xs: &Vec<SymbolInfo>) -> (r: Vec<Vec<char>>)
    ensures
        views(r@) == symbol_line_rows(symbol_views(xs@)),
{
    let mut r: Vec<Vec<char>> = Vec::new();
    let mut i: usize = 0;
    while i < xs.len()
        invariant
            i <= xs.len(),
            r@.len() == i,
            forall|j: int| 0 <= j < i ==> #[trigger] r@[j]@ == symbol_line(xs@[j]@),
        decreases xs.len() - i,
    {
        let row = symbol_line_exec(&xs[i]);
        r.push(row);
        i += 1;
    }
    assert(views(r@) =~= symbol_line_rows(symbol_views(xs@)));
    r
}

/// What a single-file run reports when it is done.
pub open spec fn summary_text(program: Program, ir: IrProgram, target: JavaTarget) -> Seq<char> {
    "java target: "@ + target.name() + "\n"@
        + block("diagnostics:\n"@, diag_line_rows(diag_views(program.diagnostics@)))
        + block("operation matrix:\n"@, op_line_rows(stat_views(program.op_stats@)))
        + block("subroutine routes:\n"@, route_line_rows(route_views(program.subroutine_routes@)))
        + block("symbols:\n"@, symbol_line_rows(symbol_views(ir.symbols@)))
}

pub fn render_summary(program: &Program, ir_program: &IrProgram, target: JavaTarget) -> (r: String)
    ensures
        r@ == summary_text(*program, *ir_program, target),
{
    let mut out = chars_of("java target: ");
    extend_str(&mut out, target.as_str());
    extend_str(&mut out, "\n");
    push_block(&mut out, "diagnostics:\n", &diag_line_items(&program.diagnostics));
    push_block(&mut out, "operation matrix:\n", &op_line_items(&program.op_stats));
    push_block(&mut out, "subroutine routes:\n", &route_line_items(&program.subroutine_routes));
    push_block(&mut out, "symbols:\n", &symbol_line_items(&ir_program.symbols));
    string_of(&out)
}


// ------------------------------------------------------------------
// Laws of the command line
// ------------------------------------------------------------------

/// The options of a run agree with each other.
pub open spec fn run_options_ok(c: CliView) -> bool {
    &&& (c.input is Some) != (c.batch_dir is Some)
    &&& c.jobs >= 1
    &&& c.batch_dir is Some ==> {
        &&& c.output is None
        &&& c.report_json is None
        &&& c.report_md is None
        &&& c.report_html is None
        &&& c.source_map is None
    }
    &&& c.batch_dir is None ==> c.metrics_csv is None && c.perf_report_json is None
    &&& c.batch_dir is None && c.javac_check ==> c.output is Some
}

proof fn lemma_parse_from_ok(args: Seq<Seq<char>>, rcs: Seq<RateCheck>, i: nat, st: CliView)
    requires
        st.jobs >= 1,
    ensures
        parse_from(args, rcs, i, st) matches CliOutcome::Run(c) ==> run_options_ok(c),
    decreases args.len() - i,
{
    if i < args.len() {
        let f = flag_of(args[i as int]);
        if f != CliFlag::Help && f != CliFlag::Unknown {
            if takes_value(f) {
                if i + 1 < args.len() {
                    if let Ok(next) = apply_value(f, args[i + 1 as int], rcs[i + 1 as int], st) {
                        lemma_parse_from_ok(args, rcs, (i + 2) as nat, next);
                    }
                }
            } else {
                lemma_parse_from_ok(args, rcs, (i + 1) as nat, apply_switch(f, st));
            }
        }
    }
}

/// A command line accepted for a run names exactly one of an input file and a
/// batch directory, asks for at least one worker, holds no option that only
/// the other mode uses, and gives an output file whenever a single file is to
/// be compiled.
pub proof fn lemma_run_options(args: Seq<Seq<char>>, rcs: Seq<RateCheck>)
    ensures
        cli_outcome(args, rcs) matches CliOutcome::Run(c) ==> run_options_ok(c),
{
    lemma_parse_from_ok(args, rcs, 1, default_cli());
    lemma_parse_from_ok(args, rcs, 2, default_cli());
}


proof fn lemma_camel_out_alnum(s: Seq<char>, k: nat)
    ensures
        forall|i: int| 0 <= i < camel_out(s, k).len() ==> is_ascii_alnum(#[trigger] camel_out(s, k)[i]),
    decreases k,
{
    if k > 0 && k <= s.len() {
        lemma_camel_out_alnum(s, (k - 1) as nat);
        let prev = camel_out(s, (k - 1) as nat);
        let cur = camel_out(s, k);
        assert forall|i: int| 0 <= i < cur.len() implies is_ascii_alnum(#[trigger] cur[i]) by {
            if i < prev.len() {
                assert(cur[i] == prev[i]);
            }
        }
    }
}

/// A class name made from a file stem is never empty and holds only ASCII
/// letters and digits.
pub proof fn lemma_class_name_alnum(stem: Option<Seq<char>>)
    ensures
        class_name_of(stem).len() > 0,
        forall|i: int| 0 <= i < class_name_of(stem).len() ==> is_ascii_alnum(#[trigger] class_name_of(stem)[i]),
{
    reveal_strlit("MainProgram");
    let s = match stem {
        Some(x) => x,
        None => "MainProgram"@,
    };
    lemma_camel_out_alnum(s, s.len());
}

// ------------------------------------------------------------------
// Snapshots
// ------------------------------------------------------------------

/// What a snapshot check does with a generated file.
#[derive(Debug, Clone, Copy, PartialEq, Eq, Structural)]
pub enum SnapshotStep {
    /// Store the generated file as the snapshot.
    Write,
    /// The stored snapshot equals the generated file.
    Matches,
    /// The stored snapshot differs: the check fails.
    Mismatch,
}

/// Updating, or a snapshot not stored yet, writes it; otherwise the stored
/// text is compared with the generated one.
pub open spec fn snapshot_step_of(update: bool, stored: Option<Seq<char>>, content: Seq<char>) -> SnapshotStep {
    match stored {
        None => SnapshotStep::Write,
        Some(t) => if update {
            SnapshotStep::Write
        } else if t == content {
            SnapshotStep::Matches
        } else {
            SnapshotStep::Mismatch
        },
    }
}

/// `stored` is the snapshot on disk, `None` when there is none.
pub fn snapshot_step(update: bool, stored: Option<&str>, content: &str) -> (r: SnapshotStep)
    ensures
        r == snapshot_step_of(update, opt_str_view(stored), content@),
{
    match stored {
        None => SnapshotStep::Write,
        Some(t) => {
            if update {
                SnapshotStep::Write
            } else if eq_chars(&chars_of(t), &chars_of(content)) {
                SnapshotStep::Matches
            } else {
                SnapshotStep::Mismatch
            }
        },
    }
}

pub open spec fn snapshot_mismatch_text(path: Seq<char>) -> Seq<char> {
    "snapshot mismatch: "@ + path + " (run with --update-snapshots to refresh)"@
}

/// The error of a snapshot check that found the snapshot at `path` different.
pub fn snapshot_mismatch_message(path: &str) -> (r: String)
    ensures
        r@ == snapshot_mismatch_text(path@),
{
    let mut m = chars_of("snapshot mismatch: ");
    extend_str(&mut m, path);
    extend_str(&mut m, " (run with --update-snapshots to refresh)");
    string_of(&m)
}

/// The snapshot stored at `path` in a snapshot directory, if any.
pub open spec fn stored_at(dir: Map<Seq<char>, Seq<char>>, path: Seq<char>) -> Option<Seq<char>> {
    if dir.contains_key(path) {
        Some(dir[path])
    } else {
        None
    }
}

/// A snapshot directory after a check of `content` at `path`: a write stores
/// the content there, a match or a mismatch leaves the directory as it was.
pub open spec fn snapshot_dir_after(
    dir: Map<Seq<char>, Seq<char>>,
    path: Seq<char>,
    update: bool,
    content: Seq<char>,
) -> Map<Seq<char>, Seq<char>> {
    match snapshot_step_of(update, stored_at(dir, path), content) {
        SnapshotStep::Write => dir.insert(path, content),
        _ => dir,
    }
}

/// A check mismatches exactly when it does not update and a different
/// snapshot is already stored. Unless it mismatched, the directory afterwards
/// holds the generated content at `path`, and checking the same content again
/// without updating matches. No other snapshot changes.
pub proof fn lemma_snapshot_check(
    dir: Map<Seq<char>, Seq<char>>,
    path: Seq<char>,
    update: bool,
    content: Seq<char>,
)
    ensures
        (snapshot_step_of(update, stored_at(dir, path), content) == SnapshotStep::Mismatch) <==> (!update
            && dir.contains_key(path) && dir[path] != content),
        snapshot_step_of(update, stored_at(dir, path), content) != SnapshotStep::Mismatch ==> stored_at(
            snapshot_dir_after(dir, path, update, content),
            path,
        ) == Some(content),
        snapshot_step_of(update, stored_at(dir, path), content) != SnapshotStep::Mismatch ==> snapshot_step_of(
            false,
            stored_at(snapshot_dir_after(dir, path, update, content), path),
            content,
        ) == SnapshotStep::Matches,
        forall|q: Seq<char>|
            q != path ==> #[trigger] stored_at(snapshot_dir_after(dir, path, update, content), q) == stored_at(
                dir,
                q,
            ),
{
}

// ------------------------------------------------------------------
// Batch outcome
// ------------------------------------------------------------------

/// How many of the first `k` files succeeded.
pub open spec fn successes(ok: Seq<bool>, k: nat) -> nat
    decreases k,
{
    if k == 0 || k > ok.len() {
        0
    } else {
        successes(ok, (k - 1) as nat) + if ok[k - 1] {
            1nat
        } else {
            0nat
        }
    }
}

proof fn lemma_successes_bound(ok: Seq<bool>, k: nat)
    requires
        k <= ok.len(),
    ensures
        successes(ok, k) <= k,
    decreases k,
{
    if k > 0 {
        lemma_successes_bound(ok, (k - 1) as nat);
    }
}

/// The numbers of files that succeeded and that failed, given whether each succeeded.
pub fn batch_tally(ok: &Vec<bool>) -> (r: (usize, usize))
    ensures
        r.0 == successes(ok@, ok@.len()),
        r.0 + r.1 == ok@.len(),
{
    let mut good: usize = 0;
    let mut bad: usize = 0;
    let mut i: usize = 0;
    while i < ok.len()
        invariant
            i <= ok.len(),
            good == successes(ok@, i as nat),
            good + bad == i,
        decreases ok.len() - i,
    {
        proof {
            lemma_successes_bound(ok@, i as nat);
        }
        if ok[i] {
            good += 1;
        } else {
            bad += 1;
        }
        i += 1;
    }
    (good, bad)
}

/// The line that ends a batch run.
pub open spec fn batch_complete_text(success: usize, failed: usize, output: Seq<char>, jobs: usize) -> Seq<char> {
    "batch complete: success="@ + decimal(success as nat) + " failed="@ + decimal(failed as nat) + " output="@ + output
        + " jobs="@ + decimal(jobs as nat)
}

pub fn batch_complete_line(success: usize, failed: usize, output: &str, jobs: usize) -> (r: String)
    ensures
        r@ == batch_complete_text(success, failed, output@, jobs),
{
    let mut m = chars_of("batch complete: success=");
    push_decimal(&mut m, success as u64);
    extend_str(&mut m, " failed=");
    push_decimal(&mut m, failed as u64);
    extend_str(&mut m, " output=");
    extend_str(&mut m, output);
    extend_str(&mut m, " jobs=");
    push_decimal(&mut m, jobs as u64);
    string_of(&m)
}

/// A batch fails when any file failed.
pub open spec fn batch_result_of(failed: nat) -> Result<(), Seq<char>> {
    if failed > 0 {
        Err("batch finished with "@ + decimal(failed) + " failure(s)"@)
    } else {
        Ok(())
    }
}

pub fn batch_result(failed: usize) -> (r: Result<(), String>)
    ensures
        string_result_view(r) == batch_result_of(failed as nat),
{
    if failed > 0 {
        let mut m = chars_of("batch finished with ");
        push_decimal(&mut m, failed as u64);
        extend_str(&mut m, " failure(s)");
        Err(string_of(&m))
    } else {
        Ok(())
    }
}


proof fn lemma_successes_all(ok: Seq<bool>, k: nat)
    requires
        k <= ok.len(),
    ensures
        successes(ok, k) == k <==> forall|i: int| 0 <= i < k ==> #[trigger] ok[i],
    decreases k,
{
    if k > 0 {
        lemma_successes_all(ok, (k - 1) as nat);
        lemma_successes_bound(ok, (k - 1) as nat);
        if successes(ok, k) == k {
            assert forall|i: int| 0 <= i < k implies #[trigger] ok[i] by {
                if i < k - 1 {
                    assert(successes(ok, (k - 1) as nat) == k - 1);
                }
            }
        }
    }
}

/// A batch of files, each of which succeeded or failed: the successes and
/// failures add up to the number of files, and the batch fails exactly when
/// some file failed, with the number of failures in its message.
pub proof fn lemma_batch_outcome(ok: Seq<bool>)
    ensures
        successes(ok, ok.len()) <= ok.len(),
        (batch_result_of((ok.len() - successes(ok, ok.len())) as nat) is Err) <==> exists|i: int|
            0 <= i < ok.len() && !#[trigger] ok[i],
{
    lemma_successes_bound(ok, ok.len());
    lemma_successes_all(ok, ok.len());
}


/// The decimal rendering of a number is made of ASCII digits, starts with a
/// zero only when the number is zero, and spells the number.
pub proof fn lemma_decimal_spells(n: nat)
    ensures
        decimal(n).len() > 0,
        forall|i: int| 0 <= i < decimal(n).len() ==> '0' <= #[trigger] decimal(n)[i] <= '9',
        decimal(n)[0] == '0' ==> n == 0,
        digits_value(decimal(n)) == n,
    decreases n,
{
    assert(digit_char(n % 10) as int == 48 + n % 10);
    if n < 10 {
        assert(decimal(n).drop_last() =~= Seq::<char>::empty());
        assert(decimal(n).last() == digit_char(n % 10));
        assert(n % 10 == n);
        assert(digits_value(Seq::<char>::empty()) == 0);
        assert(digits_value(decimal(n)) == digits_value(decimal(n).drop_last()) * 10 + n);
    }
    if n >= 10 {
        lemma_decimal_spells(n / 10);
        let d = decimal(n);
        let p = decimal(n / 10);
        assert(d.drop_last() =~= p);
        assert(d[0] == p[0]);
        assert((n / 10) * 10 + n % 10 == n) by (nonlinear_arith);
        assert(d.last() == digit_char(n % 10));
        assert(digits_value(d) == digits_value(p) * 10 + (n % 10));
        assert forall|i: int| 0 <= i < d.len() implies '0' <= #[trigger] d[i] <= '9' by {
            if i < p.len() {
                assert(d[i] == p[i]);
            }
        }
    }
}

/// Strict mode fails a run exactly when it is on and TODO items were found,
/// and the failure says how many.
pub proof fn lemma_strict_policy(strict: bool, todos: nat)
    ensures
        (strict_result(strict, todos) is Err) <==> (strict && todos > 0),
        strict_result(strict, todos) is Err ==> has_part(strict_result(strict, todos)->Err_0, decimal(todos)),
{
    if strict && todos > 0 {
        lemma_has_part_mid(
            "strict mode violation: unsupported operations found ("@,
            decimal(todos),
            " TODO item(s))"@,
        );
    }
}

/// A parse mode is named in any letter case: `auto`, `free` and `fixed`
/// select their modes, and any other word is refused with a message that
/// quotes it.
pub proof fn lemma_mode_names(v: Seq<char>)
    ensures
        lower(v) == "auto"@ ==> mode_result(v) == Ok::<ParseMode, Seq<char>>(ParseMode::Auto),
        lower(v) == "free"@ ==> mode_result(v) == Ok::<ParseMode, Seq<char>>(ParseMode::Free),
        lower(v) == "fixed"@ ==> mode_result(v) == Ok::<ParseMode, Seq<char>>(ParseMode::Fixed),
        lower(v) != "auto"@ && lower(v) != "free"@ && lower(v) != "fixed"@ ==> mode_result(v) is Err && has_part(
            mode_result(v)->Err_0,
            v,
        ),
{
    reveal_strlit("auto");
    reveal_strlit("free");
    reveal_strlit("fixed");
    assert("auto"@[0] != "free"@[0]);
    assert("auto"@[0] != "fixed"@[0]);
    assert("free"@.len() != "fixed"@.len());
    if lower(v) != "auto"@ && lower(v) != "free"@ && lower(v) != "fixed"@ {
        lemma_has_part_mid("invalid mode '"@, v, "', expected auto|free|fixed"@);
    }
}
} // verus!
