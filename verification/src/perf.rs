//! The measurements of a batch run: the metrics table, and the performance
//! summary with its signals and recommendations.
use vstd::prelude::*;
use crate::cli::{FailedRun, FailureCategory, FailureCategoryView, band_of, category_views, collect_failure_categories, csv_escape, csv_field, failed_views, failure_categories, min_jobs, min_jobs_of, opt_string_view, size_band, slow_tail_threshold, slow_tail_threshold_of};
use crate::report::{all_rows, bool_text, concat_items, escape_json, escape_json_chars, escape_json_str, push_all, push_rows, rows};
use crate::text::{chars_of, contains, decimal, extend, extend_str, has_part, join_chars, join_sep, lemma_has_part_mid, push_decimal, push_decimal_u128, starts_with, string_of, views};

verus! {

/// A converted file as the summary lists it; its TODO rate comes formatted
/// with four decimals.
#[derive(Debug, Clone)]
pub struct PerfFile {
    pub class_name: String,
    pub input: String,
    pub elapsed_ms: u128,
    pub todo_rate: String,
    pub statements: usize,
    pub todos: usize,
}

pub struct PerfFileView {
    pub class_name: Seq<char>,
    pub input: Seq<char>,
    pub elapsed_ms: u128,
    pub todo_rate: Seq<char>,
    pub statements: usize,
    pub todos: usize,
}

impl View for PerfFile {
    type V = PerfFileView;

    open spec fn view(&self) -> PerfFileView {
        PerfFileView {
            class_name: self.class_name@,
            input: self.input@,
            elapsed_ms: self.elapsed_ms,
            todo_rate: self.todo_rate@,
            statements: self.statements,
            todos: self.todos,
        }
    }
}

pub open spec fn perf_file_views(v: Seq<PerfFile>) -> Seq<PerfFileView> {
    v.map_values(|f: PerfFile| f@)
}

// ------------------------------------------------------------------
// The slowest files
// ------------------------------------------------------------------

/// How many files the summary lists as slowest.
pub open spec fn slow_list_len(n: nat) -> nat {
    if n < 5 {
        n
    } else {
        5
    }
}

/// File `a` is listed before file `b`: it took longer, or as long and came first.
pub open spec fn slower(fs: Seq<PerfFileView>, a: int, b: int) -> bool {
    fs[a].elapsed_ms > fs[b].elapsed_ms || (fs[a].elapsed_ms == fs[b].elapsed_ms && a < b)
}

/// `r` lists the slowest files, slowest first (ties in input order), at most
/// five of them; every file left out comes after every file listed.
pub open spec fn is_slowest(fs: Seq<PerfFileView>, r: Seq<usize>) -> bool {
    &&& r.len() == slow_list_len(fs.len())
    &&& forall|i: int| 0 <= i < r.len() ==> #[trigger] r[i] < fs.len()
    &&& forall|i: int, j: int| 0 <= i < j < r.len() ==> slower(fs, #[trigger] r[i] as int, #[trigger] r[j] as int)
    &&& forall|k: int, i: int|
        0 <= k < fs.len() && !r.contains(k as usize) && 0 <= i < r.len() ==> #[trigger] slower(
            fs,
            r[i] as int,
            k,
        )
}

/// The slowest files, as positions in the list of files.
pub open spec fn slowest(fs: Seq<PerfFileView>) -> Seq<usize> {
    choose|r: Seq<usize>| is_slowest(fs, r)
}

proof fn lemma_slower_asym(fs: Seq<PerfFileView>, a: int, b: int)
    ensures
        !(slower(fs, a, b) && slower(fs, b, a)),
        !slower(fs, a, a),
{
}

/// Only one list meets the description.
proof fn lemma_slowest_unique(fs: Seq<PerfFileView>, a: Seq<usize>, b: Seq<usize>)
    requires
        is_slowest(fs, a),
        is_slowest(fs, b),
    ensures
        a == b,
{
    assert forall|p: int| 0 <= p < a.len() implies a[p] == b[p] by {
        lemma_slowest_agree(fs, a, b, p);
    }
    assert(a =~= b);
}

proof fn lemma_slowest_agree(fs: Seq<PerfFileView>, a: Seq<usize>, b: Seq<usize>, p: int)
    requires
        is_slowest(fs, a),
        is_slowest(fs, b),
        0 <= p < a.len(),
    ensures
        a[p] == b[p],
    decreases p,
{
    assert forall|q: int| 0 <= q < p implies a[q] == b[q] by {
        lemma_slowest_agree(fs, a, b, q);
    }
    if a[p] != b[p] {
        // Each would come before the other.
        lemma_before(fs, a, b, p);
        lemma_before(fs, b, a, p);
        lemma_slower_asym(fs, a[p] as int, b[p] as int);
    }
}

/// When the lists agree before position `p` and differ there, `a[p]` comes before `b[p]`.
proof fn lemma_before(fs: Seq<PerfFileView>, a: Seq<usize>, b: Seq<usize>, p: int)
    requires
        is_slowest(fs, a),
        is_slowest(fs, b),
        0 <= p < a.len(),
        forall|q: int| 0 <= q < p ==> a[q] == b[q],
        a[p] != b[p],
    ensures
        slower(fs, a[p] as int, b[p] as int),
{
    let x = b[p];
    assert(x < fs.len());
    if a.contains(x) {
        let q = choose|q: int| 0 <= q < a.len() && a[q] == x;
        if q < p {
            assert(b[q] == x);
            lemma_slower_asym(fs, b[q] as int, b[p] as int);
            assert(slower(fs, b[q] as int, b[p] as int));
            assert(false);
        } else {
            assert(q != p);
            assert(slower(fs, a[p] as int, a[q] as int));
        }
    } else {
        assert(slower(fs, a[p] as int, x as int));
    }
}

/// Fewer positions than files leave a file out.
proof fn lemma_one_left_out(r: Seq<usize>, n: usize)
    requires
        r.len() < n,
    ensures
        exists|k: usize| k < n && !(#[trigger] r.contains(k)),
{
    if forall|k: usize| k < n ==> #[trigger] r.contains(k) {
        let all = Seq::new(n as nat, |i: int| i as usize);
        assert(all.no_duplicates()) by {
            assert forall|i: int, j: int| 0 <= i < all.len() && 0 <= j < all.len() && i != j implies all[i]
                != all[j] by {}
        }
        all.unique_seq_to_set();
        r.lemma_cardinality_of_set();
        assert(all.to_set().subset_of(r.to_set())) by {
            assert forall|x: usize| all.to_set().contains(x) implies r.to_set().contains(x) by {
                let i = choose|i: int| 0 <= i < all.len() && all[i] == x;
                assert(r.contains(all[i]));
            }
        }
        vstd::set_lib::lemma_len_subset(all.to_set(), r.to_set());
        assert(false);
    }
}

/// The positions of the slowest files: longest first, ties in input order,
/// at most five.
pub fn slowest_files(files: &Vec<PerfFile>) -> (r: Vec<usize>)
    ensures
        is_slowest(perf_file_views(files@), r@),
        r@ == slowest(perf_file_views(files@)),
{
    let ghost fs = perf_file_views(files@);
    let n = files.len();
    let want: usize = if n < 5 {
        n
    } else {
        5
    };
    let mut chosen: Vec<usize> = Vec::new();
    let mut taken: Vec<bool> = Vec::new();
    let mut t: usize = 0;
    while t < n
        invariant
            t <= n,
            n == files.len(),
            taken@.len() == t,
            forall|j: int| 0 <= j < t ==> !#[trigger] taken@[j],
        decreases n - t,
    {
        taken.push(false);
        t += 1;
    }
    while chosen.len() < want
        invariant
            n == files.len(),
            fs == perf_file_views(files@),
            want == slow_list_len(n as nat),
            chosen@.len() <= want,
            taken@.len() == n,
            forall|j: int| 0 <= j < n ==> (#[trigger] taken@[j] <==> chosen@.contains(j as usize)),
            forall|i: int| 0 <= i < chosen@.len() ==> #[trigger] chosen@[i] < n,
            forall|i: int, j: int|
                0 <= i < j < chosen@.len() ==> slower(fs, #[trigger] chosen@[i] as int, #[trigger] chosen@[j] as int),
            forall|k: int, i: int|
                0 <= k < n && !chosen@.contains(k as usize) && 0 <= i < chosen@.len() ==> #[trigger] slower(
                    fs,
                    chosen@[i] as int,
                    k,
                ),
        decreases want - chosen@.len(),
    {
        proof {
            lemma_one_left_out(chosen@, n);
        }
        let mut best: usize = n;
        let mut j: usize = 0;
        while j < n
            invariant
                n == files.len(),
                fs == perf_file_views(files@),
                taken@.len() == n,
                j <= n,
                best == n || (best < j && !taken@[best as int]),
                best == n ==> forall|m: int| 0 <= m < j ==> #[trigger] taken@[m],
                best < n ==> forall|m: int| 0 <= m < j && !taken@[m] && m != best ==> #[trigger] slower(
                    fs,
                    best as int,
                    m,
                ),
            decreases n - j,
        {
            proof {
                assert(fs[j as int] == files@[j as int]@);
                if best < n {
                    assert(fs[best as int] == files@[best as int]@);
                }
            }
            let ghost b0 = best;
            if !taken[j] {
                if best == n || files[j].elapsed_ms > files[best].elapsed_ms {
                    best = j;
                }
            }
            proof {
                if best < n {
                    assert forall|m: int| 0 <= m < j + 1 && !taken@[m] && m != best implies #[trigger] slower(
                        fs,
                        best as int,
                        m,
                    ) by {
                        assert(fs[m] == files@[m]@);
                        if b0 < n && m != b0 && m < j {
                            assert(slower(fs, b0 as int, m));
                        }
                    }
                }
            }
            j += 1;
        }
        proof {
            if best == n {
                let k = choose|k: usize| k < n && !chosen@.contains(k);
                assert(taken@[k as int]);
                assert(false);
            }
        }
        let ghost before = chosen@;
        taken.set(best, true);
        chosen.push(best);
        proof {
            assert(chosen@[before.len() as int] == best);
            assert(!before.contains(best));
            assert forall|k: int| 0 <= k < n implies (#[trigger] taken@[k] <==> chosen@.contains(k as usize)) by {
                if k == best {
                    assert(chosen@[before.len() as int] == best);
                } else {
                    if chosen@.contains(k as usize) {
                        let q = choose|q: int| 0 <= q < chosen@.len() && chosen@[q] == k as usize;
                        assert(q < before.len());
                        assert(before[q] == k as usize);
                    }
                    if before.contains(k as usize) {
                        let q = choose|q: int| 0 <= q < before.len() && before[q] == k as usize;
                        assert(chosen@[q] == k as usize);
                    }
                }
            }
            assert forall|i: int, i2: int| 0 <= i < i2 < chosen@.len() implies slower(
                fs,
                #[trigger] chosen@[i] as int,
                #[trigger] chosen@[i2] as int,
            ) by {
                if i2 == before.len() {
                    assert(chosen@[i] == before[i]);
                    assert(!before.contains(best));
                    assert(slower(fs, before[i] as int, best as int));
                } else {
                    assert(chosen@[i] == before[i] && chosen@[i2] == before[i2]);
                }
            }
            assert forall|k: int, i: int|
                0 <= k < n && !chosen@.contains(k as usize) && 0 <= i < chosen@.len() implies #[trigger] slower(
                fs,
                chosen@[i] as int,
                k,
            ) by {
                assert(k != best);
                assert(!before.contains(k as usize)) by {
                    if before.contains(k as usize) {
                        let q = choose|q: int| 0 <= q < before.len() && before[q] == k as usize;
                        assert(chosen@[q] == k as usize);
                    }
                }
                assert(!taken@[k]);
                if i == before.len() {
                    assert(slower(fs, best as int, k));
                } else {
                    assert(chosen@[i] == before[i]);
                }
            }
        }
    }
    proof {
        assert(is_slowest(fs, chosen@));
        lemma_slowest_unique(fs, chosen@, slowest(fs));
    }
    chosen
}

// ------------------------------------------------------------------
// Signals and recommendations
// ------------------------------------------------------------------

/// The figures of a batch run. The averages come formatted (three decimals
/// for the time, four for the rates), and `high_todo` says whether the
/// average TODO rate reaches the warning level of 0.2.
#[derive(Debug, Clone)]
pub struct PerfSummary {
    pub total: usize,
    pub success: usize,
    pub failed: usize,
    pub jobs: usize,
    pub p50_ms: u128,
    pub p95_ms: u128,
    pub p99_ms: u128,
    pub avg_ms: String,
    pub avg_todo_rate: String,
    pub avg_ms_per_kib: String,
    pub high_todo: bool,
}

pub struct PerfSummaryView {
    pub total: usize,
    pub success: usize,
    pub failed: usize,
    pub jobs: usize,
    pub p50_ms: u128,
    pub p95_ms: u128,
    pub p99_ms: u128,
    pub avg_ms: Seq<char>,
    pub avg_todo_rate: Seq<char>,
    pub avg_ms_per_kib: Seq<char>,
    pub high_todo: bool,
}

impl View for PerfSummary {
    type V = PerfSummaryView;

    open spec fn view(&self) -> PerfSummaryView {
        PerfSummaryView {
            total: self.total,
            success: self.success,
            failed: self.failed,
            jobs: self.jobs,
            p50_ms: self.p50_ms,
            p95_ms: self.p95_ms,
            p99_ms: self.p99_ms,
            avg_ms: self.avg_ms@,
            avg_todo_rate: self.avg_todo_rate@,
            avg_ms_per_kib: self.avg_ms_per_kib@,
            high_todo: self.high_todo,
        }
    }
}

/// The p95 time above which the run has a slow tail.
pub open spec fn p95_warn(s: PerfSummaryView) -> nat {
    slow_tail_threshold_of(s.p50_ms as nat)
}

/// The fewest jobs the run should have had.
pub open spec fn jobs_floor(s: PerfSummaryView) -> nat {
    min_jobs_of(s.total as nat)
}

pub open spec fn has_failures(s: PerfSummaryView) -> bool {
    s.failed > 0
}

pub open spec fn slow_tail(s: PerfSummaryView) -> bool {
    s.p95_ms > p95_warn(s)
}

pub open spec fn low_parallelism(s: PerfSummaryView) -> bool {
    s.jobs < jobs_floor(s)
}

pub open spec fn category_keys(cats: Seq<FailureCategoryView>) -> Seq<Seq<char>> {
    cats.map_values(|c: FailureCategoryView| c.key)
}

/// What to do about the run, in this order: the failures (their categories
/// first, when failed files are listed), too few jobs, a slow tail, a high
/// TODO rate; a word that all is well when none of these holds.
pub open spec fn perf_recommendations(
    s: PerfSummaryView,
    cats: Seq<FailureCategoryView>,
    any_failed_files: bool,
) -> Seq<Seq<char>> {
    let failures = if has_failures(s) {
        (if any_failed_files {
            seq![
                "失敗カテゴリ: "@ + join_sep(category_keys(cats), ", "@)
                    + "。category別の対応を優先してください。"@,
            ]
        } else {
            seq![]
        }) + seq![
            "変換失敗が "@ + decimal(s.failed as nat)
                + " 件あります。失敗ファイルの文字コード・構文差分を先に解消してください。"@,
        ]
    } else {
        seq![]
    };
    let jobs = if low_parallelism(s) {
        seq![
            "並列度が低いです。CPUコア数に応じて --jobs を上げて処理時間を短縮してください。"@,
            "根拠: jobs="@ + decimal(s.jobs as nat) + " < threshold_jobs_min="@ + decimal(jobs_floor(s)),
        ]
    } else {
        seq![]
    };
    let tail = if slow_tail(s) {
        seq![
            "p95 が偏っています（p50="@ + decimal(s.p50_ms as nat) + "ms, p95="@ + decimal(s.p95_ms as nat)
                + "ms, threshold="@ + decimal(p95_warn(s))
                + "ms）。重いファイルを先に分離して段階実行してください。"@,
        ]
    } else {
        seq![]
    };
    let todo = if s.high_todo {
        seq![
            "TODO率が高めです（avg_todo_rate="@ + s.avg_todo_rate
                + ", threshold=0.2000）。未対応命令（CHAIN/SETLL/READE/EXSR 等）の優先実装で手戻りを減らしてください。"@,
        ]
    } else {
        seq![]
    };
    let all = failures + jobs + tail + todo;
    if all.len() == 0 {
        seq!["現時点で重大なボトルネックは見当たりません。"@]
    } else {
        all
    }
}

fn push_text(v: &mut Vec<Vec<char>>, t: Vec<char>)
    ensures
        views(final(v)@) == views(old(v)@).push(t@),
{
    let ghost before = views(v@);
    v.push(t);
    proof {
        assert(views(v@) =~= before.push(t@));
    }
}

pub fn recommendations(summary: &PerfSummary, cats: &Vec<FailureCategory>, any_failed_files: bool) -> (r: Vec<
    Vec<char>,
>)
    ensures
        views(r@) == perf_recommendations(summary@, category_views(cats@), any_failed_files),
{
    let ghost s = summary@;
    let mut out: Vec<Vec<char>> = Vec::new();
    let threshold = slow_tail_threshold(summary.p50_ms);
    let jobs_min = min_jobs(summary.total);
    if summary.failed > 0 {
        if any_failed_files {
            let mut keys: Vec<Vec<char>> = Vec::new();
            let mut i: usize = 0;
            while i < cats.len()
                invariant
                    i <= cats.len(),
                    views(keys@) == category_keys(category_views(cats@)).subrange(0, i as int),
                decreases cats.len() - i,
            {
                let ghost before = views(keys@);
                let k = chars_of(cats[i].key.as_str());
                keys.push(k);
                proof {
                    assert(views(keys@) =~= before.push(k@));
                    assert(category_views(cats@)[i as int] == cats@[i as int]@);
                    assert(k@ == category_keys(category_views(cats@))[i as int]);
                    assert(views(keys@) =~= category_keys(category_views(cats@)).subrange(0, i + 1));
                }
                i += 1;
            }
            proof {
                assert(views(keys@) =~= category_keys(category_views(cats@)));
            }
            let mut m = chars_of("失敗カテゴリ: ");
            extend(&mut m, &join_chars(&keys, &chars_of(", ")));
            extend_str(&mut m, "。category別の対応を優先してください。");
            push_text(&mut out, m);
        }
        let mut m = chars_of("変換失敗が ");
        push_decimal(&mut m, summary.failed as u64);
        extend_str(&mut m, " 件あります。失敗ファイルの文字コード・構文差分を先に解消してください。");
        push_text(&mut out, m);
    }
    if summary.jobs < jobs_min {
        push_text(&mut out, chars_of("並列度が低いです。CPUコア数に応じて --jobs を上げて処理時間を短縮してください。"));
        let mut m = chars_of("根拠: jobs=");
        push_decimal(&mut m, summary.jobs as u64);
        extend_str(&mut m, " < threshold_jobs_min=");
        push_decimal(&mut m, jobs_min as u64);
        push_text(&mut out, m);
    }
    if summary.p95_ms > threshold {
        let mut m = chars_of("p95 が偏っています（p50=");
        push_decimal_u128(&mut m, summary.p50_ms);
        extend_str(&mut m, "ms, p95=");
        push_decimal_u128(&mut m, summary.p95_ms);
        extend_str(&mut m, "ms, threshold=");
        push_decimal_u128(&mut m, threshold);
        extend_str(&mut m, "ms）。重いファイルを先に分離して段階実行してください。");
        push_text(&mut out, m);
    }
    if summary.high_todo {
        let mut m = chars_of("TODO率が高めです（avg_todo_rate=");
        extend(&mut m, &chars_of(summary.avg_todo_rate.as_str()));
        extend_str(
            &mut m,
            ", threshold=0.2000）。未対応命令（CHAIN/SETLL/READE/EXSR 等）の優先実装で手戻りを減らしてください。",
        );
        push_text(&mut out, m);
    }
    if out.len() == 0 {
        push_text(&mut out, chars_of("現時点で重大なボトルネックは見当たりません。"));
    }
    proof {
        assert(views(out@) =~= perf_recommendations(s, category_views(cats@), any_failed_files));
    }
    out
}

// ------------------------------------------------------------------
// The document
// ------------------------------------------------------------------

pub open spec fn slow_file_json(f: PerfFileView) -> Seq<char> {
    "    {\"class_name\":\""@ + escape_json(f.class_name) + "\",\"input\":\""@ + escape_json(f.input)
        + "\",\"elapsed_ms\":"@ + decimal(f.elapsed_ms as nat) + ",\"todo_rate\":"@ + f.todo_rate + "}"@
}

pub open spec fn todo_file_json(f: PerfFileView) -> Seq<char> {
    "    {\"class_name\":\""@ + escape_json(f.class_name) + "\",\"input\":\""@ + escape_json(f.input)
        + "\",\"todo_rate\":"@ + f.todo_rate + ",\"statements\":"@ + decimal(f.statements as nat)
        + ",\"todos\":"@ + decimal(f.todos as nat) + "}"@
}

pub open spec fn quoted_json(t: Seq<char>) -> Seq<char> {
    seq!['"'] + escape_json(t) + seq!['"']
}

pub open spec fn category_json(c: FailureCategoryView) -> Seq<char> {
    "    {\"key\":\""@ + escape_json(c.key) + "\",\"label\":\""@ + escape_json(c.label) + "\",\"count\":"@
        + decimal(c.count) + ",\"samples\":["@ + join_sep(c.samples.map_values(|t: Seq<char>| quoted_json(t)), ","@)
        + "]}"@
}

pub open spec fn recommendation_json(t: Seq<char>) -> Seq<char> {
    "    "@ + quoted_json(t)
}

/// The files at the given positions, in that order.
pub open spec fn pick(fs: Seq<PerfFileView>, at: Seq<usize>) -> Seq<PerfFileView> {
    at.map_values(|i: usize| fs[i as int])
}

/// The figures that open the performance summary.
pub open spec fn perf_head(s: PerfSummaryView) -> Seq<char> {
    summary_counts(s) + ",\n    \"p50_ms\": "@ + decimal(s.p50_ms as nat) + ",\n    \"p95_ms\": "@ + decimal(
        s.p95_ms as nat,
    ) + ",\n    \"p99_ms\": "@ + decimal(s.p99_ms as nat) + ",\n    \"avg_ms\": "@ + s.avg_ms
        + ",\n    \"avg_todo_rate\": "@ + s.avg_todo_rate + ",\n    \"avg_ms_per_kib\": "@ + s.avg_ms_per_kib
}

/// The thresholds and signals of the performance summary.
pub open spec fn perf_thresholds(s: PerfSummaryView) -> Seq<char> {
    "\n  },\n  \"thresholds\": {\n    \"failed_max\": 0,\n    \"p95_ms_warn\": "@ + decimal(p95_warn(s))
        + ",\n    \"avg_todo_rate_warn\": 0.2000,\n    \"jobs_min\": "@ + decimal(jobs_floor(s))
        + "\n  },\n  \"signals\": {\n    \"has_failures\": "@ + bool_text(has_failures(s))
        + ",\n    \"slow_tail\": "@ + bool_text(slow_tail(s)) + ",\n    \"high_todo\": "@ + bool_text(s.high_todo)
        + ",\n    \"low_parallelism\": "@ + bool_text(low_parallelism(s)) + "\n  },\n  \"slow_files\": [\n"@
}

/// The lists of the performance summary.
pub open spec fn perf_lists(
    slow: Seq<PerfFileView>,
    high_todo: Seq<PerfFileView>,
    cats: Seq<FailureCategoryView>,
    recs: Seq<Seq<char>>,
) -> Seq<char> {
    all_rows(slow.map_values(|f: PerfFileView| slow_file_json(f))) + "  ],\n  \"high_todo_files\": [\n"@
        + all_rows(high_todo.map_values(|f: PerfFileView| todo_file_json(f)))
        + "  ],\n  \"failure_categories\": [\n"@ + all_rows(cats.map_values(|c: FailureCategoryView| category_json(c)))
        + "  ],\n  \"recommendations\": [\n"@ + all_rows(recs.map_values(|t: Seq<char>| recommendation_json(t)))
        + "  ]\n}\n"@
}

/// The performance summary as a JSON document: the figures, the thresholds,
/// the signals, the slowest files, the files with the highest TODO rate, the
/// failure categories and the recommendations.
pub open spec fn perf_report_text(
    s: PerfSummaryView,
    slow: Seq<PerfFileView>,
    high_todo: Seq<PerfFileView>,
    cats: Seq<FailureCategoryView>,
    recs: Seq<Seq<char>>,
) -> Seq<char> {
    perf_head(s) + perf_thresholds(s) + perf_lists(slow, high_todo, cats, recs)
}

fn bool_str(b: bool) -> (r: &'static str)
    ensures
        r@ == bool_text(b),
{
    if b {
        "true"
    } else {
        "false"
    }
}

fn slow_file_json_exec(f: &PerfFile) -> (r: Vec<char>)
    ensures
        r@ == slow_file_json(f@),
{
    let mut out = chars_of("    {\"class_name\":\"");
    extend(&mut out, &escape_json_str(f.class_name.as_str()));
    extend_str(&mut out, "\",\"input\":\"");
    extend(&mut out, &escape_json_str(f.input.as_str()));
    extend_str(&mut out, "\",\"elapsed_ms\":");
    push_decimal_u128(&mut out, f.elapsed_ms);
    extend_str(&mut out, ",\"todo_rate\":");
    extend_str(&mut out, f.todo_rate.as_str());
    extend_str(&mut out, "}");
    out
}

fn todo_file_json_exec(f: &PerfFile) -> (r: Vec<char>)
    ensures
        r@ == todo_file_json(f@),
{
    let mut out = chars_of("    {\"class_name\":\"");
    extend(&mut out, &escape_json_str(f.class_name.as_str()));
    extend_str(&mut out, "\",\"input\":\"");
    extend(&mut out, &escape_json_str(f.input.as_str()));
    extend_str(&mut out, "\",\"todo_rate\":");
    extend_str(&mut out, f.todo_rate.as_str());
    extend_str(&mut out, ",\"statements\":");
    push_decimal(&mut out, f.statements as u64);
    extend_str(&mut out, ",\"todos\":");
    push_decimal(&mut out, f.todos as u64);
    extend_str(&mut out, "}");
    out
}

fn category_json_exec(c: &FailureCategory) -> (r: Vec<char>)
    ensures
        r@ == category_json(c@),
{
    let ghost want = c@.samples.map_values(|t: Seq<char>| quoted_json(t));
    let mut quoted: Vec<Vec<char>> = Vec::new();
    let mut i: usize = 0;
    while i < c.samples.len()
        invariant
            i <= c.samples.len(),
            want == c@.samples.map_values(|t: Seq<char>| quoted_json(t)),
            views(quoted@) == want.subrange(0, i as int),
        decreases c.samples.len() - i,
    {
        let ghost before = views(quoted@);
        let mut q: Vec<char> = Vec::new();
        q.push('"');
        extend(&mut q, &escape_json_str(c.samples[i].as_str()));
        q.push('"');
        proof {
            assert(c@.samples[i as int] == c.samples@[i as int]@);
            assert(q@ =~= quoted_json(c@.samples[i as int]));
        }
        quoted.push(q);
        proof {
            assert(views(quoted@) =~= before.push(q@));
            assert(want[i as int] == quoted_json(c@.samples[i as int]));
            assert(views(quoted@) =~= want.subrange(0, i + 1));
        }
        i += 1;
    }
    proof {
        assert(views(quoted@) =~= want);
    }
    let mut out = chars_of("    {\"key\":\"");
    extend(&mut out, &escape_json_str(c.key.as_str()));
    extend_str(&mut out, "\",\"label\":\"");
    extend(&mut out, &escape_json_str(c.label.as_str()));
    extend_str(&mut out, "\",\"count\":");
    push_decimal(&mut out, c.count as u64);
    extend_str(&mut out, ",\"samples\":[");
    extend(&mut out, &join_chars(&quoted, &chars_of(",")));
    extend_str(&mut out, "]}");
    out
}

fn slow_rows(files: &Vec<PerfFile>, at: &Vec<usize>) -> (r: Vec<Vec<char>>)
    requires
        forall|i: int| 0 <= i < at@.len() ==> #[trigger] at@[i] < files@.len(),
    ensures
        views(r@) == pick(perf_file_views(files@), at@).map_values(|f: PerfFileView| slow_file_json(f)),
{
    let ghost want = pick(perf_file_views(files@), at@).map_values(|f: PerfFileView| slow_file_json(f));
    let mut r: Vec<Vec<char>> = Vec::new();
    let mut i: usize = 0;
    while i < at.len()
        invariant
            i <= at.len(),
            forall|k: int| 0 <= k < at@.len() ==> #[trigger] at@[k] < files@.len(),
            want == pick(perf_file_views(files@), at@).map_values(|f: PerfFileView| slow_file_json(f)),
            views(r@) == want.subrange(0, i as int),
        decreases at.len() - i,
    {
        let ghost before = views(r@);
        let row = slow_file_json_exec(&files[at[i]]);
        r.push(row);
        proof {
            assert(at@[i as int] < files@.len());
            assert(perf_file_views(files@)[at@[i as int] as int] == files@[at@[i as int] as int]@);
            assert(views(r@) =~= before.push(row@));
            assert(views(r@) =~= want.subrange(0, i + 1));
        }
        i += 1;
    }
    proof {
        assert(views(r@) =~= want);
    }
    r
}

fn todo_rows(files: &Vec<PerfFile>) -> (r: Vec<Vec<char>>)
    ensures
        views(r@) == perf_file_views(files@).map_values(|f: PerfFileView| todo_file_json(f)),
{
    let ghost want = perf_file_views(files@).map_values(|f: PerfFileView| todo_file_json(f));
    let mut r: Vec<Vec<char>> = Vec::new();
    let mut i: usize = 0;
    while i < files.len()
        invariant
            i <= files.len(),
            want == perf_file_views(files@).map_values(|f: PerfFileView| todo_file_json(f)),
            views(r@) == want.subrange(0, i as int),
        decreases files.len() - i,
    {
        let ghost before = views(r@);
        let row = todo_file_json_exec(&files[i]);
        r.push(row);
        proof {
            assert(perf_file_views(files@)[i as int] == files@[i as int]@);
            assert(views(r@) =~= before.push(row@));
            assert(views(r@) =~= want.subrange(0, i + 1));
        }
        i += 1;
    }
    proof {
        assert(views(r@) =~= want);
    }
    r
}

fn category_rows(cats: &Vec<FailureCategory>) -> (r: Vec<Vec<char>>)
    ensures
        views(r@) == category_views(cats@).map_values(|c: FailureCategoryView| category_json(c)),
{
    let ghost want = category_views(cats@).map_values(|c: FailureCategoryView| category_json(c));
    let mut r: Vec<Vec<char>> = Vec::new();
    let mut i: usize = 0;
    while i < cats.len()
        invariant
            i <= cats.len(),
            want == category_views(cats@).map_values(|c: FailureCategoryView| category_json(c)),
            views(r@) == want.subrange(0, i as int),
        decreases cats.len() - i,
    {
        let ghost before = views(r@);
        let row = category_json_exec(&cats[i]);
        r.push(row);
        proof {
            assert(category_views(cats@)[i as int] == cats@[i as int]@);
            assert(views(r@) =~= before.push(row@));
            assert(views(r@) =~= want.subrange(0, i + 1));
        }
        i += 1;
    }
    proof {
        assert(views(r@) =~= want);
    }
    r
}

fn recommendation_rows(recs: &Vec<Vec<char>>) -> (r: Vec<Vec<char>>)
    ensures
        views(r@) == views(recs@).map_values(|t: Seq<char>| recommendation_json(t)),
{
    let ghost want = views(recs@).map_values(|t: Seq<char>| recommendation_json(t));
    let mut r: Vec<Vec<char>> = Vec::new();
    let mut i: usize = 0;
    while i < recs.len()
        invariant
            i <= recs.len(),
            want == views(recs@).map_values(|t: Seq<char>| recommendation_json(t)),
            views(r@) == want.subrange(0, i as int),
        decreases recs.len() - i,
    {
        let ghost before = views(r@);
        let mut row = chars_of("    ");
        row.push('"');
        extend(&mut row, &escape_json_chars(&recs[i]));
        row.push('"');
        proof {
            assert(views(recs@)[i as int] == recs@[i as int]@);
            assert(row@ =~= recommendation_json(recs@[i as int]@));
        }
        r.push(row);
        proof {
            assert(views(r@) =~= before.push(row@));
            assert(views(r@) =~= want.subrange(0, i + 1));
        }
        i += 1;
    }
    proof {
        assert(views(r@) =~= want);
    }
    r
}

fn perf_head_chars(summary: &PerfSummary) -> (r: Vec<char>)
    ensures
        r@ == perf_head(summary@),
{
    let mut r = chars_of("{\n  \"summary\": {\n    \"total\": ");
    let out = &mut r;
    push_decimal(out, summary.total as u64);
    extend_str(out, ",\n    \"success\": ");
    push_decimal(out, summary.success as u64);
    extend_str(out, ",\n    \"failed\": ");
    push_decimal(out, summary.failed as u64);
    extend_str(out, ",\n    \"jobs\": ");
    push_decimal(out, summary.jobs as u64);
    extend_str(out, ",\n    \"p50_ms\": ");
    push_decimal_u128(out, summary.p50_ms);
    extend_str(out, ",\n    \"p95_ms\": ");
    push_decimal_u128(out, summary.p95_ms);
    extend_str(out, ",\n    \"p99_ms\": ");
    push_decimal_u128(out, summary.p99_ms);
    extend_str(out, ",\n    \"avg_ms\": ");
    extend_str(out, summary.avg_ms.as_str());
    extend_str(out, ",\n    \"avg_todo_rate\": ");
    extend_str(out, summary.avg_todo_rate.as_str());
    extend_str(out, ",\n    \"avg_ms_per_kib\": ");
    extend_str(out, summary.avg_ms_per_kib.as_str());
    proof {
        assert(r@ =~= perf_head(summary@));
    }
    r
}

fn perf_thresholds_chars(summary: &PerfSummary) -> (r: Vec<char>)
    ensures
        r@ == perf_thresholds(summary@),
{
    let threshold = slow_tail_threshold(summary.p50_ms);
    let jobs_min = min_jobs(summary.total);
    let mut r = chars_of("\n  },\n  \"thresholds\": {\n    \"failed_max\": 0,\n    \"p95_ms_warn\": ");
    let out = &mut r;
    push_decimal_u128(out, threshold);
    extend_str(out, ",\n    \"avg_todo_rate_warn\": 0.2000,\n    \"jobs_min\": ");
    push_decimal(out, jobs_min as u64);
    extend_str(out, "\n  },\n  \"signals\": {\n    \"has_failures\": ");
    extend_str(out, bool_str(summary.failed > 0));
    extend_str(out, ",\n    \"slow_tail\": ");
    extend_str(out, bool_str(summary.p95_ms > threshold));
    extend_str(out, ",\n    \"high_todo\": ");
    extend_str(out, bool_str(summary.high_todo));
    extend_str(out, ",\n    \"low_parallelism\": ");
    extend_str(out, bool_str(summary.jobs < jobs_min));
    extend_str(out, "\n  },\n  \"slow_files\": [\n");
    proof {
        assert(r@ =~= perf_thresholds(summary@));
    }
    r
}

/// The performance summary of a batch run: `files` are the converted files
/// in input order, `high_todo_files` the files with the highest TODO rates
/// (at most five, highest first), `failures` the files that failed.
pub fn render_perf_report(
    summary: &PerfSummary,
    files: &Vec<PerfFile>,
    high_todo_files: &Vec<PerfFile>,
    failures: &Vec<FailedRun>,
) -> (r: String)
    ensures
        r@ == perf_report_text(
            summary@,
            pick(perf_file_views(files@), slowest(perf_file_views(files@))),
            perf_file_views(high_todo_files@),
            failure_categories(failed_views(failures@)),
            perf_recommendations(summary@, failure_categories(failed_views(failures@)), failures@.len() > 0),
        ),
{
    let cats = collect_failure_categories(failures);
    let recs = recommendations(summary, &cats, failures.len() > 0);
    let slow = slowest_files(files);
    let ghost slow_files = pick(perf_file_views(files@), slowest(perf_file_views(files@)));
    let ghost cat_views = failure_categories(failed_views(failures@));
    let ghost rec_views = perf_recommendations(summary@, cat_views, failures@.len() > 0);
    let mut lists: Vec<char> = Vec::new();
    push_rows(&mut lists, &slow_rows(files, &slow));
    extend_str(&mut lists, "  ],\n  \"high_todo_files\": [\n");
    push_rows(&mut lists, &todo_rows(high_todo_files));
    extend_str(&mut lists, "  ],\n  \"failure_categories\": [\n");
    push_rows(&mut lists, &category_rows(&cats));
    extend_str(&mut lists, "  ],\n  \"recommendations\": [\n");
    push_rows(&mut lists, &recommendation_rows(&recs));
    extend_str(&mut lists, "  ]\n}\n");
    proof {
        assert(lists@ =~= perf_lists(slow_files, perf_file_views(high_todo_files@), cat_views, rec_views));
    }
    let mut out = perf_head_chars(summary);
    extend(&mut out, &perf_thresholds_chars(summary));
    extend(&mut out, &lists);
    string_of(&out)
}

/// The thresholds and signals of a performance summary, written out: the
/// slow-tail threshold is twice the median time and at least 20 ms, two jobs
/// are expected from four files on, no failure is tolerated, and each signal
/// compares the summary with its threshold.
pub open spec fn thresholds_and_signals(s: PerfSummaryView) -> Seq<char> {
    let warn: nat = if 2 * s.p50_ms < 20 {
        20
    } else {
        (2 * s.p50_ms) as nat
    };
    let jobs_min: nat = if s.total >= 4 {
        2
    } else {
        1
    };
    "\n  },\n  \"thresholds\": {\n    \"failed_max\": 0,\n    \"p95_ms_warn\": "@ + decimal(warn)
        + ",\n    \"avg_todo_rate_warn\": 0.2000,\n    \"jobs_min\": "@ + decimal(jobs_min)
        + "\n  },\n  \"signals\": {\n    \"has_failures\": "@ + bool_text(s.failed > 0)
        + ",\n    \"slow_tail\": "@ + bool_text(s.p95_ms > warn) + ",\n    \"high_todo\": "@ + bool_text(
        s.high_todo,
    ) + ",\n    \"low_parallelism\": "@ + bool_text(s.jobs < jobs_min) + "\n  },\n  \"slow_files\": [\n"@
}

/// The counts that open a performance summary.
pub open spec fn summary_counts(s: PerfSummaryView) -> Seq<char> {
    "{\n  \"summary\": {\n    \"total\": "@ + decimal(s.total as nat) + ",\n    \"success\": "@ + decimal(
        s.success as nat,
    ) + ",\n    \"failed\": "@ + decimal(s.failed as nat) + ",\n    \"jobs\": "@ + decimal(s.jobs as nat)
}

/// The performance report states the run's counts and, where twice the
/// median time fits in a `u128`, the thresholds and signals above.
pub proof fn lemma_perf_thresholds(
    s: PerfSummaryView,
    slow: Seq<PerfFileView>,
    high_todo: Seq<PerfFileView>,
    cats: Seq<FailureCategoryView>,
    recs: Seq<Seq<char>>,
)
    requires
        2 * s.p50_ms <= u128::MAX,
    ensures
        starts_with(perf_report_text(s, slow, high_todo, cats, recs), summary_counts(s)),
        has_part(perf_report_text(s, slow, high_todo, cats, recs), thresholds_and_signals(s)),
{
    let t = perf_report_text(s, slow, high_todo, cats, recs);
    let head = perf_head(s);
    let tail = perf_lists(slow, high_todo, cats, recs);
    assert(thresholds_and_signals(s) == perf_thresholds(s));
    lemma_has_part_mid(head, perf_thresholds(s), tail);
    assert(t.subrange(0, summary_counts(s).len() as int) =~= summary_counts(s));
}

// ------------------------------------------------------------------
// The metrics table
// ------------------------------------------------------------------

/// One file of a batch run as the metrics table lists it. The time per KiB
/// and the TODO rate come formatted with four decimals.
#[derive(Debug, Clone)]
pub struct MetricsRow {
    pub ok: bool,
    pub input: String,
    pub class_name: String,
    pub input_bytes: u64,
    pub elapsed_ms: u128,
    pub ms_per_kib: String,
    pub statements: usize,
    pub symbols: usize,
    pub todos: usize,
    pub todo_rate: String,
    pub error: Option<String>,
}

pub struct MetricsRowView {
    pub ok: bool,
    pub input: Seq<char>,
    pub class_name: Seq<char>,
    pub input_bytes: u64,
    pub elapsed_ms: u128,
    pub ms_per_kib: Seq<char>,
    pub statements: usize,
    pub symbols: usize,
    pub todos: usize,
    pub todo_rate: Seq<char>,
    pub error: Option<Seq<char>>,
}

impl View for MetricsRow {
    type V = MetricsRowView;

    open spec fn view(&self) -> MetricsRowView {
        MetricsRowView {
            ok: self.ok,
            input: self.input@,
            class_name: self.class_name@,
            input_bytes: self.input_bytes,
            elapsed_ms: self.elapsed_ms,
            ms_per_kib: self.ms_per_kib@,
            statements: self.statements,
            symbols: self.symbols,
            todos: self.todos,
            todo_rate: self.todo_rate@,
            error: opt_string_view(self.error),
        }
    }
}

pub open spec fn metrics_views(v: Seq<MetricsRow>) -> Seq<MetricsRowView> {
    v.map_values(|r: MetricsRow| r@)
}

/// The size bands, smallest first.
pub open spec fn band_names() -> Seq<Seq<char>> {
    seq!["<1KiB"@, "1-10KiB"@, "10-100KiB"@, "100KiB-1MiB"@, ">=1MiB"@]
}

/// The position of the band of a size among the bands.
pub open spec fn band_index(bytes: nat) -> nat {
    if bytes <= 1023 {
        0
    } else if bytes <= 10239 {
        1
    } else if bytes <= 102399 {
        2
    } else if bytes <= 1048575 {
        3
    } else {
        4
    }
}

/// The positions of the converted files of the first `k` rows that fall in band `b`.
pub open spec fn band_members(rows: Seq<MetricsRowView>, b: nat, k: nat) -> Seq<usize>
    decreases k,
{
    if k == 0 || k > rows.len() {
        seq![]
    } else {
        band_members(rows, b, (k - 1) as nat) + if rows[k - 1].ok && band_index(rows[k - 1].input_bytes as nat)
            == b {
            seq![(k - 1) as usize]
        } else {
            seq![]
        }
    }
}

/// The first `j` bands that hold converted files, each with its files in input order.
pub open spec fn band_groups_upto(rows: Seq<MetricsRowView>, j: nat) -> Seq<(Seq<char>, Seq<usize>)>
    decreases j,
{
    if j == 0 || j > 5 {
        seq![]
    } else {
        let m = band_members(rows, (j - 1) as nat, rows.len());
        if m.len() > 0 {
            band_groups_upto(rows, (j - 1) as nat).push((band_names()[j - 1], m))
        } else {
            band_groups_upto(rows, (j - 1) as nat)
        }
    }
}

pub open spec fn group_views(v: Seq<(&'static str, Vec<usize>)>) -> Seq<(Seq<char>, Seq<usize>)> {
    v.map_values(|g: (&'static str, Vec<usize>)| (g.0@, g.1@))
}

fn band_index_exec(bytes: u64) -> (r: usize)
    ensures
        r == band_index(bytes as nat),
{
    if bytes <= 1023 {
        0
    } else if bytes <= 10239 {
        1
    } else if bytes <= 102399 {
        2
    } else if bytes <= 1048575 {
        3
    } else {
        4
    }
}

fn band_name(b: usize) -> (r: &'static str)
    requires
        b < 5,
    ensures
        r@ == band_names()[b as int],
{
    if b == 0 {
        "<1KiB"
    } else if b == 1 {
        "1-10KiB"
    } else if b == 2 {
        "10-100KiB"
    } else if b == 3 {
        "100KiB-1MiB"
    } else {
        ">=1MiB"
    }
}

/// The size bands that hold converted files, smallest first, each with the
/// positions of its converted files in input order.
pub fn band_groups(rows: &Vec<MetricsRow>) -> (r: Vec<(&'static str, Vec<usize>)>)
    ensures
        group_views(r@) == band_groups_upto(metrics_views(rows@), 5),
{
    let ghost rv = metrics_views(rows@);
    let mut out: Vec<(&'static str, Vec<usize>)> = Vec::new();
    let mut b: usize = 0;
    while b < 5
        invariant
            b <= 5,
            rv == metrics_views(rows@),
            group_views(out@) == band_groups_upto(rv, b as nat),
        decreases 5 - b,
    {
        let mut members: Vec<usize> = Vec::new();
        let mut i: usize = 0;
        while i < rows.len()
            invariant
                i <= rows.len(),
                b < 5,
                rv == metrics_views(rows@),
                members@ == band_members(rv, b as nat, i as nat),
            decreases rows.len() - i,
        {
            proof {
                assert(rv[i as int] == rows@[i as int]@);
            }
            if rows[i].ok && band_index_exec(rows[i].input_bytes) == b {
                members.push(i);
            }
            proof {
                assert(members@ =~= band_members(rv, b as nat, (i + 1) as nat));
            }
            i += 1;
        }
        let ghost before = group_views(out@);
        if members.len() > 0 {
            let name = band_name(b);
            out.push((name, members));
            proof {
                assert(group_views(out@) =~= before.push((name@, members@)));
            }
        }
        b += 1;
    }
    out
}

/// A band of the metrics table: its name and size, and the averages (time
/// with three decimals, TODO rate with four) and median of its files.
#[derive(Debug, Clone)]
pub struct BandSummary {
    pub band: String,
    pub count: usize,
    pub avg_ms: String,
    pub median_ms: u128,
    pub avg_todo_rate: String,
}

pub struct BandSummaryView {
    pub band: Seq<char>,
    pub count: usize,
    pub avg_ms: Seq<char>,
    pub median_ms: u128,
    pub avg_todo_rate: Seq<char>,
}

impl View for BandSummary {
    type V = BandSummaryView;

    open spec fn view(&self) -> BandSummaryView {
        BandSummaryView {
            band: self.band@,
            count: self.count,
            avg_ms: self.avg_ms@,
            median_ms: self.median_ms,
            avg_todo_rate: self.avg_todo_rate@,
        }
    }
}

pub open spec fn band_views(v: Seq<BandSummary>) -> Seq<BandSummaryView> {
    v.map_values(|b: BandSummary| b@)
}

pub open spec fn metrics_line(r: MetricsRowView) -> Seq<char> {
    (if r.ok {
        "ok"@
    } else {
        "ng"@
    }) + ","@ + csv_field(r.input) + ","@ + csv_field(r.class_name) + ","@ + decimal(r.input_bytes as nat) + ","@
        + decimal(r.elapsed_ms as nat) + ","@ + r.ms_per_kib + ","@ + band_of(r.input_bytes as nat) + ","@ + decimal(
        r.statements as nat,
    ) + ","@ + decimal(r.symbols as nat) + ","@ + decimal(r.todos as nat) + ","@ + r.todo_rate + ","@ + csv_field(
        match r.error {
            Some(e) => e,
            None => ""@,
        },
    ) + "\n"@
}

pub open spec fn band_line(b: BandSummaryView) -> Seq<char> {
    "SUMMARY_BAND,"@ + decimal(b.count as nat) + ","@ + b.band + ",,avg_ms="@ + b.avg_ms + ";median_ms="@ + decimal(
        b.median_ms as nat,
    ) + ";avg_todo_rate="@ + b.avg_todo_rate + ",,,,,,,\n"@
}

/// The metrics table of a batch run as CSV: a header, a line per file, the
/// success and failure counts, the percentiles of the conversion times and a
/// line per size band.
pub open spec fn metrics_csv_text(
    rows: Seq<MetricsRowView>,
    success: usize,
    failed: usize,
    p50: u128,
    p95: u128,
    p99: u128,
    bands: Seq<BandSummaryView>,
) -> Seq<char> {
    "status,input_path,class_name,input_bytes,elapsed_ms,ms_per_kib,size_band,statements,symbols,todos,todo_rate,error\n"@
        + concat_items(rows.map_values(|r: MetricsRowView| metrics_line(r))) + "SUMMARY,,,,,,,"@ + decimal(
        success as nat,
    ) + ","@ + decimal(failed as nat) + ",,,\n"@ + "PERCENTILE,,,p50_ms="@ + decimal(p50 as nat) + ";p95_ms="@
        + decimal(p95 as nat) + ";p99_ms="@ + decimal(p99 as nat) + ";,,,,,,,\n"@ + concat_items(
        bands.map_values(|b: BandSummaryView| band_line(b)),
    )
}

fn metrics_line_exec(r: &MetricsRow) -> (out: Vec<char>)
    ensures
        out@ == metrics_line(r@),
{
    let mut out = if r.ok {
        chars_of("ok")
    } else {
        chars_of("ng")
    };
    extend_str(&mut out, ",");
    extend_str(&mut out, csv_escape(r.input.as_str()).as_str());
    extend_str(&mut out, ",");
    extend_str(&mut out, csv_escape(r.class_name.as_str()).as_str());
    extend_str(&mut out, ",");
    push_decimal(&mut out, r.input_bytes);
    extend_str(&mut out, ",");
    push_decimal_u128(&mut out, r.elapsed_ms);
    extend_str(&mut out, ",");
    extend_str(&mut out, r.ms_per_kib.as_str());
    extend_str(&mut out, ",");
    extend_str(&mut out, size_band(r.input_bytes));
    extend_str(&mut out, ",");
    push_decimal(&mut out, r.statements as u64);
    extend_str(&mut out, ",");
    push_decimal(&mut out, r.symbols as u64);
    extend_str(&mut out, ",");
    push_decimal(&mut out, r.todos as u64);
    extend_str(&mut out, ",");
    extend_str(&mut out, r.todo_rate.as_str());
    extend_str(&mut out, ",");
    let err = match &r.error {
        Some(e) => csv_escape(e.as_str()),
        None => csv_escape(""),
    };
    extend_str(&mut out, err.as_str());
    extend_str(&mut out, "\n");
    out
}

fn band_line_exec(b: &BandSummary) -> (out: Vec<char>)
    ensures
        out@ == band_line(b@),
{
    let mut out = chars_of("SUMMARY_BAND,");
    push_decimal(&mut out, b.count as u64);
    extend_str(&mut out, ",");
    extend_str(&mut out, b.band.as_str());
    extend_str(&mut out, ",,avg_ms=");
    extend_str(&mut out, b.avg_ms.as_str());
    extend_str(&mut out, ";median_ms=");
    push_decimal_u128(&mut out, b.median_ms);
    extend_str(&mut out, ";avg_todo_rate=");
    extend_str(&mut out, b.avg_todo_rate.as_str());
    extend_str(&mut out, ",,,,,,,\n");
    out
}

pub fn render_metrics_csv(
    rows: &Vec<MetricsRow>,
    success: usize,
    failed: usize,
    p50: u128,
    p95: u128,
    p99: u128,
    bands: &Vec<BandSummary>,
) -> (r: String)
    ensures
        r@ == metrics_csv_text(metrics_views(rows@), success, failed, p50, p95, p99, band_views(bands@)),
{
    let ghost want_rows = metrics_views(rows@).map_values(|r: MetricsRowView| metrics_line(r));
    let mut lines: Vec<Vec<char>> = Vec::new();
    let mut i: usize = 0;
    while i < rows.len()
        invariant
            i <= rows.len(),
            want_rows == metrics_views(rows@).map_values(|r: MetricsRowView| metrics_line(r)),
            views(lines@) == want_rows.subrange(0, i as int),
        decreases rows.len() - i,
    {
        let ghost before = views(lines@);
        let l = metrics_line_exec(&rows[i]);
        lines.push(l);
        proof {
            assert(metrics_views(rows@)[i as int] == rows@[i as int]@);
            assert(views(lines@) =~= before.push(l@));
            assert(views(lines@) =~= want_rows.subrange(0, i + 1));
        }
        i += 1;
    }
    let ghost want_bands = band_views(bands@).map_values(|b: BandSummaryView| band_line(b));
    let mut blines: Vec<Vec<char>> = Vec::new();
    let mut j: usize = 0;
    while j < bands.len()
        invariant
            j <= bands.len(),
            want_bands == band_views(bands@).map_values(|b: BandSummaryView| band_line(b)),
            views(blines@) == want_bands.subrange(0, j as int),
        decreases bands.len() - j,
    {
        let ghost before = views(blines@);
        let l = band_line_exec(&bands[j]);
        blines.push(l);
        proof {
            assert(band_views(bands@)[j as int] == bands@[j as int]@);
            assert(views(blines@) =~= before.push(l@));
            assert(views(blines@) =~= want_bands.subrange(0, j + 1));
        }
        j += 1;
    }
    proof {
        assert(views(lines@) =~= want_rows);
        assert(views(blines@) =~= want_bands);
    }
    let mut out = chars_of(
        "status,input_path,class_name,input_bytes,elapsed_ms,ms_per_kib,size_band,statements,symbols,todos,todo_rate,error\n",
    );
    push_all(&mut out, &lines);
    extend_str(&mut out, "SUMMARY,,,,,,,");
    push_decimal(&mut out, success as u64);
    extend_str(&mut out, ",");
    push_decimal(&mut out, failed as u64);
    extend_str(&mut out, ",,,\n");
    extend_str(&mut out, "PERCENTILE,,,p50_ms=");
    push_decimal_u128(&mut out, p50);
    extend_str(&mut out, ";p95_ms=");
    push_decimal_u128(&mut out, p95);
    extend_str(&mut out, ";p99_ms=");
    push_decimal_u128(&mut out, p99);
    extend_str(&mut out, ";,,,,,,,\n");
    push_all(&mut out, &blines);
    proof {
        assert(out@ =~= metrics_csv_text(metrics_views(rows@), success, failed, p50, p95, p99, band_views(bands@)));
    }
    string_of(&out)
}

} // verus!
