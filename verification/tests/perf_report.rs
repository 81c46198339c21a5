use rpg2java_transpiler::cli::FailedRun;
use rpg2java_transpiler::perf::{
    band_groups, render_metrics_csv, render_perf_report, slowest_files, BandSummary, MetricsRow, PerfFile, PerfSummary,
};

fn file(name: &str, elapsed_ms: u128, todo_rate: &str, statements: usize, todos: usize) -> PerfFile {
    PerfFile {
        class_name: name.to_string(),
        input: format!("{}.rpg", name.to_lowercase()),
        elapsed_ms,
        todo_rate: todo_rate.to_string(),
        statements,
        todos,
    }
}

fn summary(total: usize, failed: usize, jobs: usize, p50: u128, p95: u128, high_todo: bool) -> PerfSummary {
    PerfSummary {
        total,
        success: total - failed,
        failed,
        jobs,
        p50_ms: p50,
        p95_ms: p95,
        p99_ms: p95,
        avg_ms: String::from("30.000"),
        avg_todo_rate: String::from("0.2500"),
        avg_ms_per_kib: String::from("12.5000"),
        high_todo,
    }
}

#[test]
fn slowest_files_longest_first_ties_in_input_order() {
    let files: Vec<PerfFile> =
        [5u128, 9, 9, 1, 7, 9, 3].iter().enumerate().map(|(i, e)| file(&format!("F{i}"), *e, "0.0000", 1, 0)).collect();
    assert_eq!(slowest_files(&files), vec![1, 2, 5, 4, 0]);
    assert_eq!(slowest_files(&files[..3].to_vec()), vec![1, 2, 0]);
    assert_eq!(slowest_files(&vec![]), Vec::<usize>::new());
}

#[test]
fn perf_report_with_failures_slow_tail_and_high_todo() {
    let files = vec![file("A", 10, "0.5000", 4, 2), file("B", 50, "0.0000", 3, 0)];
    let high = vec![file("A", 10, "0.5000", 4, 2), file("B", 50, "0.0000", 3, 0)];
    let failures =
        vec![FailedRun { input: String::from("c.rpg"), error: Some(String::from("read failed c.rpg: boom")) }];
    let doc = render_perf_report(&summary(3, 1, 1, 10, 50, true), &files, &high, &failures);
    let expected = [
        "{\n",
        "  \"summary\": {\n",
        "    \"total\": 3,\n",
        "    \"success\": 2,\n",
        "    \"failed\": 1,\n",
        "    \"jobs\": 1,\n",
        "    \"p50_ms\": 10,\n",
        "    \"p95_ms\": 50,\n",
        "    \"p99_ms\": 50,\n",
        "    \"avg_ms\": 30.000,\n",
        "    \"avg_todo_rate\": 0.2500,\n",
        "    \"avg_ms_per_kib\": 12.5000\n",
        "  },\n",
        "  \"thresholds\": {\n",
        "    \"failed_max\": 0,\n",
        "    \"p95_ms_warn\": 20,\n",
        "    \"avg_todo_rate_warn\": 0.2000,\n",
        "    \"jobs_min\": 1\n",
        "  },\n",
        "  \"signals\": {\n",
        "    \"has_failures\": true,\n",
        "    \"slow_tail\": true,\n",
        "    \"high_todo\": true,\n",
        "    \"low_parallelism\": false\n",
        "  },\n",
        "  \"slow_files\": [\n",
        "    {\"class_name\":\"B\",\"input\":\"b.rpg\",\"elapsed_ms\":50,\"todo_rate\":0.0000},\n",
        "    {\"class_name\":\"A\",\"input\":\"a.rpg\",\"elapsed_ms\":10,\"todo_rate\":0.5000}\n",
        "  ],\n",
        "  \"high_todo_files\": [\n",
        "    {\"class_name\":\"A\",\"input\":\"a.rpg\",\"todo_rate\":0.5000,\"statements\":4,\"todos\":2},\n",
        "    {\"class_name\":\"B\",\"input\":\"b.rpg\",\"todo_rate\":0.0000,\"statements\":3,\"todos\":0}\n",
        "  ],\n",
        "  \"failure_categories\": [\n",
        "    {\"key\":\"input_read\",\"label\":\"input read\",\"count\":1,\"samples\":[\"c.rpg: read failed c.rpg: boom\"]}\n",
        "  ],\n",
        "  \"recommendations\": [\n",
        "    \"失敗カテゴリ: input_read。category別の対応を優先してください。\",\n",
        "    \"変換失敗が 1 件あります。失敗ファイルの文字コード・構文差分を先に解消してください。\",\n",
        "    \"p95 が偏っています（p50=10ms, p95=50ms, threshold=20ms）。重いファイルを先に分離して段階実行してください。\",\n",
        "    \"TODO率が高めです（avg_todo_rate=0.2500, threshold=0.2000）。未対応命令（CHAIN/SETLL/READE/EXSR 等）の優先実装で手戻りを減らしてください。\"\n",
        "  ]\n",
        "}\n",
    ]
    .concat();
    assert_eq!(doc, expected);
}

#[test]
fn perf_report_without_signals_says_all_is_well() {
    let files = vec![file("A", 10, "0.0000", 4, 0)];
    let doc = render_perf_report(&summary(1, 0, 1, 10, 12, false), &files, &files, &vec![]);
    assert!(doc.contains("    \"has_failures\": false,\n    \"slow_tail\": false,\n    \"high_todo\": false,\n    \"low_parallelism\": false\n"));
    assert!(doc.contains("  \"failure_categories\": [\n  ],\n"));
    assert!(doc.ends_with("  \"recommendations\": [\n    \"現時点で重大なボトルネックは見当たりません。\"\n  ]\n}\n"));
}

#[test]
fn perf_report_flags_low_parallelism() {
    let files = vec![file("A", 1, "0.0000", 1, 0)];
    let doc = render_perf_report(&summary(4, 0, 1, 0, 0, false), &files, &files, &vec![]);
    assert!(doc.contains("    \"jobs_min\": 2\n"));
    assert!(doc.contains("    \"low_parallelism\": true\n"));
    assert!(doc.contains(
        "    \"並列度が低いです。CPUコア数に応じて --jobs を上げて処理時間を短縮してください。\",\n    \"根拠: jobs=1 < threshold_jobs_min=2\"\n"
    ));
}

fn metrics_row(ok: bool, input: &str, class_name: &str, input_bytes: u64, elapsed_ms: u128, error: Option<&str>) -> MetricsRow {
    MetricsRow {
        ok,
        input: input.to_string(),
        class_name: class_name.to_string(),
        input_bytes,
        elapsed_ms,
        ms_per_kib: String::from("1.5000"),
        statements: 2,
        symbols: 1,
        todos: 0,
        todo_rate: String::from("0.0000"),
        error: error.map(|e| e.to_string()),
    }
}

#[test]
fn size_bands_group_converted_files_in_band_order() {
    let rows = vec![
        metrics_row(true, "a.rpg", "A", 20000, 5, None),
        metrics_row(false, "b.rpg", "B", 10, 1, Some("boom")),
        metrics_row(true, "c.rpg", "C", 100, 7, None),
        metrics_row(true, "d.rpg", "D", 30000, 9, None),
        metrics_row(true, "e.rpg", "E", 5_000_000, 3, None),
    ];
    let groups: Vec<(String, Vec<usize>)> = band_groups(&rows).into_iter().map(|(b, m)| (b.to_string(), m)).collect();
    assert_eq!(
        groups,
        vec![
            (String::from("<1KiB"), vec![2]),
            (String::from("10-100KiB"), vec![0, 3]),
            (String::from(">=1MiB"), vec![4]),
        ]
    );
    assert!(band_groups(&vec![metrics_row(false, "x", "X", 1, 1, None)]).is_empty());
}

#[test]
fn metrics_table_as_csv() {
    let rows = vec![
        metrics_row(true, "a.rpg", "A", 100, 5, None),
        metrics_row(false, "b,c.rpg", "B", 0, 1, Some("read \"x\"")),
    ];
    let bands = vec![BandSummary {
        band: String::from("<1KiB"),
        count: 1,
        avg_ms: String::from("5.000"),
        median_ms: 5,
        avg_todo_rate: String::from("0.0000"),
    }];
    let csv = render_metrics_csv(&rows, 1, 1, 5, 5, 5, &bands);
    let expected = [
        "status,input_path,class_name,input_bytes,elapsed_ms,ms_per_kib,size_band,statements,symbols,todos,todo_rate,error\n",
        "ok,a.rpg,A,100,5,1.5000,<1KiB,2,1,0,0.0000,\n",
        "ng,\"b,c.rpg\",B,0,1,1.5000,<1KiB,2,1,0,0.0000,\"read \"\"x\"\"\"\n",
        "SUMMARY,,,,,,,1,1,,,\n",
        "PERCENTILE,,,p50_ms=5;p95_ms=5;p99_ms=5;,,,,,,,\n",
        "SUMMARY_BAND,1,<1KiB,,avg_ms=5.000;median_ms=5;avg_todo_rate=0.0000,,,,,,,\n",
    ]
    .concat();
    assert_eq!(csv, expected);
}
