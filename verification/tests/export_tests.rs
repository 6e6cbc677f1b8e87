use observer::export::{
    artifact_stem, civil_from_secs, csv_escape, csv_text, json_string, json_text, metric_names,
    sanitize, summary_json, summary_text, timestamp_text, MetricStats, SampleText,
};

fn sample(scn: &str, k: &str, v: &str, ts_secs: u128) -> SampleText {
    SampleText {
        ts_ms: ts_secs * 1000,
        scenario: scn.to_string(),
        metrics: vec![(k.to_string(), v.to_string())],
    }
}

#[test]
fn civil_converts_epoch() {
    let (y, mo, d, h, mi, s) = civil_from_secs(0);
    assert_eq!((y, mo, d, h, mi, s), (1970, 1, 1, 0, 0, 0));
}

#[test]
fn civil_converts_known_ts() {
    // 2024-01-02T03:04:05Z = 1704164645
    let (y, mo, d, h, mi, s) = civil_from_secs(1704164645);
    assert_eq!((y, mo, d, h, mi, s), (2024, 1, 2, 3, 4, 5));
}

#[test]
fn csv_roundtrip_smoke() {
    let samples = vec![sample("a", "mspt", "12.5", 100), sample("a", "mspt", "13.25", 101)];
    let text = csv_text(&samples);
    assert!(text.contains("timestamp_ms,scenario,mspt"));
    assert!(text.contains("100000,a,12.5"));
}

#[test]
fn summary_text_contains_metric() {
    let names = vec!["mspt".to_string()];
    let stats = vec![MetricStats {
        n: 2,
        mean: "15".to_string(),
        min: "10".to_string(),
        max: "20".to_string(),
        p95: "20".to_string(),
    }];
    let text = summary_text(&names, &stats);
    assert!(text.contains("mspt"));
    assert!(text.contains("mean=15"));
    assert_eq!(text, "mspt: n=2 mean=15 min=10 max=20 p95=20");
}

#[test]
fn summary_text_without_samples() {
    assert_eq!(summary_text(&vec![], &vec![]), "(no samples)");
}

#[test]
fn csv_columns_sorted_once_each() {
    let samples = vec![
        sample("a", "tps", "20", 1),
        SampleText {
            ts_ms: 2000,
            scenario: "a,b".to_string(),
            metrics: vec![("mspt".to_string(), "3".to_string()), ("tps".to_string(), "19".to_string())],
        },
    ];
    assert_eq!(metric_names(&samples), vec!["mspt".to_string(), "tps".to_string()]);
    assert_eq!(
        csv_text(&samples),
        "timestamp_ms,scenario,mspt,tps\n1000,a,,20\n2000,\"a,b\",3,19\n"
    );
}

#[test]
fn json_file_text() {
    let samples = vec![
        sample("a", "mspt", "12.5", 1),
        SampleText {
            ts_ms: 2000,
            scenario: "a".to_string(),
            metrics: vec![("tps".to_string(), "19".to_string()), ("mspt".to_string(), "3".to_string())],
        },
    ];
    let text = json_text("run \"x\"", 5, "{}", &samples);
    let want = "{\n  \"label\": \"run \\\"x\\\"\",\n  \"generated_at_ms\": 5,\n  \"sample_count\": 2,\n  \"summary\": {},\n  \"samples\": [\n    {\"ts_ms\": 1000, \"scenario\": \"a\", \"metrics\": {\"mspt\": 12.5}},\n    {\"ts_ms\": 2000, \"scenario\": \"a\", \"metrics\": {\"mspt\": 3, \"tps\": 19}}\n  ]\n}\n";
    assert_eq!(text, want);
}

#[test]
fn summary_json_object() {
    let names = vec!["a".to_string(), "b".to_string()];
    let st = |n: usize, v: &str| MetricStats {
        n,
        mean: v.to_string(),
        min: v.to_string(),
        max: v.to_string(),
        p95: v.to_string(),
    };
    let stats = vec![st(1, "1"), st(2, "2")];
    assert_eq!(
        summary_json(&names, &stats),
        "{\"a\": {\"n\": 1, \"mean\": 1, \"min\": 1, \"max\": 1, \"p95\": 1}, \"b\": {\"n\": 2, \"mean\": 2, \"min\": 2, \"max\": 2, \"p95\": 2}}"
    );
}

#[test]
fn escaping() {
    assert_eq!(csv_escape("plain"), "plain");
    assert_eq!(csv_escape("a\"b"), "\"a\"\"b\"");
    assert_eq!(json_string("a\nb\t\u{1}"), "\"a\\nb\\t\\u0001\"");
    assert_eq!(sanitize("run 1/x.y"), "run_1_x.y");
}

#[test]
fn timestamps_and_stems() {
    assert_eq!(timestamp_text(1704164645), "20240102-030405");
    assert_eq!(artifact_stem("my run", "20240102-030405"), "my_run_20240102-030405");
}

#[test]
fn leap_days_follow_the_gregorian_rules() {
    assert_eq!(civil_from_secs(951782400), (2000, 2, 29, 0, 0, 0));
    assert_eq!(civil_from_secs(4107542399), (2100, 2, 28, 23, 59, 59));
    assert_eq!(civil_from_secs(4107542400), (2100, 3, 1, 0, 0, 0));
}
