use llmos::benchmark::{
    bool_from_lowered, filter_runs, parse_benchmark_csv, parse_bool, parse_u32, parse_u64,
    split_csv_row, split_lines, CsvError, RowError, RunFilter,
};

const SAMPLE_CSV: &str = r#""run_id","date_utc","host_id","ram_class_gb","cpu_model","backend","model_name","model_arch","total_params_b","active_params_b","quantization","context_tokens","output_tokens","concurrency","compression_profile","compression_codec","compression_target_pct","zswap_enabled","tokens_per_sec","ttft_ms","p95_token_latency_ms","peak_rss_gb","swap_used_gb","psi_mem_some_avg10","psi_mem_full_avg10","cpu_avg_pct","cpu_peak_pct","oom_events","run_success","notes"
"R0001","2026-04-26T10:00:00Z","HOST1","8","test-cpu","local","dense-3b","dense","3","3","Q4_K_M","1024","128","1","none","none","0","false","10","184","39","3.75","0","0","0","65","92","0","true","test run"
"R0002","2026-04-26T10:01:00Z","HOST1","8","test-cpu","local","dense-3b","dense","3","3","Q4_K_M","1024","128","1","zram_lz4_25","lz4","25","false","12","170","35","3.5","0","0","0","60","88","0","true","compressed"
"R0003","2026-04-26T10:02:00Z","HOST1","8","test-cpu","local","dense-7b","dense","7","7","Q4_K_M","1024","128","1","none","none","0","false","6","300","55","5.5","0","0","0","70","95","0","true","larger model"
"R0004","2026-04-26T10:03:00Z","HOST1","8","test-cpu","local","dense-3b","dense","3","3","Q4_K_M","4096","256","1","none","none","0","false","8.5","376","43","4.5","0","0","0","65","92","1","false","oom failure"
"#;

#[test]
fn parse_csv_returns_all_records() {
    let records = parse_benchmark_csv(SAMPLE_CSV).unwrap();
    assert_eq!(records.len(), 4);
    assert_eq!(records[0].run_id, "R0001");
    assert_eq!(records[0].model_name, "dense-3b");
    assert_eq!(records[0].tokens_per_sec.parse::<f64>().unwrap(), 10.0);
    assert!(records[0].run_success);
}

#[test]
fn parse_csv_handles_boolean_fields() {
    let records = parse_benchmark_csv(SAMPLE_CSV).unwrap();
    assert!(!records[0].zswap_enabled);
    assert!(records[0].run_success);
    assert!(!records[3].run_success);
}

#[test]
fn parse_csv_reads_typed_columns() {
    let records = parse_benchmark_csv(SAMPLE_CSV).unwrap();
    assert_eq!(records[3].context_tokens, 4096);
    assert_eq!(records[3].output_tokens, 256);
    assert_eq!(records[3].oom_events, 1);
    assert_eq!(records[1].compression_target_pct, 25);
    assert_eq!(records[1].compression_codec, "lz4");
    assert_eq!(records[3].notes, "oom failure");
    assert_eq!(records[3].tokens_per_sec, "8.5");
}

#[test]
fn filter_by_model_name() {
    let records = parse_benchmark_csv(SAMPLE_CSV).unwrap();
    let filter = RunFilter {
        model_name: Some("dense-3b".to_string()),
        ..Default::default()
    };
    let filtered = filter_runs(&records, &filter);
    assert_eq!(filtered.len(), 3);
}

#[test]
fn filter_success_only() {
    let records = parse_benchmark_csv(SAMPLE_CSV).unwrap();
    let filter = RunFilter {
        success_only: true,
        ..Default::default()
    };
    let filtered = filter_runs(&records, &filter);
    assert_eq!(filtered.len(), 3);
    assert!(filtered.iter().all(|r| r.run_success));
}

#[test]
fn filter_by_compression_profile() {
    let records = parse_benchmark_csv(SAMPLE_CSV).unwrap();
    let filter = RunFilter {
        compression_profile: Some("none".to_string()),
        success_only: true,
        ..Default::default()
    };
    let filtered = filter_runs(&records, &filter);
    assert_eq!(filtered.len(), 2);
}

#[test]
fn filter_by_context_keeps_order() {
    let records = parse_benchmark_csv(SAMPLE_CSV).unwrap();
    let filter = RunFilter {
        context_tokens: Some(1024),
        ..Default::default()
    };
    let ids: Vec<&str> = filter_runs(&records, &filter)
        .iter()
        .map(|r| r.run_id.as_str())
        .collect();
    assert_eq!(ids, vec!["R0001", "R0002", "R0003"]);
    assert_eq!(filter_runs(&records, &RunFilter::default()).len(), 4);
}

#[test]
fn parse_csv_rejects_missing_header() {
    let result = parse_benchmark_csv("");
    assert!(result.is_err());
    assert!(matches!(result, Err(CsvError::Empty)));
}

#[test]
fn parse_csv_rejects_short_rows() {
    let bad = "run_id,date_utc\nR0001,2026-01-01\n";
    let result = parse_benchmark_csv(bad);
    assert!(result.is_err());
    match result {
        Err(e) => {
            assert!(matches!(e, CsvError::HeaderColumns { found: 2 }));
            assert_eq!(e.message(), "expected at least 30 columns in header, found 2");
        }
        Ok(_) => panic!("expected an error"),
    }
}

#[test]
fn parse_csv_rejects_wrong_first_column() {
    let header = SAMPLE_CSV.lines().next().unwrap().replacen("run_id", "id", 1);
    match parse_benchmark_csv(&header) {
        Err(e) => assert_eq!(e.message(), "first column must be 'run_id', found 'id'"),
        Ok(_) => panic!("expected an error"),
    }
}

#[test]
fn parse_csv_reports_row_number_and_cause() {
    let mut text = SAMPLE_CSV.lines().next().unwrap().to_string();
    text.push_str("\n\n");
    text.push_str(&SAMPLE_CSV.lines().nth(1).unwrap().replace("\"1024\"", "\"lots\""));
    match parse_benchmark_csv(&text) {
        Err(e) => {
            assert_eq!(e.message(), "failed to parse CSV row 3");
            match e {
                CsvError::Row { line, error } => {
                    assert_eq!(line, 3);
                    assert_eq!(error.message(), "invalid u64 for field 'context_tokens': 'lots'");
                }
                _ => panic!("expected a row error"),
            }
        }
        Ok(_) => panic!("expected an error"),
    }
}

#[test]
fn parse_csv_reports_short_data_row() {
    let mut text = SAMPLE_CSV.lines().next().unwrap().to_string();
    text.push_str("\r\nR0001,2026-01-01\r\n");
    match parse_benchmark_csv(&text) {
        Err(CsvError::Row { line, error }) => {
            assert_eq!(line, 2);
            assert!(matches!(error, RowError::TooFewFields { found: 2 }));
            assert_eq!(error.message(), "expected at least 30 fields, found 2");
        }
        _ => panic!("expected a row error"),
    }
}

#[test]
fn parse_csv_skips_blank_lines() {
    let mut text = String::new();
    for (i, line) in SAMPLE_CSV.lines().enumerate() {
        text.push_str(line);
        text.push('\n');
        if i == 1 {
            text.push_str("   \n");
        }
    }
    assert_eq!(parse_benchmark_csv(&text).unwrap().len(), 4);
}

#[test]
fn split_csv_row_handles_quotes_and_spaces() {
    assert_eq!(split_csv_row(" a , \"b,c\" ,d"), vec!["a", "b,c", "d"]);
    assert_eq!(split_csv_row(""), vec![""]);
    assert_eq!(split_csv_row("x,"), vec!["x", ""]);
}

#[test]
fn split_lines_matches_str_lines() {
    for text in ["", "a", "a\n", "a\r\nb", "a\n\nb\n", "x\r", "\n"] {
        let expected: Vec<String> = text.lines().map(|l| l.to_string()).collect();
        assert_eq!(split_lines(text), expected, "text {:?}", text);
    }
}

#[test]
fn unsigned_parsing_follows_from_str() {
    assert_eq!(parse_u64("18446744073709551615", "f").unwrap(), u64::MAX);
    assert!(parse_u64("18446744073709551616", "f").is_err());
    assert_eq!(parse_u64("+7", "f").unwrap(), 7);
    assert!(parse_u64("+", "f").is_err());
    assert!(parse_u64("-1", "f").is_err());
    assert!(parse_u64("", "f").is_err());
    assert_eq!(parse_u32("4294967295", "f").unwrap(), u32::MAX);
    assert!(parse_u32("4294967296", "f").is_err());
    let e = parse_u32("x", "concurrency").unwrap_err();
    assert_eq!(e.message(), "invalid u32 for field 'concurrency': 'x'");
}

#[test]
fn boolean_words() {
    for w in ["true", "TRUE", "1", "Yes"] {
        assert!(parse_bool(w, "f").unwrap(), "{w}");
    }
    for w in ["false", "False", "0", "NO"] {
        assert!(!parse_bool(w, "f").unwrap(), "{w}");
    }
    let e = parse_bool("maybe", "run_success").unwrap_err();
    assert_eq!(e.message(), "invalid boolean for field 'run_success': 'maybe'");
    assert_eq!(bool_from_lowered("yes"), Some(true));
    assert_eq!(bool_from_lowered("YES"), None);
}

use llmos::benchmark::{check_float, float_text_ok};

#[test]
fn float_syntax_matches_std() {
    for s in [
        "1", "1.5", ".5", "5.", "-2", "+3.25", "1e5", "1E-5", "2.5e+10", "inf", "-Infinity",
        "NaN", "0", "00.00", "1.e3", "+.5e-0",
    ] {
        assert!(float_text_ok(s), "{s}");
        assert!(s.parse::<f64>().is_ok(), "{s}");
    }
    for s in [
        "", ".", "e5", "1e", "1e+", "+-1", "1.2.3", " 1", "1 ", "inff", "in", "0x10", "1_000",
        "--1", "1e5.0", "nan1",
    ] {
        assert!(!float_text_ok(s), "{s}");
        assert!(s.parse::<f64>().is_err(), "{s}");
    }
}

#[test]
fn float_column_errors_come_first_in_column_order() {
    let row = SAMPLE_CSV.lines().nth(1).unwrap().replacen("\"8\"", "\"eight\"", 1);
    let mut text = SAMPLE_CSV.lines().next().unwrap().to_string();
    text.push('\n');
    text.push_str(&row.replace("\"1024\"", "\"lots\""));
    match parse_benchmark_csv(&text) {
        Err(CsvError::Row { line, error }) => {
            assert_eq!(line, 2);
            assert_eq!(error.message(), "invalid float for field 'ram_class_gb': 'eight'");
        }
        _ => panic!("expected a row error"),
    }
    let e = check_float("x", "ttft_ms").unwrap_err();
    assert_eq!(e.message(), "invalid float for field 'ttft_ms': 'x'");
}
