//! Tests of the two accumulator strategies, the record codec, the
//! coordinator decisions, and the renderers.

use ruloc::accum::{FileBackedAccumulator, InMemoryAccumulator, StatsAccumulator};
use ruloc::codec::{decode_file_stats, encode_file_stats};
use ruloc::coordinator::{batch_verdict, check_candidates, run_batch, BatchError, BatchState, FileEvent};
use ruloc::detect::{is_test_node, Attr, Node, NodeKind};
use ruloc::render::{format_debug_line, format_line_stats, render_json_report, render_text_report};
use ruloc::stats::{FileStats, LineStats, LineType, Report, Summary};

fn make_line_stats(
    all_lines: usize,
    blank_lines: usize,
    comment_lines: usize,
    rustdoc_lines: usize,
    code_lines: usize,
) -> LineStats {
    LineStats { all_lines, blank_lines, comment_lines, rustdoc_lines, code_lines }
}

fn make_simple_file_stats(
    path: &str,
    all_lines: usize,
    blank_lines: usize,
    comment_lines: usize,
    rustdoc_lines: usize,
    code_lines: usize,
) -> FileStats {
    let stats = make_line_stats(all_lines, blank_lines, comment_lines, rustdoc_lines, code_lines);
    FileStats {
        path: path.to_string(),
        total: stats.clone(),
        production: stats,
        test: LineStats::default(),
    }
}

fn make_file_stats_with_tests(path: &str, prod_stats: LineStats, test_stats: LineStats) -> FileStats {
    let mut total = prod_stats.clone();
    total.add(&test_stats);
    FileStats { path: path.to_string(), total, production: prod_stats, test: test_stats }
}

fn make_standard_test_file_stats() -> FileStats {
    make_file_stats_with_tests(
        "test.rs",
        make_line_stats(7, 1, 2, 0, 4),
        make_line_stats(3, 1, 1, 0, 1),
    )
}

fn make_minimal_test_file_stats() -> FileStats {
    make_simple_file_stats("test.rs", 5, 1, 1, 0, 3)
}

fn make_detailed_test_file_stats() -> FileStats {
    make_file_stats_with_tests(
        "test.rs",
        make_line_stats(10, 2, 3, 0, 5),
        make_line_stats(5, 1, 1, 0, 3),
    )
}

// ------------------------------------------------------------------
// In-memory accumulator
// ------------------------------------------------------------------

#[test]
fn test_in_memory_accumulator() {
    let mut acc = InMemoryAccumulator::new();
    let stats1 = make_file_stats_with_tests(
        "test1.rs",
        make_line_stats(7, 1, 2, 0, 4),
        make_line_stats(3, 1, 1, 0, 1),
    );
    let stats2 = make_simple_file_stats("test2.rs", 5, 1, 1, 0, 3);
    acc.add_file(&stats1).unwrap();
    acc.add_file(&stats2).unwrap();
    let summary = acc.get_summary();
    assert_eq!(summary.files, 2);
    assert_eq!(summary.total.all_lines, 15);
    assert_eq!(summary.production.code_lines, 7);
    assert_eq!(summary.test.code_lines, 1);
    let files = acc.iter_files().unwrap();
    assert_eq!(files.len(), 2);
    assert_eq!(files[0].path, "test1.rs");
    assert_eq!(files[1].path, "test2.rs");
}

#[test]
fn test_in_memory_accumulator_empty() {
    let acc = InMemoryAccumulator::new();
    let summary = acc.get_summary();
    assert_eq!(summary.files, 0);
    assert_eq!(summary.total.all_lines, 0);
    let files = acc.iter_files().unwrap();
    assert_eq!(files.len(), 0);
}

#[test]
fn test_in_memory_accumulator_new() {
    let acc = InMemoryAccumulator::new();
    let summary = acc.get_summary();
    assert_eq!(summary.files, 0);
    assert_eq!(summary.total.all_lines, 0);
}

#[test]
fn test_in_memory_accumulator_default() {
    let acc = InMemoryAccumulator::default();
    let summary = acc.get_summary();
    assert_eq!(summary.files, 0);
    assert_eq!(summary.total.all_lines, 0);
}

#[test]
fn test_in_memory_accumulator_iterator_ownership() {
    let mut acc = InMemoryAccumulator::new();
    let stats = make_minimal_test_file_stats();
    acc.add_file(&stats).unwrap();
    let files1 = acc.iter_files().unwrap();
    let files2 = acc.iter_files().unwrap();
    assert_eq!(files1.len(), 1);
    assert_eq!(files2.len(), 1);
}

#[test]
fn test_in_memory_accumulator_many_files() {
    let mut acc = InMemoryAccumulator::new();
    for i in 0..100 {
        let stats = make_simple_file_stats(&format!("file{}.rs", i), 10, 2, 2, 1, 5);
        acc.add_file(&stats).unwrap();
    }
    let summary = acc.get_summary();
    assert_eq!(summary.files, 100);
    assert_eq!(summary.total.all_lines, 1000);
    assert_eq!(summary.total.rustdoc_lines, 100);
    let files = acc.iter_files().unwrap();
    assert_eq!(files.len(), 100);
}

// ------------------------------------------------------------------
// File-backed accumulator
// ------------------------------------------------------------------

#[test]
fn test_file_backed_accumulator() {
    let mut acc = FileBackedAccumulator::new().unwrap();
    let stats1 = make_file_stats_with_tests(
        "test1.rs",
        make_line_stats(7, 1, 2, 0, 4),
        make_line_stats(3, 1, 1, 0, 1),
    );
    let stats2 = make_simple_file_stats("test2.rs", 5, 1, 1, 0, 3);
    acc.add_file(&stats1).unwrap();
    acc.add_file(&stats2).unwrap();
    acc.flush().unwrap();
    let summary = acc.get_summary();
    assert_eq!(summary.files, 2);
    assert_eq!(summary.total.all_lines, 15);
    assert_eq!(summary.production.code_lines, 7);
    assert_eq!(summary.test.code_lines, 1);
    let files = acc.iter_files().unwrap();
    assert_eq!(files.len(), 2);
    assert_eq!(files[0].path, "test1.rs");
    assert_eq!(files[1].path, "test2.rs");
}

#[test]
fn test_file_backed_accumulator_many_files() {
    let mut acc = FileBackedAccumulator::new().unwrap();
    for i in 0..1000 {
        let stats = make_simple_file_stats(&format!("test{}.rs", i), 10, 2, 3, 0, 5);
        acc.add_file(&stats).unwrap();
    }
    acc.flush().unwrap();
    let summary = acc.get_summary();
    assert_eq!(summary.files, 1000);
    assert_eq!(summary.total.all_lines, 10000);
    let files = acc.iter_files().unwrap();
    assert_eq!(files.len(), 1000);
}

#[test]
fn test_file_backed_accumulator_empty() {
    let acc = FileBackedAccumulator::new().unwrap();
    let summary = acc.get_summary();
    assert_eq!(summary.files, 0);
    assert_eq!(summary.total.all_lines, 0);
    let files = acc.iter_files().unwrap();
    assert_eq!(files.len(), 0);
}

#[test]
fn test_file_backed_accumulator_flush() {
    let mut acc = FileBackedAccumulator::new().unwrap();
    let stats = make_minimal_test_file_stats();
    acc.add_file(&stats).unwrap();
    assert!(acc.flush().is_ok());
    assert!(acc.flush().is_ok());
    let files = acc.iter_files().unwrap();
    assert_eq!(files.len(), 1);
}

#[test]
fn test_file_backed_accumulator_no_explicit_flush() {
    let mut acc = FileBackedAccumulator::new().unwrap();
    let stats = make_minimal_test_file_stats();
    acc.add_file(&stats).unwrap();
    let summary = acc.get_summary();
    assert_eq!(summary.files, 1);
}

#[test]
fn test_file_backed_accumulator_add_multiple() {
    let mut acc = FileBackedAccumulator::new().unwrap();
    for i in 0..10 {
        let mut stats = make_minimal_test_file_stats();
        stats.path = format!("test{}.rs", i);
        assert!(acc.add_file(&stats).is_ok());
    }
    assert!(acc.flush().is_ok());
    let summary = acc.get_summary();
    assert_eq!(summary.files, 10);
}

#[test]
fn test_file_backed_accumulator_iteration() {
    let mut acc = FileBackedAccumulator::new().unwrap();
    let stats = make_minimal_test_file_stats();
    acc.add_file(&stats).unwrap();
    acc.flush().unwrap();
    let files1 = acc.iter_files().unwrap();
    let files2 = acc.iter_files().unwrap();
    assert_eq!(files1.len(), 1);
    assert_eq!(files2.len(), 1);
    assert_eq!(files1[0].path, files2[0].path);
}

#[test]
fn test_file_backed_accumulator_empty_iterator() {
    let acc = FileBackedAccumulator::new().unwrap();
    let files = acc.iter_files().unwrap();
    assert_eq!(files.len(), 0);
}

#[test]
fn test_file_backed_accumulator_flush_error() {
    let mut acc = FileBackedAccumulator::new().unwrap();
    for _ in 0..5 {
        assert!(acc.flush().is_ok());
    }
}

#[test]
fn test_file_backed_accumulator_write_error_simulation() {
    let mut acc = FileBackedAccumulator::new().unwrap();
    for i in 0..10000 {
        let mut stats = make_minimal_test_file_stats();
        stats.path = format!("file{}.rs", i);
        let result = acc.add_file(&stats);
        assert!(result.is_ok());
    }
    acc.flush().unwrap();
    let files = acc.iter_files().unwrap();
    assert_eq!(files.len(), 10000);
}

#[test]
fn test_file_backed_accumulator_iteration_after_flush() {
    let mut accumulator = FileBackedAccumulator::new().unwrap();
    for i in 1..=3usize {
        let stats = FileStats {
            path: format!("file{}.rs", i),
            total: LineStats {
                all_lines: i * 10,
                blank_lines: i,
                comment_lines: i * 2,
                code_lines: i * 7,
                rustdoc_lines: 0,
            },
            production: LineStats {
                all_lines: i * 10,
                blank_lines: i,
                comment_lines: i * 2,
                code_lines: i * 7,
                rustdoc_lines: 0,
            },
            test: LineStats::default(),
        };
        accumulator.add_file(&stats).unwrap();
    }
    accumulator.flush().unwrap();
    let files = accumulator.iter_files().unwrap();
    assert_eq!(files.len(), 3);
    assert_eq!(files[0].path, "file1.rs");
    assert_eq!(files[1].path, "file2.rs");
    assert_eq!(files[2].path, "file3.rs");
}

#[test]
fn test_file_backed_accumulator_get_summary() {
    let mut accumulator = FileBackedAccumulator::new().unwrap();
    let stats1 = FileStats {
        path: "file1.rs".to_string(),
        total: LineStats {
            all_lines: 100,
            blank_lines: 10,
            comment_lines: 20,
            code_lines: 70,
            rustdoc_lines: 5,
        },
        production: LineStats {
            all_lines: 60,
            blank_lines: 5,
            comment_lines: 10,
            code_lines: 45,
            rustdoc_lines: 5,
        },
        test: LineStats {
            all_lines: 40,
            blank_lines: 5,
            comment_lines: 10,
            code_lines: 25,
            rustdoc_lines: 0,
        },
    };
    let stats2 = FileStats {
        path: "file2.rs".to_string(),
        total: LineStats {
            all_lines: 50,
            blank_lines: 5,
            comment_lines: 10,
            code_lines: 35,
            rustdoc_lines: 2,
        },
        production: LineStats {
            all_lines: 50,
            blank_lines: 5,
            comment_lines: 10,
            code_lines: 35,
            rustdoc_lines: 2,
        },
        test: LineStats::default(),
    };
    accumulator.add_file(&stats1).unwrap();
    accumulator.add_file(&stats2).unwrap();
    accumulator.flush().unwrap();
    let summary = accumulator.get_summary();
    assert_eq!(summary.files, 2);
    assert_eq!(summary.total.all_lines, 150);
    assert_eq!(summary.production.all_lines, 110);
    assert_eq!(summary.test.all_lines, 40);
}

// ------------------------------------------------------------------
// The record codec
// ------------------------------------------------------------------

#[test]
fn test_file_stats_serialization() {
    let stats = make_standard_test_file_stats();
    let line = encode_file_stats(&stats);
    let decoded = decode_file_stats(line.as_str()).unwrap();
    assert_eq!(stats, decoded);
}

#[test]
fn test_line_stats_serialization() {
    let stats = make_simple_file_stats("one.rs", 100, 20, 30, 0, 50);
    let line = encode_file_stats(&stats);
    let decoded = decode_file_stats(line.as_str()).unwrap();
    assert_eq!(decoded.total, make_line_stats(100, 20, 30, 0, 50));
}

#[test]
fn test_codec_rejects_corrupted_data() {
    assert!(decode_file_stats("corrupted json data").is_none());
    assert!(decode_file_stats("{{invalid json}}").is_none());
    assert!(decode_file_stats("not even json").is_none());
    assert!(decode_file_stats("{{corrupted}}").is_none());
    assert!(decode_file_stats("").is_none());
}

#[test]
fn test_codec_escapes_path() {
    let stats = make_simple_file_stats("we\\ird\"na\nme\t.rs", 3, 1, 1, 0, 1);
    let line = encode_file_stats(&stats);
    assert!(!line.contains('\n'));
    let decoded = decode_file_stats(line.as_str()).unwrap();
    assert_eq!(decoded.path, "we\\ird\"na\nme\t.rs");
    assert_eq!(stats, decoded);
}

#[test]
fn test_codec_rejects_trailing_garbage() {
    let stats = make_minimal_test_file_stats();
    let mut line = encode_file_stats(&stats);
    line.push_str("x");
    assert!(decode_file_stats(line.as_str()).is_none());
}

/// The encoded record is the same compact encoding serde would write
/// for the same shape, so outside tooling reads it back unchanged.
#[test]
fn test_codec_line_is_machine_readable() {
    let stats = make_standard_test_file_stats();
    let line = encode_file_stats(&stats);
    let v: serde_json::Value = serde_json::from_str(line.as_str()).unwrap();
    assert_eq!(v["path"], "test.rs");
    assert_eq!(v["total"]["all-lines"], 10);
    assert_eq!(v["total"]["code-lines"], 5);
    assert_eq!(v["production"]["all-lines"], 7);
    assert_eq!(v["test"]["all-lines"], 3);
}

// ------------------------------------------------------------------
// The coordinator decisions
// ------------------------------------------------------------------

#[test]
fn test_check_candidates_empty_is_distinct_failure() {
    assert_eq!(check_candidates(0), Err(BatchError::NoCandidates));
    assert!(check_candidates(3).is_ok());
}

#[test]
fn test_batch_verdict_nothing_analyzed() {
    let state = BatchState { analyzed: 0, skipped: 7 };
    assert_eq!(batch_verdict(&state), Err(BatchError::NothingAnalyzed));
    let state = BatchState { analyzed: 1, skipped: 7 };
    assert!(batch_verdict(&state).is_ok());
}

#[test]
fn test_batch_error_messages() {
    assert_eq!(
        BatchError::NoCandidates.message("/src"),
        "No Rust files found in /src"
    );
    assert_eq!(
        BatchError::NothingAnalyzed.message("/src"),
        "No Rust files could be analyzed in /src"
    );
}

/// A batch whose every candidate exceeds the threshold fails with the
/// exhaustion error; an empty candidate list fails with the distinct
/// no-candidates error before any work.
#[test]
fn test_run_batch_all_too_large_and_empty() {
    let mut acc = InMemoryAccumulator::new();
    let events: Vec<FileEvent> = vec![];
    assert_eq!(run_batch(&events, &mut acc), Err(BatchError::NoCandidates));

    let events = vec![FileEvent::TooLarge, FileEvent::TooLarge, FileEvent::TooLarge];
    assert_eq!(run_batch(&events, &mut acc), Err(BatchError::NothingAnalyzed));
    assert_eq!(acc.get_summary().files, 0);
}

#[test]
fn test_run_batch_counts() {
    let mut acc = InMemoryAccumulator::new();
    let events = vec![
        FileEvent::Analyzed(make_minimal_test_file_stats()),
        FileEvent::TooLarge,
        FileEvent::Failed,
        FileEvent::Analyzed(make_standard_test_file_stats()),
    ];
    let state = run_batch(&events, &mut acc).unwrap();
    assert_eq!(state.analyzed, 2);
    assert_eq!(state.skipped, 1);
    let summary = acc.get_summary();
    assert_eq!(summary.files, 2);
    assert_eq!(summary.total.all_lines, 15);
}

// ------------------------------------------------------------------
// Rendering
// ------------------------------------------------------------------

#[test]
fn test_format_line_stats() {
    let stats = make_line_stats(100, 20, 30, 0, 50);
    let formatted = format_line_stats(&stats, 2);
    assert!(formatted.contains("All lines: 100"));
    assert!(formatted.contains("Blank lines: 20"));
    assert!(formatted.contains("Comment lines: 30"));
    assert!(formatted.contains("Code lines: 50"));
}

#[test]
fn test_format_line_stats_with_rustdoc() {
    let stats = make_line_stats(100, 20, 15, 12, 53);
    let formatted = format_line_stats(&stats, 2);
    assert!(formatted.contains("Rustdoc lines: 12"));
}

#[test]
fn test_format_debug_line() {
    let line = "fn main() {}";
    assert!(format_debug_line(line, LineType::Code, false).starts_with("PCO  "));
    assert!(format_debug_line(line, LineType::Comment, false).starts_with("PCM  "));
    assert!(format_debug_line(line, LineType::Rustdoc, false).starts_with("PDC  "));
    assert!(format_debug_line("", LineType::Blank, false).starts_with("PBL  "));
    assert!(format_debug_line(line, LineType::Code, true).starts_with("TCO  "));
    assert!(format_debug_line(line, LineType::Comment, true).starts_with("TCM  "));
    assert!(format_debug_line(line, LineType::Rustdoc, true).starts_with("TDC  "));
    assert!(format_debug_line("", LineType::Blank, true).starts_with("TBL  "));
    assert!(format_debug_line(line, LineType::Code, false).contains(line));
}

#[test]
fn test_format_debug_line_rustdoc() {
    let line = "/// Documentation";
    let prod = format_debug_line(line, LineType::Rustdoc, false);
    assert!(prod.starts_with("PDC  "));
    assert!(prod.contains(line));
    let test = format_debug_line(line, LineType::Rustdoc, true);
    assert!(test.starts_with("TDC  "));
    assert!(test.contains(line));
}

#[test]
fn test_output_text() {
    let mut acc = InMemoryAccumulator::new();
    let stats = make_standard_test_file_stats();
    acc.add_file(&stats).unwrap();
    let result = render_text_report(&acc);
    assert!(result.is_ok());
}

#[test]
fn test_output_json() {
    let mut acc = InMemoryAccumulator::new();
    let stats = make_standard_test_file_stats();
    acc.add_file(&stats).unwrap();
    let result = render_json_report(&acc);
    assert!(result.is_ok());
}

#[test]
fn test_output_text_with_files() {
    let mut acc = InMemoryAccumulator::new();
    let file_stats = make_detailed_test_file_stats();
    acc.add_file(&file_stats).unwrap();
    let result = render_text_report(&acc);
    assert!(result.is_ok());
}

#[test]
fn test_output_text_from_accumulator() {
    let mut acc = InMemoryAccumulator::new();
    let stats = make_standard_test_file_stats();
    acc.add_file(&stats).unwrap();
    let result = render_text_report(&acc);
    assert!(result.is_ok());
}

#[test]
fn test_output_json_from_accumulator() {
    let mut acc = InMemoryAccumulator::new();
    let stats = make_standard_test_file_stats();
    acc.add_file(&stats).unwrap();
    let result = render_json_report(&acc);
    assert!(result.is_ok());
}

#[test]
fn test_output_functions_with_file_backed_accumulator() {
    let mut acc = FileBackedAccumulator::new().unwrap();
    let stats = make_standard_test_file_stats();
    acc.add_file(&stats).unwrap();
    acc.flush().unwrap();
    let result = render_text_report(&acc);
    assert!(result.is_ok());
    let result = render_json_report(&acc);
    assert!(result.is_ok());
}

#[test]
fn test_output_with_empty_accumulator() {
    let accumulator = InMemoryAccumulator::new();
    let text_result = render_text_report(&accumulator);
    assert!(text_result.is_ok());
    let json_result = render_json_report(&accumulator);
    assert!(json_result.is_ok());
}

#[test]
fn test_output_text_accumulator_with_data() {
    let mut accumulator = FileBackedAccumulator::new().unwrap();
    let stats = FileStats {
        path: "test.rs".to_string(),
        total: LineStats {
            all_lines: 10,
            blank_lines: 2,
            comment_lines: 3,
            code_lines: 5,
            rustdoc_lines: 1,
        },
        production: LineStats {
            all_lines: 6,
            blank_lines: 1,
            comment_lines: 2,
            code_lines: 3,
            rustdoc_lines: 1,
        },
        test: LineStats {
            all_lines: 4,
            blank_lines: 1,
            comment_lines: 1,
            code_lines: 2,
            rustdoc_lines: 0,
        },
    };
    accumulator.add_file(&stats).unwrap();
    accumulator.flush().unwrap();
    let result = render_text_report(&accumulator);
    assert!(result.is_ok());
}

#[test]
fn test_output_json_accumulator_multi_file() {
    let mut accumulator = FileBackedAccumulator::new().unwrap();
    let stats1 = FileStats {
        path: "test1.rs".to_string(),
        total: LineStats {
            all_lines: 10,
            blank_lines: 2,
            comment_lines: 3,
            code_lines: 5,
            rustdoc_lines: 1,
        },
        production: LineStats {
            all_lines: 6,
            blank_lines: 1,
            comment_lines: 2,
            code_lines: 3,
            rustdoc_lines: 1,
        },
        test: LineStats {
            all_lines: 4,
            blank_lines: 1,
            comment_lines: 1,
            code_lines: 2,
            rustdoc_lines: 0,
        },
    };
    let stats2 = FileStats {
        path: "test2.rs".to_string(),
        total: LineStats {
            all_lines: 8,
            blank_lines: 1,
            comment_lines: 2,
            code_lines: 5,
            rustdoc_lines: 0,
        },
        production: LineStats {
            all_lines: 8,
            blank_lines: 1,
            comment_lines: 2,
            code_lines: 5,
            rustdoc_lines: 0,
        },
        test: LineStats::default(),
    };
    accumulator.add_file(&stats1).unwrap();
    accumulator.add_file(&stats2).unwrap();
    accumulator.flush().unwrap();
    let result = render_json_report(&accumulator);
    assert!(result.is_ok());
}

#[test]
fn test_output_text_integration() {
    let mut accumulator = InMemoryAccumulator::new();
    let stats = FileStats {
        path: "sample.rs".to_string(),
        total: LineStats {
            all_lines: 20,
            blank_lines: 3,
            comment_lines: 5,
            code_lines: 12,
            rustdoc_lines: 2,
        },
        production: LineStats {
            all_lines: 15,
            blank_lines: 2,
            comment_lines: 3,
            code_lines: 10,
            rustdoc_lines: 2,
        },
        test: LineStats {
            all_lines: 5,
            blank_lines: 1,
            comment_lines: 2,
            code_lines: 2,
            rustdoc_lines: 0,
        },
    };
    accumulator.add_file(&stats).unwrap();
    let out = render_text_report(&accumulator).unwrap();
    assert!(out.contains("Summary:"));
    assert!(out.contains("Files: 1"));
    assert!(out.contains("sample.rs:"));
    assert!(out.contains("All lines: 20"));

    let mut fb_acc = FileBackedAccumulator::new().unwrap();
    fb_acc.add_file(&stats).unwrap();
    fb_acc.flush().unwrap();
    let out2 = render_text_report(&fb_acc).unwrap();
    assert_eq!(out, out2);
}

#[test]
fn test_output_json_integration() {
    let mut accumulator = InMemoryAccumulator::new();
    let stats = FileStats {
        path: "sample.rs".to_string(),
        total: LineStats {
            all_lines: 20,
            blank_lines: 3,
            comment_lines: 5,
            code_lines: 12,
            rustdoc_lines: 2,
        },
        production: LineStats {
            all_lines: 15,
            blank_lines: 2,
            comment_lines: 3,
            code_lines: 10,
            rustdoc_lines: 2,
        },
        test: LineStats {
            all_lines: 5,
            blank_lines: 1,
            comment_lines: 2,
            code_lines: 2,
            rustdoc_lines: 0,
        },
    };
    accumulator.add_file(&stats).unwrap();
    let out = render_json_report(&accumulator).unwrap();
    let v: serde_json::Value = serde_json::from_str(out.as_str()).unwrap();
    assert_eq!(v["summary"]["files"], 1);
    assert_eq!(v["summary"]["total"]["all-lines"], 20);
    assert_eq!(v["files"][0]["path"], "sample.rs");
    assert_eq!(v["files"][0]["production"]["code-lines"], 10);

    let mut fb_acc = FileBackedAccumulator::new().unwrap();
    fb_acc.add_file(&stats).unwrap();
    fb_acc.flush().unwrap();
    let out2 = render_json_report(&fb_acc).unwrap();
    assert_eq!(out, out2);
}

#[test]
fn test_report_json_roundtrip() {
    let report = Report {
        summary: Summary {
            files: 1,
            total: LineStats {
                all_lines: 10,
                blank_lines: 2,
                comment_lines: 3,
                code_lines: 5,
                rustdoc_lines: 1,
            },
            production: LineStats {
                all_lines: 7,
                blank_lines: 1,
                comment_lines: 2,
                code_lines: 4,
                rustdoc_lines: 1,
            },
            test: LineStats {
                all_lines: 3,
                blank_lines: 1,
                comment_lines: 1,
                code_lines: 1,
                rustdoc_lines: 0,
            },
        },
        files: vec![make_simple_file_stats("test.rs", 10, 2, 3, 1, 5)],
    };
    let copy = report.clone();
    assert_eq!(report, copy);
    // the rendered report reads back with every count intact
    let mut acc = InMemoryAccumulator::new();
    acc.add_file(&report.files[0]).unwrap();
    let out = render_json_report(&acc).unwrap();
    let v: serde_json::Value = serde_json::from_str(out.as_str()).unwrap();
    assert_eq!(v["summary"]["files"], 1);
    assert_eq!(v["files"][0]["total"]["all-lines"], 10);
}

#[test]
fn test_report_serialization() {
    let report = Report { summary: Summary::default(), files: vec![] };
    let copy = report.clone();
    assert_eq!(report, copy);
    let acc = InMemoryAccumulator::new();
    let out = render_json_report(&acc).unwrap();
    let v: serde_json::Value = serde_json::from_str(out.as_str()).unwrap();
    assert_eq!(v["summary"]["files"], 0);
    assert!(v["files"].as_array().unwrap().is_empty());
}

#[test]
fn test_summary_serialization() {
    let mut acc = InMemoryAccumulator::new();
    acc.add_file(&make_file_stats_with_tests(
        "a.rs",
        make_line_stats(70, 10, 20, 0, 40),
        make_line_stats(30, 10, 10, 0, 10),
    ))
    .unwrap();
    let out = render_json_report(&acc).unwrap();
    let v: serde_json::Value = serde_json::from_str(out.as_str()).unwrap();
    assert_eq!(v["summary"]["total"]["all-lines"], 100);
    assert_eq!(v["summary"]["production"]["code-lines"], 40);
    assert_eq!(v["summary"]["test"]["all-lines"], 30);
}

/// The rendered report decodes back to the same summary and records.
#[test]
fn test_report_decode_inverts_render() {
    let mut acc = InMemoryAccumulator::new();
    let f1 = make_standard_test_file_stats();
    let f2 = make_simple_file_stats("dir/other \"quoted\".rs", 5, 1, 1, 0, 3);
    acc.add_file(&f1).unwrap();
    acc.add_file(&f2).unwrap();
    let out = render_json_report(&acc).unwrap();
    let report = ruloc::render::decode_report(out.as_str()).unwrap();
    assert_eq!(report.summary, acc.get_summary());
    assert_eq!(report.files.len(), 2);
    assert_eq!(report.files[0], f1);
    assert_eq!(report.files[1], f2);
    // and an empty report round-trips too
    let empty = InMemoryAccumulator::new();
    let out = render_json_report(&empty).unwrap();
    let report = ruloc::render::decode_report(out.as_str()).unwrap();
    assert_eq!(report.summary, Summary::default());
    assert!(report.files.is_empty());
}

/// Folding the same records in a different order yields the same
/// summary.
#[test]
fn test_summary_order_independent() {
    let a = make_standard_test_file_stats();
    let b = make_minimal_test_file_stats();
    let c = make_detailed_test_file_stats();
    let mut acc1 = InMemoryAccumulator::new();
    acc1.add_file(&a).unwrap();
    acc1.add_file(&b).unwrap();
    acc1.add_file(&c).unwrap();
    let mut acc2 = InMemoryAccumulator::new();
    acc2.add_file(&c).unwrap();
    acc2.add_file(&a).unwrap();
    acc2.add_file(&b).unwrap();
    assert_eq!(acc1.get_summary(), acc2.get_summary());
}

/// Two enumerations of an unmutated accumulator yield equal-length,
/// equal-content sequences.
#[test]
fn test_iterate_twice_equal_content() {
    let mut acc = FileBackedAccumulator::new().unwrap();
    acc.add_file(&make_standard_test_file_stats()).unwrap();
    acc.add_file(&make_minimal_test_file_stats()).unwrap();
    acc.flush().unwrap();
    let files1 = acc.iter_files().unwrap();
    let files2 = acc.iter_files().unwrap();
    assert_eq!(files1.len(), files2.len());
    assert_eq!(files1, files2);
}

/// A path holding control characters renders as valid JSON (spelled
/// out as hex escapes) and decodes back unchanged.
#[test]
fn test_codec_escapes_control_characters() {
    let stats = make_simple_file_stats("be\u{7}ll\u{1b}[0m.rs", 3, 1, 1, 0, 1);
    let line = encode_file_stats(&stats);
    let v: serde_json::Value = serde_json::from_str(line.as_str()).unwrap();
    assert_eq!(v["path"], "be\u{7}ll\u{1b}[0m.rs");
    let decoded = decode_file_stats(line.as_str()).unwrap();
    assert_eq!(stats, decoded);
}

/// A test-qualified module carrying the bare marker qualifies like a
/// test-qualified function.
#[test]
fn test_bare_test_marker_on_module() {
    let module = Node {
        kind: NodeKind::Module,
        start: 0,
        end: 10,
        attrs: vec![Attr { name: "test".to_string(), args: None }],
        children: vec![],
    };
    assert!(is_test_node(&module));
    let function = Node {
        kind: NodeKind::Function,
        start: 0,
        end: 10,
        attrs: vec![Attr { name: "test".to_string(), args: None }],
        children: vec![],
    };
    assert!(is_test_node(&function));
    let other = Node { kind: NodeKind::Other, start: 0, end: 10, attrs: vec![], children: vec![] };
    assert!(!is_test_node(&other));
}
