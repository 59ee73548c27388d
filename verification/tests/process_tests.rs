use cdr_ingest::process::process_lines;

fn valid_line() -> Vec<u8> {
    b"CHETC01062461080202505280947001284741".to_vec()
}

fn short_line() -> Vec<u8> {
    b"CHETC010624610802025".to_vec()
}

#[test]
fn counts_valid_lines_and_reports_the_failed_one() {
    // A new file with 3 valid lines and 1 too-short line: the count is 3
    // and exactly one line-level failure is reported.
    let lines = vec![valid_line(), valid_line(), short_line(), valid_line()];
    let summary = process_lines(&lines);
    assert_eq!(summary.record_count, 3);
    assert_eq!(summary.failed_lines, vec![3]);
}

#[test]
fn counts_are_independent_of_interleaving() {
    let a = vec![short_line(), valid_line(), valid_line()];
    let b = vec![valid_line(), short_line(), valid_line()];
    let c = vec![valid_line(), valid_line(), short_line()];
    assert_eq!(process_lines(&a).record_count, 2);
    assert_eq!(process_lines(&b).record_count, 2);
    assert_eq!(process_lines(&c).record_count, 2);
    assert_eq!(process_lines(&a).failed_lines, vec![1]);
    assert_eq!(process_lines(&b).failed_lines, vec![2]);
    assert_eq!(process_lines(&c).failed_lines, vec![3]);
}

#[test]
fn empty_file_yields_empty_summary() {
    let lines: Vec<Vec<u8>> = Vec::new();
    let summary = process_lines(&lines);
    assert_eq!(summary.record_count, 0);
    assert!(summary.failed_lines.is_empty());
}

#[test]
fn all_lines_failing_counts_nothing() {
    let lines = vec![short_line(), Vec::new(), b"x".to_vec()];
    let summary = process_lines(&lines);
    assert_eq!(summary.record_count, 0);
    assert_eq!(summary.failed_lines, vec![1, 2, 3]);
}

#[test]
fn undecodable_line_treated_as_empty_fails_length_check() {
    // A line that is not decodable as text is handed over as empty bytes,
    // which deterministically fails the minimum-length check.
    let lines = vec![valid_line(), Vec::new(), valid_line()];
    let summary = process_lines(&lines);
    assert_eq!(summary.record_count, 2);
    assert_eq!(summary.failed_lines, vec![2]);
}

#[test]
fn non_numeric_usage_still_counts() {
    let lines = vec![b"CHETC0106246108020250528094700XXXXXXX".to_vec(), valid_line()];
    let summary = process_lines(&lines);
    assert_eq!(summary.record_count, 2);
    assert!(summary.failed_lines.is_empty());
}
