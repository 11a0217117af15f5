use backup_sync::sync::rsync_parser::{classify, parse, try_parse, FailureKind, RunResult};

#[test]
fn exit_zero_is_success() {
    assert_eq!(parse(0, "", ""), RunResult::Success);
}

#[test]
fn out_of_space_detected_by_errno_28() {
    assert_eq!(parse(11, "", "rsync: anything (28)"), RunResult::Failure(FailureKind::OutOfSpace));
}

#[test]
fn drive_disconnected_via_errno_5() {
    assert_eq!(
        parse(23, "", "rsync: anything (5)"),
        RunResult::Failure(FailureKind::DriveDisconnected)
    );
}

#[test]
fn drive_disconnected_via_exit_11_no_errno() {
    assert_eq!(parse(11, "", ""), RunResult::Failure(FailureKind::DriveDisconnected));
}

#[test]
fn permission_denied_via_errno_13() {
    assert_eq!(
        parse(23, "", "rsync: anything (13)"),
        RunResult::Failure(FailureKind::PermissionDenied)
    );
}

#[test]
fn source_missing_via_errno_2() {
    assert_eq!(parse(23, "", "rsync: anything (2)"), RunResult::Failure(FailureKind::SourceMissing));
}

#[test]
fn partial_success_exit_23_without_known_pattern() {
    let stderr = "file vanished: \"a\"\nfile vanished: \"b\"";
    match parse(23, "", stderr) {
        RunResult::PartialSuccess { skipped_count_hint } => {
            assert_eq!(skipped_count_hint, 2);
        }
        other => panic!("expected PartialSuccess, got {other:?}"),
    }
}

#[test]
fn timeout_exit_30() {
    assert_eq!(parse(30, "", ""), RunResult::Failure(FailureKind::Timeout));
}

#[test]
fn unknown_exit_code_falls_through_to_other() {
    assert_eq!(parse(99, "", ""), RunResult::Failure(FailureKind::Other { exit_code: 99 }));
}

#[test]
fn out_of_space_takes_priority_over_exit_code_classification() {
    assert_eq!(parse(23, "", "(28)"), RunResult::Failure(FailureKind::OutOfSpace));
}

#[test]
fn errno_priority_order() {
    assert_eq!(parse(1, "", "(2) (5) (13) (28)"), RunResult::Failure(FailureKind::OutOfSpace));
    assert_eq!(parse(1, "", "(2) (5) (13)"), RunResult::Failure(FailureKind::PermissionDenied));
    assert_eq!(parse(1, "", "(2) (107)"), RunResult::Failure(FailureKind::DriveDisconnected));
    assert_eq!(parse(1, "", "(16)"), RunResult::Failure(FailureKind::DriveDisconnected));
    assert_eq!(parse(1, "", "(2)"), RunResult::Failure(FailureKind::SourceMissing));
    assert_eq!(parse(12, "", "(3)"), RunResult::Failure(FailureKind::DriveDisconnected));
    assert_eq!(parse(-1, "", ""), RunResult::Failure(FailureKind::Other { exit_code: -1 }));
}

#[test]
fn exit_zero_ignores_stderr() {
    assert_eq!(parse(0, "", "(28) (4294967296)"), RunResult::Success);
}

#[test]
fn partial_success_counts_non_empty_lines() {
    assert_eq!(parse(24, "", ""), RunResult::PartialSuccess { skipped_count_hint: 0 });
    assert_eq!(parse(24, "", "a\n\nb\n"), RunResult::PartialSuccess { skipped_count_hint: 2 });
    assert_eq!(parse(23, "", "a\r\n\r\nb\r"), RunResult::PartialSuccess { skipped_count_hint: 2 });
    assert_eq!(parse(23, "", "\r"), RunResult::PartialSuccess { skipped_count_hint: 1 });
    assert_eq!(parse(23, "", "\n\n\n"), RunResult::PartialSuccess { skipped_count_hint: 0 });
}

#[test]
fn line_count_matches_std_lines() {
    for text in ["", "a", "a\n", "\n", "a\r\nb", "x\r", "\r\n", "a\n\r\n\rb\n\n", "é\nü\r\n"] {
        let expected = text.lines().filter(|l| !l.is_empty()).count() as u32;
        assert_eq!(
            parse(23, "", text),
            RunResult::PartialSuccess { skipped_count_hint: expected },
            "{text:?}"
        );
    }
}

#[test]
fn classify_takes_the_codes_given() {
    assert_eq!(classify(23, &vec![28], ""), RunResult::Failure(FailureKind::OutOfSpace));
    assert_eq!(classify(23, &vec![], "(28)"), RunResult::PartialSuccess { skipped_count_hint: 1 });
    assert_eq!(classify(0, &vec![28], ""), RunResult::Success);
}

#[test]
fn try_parse_refuses_unreadable_numbers() {
    assert_eq!(try_parse(23, "", "(99999999999)"), None);
    assert_eq!(try_parse(0, "", "(99999999999)"), Some(RunResult::Success));
    assert_eq!(try_parse(23, "", "(13)"), Some(RunResult::Failure(FailureKind::PermissionDenied)));
}
