//! What an rsync run came to, read from its exit code and its stderr.
use vstd::prelude::*;
use vstd::utf8::is_ascii_chars;

use crate::sync::error_codes::{
    all_u32_decimal, decimal_values, error_code_texts, error_codes, error_codes_readable, extract,
    try_extract,
};
use crate::text::{count_nonempty, count_nonempty_lines, lines, parenthesized_digit_runs};

verus! {

/// How an rsync run ended.
#[derive(Debug, Clone, PartialEq, Eq)]
pub enum RunResult {
    Success,
    PartialSuccess { skipped_count_hint: u32 },
    Failure(FailureKind),
}

/// Why an rsync run failed.
#[derive(Debug, Clone, PartialEq, Eq)]
pub enum FailureKind {
    DriveDisconnected,
    PermissionDenied,
    SourceMissing,
    OutOfSpace,
    Timeout,
    Other { exit_code: i32 },
}

/// How a run that exited with `exit_code`, reported the error numbers `codes`
/// and wrote `stderr` ended. Exit code 0 is success whatever else was reported;
/// otherwise the error numbers decide first, in the order 28 (no space), 13
/// (permission), 5, 16 or 107 (drive gone), 2 (source missing), and then the
/// exit code: 23 or 24 a partial success with the count of non-empty stderr
/// lines as hint, 30 a timeout, 11 or 12 a drive gone, any other code kept.
pub open spec fn classification(exit_code: i32, codes: Seq<u32>, stderr: Seq<char>) -> RunResult {
    if exit_code == 0 {
        RunResult::Success
    } else if codes.contains(28) {
        RunResult::Failure(FailureKind::OutOfSpace)
    } else if codes.contains(13) {
        RunResult::Failure(FailureKind::PermissionDenied)
    } else if codes.contains(5) || codes.contains(16) || codes.contains(107) {
        RunResult::Failure(FailureKind::DriveDisconnected)
    } else if codes.contains(2) {
        RunResult::Failure(FailureKind::SourceMissing)
    } else if exit_code == 23 || exit_code == 24 {
        RunResult::PartialSuccess { skipped_count_hint: count_nonempty(lines(stderr)) as u32 }
    } else if exit_code == 30 {
        RunResult::Failure(FailureKind::Timeout)
    } else if exit_code == 11 || exit_code == 12 {
        RunResult::Failure(FailureKind::DriveDisconnected)
    } else {
        RunResult::Failure(FailureKind::Other { exit_code })
    }
}

fn has_code(codes: &Vec<u32>, code: u32) -> (r: bool)
    ensures
        r == codes@.contains(code),
{
    let mut i: usize = 0;
    while i < codes.len()
        invariant
            i <= codes@.len(),
            forall|j: int| 0 <= j < i ==> codes@[j] != code,
        decreases codes@.len() - i,
    {
        if codes[i] == code {
            return true;
        }
        i = i + 1;
    }
    false
}

/// How a run that exited with `exit_code`, with the error numbers `codes` read
/// from its stderr `stderr`, ended.
pub fn classify(exit_code: i32, codes: &Vec<u32>, stderr: &str) -> (r: RunResult)
    ensures
        r == classification(exit_code, codes@, stderr@),
{
    if exit_code == 0 {
        return RunResult::Success;
    }
    if has_code(codes, 28) {
        return RunResult::Failure(FailureKind::OutOfSpace);
    }
    if has_code(codes, 13) {
        return RunResult::Failure(FailureKind::PermissionDenied);
    }
    if has_code(codes, 5) || has_code(codes, 16) || has_code(codes, 107) {
        return RunResult::Failure(FailureKind::DriveDisconnected);
    }
    if has_code(codes, 2) {
        return RunResult::Failure(FailureKind::SourceMissing);
    }
    if exit_code == 23 || exit_code == 24 {
        let n = count_nonempty_lines(stderr);
        RunResult::PartialSuccess { skipped_count_hint: n as u32 }
    } else if exit_code == 30 {
        RunResult::Failure(FailureKind::Timeout)
    } else if exit_code == 11 || exit_code == 12 {
        RunResult::Failure(FailureKind::DriveDisconnected)
    } else {
        RunResult::Failure(FailureKind::Other { exit_code })
    }
}

/// How an rsync run ended, from its exit code and its stderr; standard output
/// is not read. Where the run failed, each error number in stderr must fit in a `u32`.
pub fn parse(exit_code: i32, _stdout: &str, stderr: &str) -> (r: RunResult)
    requires
        exit_code != 0 ==> error_codes_readable(stderr@),
    ensures
        r == classification(exit_code, error_codes(stderr@), stderr@),
        r == classification(exit_code, decimal_values(parenthesized_digit_runs(stderr@)), stderr@),
{
    if exit_code == 0 {
        return RunResult::Success;
    }
    let codes = extract(stderr);
    classify(exit_code, &codes, stderr)
}

/// How an rsync run ended, as `parse` tells it, where the run succeeded or each
/// error number in its stderr fits in a `u32`; `None` where one does not.
pub fn try_parse(exit_code: i32, stdout: &str, stderr: &str) -> (r: Option<RunResult>)
    ensures
        r is Some <==> (exit_code == 0 || all_u32_decimal(error_code_texts(stderr@))),
        r is Some <==> (exit_code == 0 || error_codes_readable(stderr@)),
        r matches Some(res) ==> res == classification(exit_code, error_codes(stderr@), stderr@),
        r matches Some(res) ==> res == classification(
            exit_code,
            decimal_values(parenthesized_digit_runs(stderr@)),
            stderr@,
        ),
{
    if exit_code != 0 && try_extract(stderr).is_none() {
        return None;
    }
    Some(parse(exit_code, stdout, stderr))
}

} // verus!

verus! {

/// A run that exits with code 0 is a success, whatever it wrote.
pub proof fn law_exit_zero_is_success(codes: Seq<u32>, stderr: Seq<char>)
    ensures
        classification(0, codes, stderr) == RunResult::Success,
{
}

/// A failed run that reports error number 28 is out of space, whatever its exit
/// code and whatever other numbers it reports.
pub proof fn law_out_of_space_takes_priority(exit_code: i32, codes: Seq<u32>, stderr: Seq<char>)
    requires
        exit_code != 0,
        codes.contains(28),
    ensures
        classification(exit_code, codes, stderr) == RunResult::Failure(FailureKind::OutOfSpace),
{
}

/// A failed run that reports none of the error numbers that name a cause is told
/// apart by its exit code alone, and an exit code with no meaning of its own is kept.
pub proof fn law_exit_code_decides_without_known_errno(
    exit_code: i32,
    codes: Seq<u32>,
    stderr: Seq<char>,
)
    requires
        exit_code != 0,
        forall|i: int| 0 <= i < codes.len() ==> !(#[trigger] codes[i] == 28 || codes[i] == 13
            || codes[i] == 5 || codes[i] == 16 || codes[i] == 107 || codes[i] == 2),
    ensures
        classification(exit_code, codes, stderr) == classification(exit_code, Seq::empty(), stderr),
        exit_code != 23 && exit_code != 24 && exit_code != 30 && exit_code != 11 && exit_code
            != 12 ==> classification(exit_code, codes, stderr) == RunResult::Failure(
            FailureKind::Other { exit_code },
        ),
{
    assert(!codes.contains(28) && !codes.contains(13) && !codes.contains(5) && !codes.contains(16)
        && !codes.contains(107) && !codes.contains(2)) by {
        if codes.contains(28) {
            let i = choose|i: int| 0 <= i < codes.len() && codes[i] == 28;
            assert(!(codes[i] == 28));
        }
        if codes.contains(13) {
            let i = choose|i: int| 0 <= i < codes.len() && codes[i] == 13;
            assert(!(codes[i] == 13));
        }
        if codes.contains(5) {
            let i = choose|i: int| 0 <= i < codes.len() && codes[i] == 5;
            assert(!(codes[i] == 5));
        }
        if codes.contains(16) {
            let i = choose|i: int| 0 <= i < codes.len() && codes[i] == 16;
            assert(!(codes[i] == 16));
        }
        if codes.contains(107) {
            let i = choose|i: int| 0 <= i < codes.len() && codes[i] == 107;
            assert(!(codes[i] == 107));
        }
        if codes.contains(2) {
            let i = choose|i: int| 0 <= i < codes.len() && codes[i] == 2;
            assert(!(codes[i] == 2));
        }
    }
}

/// `(28)` written anywhere in an ASCII stderr is read as error number 28.
proof fn lemma_runs_hold_28(s: Seq<char>, i: int)
    requires
        0 <= i,
        i + 4 <= s.len(),
        s[i] == '(',
        s[i + 1] == '2',
        s[i + 2] == '8',
        s[i + 3] == ')',
    ensures
        parenthesized_digit_runs(s).contains(seq!['2', '8']),
    decreases s.len(),
{
    let rest = s.drop_first();
    if i == 0 {
        assert(rest.drop_first().drop_first()[0] == ')');
        assert(crate::text::digit_run_len(rest.drop_first().drop_first()) == 0);
        assert(crate::text::digit_run_len(rest.drop_first()) == 1);
        assert(crate::text::digit_run_len(rest) == 2);
        assert(s.subrange(1, 3) == seq!['2', '8']);
        assert(parenthesized_digit_runs(s)[0] == seq!['2', '8']);
    } else {
        lemma_runs_hold_28(rest, i - 1);
        let runs = parenthesized_digit_runs(rest);
        let k = choose|k: int| 0 <= k < runs.len() && runs[k] == seq!['2', '8'];
        let n = crate::text::digit_run_len(rest) as int;
        if s[0] == '(' && n > 0 && n + 1 < s.len() && s[n + 1] == ')' {
            assert(parenthesized_digit_runs(s)[k + 1] == seq!['2', '8']);
        } else {
            assert(parenthesized_digit_runs(s)[k] == seq!['2', '8']);
        }
    }
}

/// A failed run whose ASCII stderr holds `(28)` anywhere is out of space.
pub proof fn law_out_of_space_from_stderr(exit_code: i32, stderr: Seq<char>, i: int)
    requires
        exit_code != 0,
        is_ascii_chars(stderr),
        0 <= i,
        i + 4 <= stderr.len(),
        stderr.subrange(i, i + 4) == seq!['(', '2', '8', ')'],
    ensures
        classification(exit_code, decimal_values(parenthesized_digit_runs(stderr)), stderr)
            == RunResult::Failure(FailureKind::OutOfSpace),
{
    assert(stderr[i] == stderr.subrange(i, i + 4)[0]);
    assert(stderr[i + 1] == stderr.subrange(i, i + 4)[1]);
    assert(stderr[i + 2] == stderr.subrange(i, i + 4)[2]);
    assert(stderr[i + 3] == stderr.subrange(i, i + 4)[3]);
    lemma_runs_hold_28(stderr, i);
    let runs = parenthesized_digit_runs(stderr);
    let k = choose|k: int| 0 <= k < runs.len() && runs[k] == seq!['2', '8'];
    let digits = seq!['2', '8'];
    assert(digits.drop_last() == seq!['2']);
    assert(seq!['2'].drop_last() == Seq::<char>::empty());
    assert(seq!['2'].last() == '2');
    assert(digits.last() == '8');
    assert(('2' as nat) - ('0' as nat) == 2);
    assert(('8' as nat) - ('0' as nat) == 8);
    assert(crate::text::decimal_value(Seq::<char>::empty()) == 0);
    assert(crate::text::decimal_value(seq!['2']) == 2);
    assert(crate::text::decimal_value(digits) == 28);
    assert(decimal_values(runs)[k] == 28);
}

} // verus!

verus! {

/// None of the error numbers that name a cause of failure.
pub open spec fn no_known_errno(codes: Seq<u32>) -> bool {
    !codes.contains(28) && !codes.contains(13) && !codes.contains(5) && !codes.contains(16)
        && !codes.contains(107) && !codes.contains(2)
}

/// The error numbers rank as causes in a fixed order, whatever other numbers
/// come with them: 28 (no space) first, then 13 (permission), then any of 5, 16
/// and 107 (the drive is gone), then 2 (a source is missing).
pub proof fn law_errno_ranking(exit_code: i32, codes: Seq<u32>, stderr: Seq<char>)
    requires
        exit_code != 0,
    ensures
        codes.contains(13) && !codes.contains(28) ==> classification(exit_code, codes, stderr)
            == RunResult::Failure(FailureKind::PermissionDenied),
        (codes.contains(5) || codes.contains(16) || codes.contains(107)) && !codes.contains(28)
            && !codes.contains(13) ==> classification(exit_code, codes, stderr)
            == RunResult::Failure(FailureKind::DriveDisconnected),
        codes.contains(2) && !codes.contains(28) && !codes.contains(13) && !codes.contains(5)
            && !codes.contains(16) && !codes.contains(107) ==> classification(
            exit_code,
            codes,
            stderr,
        ) == RunResult::Failure(FailureKind::SourceMissing),
{
}

/// Without an error number that names a cause, the exit code alone decides:
/// 30 is a timeout and 11 or 12 a drive gone whatever stderr holds, 23 and 24 a
/// partial success whose hint counts the non-empty lines of stderr, and any other
/// failing code is kept as it is; stderr matters only for that hint.
pub proof fn law_exit_code_outcomes(
    exit_code: i32,
    codes: Seq<u32>,
    stderr: Seq<char>,
    other_stderr: Seq<char>,
)
    requires
        exit_code != 0,
        no_known_errno(codes),
    ensures
        exit_code == 30 ==> classification(exit_code, codes, stderr) == RunResult::Failure(
            FailureKind::Timeout,
        ),
        exit_code == 11 || exit_code == 12 ==> classification(exit_code, codes, stderr)
            == RunResult::Failure(FailureKind::DriveDisconnected),
        exit_code == 23 || exit_code == 24 ==> classification(exit_code, codes, stderr)
            == (RunResult::PartialSuccess {
            skipped_count_hint: count_nonempty(lines(stderr)) as u32,
        }),
        exit_code != 23 && exit_code != 24 && exit_code != 30 && exit_code != 11 && exit_code
            != 12 ==> classification(exit_code, codes, stderr) == RunResult::Failure(
            FailureKind::Other { exit_code },
        ),
        exit_code != 23 && exit_code != 24 ==> classification(exit_code, codes, stderr)
            == classification(exit_code, codes, other_stderr),
{
}

/// Whatever the exit code, a run reporting error number 28, 13, 5, 16, 107 or 2
/// fails for that cause, and stderr matters only through those numbers.
pub proof fn law_known_errno_is_a_failure(
    exit_code: i32,
    codes: Seq<u32>,
    stderr: Seq<char>,
    other_stderr: Seq<char>,
)
    requires
        exit_code != 0,
        !no_known_errno(codes),
    ensures
        (classification(exit_code, codes, stderr) is Failure),
        classification(exit_code, codes, stderr) == classification(exit_code, codes, other_stderr),
        classification(exit_code, codes, stderr) == classification(23, codes, stderr),
{
}

} // verus!
