//! The error numbers that rsync writes in parentheses on stderr, such as `(28)`.
use vstd::prelude::*;
use vstd::utf8::is_ascii_chars;

use crate::text::{all_ascii_digits, decimal_value, digit_run_len, is_ascii_digit, is_u32_decimal, parenthesized_digit_runs, parse_decimal_u32, texts};

verus! {

/// The regular expression that finds an error number: one or more digits
/// between parentheses, the digits captured as group 1.
pub const ERROR_CODE_PATTERN: &'static str = "\\((\\d+)\\)";

/// What `regex::Regex::captures_iter` yields for the compiled `pattern` over
/// `haystack`: the text of capture group 1 in each successive non-overlapping match.
pub uninterp spec fn regex_group_one_texts(pattern: Seq<char>, haystack: Seq<char>) -> Seq<Seq<char>>;

/// Compiles `pattern` with `regex::Regex::new` and collects, from each match that
/// `regex::Regex::captures_iter` yields over `haystack`, the text of capture group 1.
/// The contract claims that the texts are the named result, and that they are the
/// ASCII digit runs between parentheses wherever every text is made of ASCII digits,
/// which is so for every ASCII haystack. The regex crate's `\d` is Unicode's decimal
/// digits (`\p{Nd}`), which among ASCII characters are `0` to `9`: a match is a `(`,
/// the whole run of such digits after it, and a `)`, and no two matches can overlap.
/// No match holds a line break, so the texts of a haystack are those of the part
/// before any of its line breaks followed by those of the part after it.
/// Only the error-number pattern, which compiles and always has group 1, is admitted.
/// Which texts come back when some holds a digit outside ASCII is left to the name.
#[verifier::external_body]
fn regex_group_one(pattern: &str, haystack: &str) -> (found: Vec<String>)
    requires
        pattern@ == ERROR_CODE_PATTERN@,
    ensures
        texts(found@) == regex_group_one_texts(pattern@, haystack@),
        is_ascii_chars(haystack@) ==> texts(found@) == parenthesized_digit_runs(haystack@),
        (forall|i: int|
            0 <= i < found@.len() ==> all_ascii_digits(#[trigger] texts(found@)[i])) ==> texts(
            found@,
        ) == parenthesized_digit_runs(haystack@),
        forall|i: int|
            0 <= i < haystack@.len() && #[trigger] haystack@[i] == '\n' ==> texts(found@)
                == regex_group_one_texts(pattern@, haystack@.take(i)) + regex_group_one_texts(
                pattern@,
                haystack@.skip(i + 1),
            ),
{
    let re = regex::Regex::new(pattern).unwrap();
    re.captures_iter(haystack).map(|c| c[1].to_string()).collect()
}

/// The digit texts that the error-number pattern captures in `stderr`.
pub open spec fn error_code_texts(stderr: Seq<char>) -> Seq<Seq<char>> {
    regex_group_one_texts(ERROR_CODE_PATTERN@, stderr)
}

/// Every text in `ts` writes a number that fits in a `u32`.
pub open spec fn all_u32_decimal(ts: Seq<Seq<char>>) -> bool {
    forall|i: int| 0 <= i < ts.len() ==> is_u32_decimal(#[trigger] ts[i])
}

/// The numbers that the texts `ts` write.
pub open spec fn decimal_values(ts: Seq<Seq<char>>) -> Seq<u32> {
    ts.map_values(|t: Seq<char>| decimal_value(t) as u32)
}

/// `stderr` is one that `extract` reads without fault: each number that the pattern
/// captures fits in a `u32`. For an ASCII `stderr` this is known from the digit runs alone.
pub open spec fn error_codes_readable(stderr: Seq<char>) -> bool {
    ||| all_u32_decimal(error_code_texts(stderr))
    ||| is_ascii_chars(stderr) && all_u32_decimal(parenthesized_digit_runs(stderr))
}

/// The error numbers in `stderr`, in the order they appear.
pub open spec fn error_codes(stderr: Seq<char>) -> Seq<u32> {
    decimal_values(error_code_texts(stderr))
}

/// The numbers that `found` writes, in order; each must write one that fits in a `u32`.
pub fn codes_from_texts(found: &Vec<String>) -> (codes: Vec<u32>)
    requires
        all_u32_decimal(texts(found@)),
    ensures
        codes@ == decimal_values(texts(found@)),
{
    let mut codes: Vec<u32> = Vec::new();
    let mut i: usize = 0;
    while i < found.len()
        invariant
            i <= found@.len(),
            all_u32_decimal(texts(found@)),
            codes@ == decimal_values(texts(found@).take(i as int)),
        decreases found@.len() - i,
    {
        assert(texts(found@)[i as int] == found@[i as int]@);
        let v = parse_decimal_u32(found[i].as_str()).unwrap();
        codes.push(v);
        assert(texts(found@).take(i + 1) == texts(found@).take(i as int).push(found@[i as int]@));
        assert(decimal_values(texts(found@).take(i + 1)) == decimal_values(
            texts(found@).take(i as int),
        ).push(v));
        i = i + 1;
    }
    assert(texts(found@).take(found@.len() as int) == texts(found@));
    codes
}

/// The error numbers that `stderr` holds in parentheses, in the order they appear:
/// the value of every `(`, one or more ASCII digits, `)` in it, left to right.
/// Each must fit in a `u32`.
pub fn extract(stderr: &str) -> (codes: Vec<u32>)
    requires
        error_codes_readable(stderr@),
    ensures
        codes@ == error_codes(stderr@),
        codes@ == decimal_values(parenthesized_digit_runs(stderr@)),
        all_u32_decimal(error_code_texts(stderr@)),
        forall|i: int|
            0 <= i < stderr@.len() && #[trigger] stderr@[i] == '\n' ==> codes@ == error_codes(
                stderr@.take(i),
            ) + error_codes(stderr@.skip(i + 1)),
{
    let found = regex_group_one(ERROR_CODE_PATTERN, stderr);
    proof {
        lemma_readable_texts_are_runs(found@, stderr@);
        assert forall|i: int|
            0 <= i < stderr@.len() && #[trigger] stderr@[i] == '\n' implies decimal_values(
            texts(found@),
        ) == error_codes(stderr@.take(i)) + error_codes(stderr@.skip(i + 1)) by {
            lemma_values_of_joined(
                error_code_texts(stderr@.take(i)),
                error_code_texts(stderr@.skip(i + 1)),
            );
        }
    }
    codes_from_texts(&found)
}

/// The values and the readability of two lists of texts joined are those of each.
proof fn lemma_values_of_joined(a: Seq<Seq<char>>, b: Seq<Seq<char>>)
    ensures
        decimal_values(a + b) == decimal_values(a) + decimal_values(b),
        all_u32_decimal(a + b) <==> all_u32_decimal(a) && all_u32_decimal(b),
{
    assert(decimal_values(a + b) == decimal_values(a) + decimal_values(b));
    if all_u32_decimal(a + b) {
        assert forall|i: int| 0 <= i < a.len() implies is_u32_decimal(#[trigger] a[i]) by {
            assert((a + b)[i] == a[i]);
        }
        assert forall|i: int| 0 <= i < b.len() implies is_u32_decimal(#[trigger] b[i]) by {
            assert((a + b)[a.len() + i] == b[i]);
        }
    }
    if all_u32_decimal(a) && all_u32_decimal(b) {
        assert forall|i: int| 0 <= i < (a + b).len() implies is_u32_decimal(#[trigger] (a + b)[i]) by {
            if i < a.len() {
                assert((a + b)[i] == a[i]);
            } else {
                assert((a + b)[i] == b[i - a.len()]);
            }
        }
    }
}

/// Texts that each write a `u32` are made of ASCII digits, so the wrapper's contract
/// makes them the digit runs between parentheses.
proof fn lemma_readable_texts_are_runs(found: Seq<String>, stderr: Seq<char>)
    requires
        texts(found) == error_code_texts(stderr),
        is_ascii_chars(stderr) ==> texts(found) == parenthesized_digit_runs(stderr),
        (forall|i: int| 0 <= i < found.len() ==> all_ascii_digits(#[trigger] texts(found)[i]))
            ==> texts(found) == parenthesized_digit_runs(stderr),
        error_codes_readable(stderr),
    ensures
        all_u32_decimal(texts(found)),
        texts(found) == parenthesized_digit_runs(stderr),
{
    if all_u32_decimal(error_code_texts(stderr)) {
        assert forall|i: int| 0 <= i < found.len() implies all_ascii_digits(
            #[trigger] texts(found)[i],
        ) by {
            assert(is_u32_decimal(texts(found)[i]));
        }
    }
}

/// The error numbers of `stderr`, as `extract` gives them, where each fits in a
/// `u32`; `None` where one does not.
pub fn try_extract(stderr: &str) -> (r: Option<Vec<u32>>)
    ensures
        r is Some <==> all_u32_decimal(error_code_texts(stderr@)),
        r is Some <==> error_codes_readable(stderr@),
        r matches Some(codes) ==> codes@ == error_codes(stderr@),
        r matches Some(codes) ==> codes@ == decimal_values(parenthesized_digit_runs(stderr@)),
        forall|i: int|
            0 <= i < stderr@.len() && #[trigger] stderr@[i] == '\n' ==> (r is Some <==> (
            all_u32_decimal(error_code_texts(stderr@.take(i))) && all_u32_decimal(
                error_code_texts(stderr@.skip(i + 1)),
            ))),
        r matches Some(codes) ==> forall|i: int|
            0 <= i < stderr@.len() && #[trigger] stderr@[i] == '\n' ==> codes@ == error_codes(
                stderr@.take(i),
            ) + error_codes(stderr@.skip(i + 1)),
{
    let found = regex_group_one(ERROR_CODE_PATTERN, stderr);
    proof {
        if error_codes_readable(stderr@) {
            lemma_readable_texts_are_runs(found@, stderr@);
        }
        assert forall|i: int|
            0 <= i < stderr@.len() && #[trigger] stderr@[i] == '\n' implies (all_u32_decimal(
            error_code_texts(stderr@),
        ) <==> (all_u32_decimal(error_code_texts(stderr@.take(i))) && all_u32_decimal(
            error_code_texts(stderr@.skip(i + 1)),
        ))) by {
            lemma_values_of_joined(
                error_code_texts(stderr@.take(i)),
                error_code_texts(stderr@.skip(i + 1)),
            );
        }
    }
    let mut i: usize = 0;
    while i < found.len()
        invariant
            i <= found@.len(),
            texts(found@) == error_code_texts(stderr@),
            error_codes_readable(stderr@) ==> all_u32_decimal(texts(found@)),
            forall|k: int|
                0 <= k < stderr@.len() && #[trigger] stderr@[k] == '\n' ==> (all_u32_decimal(
                    error_code_texts(stderr@),
                ) <==> (all_u32_decimal(error_code_texts(stderr@.take(k))) && all_u32_decimal(
                    error_code_texts(stderr@.skip(k + 1)),
                ))),
            forall|j: int| 0 <= j < i ==> is_u32_decimal(#[trigger] texts(found@)[j]),
        decreases found@.len() - i,
    {
        assert(texts(found@)[i as int] == found@[i as int]@);
        if parse_decimal_u32(found[i].as_str()).is_none() {
            return None;
        }
        i = i + 1;
    }
    Some(extract(stderr))
}

} // verus!

verus! {

/// Text with no `(` holds no digit runs between parentheses.
proof fn lemma_no_open_paren_no_runs(s: Seq<char>)
    requires
        forall|i: int| 0 <= i < s.len() ==> #[trigger] s[i] != '(',
    ensures
        parenthesized_digit_runs(s) == Seq::<Seq<char>>::empty(),
    decreases s.len(),
{
    if s.len() > 0 {
        assert forall|i: int| 0 <= i < s.drop_first().len() implies #[trigger] s.drop_first()[i]
            != '(' by {
            assert(s.drop_first()[i] == s[i + 1]);
        }
        lemma_no_open_paren_no_runs(s.drop_first());
        assert(s[0] != '(');
    }
}

/// A stderr with no `(` holds no error numbers.
pub proof fn law_no_parentheses_no_codes(stderr: Seq<char>)
    requires
        forall|i: int| 0 <= i < stderr.len() ==> #[trigger] stderr[i] != '(',
    ensures
        decimal_values(parenthesized_digit_runs(stderr)) == Seq::<u32>::empty(),
{
    lemma_no_open_paren_no_runs(stderr);
    assert(decimal_values(parenthesized_digit_runs(stderr)) == Seq::<u32>::empty());
}

/// A run of leading digits stops at a line break.
proof fn lemma_digit_run_stops_at_newline(x: Seq<char>, y: Seq<char>)
    ensures
        digit_run_len(x + seq!['\n'] + y) == digit_run_len(x),
        digit_run_len(x) <= x.len(),
    decreases x.len(),
{
    let s = x + seq!['\n'] + y;
    if x.len() == 0 {
        assert(s[0] == '\n');
    } else {
        assert(s[0] == x[0]);
        assert(s.drop_first() == x.drop_first() + seq!['\n'] + y);
        lemma_digit_run_stops_at_newline(x.drop_first(), y);
    }
}

/// The digit runs of two lines joined by a line break are those of the first
/// line followed by those of the second.
proof fn lemma_runs_of_joined_lines(a: Seq<char>, b: Seq<char>)
    ensures
        parenthesized_digit_runs(a + seq!['\n'] + b) == parenthesized_digit_runs(a)
            + parenthesized_digit_runs(b),
    decreases a.len(),
{
    let s = a + seq!['\n'] + b;
    if a.len() == 0 {
        assert(s[0] == '\n');
        assert(s.drop_first() == b);
        assert(parenthesized_digit_runs(a) == Seq::<Seq<char>>::empty());
        assert(parenthesized_digit_runs(b) + Seq::<Seq<char>>::empty() == parenthesized_digit_runs(b));
        assert(Seq::<Seq<char>>::empty() + parenthesized_digit_runs(b) == parenthesized_digit_runs(b));
    } else {
        let rest = a.drop_first();
        assert(s.drop_first() == rest + seq!['\n'] + b);
        lemma_runs_of_joined_lines(rest, b);
        lemma_digit_run_stops_at_newline(rest, b);
        let n = digit_run_len(rest) as int;
        assert(digit_run_len(s.drop_first()) == n);
        assert(s[0] == a[0]);
        if n + 1 < a.len() {
            assert(s[n + 1] == a[n + 1]);
            assert(s.subrange(1, n + 1) == a.subrange(1, n + 1));
        } else {
            assert(s[n + 1] == '\n');
        }
        let ra = parenthesized_digit_runs(rest);
        let rb = parenthesized_digit_runs(b);
        if a[0] == '(' && n > 0 && n + 1 < a.len() && a[n + 1] == ')' {
            assert(seq![a.subrange(1, n + 1)] + (ra + rb) == (seq![a.subrange(1, n + 1)] + ra) + rb);
        }
    }
}

/// The values of the digit runs between parentheses of two lines joined by a line
/// break are those of the first line followed by those of the second. (Where
/// `extract` accepts a text these values are its error numbers; its own contract
/// states the same split of the numbers it returns.)
pub proof fn law_codes_of_joined_lines(a: Seq<char>, b: Seq<char>)
    ensures
        decimal_values(parenthesized_digit_runs(a + seq!['\n'] + b)) == decimal_values(
            parenthesized_digit_runs(a),
        ) + decimal_values(parenthesized_digit_runs(b)),
{
    lemma_runs_of_joined_lines(a, b);
    assert(decimal_values(parenthesized_digit_runs(a) + parenthesized_digit_runs(b))
        == decimal_values(parenthesized_digit_runs(a)) + decimal_values(
        parenthesized_digit_runs(b),
    ));
}

/// How many `(` the text holds.
pub open spec fn count_open_parens(s: Seq<char>) -> nat
    decreases s.len(),
{
    if s.len() == 0 {
        0
    } else {
        count_open_parens(s.drop_first()) + if s[0] == '(' {
            1nat
        } else {
            0nat
        }
    }
}

/// The leading digit run of `t` is made of ASCII digits and is followed by a
/// character that is not one.
proof fn lemma_digit_run(t: Seq<char>)
    ensures
        digit_run_len(t) <= t.len(),
        all_ascii_digits(t.take(digit_run_len(t) as int)),
    decreases t.len(),
{
    if t.len() > 0 && is_ascii_digit(t[0]) {
        lemma_digit_run(t.drop_first());
        let n = digit_run_len(t) as int;
        assert forall|i: int| 0 <= i < n implies is_ascii_digit(#[trigger] t.take(n)[i]) by {
            if i > 0 {
                assert(t.take(n)[i] == t.drop_first().take(n - 1)[i - 1]);
            }
        }
    }
}

/// Each digit run between parentheses comes from a `(`, one or more ASCII digits,
/// and a `)`: every run is non-empty and all digits, and there are no more of them
/// than there are `(` in the text. (Where `extract` accepts a text, its error
/// numbers are the values of these runs.)
pub proof fn law_digit_runs_shape(s: Seq<char>)
    ensures
        parenthesized_digit_runs(s).len() <= count_open_parens(s),
        forall|i: int|
            0 <= i < parenthesized_digit_runs(s).len() ==> #[trigger] parenthesized_digit_runs(
                s,
            )[i].len() > 0 && all_ascii_digits(parenthesized_digit_runs(s)[i]),
    decreases s.len(),
{
    if s.len() > 0 {
        law_digit_runs_shape(s.drop_first());
        lemma_digit_run(s.drop_first());
        let n = digit_run_len(s.drop_first()) as int;
        let rest = parenthesized_digit_runs(s.drop_first());
        if s[0] == '(' && n > 0 && n + 1 < s.len() && s[n + 1] == ')' {
            let run = s.subrange(1, n + 1);
            assert(run == s.drop_first().take(n));
            let all = seq![run] + rest;
            assert forall|i: int| 0 <= i < all.len() implies #[trigger] all[i].len() > 0
                && all_ascii_digits(all[i]) by {
                if i > 0 {
                    assert(all[i] == rest[i - 1]);
                }
            }
        }
    }
}

} // verus!

verus! {

/// A run of `k` ASCII digits followed by a character that is not one has a
/// leading digit run of length `k`.
proof fn lemma_digit_run_len_exact(t: Seq<char>, k: int)
    requires
        0 <= k < t.len(),
        forall|j: int| 0 <= j < k ==> is_ascii_digit(#[trigger] t[j]),
        !is_ascii_digit(t[k]),
    ensures
        digit_run_len(t) == k,
    decreases k,
{
    if k > 0 {
        assert forall|j: int| 0 <= j < k - 1 implies is_ascii_digit(#[trigger] t.drop_first()[j]) by {
            assert(t.drop_first()[j] == t[j + 1]);
        }
        assert(t.drop_first()[k - 1] == t[k]);
        assert(is_ascii_digit(t[0]));
        lemma_digit_run_len_exact(t.drop_first(), k - 1);
    }
}

/// Every `(`, one or more ASCII digits, `)` in a text gives its digits as one of
/// the text's digit runs between parentheses.
pub proof fn law_every_parenthesized_number_found(s: Seq<char>, i: int, j: int)
    requires
        0 <= i,
        i + 1 < j < s.len(),
        s[i] == '(',
        s[j] == ')',
        forall|k: int| i < k < j ==> is_ascii_digit(#[trigger] s[k]),
    ensures
        parenthesized_digit_runs(s).contains(s.subrange(i + 1, j)),
    decreases i,
{
    let rest = s.drop_first();
    if i == 0 {
        assert forall|k: int| 0 <= k < j - 1 implies is_ascii_digit(#[trigger] rest[k]) by {
            assert(rest[k] == s[k + 1]);
        }
        assert(rest[j - 1] == ')');
        lemma_digit_run_len_exact(rest, j - 1);
        assert(parenthesized_digit_runs(s)[0] == s.subrange(1, j));
    } else {
        assert forall|k: int| i - 1 < k < j - 1 implies is_ascii_digit(#[trigger] rest[k]) by {
            assert(rest[k] == s[k + 1]);
        }
        law_every_parenthesized_number_found(rest, i - 1, j - 1);
        assert(rest.subrange(i, j - 1) == s.subrange(i + 1, j));
        let runs = parenthesized_digit_runs(rest);
        let m = choose|m: int| 0 <= m < runs.len() && runs[m] == s.subrange(i + 1, j);
        let n = digit_run_len(rest) as int;
        if s[0] == '(' && n > 0 && n + 1 < s.len() && s[n + 1] == ')' {
            assert(parenthesized_digit_runs(s)[m + 1] == s.subrange(i + 1, j));
        } else {
            assert(parenthesized_digit_runs(s)[m] == s.subrange(i + 1, j));
        }
    }
}

} // verus!
