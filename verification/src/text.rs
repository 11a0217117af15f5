use vstd::prelude::*;
use vstd::std_specs::iter::IteratorSpec;

verus! {

/// The texts of a list of strings.
pub open spec fn texts(v: Seq<String>) -> Seq<Seq<char>> {
    v.map_values(|s: String| s@)
}

/// Pushing a string pushes its text.
pub proof fn lemma_texts_push(v: Seq<String>, s: String)
    ensures
        texts(v.push(s)) == texts(v).push(s@),
{
    assert(texts(v.push(s)) == texts(v).push(s@));
}

broadcast use vstd::string::axiom_spec_iter;

/// The characters of `s`, in order.
pub fn chars_of(s: &str) -> (v: Vec<char>)
    ensures
        v@ == s@,
{
    let mut v: Vec<char> = Vec::new();
    for c in it: s.chars()
        invariant
            it.seq() == s@,
            v@ == s@.take(it.index() as int),
    {
        v.push(c);
    }
    assert(v@ == s@.take(s@.len() as int));
    v
}

} // verus!

verus! {

/// An ASCII decimal digit, `0` to `9`.
pub open spec fn is_ascii_digit(c: char) -> bool {
    '0' <= c && c <= '9'
}

/// Every character of `t` is an ASCII decimal digit.
pub open spec fn all_ascii_digits(t: Seq<char>) -> bool {
    forall|i: int| 0 <= i < t.len() ==> is_ascii_digit(#[trigger] t[i])
}

/// The number that the digits `t` write in base ten.
pub open spec fn decimal_value(t: Seq<char>) -> nat
    decreases t.len(),
{
    if t.len() == 0 {
        0
    } else {
        (decimal_value(t.drop_last()) * 10 + (t.last() as nat - '0' as nat)) as nat
    }
}

/// `t` writes, in ASCII decimal digits, a number that fits in a `u32`.
pub open spec fn is_u32_decimal(t: Seq<char>) -> bool {
    t.len() > 0 && all_ascii_digits(t) && decimal_value(t) <= u32::MAX
}

/// A prefix of a run of digits never writes a larger number than the whole run.
pub proof fn lemma_decimal_value_prefix(t: Seq<char>, i: int)
    requires
        all_ascii_digits(t),
        0 <= i <= t.len(),
    ensures
        decimal_value(t.take(i)) <= decimal_value(t),
    decreases t.len(),
{
    if i < t.len() {
        assert(t.drop_last().take(i) == t.take(i));
        assert(all_ascii_digits(t.drop_last())) by {
            assert forall|j: int| 0 <= j < t.drop_last().len() implies is_ascii_digit(
                #[trigger] t.drop_last()[j],
            ) by {
                assert(t.drop_last()[j] == t[j]);
            }
        }
        lemma_decimal_value_prefix(t.drop_last(), i);
    } else {
        assert(t.take(i) == t);
    }
}

/// The number that `text` writes in decimal digits, where it writes one that fits
/// in a `u32`; `None` for an empty text, a character that is not an ASCII digit,
/// or a number above `u32::MAX`.
pub fn parse_decimal_u32(text: &str) -> (r: Option<u32>)
    ensures
        r is Some <==> is_u32_decimal(text@),
        r matches Some(v) ==> v == decimal_value(text@),
{
    let cs = chars_of(text);
    if cs.len() == 0 {
        return None;
    }
    let mut i: usize = 0;
    while i < cs.len()
        invariant
            cs@ == text@,
            i <= cs@.len(),
            forall|j: int| 0 <= j < i ==> is_ascii_digit(#[trigger] cs@[j]),
        decreases cs@.len() - i,
    {
        if !('0' <= cs[i] && cs[i] <= '9') {
            return None;
        }
        i = i + 1;
    }
    assert(all_ascii_digits(text@));
    let mut value: u64 = 0;
    let mut k: usize = 0;
    assert(cs@.take(0) == Seq::<char>::empty());
    while k < cs.len()
        invariant
            cs@ == text@,
            all_ascii_digits(text@),
            k <= cs@.len(),
            value == decimal_value(cs@.take(k as int)),
            value <= u32::MAX,
        decreases cs@.len() - k,
    {
        assert(cs@.take(k + 1).drop_last() == cs@.take(k as int));
        assert(is_ascii_digit(cs@[k as int]));
        let d = (cs[k] as u32 - '0' as u32) as u64;
        value = value * 10 + d;
        if value > 4294967295u64 {
            proof {
                lemma_decimal_value_prefix(text@, k + 1);
            }
            return None;
        }
        k = k + 1;
    }
    assert(cs@.take(cs@.len() as int) == cs@);
    Some(value as u32)
}

/// The number of leading ASCII digits of `t`.
pub open spec fn digit_run_len(t: Seq<char>) -> nat
    decreases t.len(),
{
    if t.len() > 0 && is_ascii_digit(t[0]) {
        1 + digit_run_len(t.drop_first())
    } else {
        0
    }
}

/// For each `(` of `s` in order that one or more ASCII digits and then a `)`
/// follow, those digits.
pub open spec fn parenthesized_digit_runs(s: Seq<char>) -> Seq<Seq<char>>
    decreases s.len(),
{
    if s.len() == 0 {
        Seq::empty()
    } else {
        let rest = parenthesized_digit_runs(s.drop_first());
        let n = digit_run_len(s.drop_first()) as int;
        if s[0] == '(' && n > 0 && n + 1 < s.len() && s[n + 1] == ')' {
            seq![s.subrange(1, n + 1)] + rest
        } else {
            rest
        }
    }
}

/// A line without the `\r` that ends it, where one does.
pub open spec fn without_cr(line: Seq<char>) -> Seq<char> {
    if line.len() > 0 && line.last() == '\r' {
        line.drop_last()
    } else {
        line
    }
}

/// The lines of `s` as `str::lines` yields them: `s` cut at each `\n`, each line
/// that a `\n` ends without its `\r\n` or `\n`, and no empty line after a final `\n`.
pub open spec fn lines(s: Seq<char>) -> Seq<Seq<char>> {
    let pieces = crate::path::split_at(s, '\n');
    let ended = pieces.drop_last().map_values(|l: Seq<char>| without_cr(l));
    if pieces.last().len() == 0 {
        ended
    } else {
        ended.push(pieces.last())
    }
}

/// How many of `ls` are not empty.
pub open spec fn count_nonempty(ls: Seq<Seq<char>>) -> nat
    decreases ls.len(),
{
    if ls.len() == 0 {
        0
    } else {
        count_nonempty(ls.drop_last()) + if ls.last().len() > 0 {
            1nat
        } else {
            0nat
        }
    }
}

/// How many lines of `s`, as `str::lines` yields them, are not empty.
pub fn count_nonempty_lines(s: &str) -> (n: usize)
    ensures
        n == count_nonempty(lines(s@)),
{
    let cs = chars_of(s);
    let mut count: usize = 0;
    let mut cur_len: usize = 0;
    let mut cur_ends_cr = false;
    let mut i: usize = 0;
    assert(cs@.take(0) == Seq::<char>::empty());
    while i < cs.len()
        invariant
            cs@ == s@,
            i <= cs@.len(),
            count + cur_len <= i,
            crate::path::split_at(cs@.take(i as int), '\n').len() >= 1,
            count == count_nonempty(
                crate::path::split_at(cs@.take(i as int), '\n').drop_last().map_values(
                    |l: Seq<char>| without_cr(l),
                ),
            ),
            cur_len == crate::path::split_at(cs@.take(i as int), '\n').last().len(),
            cur_ends_cr == (cur_len > 0 && crate::path::split_at(
                cs@.take(i as int),
                '\n',
            ).last().last() == '\r'),
        decreases cs@.len() - i,
    {
        let ghost t = cs@.take(i + 1);
        let ghost before = crate::path::split_at(cs@.take(i as int), '\n');
        let ghost f = |l: Seq<char>| without_cr(l);
        assert(t.drop_last() == cs@.take(i as int));
        assert(t.last() == cs@[i as int]);
        if cs[i] == '\n' {
            let ghost after = before.push(Seq::<char>::empty());
            assert(crate::path::split_at(t, '\n') == after);
            assert(after.drop_last() == before);
            assert(before.map_values(f) == before.drop_last().map_values(f).push(f(before.last())));
            assert(before.map_values(f).drop_last() == before.drop_last().map_values(f));
            if cur_len > 1 || (cur_len == 1 && !cur_ends_cr) {
                count = count + 1;
            }
            cur_len = 0;
            cur_ends_cr = false;
        } else {
            let ghost after = before.update(before.len() - 1, before.last().push(cs@[i as int]));
            assert(crate::path::split_at(t, '\n') == after);
            assert(after.drop_last() == before.drop_last());
            cur_len = cur_len + 1;
            cur_ends_cr = cs[i] == '\r';
        }
        i = i + 1;
    }
    let ghost pieces = crate::path::split_at(s@, '\n');
    assert(cs@.take(cs@.len() as int) == s@);
    let ghost f = |l: Seq<char>| without_cr(l);
    if cur_len > 0 {
        assert(lines(s@) == pieces.drop_last().map_values(f).push(pieces.last()));
        assert(lines(s@).drop_last() == pieces.drop_last().map_values(f));
        count = count + 1;
    }
    count
}

} // verus!

verus! {

/// A text with no line break is one line, counted where it is not empty.
pub proof fn law_single_line_count(s: Seq<char>)
    requires
        forall|i: int| 0 <= i < s.len() ==> #[trigger] s[i] != '\n',
    ensures
        count_nonempty(lines(s)) == if s.len() > 0 {
            1nat
        } else {
            0nat
        },
{
    lemma_split_without_sep(s);
    let pieces = crate::path::split_at(s, '\n');
    assert(pieces.drop_last() == Seq::<Seq<char>>::empty());
    let f = |l: Seq<char>| without_cr(l);
    assert(pieces.drop_last().map_values(f) == Seq::<Seq<char>>::empty());
    assert(count_nonempty(Seq::<Seq<char>>::empty()) == 0);
    if s.len() > 0 {
        assert(lines(s) == Seq::<Seq<char>>::empty().push(s));
        assert(lines(s).drop_last() == Seq::<Seq<char>>::empty());
    } else {
        assert(lines(s) == Seq::<Seq<char>>::empty());
    }
}

proof fn lemma_split_without_sep(s: Seq<char>)
    requires
        forall|i: int| 0 <= i < s.len() ==> #[trigger] s[i] != '\n',
    ensures
        crate::path::split_at(s, '\n') == seq![s],
    decreases s.len(),
{
    if s.len() > 0 {
        assert forall|i: int| 0 <= i < s.drop_last().len() implies #[trigger] s.drop_last()[i]
            != '\n' by {
            assert(s.drop_last()[i] == s[i]);
        }
        lemma_split_without_sep(s.drop_last());
        assert(s[s.len() - 1] != '\n');
        assert(s.drop_last().push(s.last()) == s);
        assert(seq![s.drop_last()].update(0, s.drop_last().push(s.last())) == seq![s]);
    } else {
        assert(s == Seq::<char>::empty());
    }
}

/// A final line break is optional: ending the text with one more line break adds
/// no line, for a text that does not end in `\r`.
pub proof fn law_final_line_break_optional(s: Seq<char>)
    requires
        s.len() == 0 || s.last() != '\r',
    ensures
        count_nonempty(lines(s.push('\n'))) == count_nonempty(lines(s)),
{
    let t = s.push('\n');
    let pieces = crate::path::split_at(s, '\n');
    crate::path::lemma_split_at_nonempty(s, '\n');
    if s.len() > 0 {
        crate::path::lemma_split_at_nonempty(s.drop_last(), '\n');
    }
    let f = |l: Seq<char>| without_cr(l);
    assert(t.drop_last() == s);
    assert(crate::path::split_at(t, '\n') == pieces.push(Seq::<char>::empty()));
    assert(pieces.push(Seq::<char>::empty()).drop_last() == pieces);
    if s.len() > 0 {
        let before = crate::path::split_at(s.drop_last(), '\n');
        if s.last() != '\n' {
            assert(pieces == before.update(before.len() - 1, before.last().push(s.last())));
            assert(pieces.last() == before.last().push(s.last()));
            assert(pieces.last().last() == s.last());
        } else {
            assert(pieces == before.push(Seq::<char>::empty()));
        }
    } else {
        assert(pieces == seq![Seq::<char>::empty()]);
    }
    assert(without_cr(pieces.last()).len() > 0 <==> pieces.last().len() > 0);
    assert(pieces.map_values(f) == pieces.drop_last().map_values(f).push(f(pieces.last())));
    assert(pieces.map_values(f).drop_last() == pieces.drop_last().map_values(f));
    if pieces.last().len() > 0 {
        assert(lines(s).drop_last() == pieces.drop_last().map_values(f));
        assert(without_cr(pieces.last()) == pieces.last());
    }
}

} // verus!
