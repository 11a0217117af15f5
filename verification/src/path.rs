//! Unix paths held as text, read the way `std::path` reads them on Unix:
//! their components, their parent, and joining one path onto another.
use vstd::prelude::*;
use vstd::string::StrSliceExecFns;
use vstd::string::StringExecFns;

use crate::text::chars_of;

verus! {

/// `t` cut at every `sep`, as `str::split` cuts it: always at least one piece,
/// and an empty piece wherever two separators meet or `t` starts or ends with one.
pub open spec fn split_at(t: Seq<char>, sep: char) -> Seq<Seq<char>>
    decreases t.len(),
{
    if t.len() == 0 {
        seq![Seq::<char>::empty()]
    } else {
        let pieces = split_at(t.drop_last(), sep);
        if t.last() == sep {
            pieces.push(Seq::<char>::empty())
        } else {
            pieces.update(pieces.len() - 1, pieces.last().push(t.last()))
        }
    }
}

/// The path starts at the root directory.
pub open spec fn has_root(s: Seq<char>) -> bool {
    s.len() > 0 && s[0] == '/'
}

/// A relative path that starts with the segment `.`, which std keeps as a `CurDir` component.
pub open spec fn has_leading_cur_dir(s: Seq<char>) -> bool {
    !has_root(s) && s.len() > 0 && s[0] == '.' && (s.len() == 1 || s[1] == '/')
}

/// Where the body of the path (what follows the root or the leading `.`) begins.
pub open spec fn body_start(s: Seq<char>) -> int {
    if has_root(s) || has_leading_cur_dir(s) {
        1
    } else {
        0
    }
}

/// A segment between separators that std reports as a component: not empty and not `.`.
pub open spec fn is_meaningful(seg: Seq<char>) -> bool {
    seg.len() > 0 && seg != seq!['.']
}

/// The meaningful segments among `segs`, in order.
pub open spec fn meaningful(segs: Seq<Seq<char>>) -> Seq<Seq<char>>
    decreases segs.len(),
{
    if segs.len() == 0 {
        Seq::empty()
    } else if is_meaningful(segs.last()) {
        meaningful(segs.drop_last()).push(segs.last())
    } else {
        meaningful(segs.drop_last())
    }
}

/// The components of the path, each written as `Component::as_os_str` writes it:
/// `/` for the root, `.` for a leading current directory, `..` for a parent
/// directory, and the segment itself otherwise.
pub open spec fn components(s: Seq<char>) -> Seq<Seq<char>> {
    leading_components(s) + meaningful(split_at(s.skip(body_start(s)), '/'))
}

/// The component that comes before the body: the root, a leading `.`, or none.
pub open spec fn leading_components(s: Seq<char>) -> Seq<Seq<char>> {
    if has_root(s) {
        seq![seq!['/']]
    } else if has_leading_cur_dir(s) {
        seq![seq!['.']]
    } else {
        Seq::empty()
    }
}

/// `a` is a prefix of `b`.
pub open spec fn is_prefix(a: Seq<Seq<char>>, b: Seq<Seq<char>>) -> bool {
    a.len() <= b.len() && b.take(a.len() as int) == a
}

/// The index of the last `/` in `p` at or after `b`, or `b - 1` where there is none.
pub open spec fn last_sep(p: Seq<char>, b: int) -> int
    decreases p.len(),
{
    if p.len() == 0 || p.len() <= b {
        b - 1
    } else if p.last() == '/' {
        p.len() - 1
    } else {
        last_sep(p.drop_last(), b)
    }
}

/// What is left of `p` once its last segment after `b`, with the separator before it, is dropped.
pub open spec fn cut_last(p: Seq<char>, b: int) -> int {
    let k = last_sep(p, b);
    if k >= b {
        k
    } else {
        b
    }
}

pub proof fn lemma_last_sep_bounds(p: Seq<char>, b: int)
    requires
        0 <= b <= p.len(),
    ensures
        b - 1 <= last_sep(p, b) < p.len() || (p.len() == b && last_sep(p, b) == b - 1),
        last_sep(p, b) >= b ==> p[last_sep(p, b)] == '/',
        forall|i: int| last_sep(p, b) < i < p.len() && i >= b ==> p[i] != '/',
    decreases p.len(),
{
    if p.len() > b && p.last() != '/' {
        lemma_last_sep_bounds(p.drop_last(), b);
        assert forall|i: int| last_sep(p, b) < i < p.len() && i >= b implies p[i] != '/' by {
            if i < p.len() - 1 {
                assert(p.drop_last()[i] == p[i]);
            }
        }
    }
}

/// The length of `p` once trailing separators and `.` segments after `b` are dropped,
/// as `Components::as_path` drops them at the back.
pub open spec fn trimmed_len(p: Seq<char>, b: int) -> int
    decreases p.len(),
{
    if 0 <= b && b < p.len() {
        let k = last_sep(p, b);
        let seg = p.subrange(k + 1, p.len() as int);
        proof {
            lemma_last_sep_bounds(p, b);
        }
        if is_meaningful(seg) {
            p.len() as int
        } else {
            trimmed_len(p.take(cut_last(p, b)), b)
        }
    } else {
        p.len() as int
    }
}

/// What `Path::parent` returns on Unix: `None` for the root alone and for the
/// empty path; otherwise the path up to its last component, with the separators
/// and `.` segments that then end it dropped.
pub open spec fn parent(s: Seq<char>) -> Option<Seq<char>> {
    let b = body_start(s);
    let t = trimmed_len(s, b);
    if t > b {
        let rest = s.take(t);
        Some(s.take(trimmed_len(rest.take(cut_last(rest, b)), b)))
    } else if has_root(s) {
        None
    } else if has_leading_cur_dir(s) {
        Some(Seq::empty())
    } else {
        None
    }
}

/// The path has a parent that is not the empty path.
pub open spec fn has_nonempty_parent(s: Seq<char>) -> bool {
    match parent(s) {
        Some(p) => p.len() > 0,
        None => false,
    }
}

/// What `Path::join` returns on Unix: an absolute `rel` replaces `base`; otherwise
/// `rel` is appended, with a `/` between where `base` is not empty and does not end in one.
pub open spec fn join(base: Seq<char>, rel: Seq<char>) -> Seq<char> {
    if rel.len() > 0 && rel[0] == '/' {
        rel
    } else if base.len() > 0 && base.last() != '/' {
        base + seq!['/'] + rel
    } else {
        base + rel
    }
}

fn body_start_of(cs: &Vec<char>) -> (b: usize)
    ensures
        b == body_start(cs@),
        b <= cs@.len(),
{
    if cs.len() > 0 && cs[0] == '/' {
        1
    } else if cs.len() > 0 && cs[0] == '.' && (cs.len() == 1 || cs[1] == '/') {
        1
    } else {
        0
    }
}

fn last_sep_of(cs: &Vec<char>, n: usize, b: usize) -> (k: Option<usize>)
    requires
        b <= n <= cs@.len(),
    ensures
        match k {
            Some(k) => last_sep(cs@.take(n as int), b as int) == k && b <= k < n,
            None => last_sep(cs@.take(n as int), b as int) == b - 1,
        },
{
    let mut j: usize = n;
    while j > b
        invariant
            b <= j <= n <= cs@.len(),
            last_sep(cs@.take(n as int), b as int) == last_sep(cs@.take(j as int), b as int),
        decreases j,
    {
        assert(cs@.take(j as int).drop_last() == cs@.take(j - 1));
        if cs[j - 1] == '/' {
            return Some(j - 1);
        }
        j = j - 1;
    }
    None
}

fn trimmed_len_of(cs: &Vec<char>, n: usize, b: usize) -> (t: usize)
    requires
        b <= n <= cs@.len(),
    ensures
        t == trimmed_len(cs@.take(n as int), b as int),
        b <= t <= n,
{
    let mut len: usize = n;
    loop
        invariant
            b <= len <= n <= cs@.len(),
            trimmed_len(cs@.take(n as int), b as int) == trimmed_len(cs@.take(len as int), b as int),
        decreases len,
    {
        if len <= b {
            return len;
        }
        let k = last_sep_of(cs, len, b);
        let ghost p = cs@.take(len as int);
        let start: usize = match k {
            Some(k) => k + 1,
            None => b,
        };
        let seg_len: usize = len - start;
        let meaningful_seg = seg_len > 1 || (seg_len == 1 && cs[start] != '.');
        proof {
            let seg = p.subrange(last_sep(p, b as int) + 1, p.len() as int);
            assert(seg.len() == seg_len);
            if seg_len == 1 {
                assert(seg[0] == cs@[start as int]);
                if cs@[start as int] == '.' {
                    assert(seg == seq!['.']);
                }
            }
            assert(is_meaningful(seg) == meaningful_seg);
        }
        if meaningful_seg {
            return len;
        }
        let cut: usize = match k {
            Some(k) => k,
            None => b,
        };
        assert(p.take(cut as int) == cs@.take(cut as int));
        len = cut;
    }
}

/// The length of the parent of the path with characters `cs`, where it has one.
fn parent_len_of(cs: &Vec<char>) -> (r: Option<usize>)
    ensures
        match r {
            Some(n) => parent(cs@) == Some(cs@.take(n as int)) && n <= cs@.len(),
            None => parent(cs@) is None,
        },
{
    let b = body_start_of(cs);
    let t = trimmed_len_of(cs, cs.len(), b);
    assert(cs@.take(cs@.len() as int) == cs@);
    if t > b {
        let k = last_sep_of(cs, t, b);
        let cut: usize = match k {
            Some(k) => k,
            None => b,
        };
        let ghost rest = cs@.take(t as int);
        assert(rest.take(cut as int) == cs@.take(cut as int));
        let n = trimmed_len_of(cs, cut, b);
        Some(n)
    } else if cs.len() > 0 && cs[0] == '/' {
        None
    } else if cs.len() > 0 && cs[0] == '.' && (cs.len() == 1 || cs[1] == '/') {
        assert(cs@.take(0) == Seq::<char>::empty());
        Some(0)
    } else {
        None
    }
}

/// The character sequences that the vectors in `v` hold.
pub open spec fn char_seqs(v: Seq<Vec<char>>) -> Seq<Seq<char>> {
    v.map_values(|x: Vec<char>| x@)
}

fn is_meaningful_segment(seg: &Vec<char>) -> (r: bool)
    ensures
        r == is_meaningful(seg@),
{
    let r = seg.len() > 1 || (seg.len() == 1 && seg[0] != '.');
    proof {
        if seg@.len() == 1 && seg@[0] == '.' {
            assert(seg@ == seq!['.']);
        }
    }
    r
}

/// The components of `path`, as `Path::components` yields them on Unix, each
/// written out as `Component::as_os_str` writes it.
pub fn components_of(path: &str) -> (r: Vec<Vec<char>>)
    ensures
        char_seqs(r@) == components(path@),
{
    let cs = chars_of(path);
    components_of_chars(&cs)
}

/// The components of the path whose characters are `cs`.
pub fn components_of_chars(cs: &Vec<char>) -> (r: Vec<Vec<char>>)
    ensures
        char_seqs(r@) == components(cs@),
{
    let ghost path = cs@;
    let b = body_start_of(cs);
    let mut out: Vec<Vec<char>> = Vec::new();
    if b == 1 {
        let mut first: Vec<char> = Vec::new();
        first.push(cs[0]);
        out.push(first);
        assert(char_seqs(out@) == seq![seq![cs@[0]]]);
    } else {
        assert(char_seqs(out@) == Seq::<Seq<char>>::empty());
    }
    let ghost head = char_seqs(out@);
    assert(head == leading_components(path));
    let mut cur: Vec<char> = Vec::new();
    let mut i: usize = b;
    assert(cs@.subrange(b as int, b as int) == Seq::<char>::empty());
    while i < cs.len()
        invariant
            b <= i <= cs@.len(),
            b == body_start(cs@),
            cs@ == path,
            head == leading_components(path),
            split_at(cs@.subrange(b as int, i as int), '/').len() >= 1,
            char_seqs(out@) == head + meaningful(
                split_at(cs@.subrange(b as int, i as int), '/').drop_last(),
            ),
            cur@ == split_at(cs@.subrange(b as int, i as int), '/').last(),
        decreases cs@.len() - i,
    {
        let ghost t = cs@.subrange(b as int, i + 1);
        let ghost before = split_at(cs@.subrange(b as int, i as int), '/');
        assert(t.drop_last() == cs@.subrange(b as int, i as int));
        assert(t.last() == cs@[i as int]);
        if cs[i] == '/' {
            assert(split_at(t, '/') == before.push(Seq::<char>::empty()));
            assert(split_at(t, '/').drop_last() == before);
            assert(before.drop_last() == before.take(before.len() - 1));
            if is_meaningful_segment(&cur) {
                let ghost prev = out@;
                out.push(cur);
                assert(char_seqs(out@) == char_seqs(prev).push(before.last()));
            }
            cur = Vec::new();
        } else {
            let ghost after = before.update(before.len() - 1, before.last().push(cs@[i as int]));
            assert(split_at(t, '/') == after);
            assert(after.drop_last() == before.drop_last());
            cur.push(cs[i]);
        }
        i = i + 1;
    }
    let ghost pieces = split_at(cs@.subrange(b as int, cs@.len() as int), '/');
    assert(cs@.subrange(b as int, cs@.len() as int) == path.skip(b as int));
    if is_meaningful_segment(&cur) {
        let ghost prev = out@;
        out.push(cur);
        assert(char_seqs(out@) == char_seqs(prev).push(pieces.last()));
    }
    assert(pieces.drop_last() == pieces.take(pieces.len() - 1));
    out
}

fn same_chars(a: &Vec<char>, b: &Vec<char>) -> (r: bool)
    ensures
        r == (a@ == b@),
{
    if a.len() != b.len() {
        return false;
    }
    let mut i: usize = 0;
    while i < a.len()
        invariant
            a@.len() == b@.len(),
            i <= a@.len(),
            forall|j: int| 0 <= j < i ==> a@[j] == b@[j],
        decreases a@.len() - i,
    {
        if a[i] != b[i] {
            return false;
        }
        i = i + 1;
    }
    assert(a@ == b@);
    true
}

/// Whether the component list `a` begins the component list `b`, as
/// `Path::starts_with` decides it.
pub fn components_prefix(a: &Vec<Vec<char>>, b: &Vec<Vec<char>>) -> (r: bool)
    ensures
        r == is_prefix(char_seqs(a@), char_seqs(b@)),
{
    if a.len() > b.len() {
        return false;
    }
    let mut i: usize = 0;
    while i < a.len()
        invariant
            a@.len() <= b@.len(),
            i <= a@.len(),
            forall|j: int| 0 <= j < i ==> a@[j]@ == b@[j]@,
        decreases a@.len() - i,
    {
        if !same_chars(&a[i], &b[i]) {
            assert(char_seqs(b@).take(a@.len() as int)[i as int] == b@[i as int]@);
            return false;
        }
        i = i + 1;
    }
    assert(char_seqs(b@).take(a@.len() as int) == char_seqs(a@));
    true
}

/// Whether the two component lists are the same, as `==` on `Path` decides it.
pub fn components_equal(a: &Vec<Vec<char>>, b: &Vec<Vec<char>>) -> (r: bool)
    ensures
        r == (char_seqs(a@) == char_seqs(b@)),
{
    let r = a.len() == b.len() && components_prefix(a, b);
    proof {
        if r || char_seqs(a@) == char_seqs(b@) {
            assert(char_seqs(b@).take(char_seqs(a@).len() as int) == char_seqs(b@));
        }
    }
    r
}

/// `rel` joined onto `base`, as `Path::join` joins them on Unix.
pub fn join_path(base: &str, rel: &str) -> (r: String)
    ensures
        r@ == join(base@, rel@),
{
    let rel_len = rel.unicode_len();
    if rel_len > 0 && rel.get_char(0) == '/' {
        return String::from_str(rel);
    }
    let base_len = base.unicode_len();
    let mut r = String::from_str(base);
    if base_len > 0 && base.get_char(base_len - 1) != '/' {
        r.append("/");
        proof {
            reveal_strlit("/");
        }
    }
    r.append(rel);
    r
}

/// The parent of `path`, as `Path::parent` gives it on Unix.
pub fn parent_of(path: &str) -> (r: Option<&str>)
    ensures
        match r {
            Some(p) => parent(path@) == Some(p@),
            None => parent(path@) is None,
        },
{
    let cs = chars_of(path);
    match parent_len_of(&cs) {
        Some(n) => Some(path.substring_char(0, n)),
        None => None,
    }
}

} // verus!

verus! {

/// The path that collecting the components `cs` into a `PathBuf` gives: each
/// pushed in turn, as `Path::join` joins them.
pub open spec fn collect(cs: Seq<Seq<char>>) -> Seq<char>
    decreases cs.len(),
{
    if cs.len() == 0 {
        Seq::empty()
    } else {
        join(collect(cs.drop_last()), cs.last())
    }
}

/// A segment holds no separator.
pub open spec fn no_sep(seg: Seq<char>) -> bool {
    forall|i: int| 0 <= i < seg.len() ==> #[trigger] seg[i] != '/'
}

/// Segments that are each a component of a path's body: meaningful, with no separator.
pub open spec fn body_segments(segs: Seq<Seq<char>>) -> bool {
    forall|i: int| 0 <= i < segs.len() ==> is_meaningful(#[trigger] segs[i]) && no_sep(segs[i])
}

/// The segments written one after another with a `/` between each two.
pub open spec fn joined(segs: Seq<Seq<char>>) -> Seq<char>
    decreases segs.len(),
{
    if segs.len() == 0 {
        Seq::empty()
    } else if segs.len() == 1 {
        segs[0]
    } else {
        joined(segs.drop_last()) + seq!['/'] + segs.last()
    }
}

/// `split_at` never yields an empty list of pieces.
pub proof fn lemma_split_at_nonempty(t: Seq<char>, sep: char)
    ensures
        split_at(t, sep).len() >= 1,
    decreases t.len(),
{
    if t.len() > 0 {
        lemma_split_at_nonempty(t.drop_last(), sep);
    }
}

/// Appending text with no separator lengthens the last piece.
proof fn lemma_split_append_segment(t: Seq<char>, seg: Seq<char>)
    requires
        no_sep(seg),
    ensures
        split_at(t + seg, '/') == split_at(t, '/').update(
            split_at(t, '/').len() - 1,
            split_at(t, '/').last() + seg,
        ),
    decreases seg.len(),
{
    lemma_split_at_nonempty(t, '/');
    let pieces = split_at(t, '/');
    if seg.len() == 0 {
        assert(t + seg == t);
        assert(pieces.last() + seg == pieces.last());
        assert(pieces.update(pieces.len() - 1, pieces.last()) == pieces);
    } else {
        let front = seg.drop_last();
        assert(no_sep(front)) by {
            assert forall|i: int| 0 <= i < front.len() implies #[trigger] front[i] != '/' by {
                assert(front[i] == seg[i]);
            }
        }
        lemma_split_append_segment(t, front);
        assert((t + seg).drop_last() == t + front);
        assert((t + seg).last() == seg.last());
        assert(seg.last() != '/');
        assert((pieces.last() + front).push(seg.last()) == pieces.last() + seg);
        let updated = pieces.update(pieces.len() - 1, pieces.last() + front);
        assert(updated.update(updated.len() - 1, updated.last().push(seg.last())) == pieces.update(
            pieces.len() - 1,
            pieces.last() + seg,
        ));
    }
}

/// The pieces of a text followed by `/` and then joined body segments are the
/// pieces of the text followed by those segments.
proof fn lemma_split_after_sep_joined(t: Seq<char>, segs: Seq<Seq<char>>)
    requires
        segs.len() >= 1,
        body_segments(segs),
    ensures
        split_at(t.push('/') + joined(segs), '/') == split_at(t, '/') + segs,
    decreases segs.len(),
{
    let sep_pieces = split_at(t.push('/'), '/');
    assert(t.push('/').drop_last() == t);
    assert(sep_pieces == split_at(t, '/').push(Seq::<char>::empty()));
    if segs.len() == 1 {
        assert(no_sep(segs[0]));
        lemma_split_append_segment(t.push('/'), segs[0]);
        assert(Seq::<char>::empty() + segs[0] == segs[0]);
        assert(split_at(t, '/').push(Seq::<char>::empty()).update(
            split_at(t, '/').len() as int,
            segs[0],
        ) == split_at(t, '/') + segs);
    } else {
        let front = segs.drop_last();
        assert(body_segments(front)) by {
            assert forall|i: int| 0 <= i < front.len() implies is_meaningful(#[trigger] front[i])
                && no_sep(front[i]) by {
                assert(front[i] == segs[i]);
            }
        }
        assert(is_meaningful(segs[segs.len() - 1]) && no_sep(segs[segs.len() - 1]));
        lemma_split_after_sep_joined(t, front);
        let u = t.push('/') + joined(front);
        assert(t.push('/') + joined(segs) == u.push('/') + segs.last());
        assert(u.push('/').drop_last() == u);
        lemma_split_append_segment(u.push('/'), segs.last());
        let p = split_at(t, '/') + front;
        assert(split_at(u.push('/'), '/') == p.push(Seq::<char>::empty()));
        assert(Seq::<char>::empty() + segs.last() == segs.last());
        assert(p.push(Seq::<char>::empty()).update(p.len() as int, segs.last()) == split_at(t, '/')
            + segs);
    }
}

/// The pieces of joined body segments are those segments.
proof fn lemma_split_joined(segs: Seq<Seq<char>>)
    requires
        segs.len() >= 1,
        body_segments(segs),
    ensures
        split_at(joined(segs), '/') == segs,
{
    if segs.len() == 1 {
        assert(no_sep(segs[0]));
        lemma_split_append_segment(Seq::empty(), segs[0]);
        assert(Seq::<char>::empty() + segs[0] == segs[0]);
        assert(seq![Seq::<char>::empty()].update(0, segs[0]) == segs);
    } else {
        let front = segs.drop_last();
        assert(body_segments(front)) by {
            assert forall|i: int| 0 <= i < front.len() implies is_meaningful(#[trigger] front[i])
                && no_sep(front[i]) by {
                assert(front[i] == segs[i]);
            }
        }
        assert(is_meaningful(segs[segs.len() - 1]) && no_sep(segs[segs.len() - 1]));
        lemma_split_joined_front(front, segs.last());
        assert(front.push(segs.last()) == segs);
    }
}

proof fn lemma_split_joined_front(front: Seq<Seq<char>>, last: Seq<char>)
    requires
        front.len() >= 1,
        body_segments(front),
        no_sep(last),
    ensures
        split_at(joined(front.push(last)), '/') == front.push(last),
    decreases front.len(),
{
    let segs = front.push(last);
    assert(segs.drop_last() == front);
    assert(joined(segs) == joined(front).push('/') + last);
    if front.len() == 1 {
        assert(no_sep(front[0]));
        lemma_split_append_segment(Seq::empty(), front[0]);
        assert(Seq::<char>::empty() + front[0] == front[0]);
        assert(split_at(front[0], '/') == front) by {
            assert(seq![Seq::<char>::empty()].update(0, front[0]) == front);
        }
    } else {
        let ff = front.drop_last();
        assert(body_segments(ff)) by {
            assert forall|i: int| 0 <= i < ff.len() implies is_meaningful(#[trigger] ff[i])
                && no_sep(ff[i]) by {
                assert(ff[i] == front[i]);
            }
        }
        assert(no_sep(front.last()));
        lemma_split_joined_front(ff, front.last());
        assert(ff.push(front.last()) == front);
    }
    assert(joined(front).push('/').drop_last() == joined(front));
    lemma_split_append_segment(joined(front).push('/'), last);
    assert(Seq::<char>::empty() + last == last);
    assert(front.push(Seq::<char>::empty()).update(front.len() as int, last) == segs);
}

/// Keeping the meaningful segments of a concatenation keeps those of each part.
proof fn lemma_meaningful_concat(x: Seq<Seq<char>>, y: Seq<Seq<char>>)
    ensures
        meaningful(x + y) == meaningful(x) + meaningful(y),
    decreases y.len(),
{
    if y.len() == 0 {
        assert(x + y == x);
        assert(meaningful(x) + Seq::<Seq<char>>::empty() == meaningful(x));
    } else {
        assert((x + y).drop_last() == x + y.drop_last());
        assert((x + y).last() == y.last());
        lemma_meaningful_concat(x, y.drop_last());
        if is_meaningful(y.last()) {
            assert((meaningful(x) + meaningful(y.drop_last())).push(y.last()) == meaningful(x)
                + meaningful(y.drop_last()).push(y.last()));
        }
    }
}

/// Segments that are all meaningful are kept whole.
proof fn lemma_meaningful_all(segs: Seq<Seq<char>>)
    requires
        body_segments(segs),
    ensures
        meaningful(segs) == segs,
    decreases segs.len(),
{
    if segs.len() > 0 {
        let front = segs.drop_last();
        assert(body_segments(front)) by {
            assert forall|i: int| 0 <= i < front.len() implies is_meaningful(#[trigger] front[i])
                && no_sep(front[i]) by {
                assert(front[i] == segs[i]);
            }
        }
        assert(is_meaningful(segs[segs.len() - 1]));
        lemma_meaningful_all(front);
        assert(front.push(segs.last()) == segs);
    }
}

/// The pieces that `/` cuts hold no `/`.
proof fn lemma_split_no_sep(t: Seq<char>)
    ensures
        forall|i: int| 0 <= i < split_at(t, '/').len() ==> no_sep(#[trigger] split_at(t, '/')[i]),
    decreases t.len(),
{
    if t.len() > 0 {
        lemma_split_no_sep(t.drop_last());
        lemma_split_at_nonempty(t.drop_last(), '/');
        let pieces = split_at(t.drop_last(), '/');
        if t.last() != '/' {
            let grown = pieces.last().push(t.last());
            assert(no_sep(pieces[pieces.len() - 1]));
            assert forall|k: int| 0 <= k < grown.len() implies #[trigger] grown[k] != '/' by {
                if k < grown.len() - 1 {
                    assert(grown[k] == pieces[pieces.len() - 1][k]);
                }
            }
        }
        assert forall|i: int| 0 <= i < split_at(t, '/').len() implies no_sep(
            #[trigger] split_at(t, '/')[i],
        ) by {
            if t.last() == '/' {
                if i < pieces.len() {
                    assert(split_at(t, '/')[i] == pieces[i]);
                }
            } else if i < pieces.len() - 1 {
                assert(split_at(t, '/')[i] == pieces[i]);
            }
        }
    }
}

/// The meaningful pieces of a list whose pieces hold no `/` are body segments.
proof fn lemma_meaningful_body(segs: Seq<Seq<char>>)
    requires
        forall|i: int| 0 <= i < segs.len() ==> no_sep(#[trigger] segs[i]),
    ensures
        body_segments(meaningful(segs)),
    decreases segs.len(),
{
    if segs.len() > 0 {
        let front = segs.drop_last();
        assert forall|i: int| 0 <= i < front.len() implies no_sep(#[trigger] front[i]) by {
            assert(front[i] == segs[i]);
        }
        assert(no_sep(segs[segs.len() - 1]));
        lemma_meaningful_body(front);
        let m = meaningful(front);
        if is_meaningful(segs.last()) {
            assert forall|i: int| 0 <= i < m.push(segs.last()).len() implies is_meaningful(
                #[trigger] m.push(segs.last())[i],
            ) && no_sep(m.push(segs.last())[i]) by {
                if i < m.len() {
                    assert(m.push(segs.last())[i] == m[i]);
                }
            }
        }
    }
}

/// Joined body segments start with the first segment.
proof fn lemma_joined_starts(segs: Seq<Seq<char>>)
    requires
        segs.len() >= 1,
    ensures
        joined(segs).len() >= segs[0].len(),
        joined(segs).take(segs[0].len() as int) == segs[0],
        segs[segs.len() - 1].len() > 0 ==> joined(segs).len() > 0 && joined(segs).last()
            == segs[segs.len() - 1].last(),
    decreases segs.len(),
{
    if segs.len() > 1 {
        let front = segs.drop_last();
        lemma_joined_starts(front);
        assert(front[0] == segs[0]);
        let j = joined(front) + seq!['/'] + segs.last();
        assert(j.take(segs[0].len() as int) == joined(front).take(segs[0].len() as int));
    } else {
        assert(segs[0].take(segs[0].len() as int) == segs[0]);
    }
}

/// The text of a path with the leading component `lead` and the body segments `body`.
pub open spec fn path_text(lead: Seq<Seq<char>>, body: Seq<Seq<char>>) -> Seq<char> {
    if lead == seq![seq!['/']] {
        seq!['/'] + joined(body)
    } else if lead == seq![seq!['.']] && body.len() > 0 {
        seq!['.', '/'] + joined(body)
    } else if lead == seq![seq!['.']] {
        seq!['.']
    } else {
        joined(body)
    }
}

/// The leading component is the root, a current directory, or nothing.
pub open spec fn is_lead(lead: Seq<Seq<char>>) -> bool {
    lead == seq![seq!['/']] || lead == seq![seq!['.']] || lead.len() == 0
}

/// Collecting a leading component and body segments writes `path_text`.
proof fn lemma_collect_text(lead: Seq<Seq<char>>, body: Seq<Seq<char>>)
    requires
        is_lead(lead),
        body_segments(body),
    ensures
        collect(lead + body) == path_text(lead, body),
    decreases body.len(),
{
    let e = Seq::<char>::empty();
    if body.len() == 0 {
        assert(lead + body == lead);
        assert(joined(body) == e);
        if lead.len() == 0 {
            assert(collect(lead) == e);
        } else {
            assert(lead.drop_last() == Seq::<Seq<char>>::empty());
            assert(collect(lead.drop_last()) == e);
            assert(collect(lead) == join(e, lead.last()));
            if lead == seq![seq!['/']] {
                assert(lead.last() == seq!['/']);
                assert(join(e, seq!['/']) == seq!['/']);
                assert(seq!['/'] + e == seq!['/']);
            } else {
                assert(lead.last() == seq!['.']);
                assert(join(e, seq!['.']) == e + seq!['.']);
                assert(e + seq!['.'] == seq!['.']);
            }
        }
    } else {
        let front = body.drop_last();
        let b = body.last();
        assert(body_segments(front)) by {
            assert forall|i: int| 0 <= i < front.len() implies is_meaningful(#[trigger] front[i])
                && no_sep(front[i]) by {
                assert(front[i] == body[i]);
            }
        }
        assert(is_meaningful(body[body.len() - 1]) && no_sep(body[body.len() - 1]));
        assert(b.len() > 0);
        assert(b[0] != '/');
        lemma_collect_text(lead, front);
        assert((lead + body).drop_last() == lead + front);
        assert((lead + body).last() == b);
        let base = path_text(lead, front);
        assert(collect(lead + body) == join(base, b));
        if front.len() > 0 {
            lemma_joined_starts(front);
            assert(front[front.len() - 1].len() > 0);
            assert(body.len() > 1);
            assert(joined(body) == joined(front) + seq!['/'] + b);
            assert(base.len() > 0 && base.last() == joined(front).last());
            assert(no_sep(front[front.len() - 1]));
            assert(base.last() != '/');
            assert(join(base, b) == base + seq!['/'] + b);
            if lead == seq![seq!['/']] {
                assert(base + seq!['/'] + b == seq!['/'] + joined(body));
            } else if lead == seq![seq!['.']] {
                assert(base + seq!['/'] + b == seq!['.', '/'] + joined(body));
            } else {
                assert(base == joined(front));
            }
        } else {
            assert(body.len() == 1);
            assert(joined(body) == b);
            if lead.len() == 0 {
                assert(base == e);
                assert(join(base, b) == e + b);
                assert(e + b == b);
            } else if lead == seq![seq!['/']] {
                assert(base == seq!['/'] + e);
                assert(base == seq!['/']);
                assert(join(base, b) == seq!['/'] + b);
            } else {
                assert(base == seq!['.']);
                assert(join(base, b) == seq!['.'] + seq!['/'] + b);
                assert(seq!['.'] + seq!['/'] + b == seq!['.', '/'] + b);
            }
        }
    }
}

/// An empty path body has no components.
proof fn lemma_empty_body_no_components()
    ensures
        meaningful(split_at(Seq::<char>::empty(), '/')) == Seq::<Seq<char>>::empty(),
{
    let one = split_at(Seq::<char>::empty(), '/');
    assert(one == seq![Seq::<char>::empty()]);
    assert(one.drop_last() == Seq::<Seq<char>>::empty());
    assert(meaningful(Seq::<Seq<char>>::empty()) == Seq::<Seq<char>>::empty());
}

/// The components of `path_text` are the leading component and the body segments.
proof fn lemma_components_of_text(lead: Seq<Seq<char>>, body: Seq<Seq<char>>)
    requires
        is_lead(lead),
        body_segments(body),
    ensures
        components(path_text(lead, body)) == lead + body,
{
    let s = path_text(lead, body);
    let e = Seq::<char>::empty();
    lemma_empty_body_no_components();
    if body.len() > 0 {
        lemma_split_joined(body);
        lemma_meaningful_all(body);
        lemma_joined_starts(body);
        assert(is_meaningful(body[0]) && no_sep(body[0]));
    } else {
        assert(joined(body) == e);
    }
    let body_text = if body.len() > 0 {
        meaningful(split_at(joined(body), '/'))
    } else {
        meaningful(split_at(e, '/'))
    };
    assert(body_text == body);
    if lead == seq![seq!['/']] {
        assert(s == seq!['/'] + joined(body));
        assert(has_root(s));
        assert(leading_components(s) == lead);
        assert(s.skip(1) == joined(body));
        assert(components(s) == lead + body_text);
    } else if lead == seq![seq!['.']] && body.len() > 0 {
        assert(s == seq!['.', '/'] + joined(body));
        assert(s[0] == '.' && s[1] == '/');
        assert(has_leading_cur_dir(s));
        assert(leading_components(s) == lead);
        assert(s.skip(1) == e.push('/') + joined(body));
        lemma_split_after_sep_joined(e, body);
        assert(split_at(s.skip(1), '/') == seq![e] + body);
        lemma_meaningful_concat(seq![e], body);
        assert(meaningful(seq![e]) == Seq::<Seq<char>>::empty());
        assert(Seq::<Seq<char>>::empty() + body == body);
        assert(components(s) == lead + body);
    } else if lead == seq![seq!['.']] {
        assert(s == seq!['.']);
        assert(has_leading_cur_dir(s));
        assert(leading_components(s) == lead);
        assert(s.skip(1) == e);
        assert(components(s) == lead + body_text);
    } else {
        assert(lead.len() == 0);
        assert(lead + body == body);
        assert(s == joined(body));
        if body.len() > 0 {
            assert(s[0] == body[0][0]);
            if body[0].len() > 1 {
                assert(s[1] == body[0][1]);
            }
            if body[0].len() == 1 && body[0][0] == '.' {
                assert(body[0] == seq!['.']);
            }
            assert(!has_root(s));
            assert(!has_leading_cur_dir(s));
        }
        assert(leading_components(s) == Seq::<Seq<char>>::empty());
        assert(s.skip(0) == s);
        assert(components(s) == Seq::<Seq<char>>::empty() + body_text);
        assert(Seq::<Seq<char>>::empty() + body == body);
    }
}

/// Collecting the components of a path into a new path gives a path with the
/// same components.
pub proof fn lemma_components_of_collected(p: Seq<char>)
    ensures
        components(collect(components(p))) == components(p),
{
    let lead = leading_components(p);
    let segs = split_at(p.skip(body_start(p)), '/');
    lemma_split_no_sep(p.skip(body_start(p)));
    lemma_meaningful_body(segs);
    let body = meaningful(segs);
    lemma_collect_text(lead, body);
    lemma_components_of_text(lead, body);
}

} // verus!

verus! {

fn append_chars(out: &mut Vec<char>, src: &Vec<char>)
    ensures
        final(out)@ == old(out)@ + src@,
{
    let ghost start = out@;
    let mut i: usize = 0;
    while i < src.len()
        invariant
            i <= src@.len(),
            out@ == start + src@.take(i as int),
        decreases src@.len() - i,
    {
        out.push(src[i]);
        assert(src@.take(i + 1) == src@.take(i as int).push(src@[i as int]));
        i = i + 1;
    }
    assert(src@.take(src@.len() as int) == src@);
}

/// `rel` joined onto `base`, both given by their characters.
fn join_chars(base: &Vec<char>, rel: &Vec<char>) -> (r: Vec<char>)
    ensures
        r@ == join(base@, rel@),
{
    let mut r: Vec<char> = Vec::new();
    if !(rel.len() > 0 && rel[0] == '/') {
        append_chars(&mut r, base);
        if base.len() > 0 && base[base.len() - 1] != '/' {
            r.push('/');
        }
    }
    append_chars(&mut r, rel);
    proof {
        let e = Seq::<char>::empty();
        if rel@.len() > 0 && rel@[0] == '/' {
            assert(e + rel@ == rel@);
        } else {
            assert(e + base@ == base@);
        }
    }
    r
}

/// The path that collecting the components `comps` into a `PathBuf` gives.
pub fn collect_components(comps: &Vec<Vec<char>>) -> (r: Vec<char>)
    ensures
        r@ == collect(char_seqs(comps@)),
{
    let mut r: Vec<char> = Vec::new();
    let mut i: usize = 0;
    assert(char_seqs(comps@).take(0) == Seq::<Seq<char>>::empty());
    while i < comps.len()
        invariant
            i <= comps@.len(),
            r@ == collect(char_seqs(comps@).take(i as int)),
        decreases comps@.len() - i,
    {
        let ghost done = char_seqs(comps@).take(i + 1);
        assert(done.drop_last() == char_seqs(comps@).take(i as int));
        assert(done.last() == comps@[i as int]@);
        r = join_chars(&r, &comps[i]);
        i = i + 1;
    }
    assert(char_seqs(comps@).take(comps@.len() as int) == char_seqs(comps@));
    r
}

} // verus!
