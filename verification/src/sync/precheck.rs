//! Refusing a run whose sources and destination lie inside one another.
use vstd::prelude::*;
use vstd::string::StringExecFns;

use crate::text::texts;
use crate::path::{
    char_seqs, collect, collect_components, components, components_equal, components_of,
    components_of_chars, components_prefix, is_prefix, lemma_components_of_collected,
};

verus! {

/// Why a source and the destination cannot be backed up one into the other.
#[derive(Debug, Clone, PartialEq, Eq)]
pub enum PrecheckError {
    SourceEqualsDestination(String),
    SourceContainsDestination { source: String, destination: String },
    DestinationContainsSource { source: String, destination: String },
}

/// How a source path and a destination path lie one inside the other.
#[derive(Debug, Clone, Copy, PartialEq, Eq)]
pub enum Overlap {
    Same,
    SourceContainsDestination,
    DestinationContainsSource,
}

/// How `source` and `destination` overlap, compared component by component,
/// where they do; the first that holds of: the same path, the source a prefix
/// of the destination, the destination a prefix of the source.
pub open spec fn overlap(source: Seq<char>, destination: Seq<char>) -> Option<Overlap> {
    let s = components(source);
    let d = components(destination);
    if s == d {
        Some(Overlap::Same)
    } else if is_prefix(s, d) {
        Some(Overlap::SourceContainsDestination)
    } else if is_prefix(d, s) {
        Some(Overlap::DestinationContainsSource)
    } else {
        None
    }
}

/// The first of `sources` that overlaps `destination`, with its index and how it overlaps.
pub open spec fn first_overlap(sources: Seq<Seq<char>>, destination: Seq<char>) -> Option<(int, Overlap)>
    decreases sources.len(),
{
    if sources.len() == 0 {
        None
    } else {
        match first_overlap(sources.drop_last(), destination) {
            Some(found) => Some(found),
            None => match overlap(sources.last(), destination) {
                Some(k) => Some((sources.len() - 1, k)),
                None => None,
            },
        }
    }
}

/// `e` reports that `source` and `destination` overlap as `kind` says.
pub open spec fn reports(e: PrecheckError, kind: Overlap, source: Seq<char>, destination: Seq<char>) -> bool {
    match e {
        PrecheckError::SourceEqualsDestination(s) => kind == Overlap::Same && s@ == source,
        PrecheckError::SourceContainsDestination { source: s, destination: d } => kind
            == Overlap::SourceContainsDestination && s@ == source && d@ == destination,
        PrecheckError::DestinationContainsSource { source: s, destination: d } => kind
            == Overlap::DestinationContainsSource && s@ == source && d@ == destination,
    }
}

/// No source overlaps the destination exactly when `first_overlap` finds none.
pub proof fn lemma_first_overlap_none(sources: Seq<Seq<char>>, destination: Seq<char>)
    ensures
        first_overlap(sources, destination) is None <==> forall|i: int|
            0 <= i < sources.len() ==> overlap(#[trigger] sources[i], destination) is None,
    decreases sources.len(),
{
    if sources.len() > 0 {
        lemma_first_overlap_none(sources.drop_last(), destination);
        assert forall|i: int| 0 <= i < sources.len() - 1 implies #[trigger] sources[i]
            == sources.drop_last()[i] by {}
    }
}

/// The path written again from its components alone, as collecting them into a
/// `PathBuf` writes it: repeated separators, `.` segments and a trailing `/` dropped.
pub open spec fn normalized(p: Seq<char>) -> Seq<char> {
    collect(components(p))
}

/// The characters of `path` written again from its components alone, as
/// collecting `Path::components` into a `PathBuf` writes them.
pub fn normalize(path: &str) -> (r: Vec<char>)
    ensures
        r@ == normalized(path@),
        components(r@) == components(path@),
{
    let comps = components_of(path);
    proof {
        lemma_components_of_collected(path@);
    }
    collect_components(&comps)
}

/// Checks that no source is the destination, holds it, or lies inside it,
/// comparing paths component by component; reports the first source, in order,
/// that does.
pub fn check(sources: &[String], destination: &str) -> (r: Result<(), PrecheckError>)
    ensures
        match first_overlap(texts(sources@), destination@) {
            None => r is Ok,
            Some((i, kind)) => r matches Err(e) && reports(e, kind, sources@[i]@, destination@),
        },
        r is Ok <==> forall|i: int|
            0 <= i < sources@.len() ==> overlap(#[trigger] sources@[i]@, destination@) is None,
{
    proof {
        lemma_first_overlap_none(texts(sources@), destination@);
        assert forall|i: int| 0 <= i < sources@.len() implies #[trigger] texts(sources@)[i]
            == sources@[i]@ by {}
    }
    let dest = components_of_chars(&normalize(destination));
    let mut i: usize = 0;
    while i < sources.len()
        invariant
            i <= sources@.len(),
            char_seqs(dest@) == components(destination@),
            first_overlap(texts(sources@).take(i as int), destination@) is None,
        decreases sources@.len() - i,
    {
        let ghost prefix = texts(sources@).take(i + 1);
        assert(prefix.drop_last() == texts(sources@).take(i as int));
        assert(prefix.last() == sources@[i as int]@);
        let src = &sources[i];
        let src_n = components_of_chars(&normalize(src.as_str()));
        if components_equal(&src_n, &dest) {
            proof { lemma_first_overlap_prefix(texts(sources@), destination@, i + 1); }
            return Err(PrecheckError::SourceEqualsDestination(src.clone()));
        }
        if components_prefix(&src_n, &dest) {
            proof { lemma_first_overlap_prefix(texts(sources@), destination@, i + 1); }
            return Err(
                PrecheckError::SourceContainsDestination {
                    source: src.clone(),
                    destination: String::from_str(destination),
                },
            );
        }
        if components_prefix(&dest, &src_n) {
            proof { lemma_first_overlap_prefix(texts(sources@), destination@, i + 1); }
            return Err(
                PrecheckError::DestinationContainsSource {
                    source: src.clone(),
                    destination: String::from_str(destination),
                },
            );
        }
        i = i + 1;
    }
    assert(texts(sources@).take(sources@.len() as int) == texts(sources@));
    assert forall|i: int| 0 <= i < sources@.len() implies overlap(
        #[trigger] sources@[i]@,
        destination@,
    ) is None by {
        assert(texts(sources@)[i] == sources@[i]@);
    }
    Ok(())
}

/// Once a prefix of the sources holds an overlap, the whole list has the same first one.
proof fn lemma_first_overlap_prefix(sources: Seq<Seq<char>>, destination: Seq<char>, n: int)
    requires
        0 <= n <= sources.len(),
        first_overlap(sources.take(n), destination) is Some,
    ensures
        first_overlap(sources, destination) == first_overlap(sources.take(n), destination),
    decreases sources.len(),
{
    if n < sources.len() {
        assert(sources.drop_last().take(n) == sources.take(n));
        lemma_first_overlap_prefix(sources.drop_last(), destination, n);
    } else {
        assert(sources.take(n) == sources);
    }
}

} // verus!

verus! {

/// A path and the same path with a `/` added at its end have the same components.
pub proof fn lemma_trailing_separator_components(s: Seq<char>)
    requires
        s.len() > 0,
    ensures
        components(s.push('/')) == components(s),
{
    let t = s.push('/');
    let b = crate::path::body_start(s);
    assert(t[0] == s[0]);
    if s.len() > 1 {
        assert(t[1] == s[1]);
    }
    assert(crate::path::body_start(t) == b);
    assert(crate::path::leading_components(t) == crate::path::leading_components(s));
    assert(t.skip(b) == s.skip(b).push('/'));
    assert(t.skip(b).drop_last() == s.skip(b));
    let segs = crate::path::split_at(s.skip(b), '/');
    assert(crate::path::split_at(t.skip(b), '/') == segs.push(Seq::<char>::empty()));
    assert(segs.push(Seq::<char>::empty()).drop_last() == segs);
}

/// A source written with a trailing `/` overlaps the destination exactly as
/// it does without one, and likewise for the destination.
pub proof fn law_trailing_separator_ignored(source: Seq<char>, destination: Seq<char>)
    requires
        source.len() > 0,
        destination.len() > 0,
    ensures
        overlap(source.push('/'), destination) == overlap(source, destination),
        overlap(source, destination.push('/')) == overlap(source, destination),
{
    lemma_trailing_separator_components(source);
    lemma_trailing_separator_components(destination);
}

/// A source overlaps a destination exactly when, with the two swapped, they
/// still overlap: the same path stays the same, and containment turns around.
pub proof fn law_overlap_symmetric(a: Seq<char>, b: Seq<char>)
    ensures
        overlap(a, b) == Some(Overlap::Same) <==> overlap(b, a) == Some(Overlap::Same),
        overlap(a, b) == Some(Overlap::SourceContainsDestination) <==> overlap(b, a) == Some(
            Overlap::DestinationContainsSource,
        ),
        overlap(a, b) is Some <==> overlap(b, a) is Some,
{
    let ca = components(a);
    let cb = components(b);
    if is_prefix(ca, cb) && is_prefix(cb, ca) {
        assert(ca == cb);
    }
}

/// Normalizing keeps a path's components, and normalizing again changes nothing.
pub proof fn law_normalize_idempotent(p: Seq<char>)
    ensures
        components(normalized(p)) == components(p),
        normalized(normalized(p)) == normalized(p),
{
    lemma_components_of_collected(p);
}

} // verus!

verus! {

/// A source whose components begin the destination's, and are fewer, contains
/// the destination, however many components deeper the destination lies; and a
/// destination whose components begin the source's, and are fewer, contains the
/// source. Paths with the same components are the same location.
pub proof fn law_containment_at_any_depth(s: Seq<char>, d: Seq<char>)
    ensures
        components(s) == components(d) ==> overlap(s, d) == Some(Overlap::Same),
        is_prefix(components(s), components(d)) && components(s).len() < components(d).len()
            ==> overlap(s, d) == Some(Overlap::SourceContainsDestination),
        is_prefix(components(d), components(s)) && components(d).len() < components(s).len()
            ==> overlap(s, d) == Some(Overlap::DestinationContainsSource),
        !is_prefix(components(s), components(d)) && !is_prefix(components(d), components(s))
            ==> overlap(s, d) is None,
{
    let cd = components(d);
    assert(cd.take(cd.len() as int) == cd);
}

/// `check` reports the source that comes first among those that overlap the
/// destination, and how it overlaps.
pub proof fn law_first_overlapping_source_reported(
    sources: Seq<Seq<char>>,
    destination: Seq<char>,
    i: int,
)
    requires
        0 <= i < sources.len(),
        forall|j: int| 0 <= j < i ==> overlap(#[trigger] sources[j], destination) is None,
        overlap(sources[i], destination) is Some,
    ensures
        first_overlap(sources, destination) == Some((i, overlap(sources[i], destination).unwrap())),
{
    lemma_first_overlap_none(sources.take(i), destination);
    assert forall|j: int| 0 <= j < sources.take(i).len() implies overlap(
        #[trigger] sources.take(i)[j],
        destination,
    ) is None by {
        assert(sources.take(i)[j] == sources[j]);
    }
    let prefix = sources.take(i + 1);
    assert(prefix.drop_last() == sources.take(i));
    assert(prefix.last() == sources[i]);
    lemma_first_overlap_prefix(sources, destination, i + 1);
}

} // verus!

verus! {

/// What `check` reports names the source as given and, where it holds one, the
/// destination as given: the source first, the destination second.
pub proof fn law_report_names_paths(
    e: PrecheckError,
    kind: Overlap,
    source: Seq<char>,
    destination: Seq<char>,
)
    requires
        reports(e, kind, source, destination),
    ensures
        kind == Overlap::Same ==> (e is SourceEqualsDestination),
        kind == Overlap::SourceContainsDestination ==> (e is SourceContainsDestination),
        kind == Overlap::DestinationContainsSource ==> (e is DestinationContainsSource),
        e matches PrecheckError::SourceEqualsDestination(s) ==> s@ == source && kind == Overlap::Same,
        e matches PrecheckError::SourceContainsDestination { source: s, destination: d } ==> s@
            == source && d@ == destination && kind == Overlap::SourceContainsDestination,
        e matches PrecheckError::DestinationContainsSource { source: s, destination: d } ==> s@
            == source && d@ == destination && kind == Overlap::DestinationContainsSource,
{
}

} // verus!
