//! The rsync command line for one backup run.
use vstd::prelude::*;
use vstd::string::StringExecFns;

use crate::config::{snapshots_beside_destination, Config, Versioning};
use crate::path::{join, join_path, parent, parent_of};
use crate::text::{lemma_texts_push, texts};

verus! {

/// Where the snapshot directories of `c` live: the one it names, or `snapshots`
/// beside the destination.
pub open spec fn snapshots_root(c: Config) -> Seq<char> {
    match c.versioning {
        Some(Versioning { snapshots_path: Some(p), .. }) => p@,
        _ => join(parent(c.destination.path@).unwrap(), "snapshots"@),
    }
}

/// The snapshot directory for the run labelled `label`.
pub open spec fn backup_dir(c: Config, label: Seq<char>) -> Seq<char> {
    join(snapshots_root(c), label)
}

/// The destination of `c` has the parent that the snapshot directory needs, where it needs one.
pub open spec fn can_build_argv(c: Config) -> bool {
    snapshots_beside_destination(c) ==> parent(c.destination.path@) is Some
}

/// The rsync arguments for a run of `c` labelled `label`: archive mode, then
/// `--dry-run`, `--delete` for a mirror, the backup options where versioning is on,
/// one `--exclude=` per pattern, the sources in order, and the destination last.
pub open spec fn argv(c: Config, label: Seq<char>, dry_run: bool) -> Seq<Seq<char>> {
    seq!["rsync"@, "-a"@] + (if dry_run {
        seq!["--dry-run"@]
    } else {
        Seq::empty()
    }) + (if c.mirror {
        seq!["--delete"@]
    } else {
        Seq::empty()
    }) + (if c.versioning is Some {
        seq!["--backup"@, "--backup-dir="@ + backup_dir(c, label)]
    } else {
        Seq::empty()
    }) + texts(c.excludes@).map_values(|p: Seq<char>| "--exclude="@ + p) + texts(c.sources@)
        + seq![c.destination.path@]
}

/// The command line that runs rsync for `config`, with the snapshot directory
/// of the run named after `timestamp_label`.
pub fn build_argv(config: &Config, timestamp_label: &str, dry_run: bool) -> (r: Vec<String>)
    requires
        can_build_argv(*config),
    ensures
        texts(r@) == argv(*config, timestamp_label@, dry_run),
{
    let mut argv: Vec<String> = Vec::new();
    argv.push(String::from_str("rsync"));
    argv.push(String::from_str("-a"));
    let ghost mut expected = seq!["rsync"@, "-a"@];
    assert(texts(argv@) == expected);
    if dry_run {
        argv.push(String::from_str("--dry-run"));
        proof { expected = expected.push("--dry-run"@); }
        assert(texts(argv@) == expected);
    }
    let dest = &config.destination.path;
    if config.mirror {
        argv.push(String::from_str("--delete"));
        proof { expected = expected.push("--delete"@); }
        assert(texts(argv@) == expected);
    }
    if let Some(versioning) = &config.versioning {
        let root: String = match &versioning.snapshots_path {
            Some(p) => p.clone(),
            None => join_path(parent_of(dest.as_str()).unwrap(), "snapshots"),
        };
        assert(root@ == snapshots_root(*config));
        let dir = join_path(root.as_str(), timestamp_label);
        argv.push(String::from_str("--backup"));
        let mut flag = String::from_str("--backup-dir=");
        flag.append(dir.as_str());
        argv.push(flag);
        proof {
            expected = expected.push("--backup"@).push("--backup-dir="@ + backup_dir(*config, timestamp_label@));
        }
        assert(texts(argv@) == expected);
    }
    let ghost before_excludes = expected;
    let mut i: usize = 0;
    while i < config.excludes.len()
        invariant
            i <= config.excludes@.len(),
            texts(argv@) == before_excludes + texts(config.excludes@).take(i as int).map_values(
                |p: Seq<char>| "--exclude="@ + p,
            ),
        decreases config.excludes@.len() - i,
    {
        let mut flag = String::from_str("--exclude=");
        flag.append(config.excludes[i].as_str());
        let ghost prev = argv@;
        argv.push(flag);
        proof {
            lemma_texts_push(prev, flag);
            let f = |p: Seq<char>| "--exclude="@ + p;
            let done = texts(config.excludes@).take(i as int);
            assert(texts(config.excludes@).take(i + 1) == done.push(config.excludes@[i as int]@));
            assert(done.push(config.excludes@[i as int]@).map_values(f) == done.map_values(f).push(
                f(config.excludes@[i as int]@),
            ));
            assert(texts(argv@) == before_excludes + texts(config.excludes@).take(i + 1).map_values(
                f,
            ));
        }
        i = i + 1;
    }
    assert(texts(config.excludes@).take(config.excludes@.len() as int) == texts(config.excludes@));
    let ghost before_sources = texts(argv@);
    let mut j: usize = 0;
    while j < config.sources.len()
        invariant
            j <= config.sources@.len(),
            texts(argv@) == before_sources + texts(config.sources@).take(j as int),
        decreases config.sources@.len() - j,
    {
        let src = config.sources[j].clone();
        let ghost prev = argv@;
        argv.push(src);
        proof { lemma_texts_push(prev, src); }
        assert(texts(config.sources@).take(j + 1) == texts(config.sources@).take(j as int).push(
            config.sources@[j as int]@,
        ));
        j = j + 1;
    }
    assert(texts(config.sources@).take(config.sources@.len() as int) == texts(config.sources@));
    let last = dest.clone();
    let ghost prev = argv@;
    argv.push(last);
    proof { lemma_texts_push(prev, last); }
    argv
}

} // verus!

verus! {

/// Every configuration that `validate` accepts can be turned into a command line.
pub proof fn law_valid_config_builds(c: Config)
    requires
        crate::config::validation(c) is Ok,
    ensures
        can_build_argv(c),
{
}

/// The command line starts with `rsync -a` and ends with the sources, in the
/// order the configuration lists them, followed by the destination.
pub proof fn law_argv_shape(c: Config, label: Seq<char>, dry_run: bool)
    ensures
        argv(c, label, dry_run).len() >= 3 + c.sources@.len(),
        argv(c, label, dry_run)[0] == "rsync"@,
        argv(c, label, dry_run)[1] == "-a"@,
        argv(c, label, dry_run).last() == c.destination.path@,
        argv(c, label, dry_run).subrange(
            argv(c, label, dry_run).len() - 1 - c.sources@.len(),
            argv(c, label, dry_run).len() - 1,
        ) == texts(c.sources@),
{
    let a = argv(c, label, dry_run);
    let n = a.len();
    let m = c.sources@.len();
    assert(a.subrange(n - 1 - m, n - 1) == texts(c.sources@));
}

} // verus!

verus! {

/// Where the optional flags start: after `rsync -a` and, on a dry run, `--dry-run`.
pub open spec fn flags_start(dry_run: bool) -> int {
    if dry_run {
        3
    } else {
        2
    }
}

/// Mirroring adds `--delete` right after `-a` and any `--dry-run`, whatever the
/// versioning, and changes nothing else on the command line.
pub proof fn law_mirror_adds_delete(c1: Config, c2: Config, label: Seq<char>, dry_run: bool)
    requires
        c1.mirror,
        !c2.mirror,
        c1.versioning == c2.versioning,
        c1.excludes@ == c2.excludes@,
        c1.sources@ == c2.sources@,
        c1.destination.path@ == c2.destination.path@,
    ensures
        argv(c1, label, dry_run) == argv(c2, label, dry_run).take(flags_start(dry_run)) + seq![
            "--delete"@,
        ] + argv(c2, label, dry_run).skip(flags_start(dry_run)),
        argv(c1, label, dry_run)[flags_start(dry_run)] == "--delete"@,
{
    let k = flags_start(dry_run);
    let head = seq!["rsync"@, "-a"@] + (if dry_run {
        seq!["--dry-run"@]
    } else {
        Seq::empty()
    });
    assert(head.len() == k);
    let v = if c1.versioning is Some {
        seq!["--backup"@, "--backup-dir="@ + backup_dir(c1, label)]
    } else {
        Seq::empty()
    };
    assert(backup_dir(c1, label) == backup_dir(c2, label));
    let tail = v + texts(c1.excludes@).map_values(|p: Seq<char>| "--exclude="@ + p) + texts(
        c1.sources@,
    ) + seq![c1.destination.path@];
    assert(argv(c1, label, dry_run) == head + seq!["--delete"@] + tail);
    assert(argv(c2, label, dry_run) == head + Seq::<Seq<char>>::empty() + tail);
    assert(argv(c2, label, dry_run).take(k) == head);
    assert(argv(c2, label, dry_run).skip(k) == tail);
}

/// A dry run adds `--dry-run` right after `-a` and changes nothing else.
pub proof fn law_dry_run_adds_flag(c: Config, label: Seq<char>)
    ensures
        argv(c, label, true) == argv(c, label, false).take(2) + seq!["--dry-run"@] + argv(
            c,
            label,
            false,
        ).skip(2),
{
    let a = argv(c, label, false);
    let rest = a.skip(2);
    assert(a.take(2) == seq!["rsync"@, "-a"@]);
    assert(argv(c, label, true) == seq!["rsync"@, "-a"@] + seq!["--dry-run"@] + rest);
}

/// Versioning adds `--backup` and `--backup-dir=` with the run's snapshot
/// directory right after the mode flags, whatever the mirroring, and changes
/// nothing else on the command line.
pub proof fn law_versioning_adds_backup(c1: Config, c2: Config, label: Seq<char>, dry_run: bool)
    requires
        c1.versioning is Some,
        c2.versioning is None,
        c1.mirror == c2.mirror,
        c1.excludes@ == c2.excludes@,
        c1.sources@ == c2.sources@,
        c1.destination.path@ == c2.destination.path@,
    ensures
        ({
            let k = flags_start(dry_run) + if c1.mirror {
                1int
            } else {
                0int
            };
            argv(c1, label, dry_run) == argv(c2, label, dry_run).take(k) + seq![
                "--backup"@,
                "--backup-dir="@ + backup_dir(c1, label),
            ] + argv(c2, label, dry_run).skip(k)
        }),
{
    let head = seq!["rsync"@, "-a"@] + (if dry_run {
        seq!["--dry-run"@]
    } else {
        Seq::empty()
    }) + (if c1.mirror {
        seq!["--delete"@]
    } else {
        Seq::empty()
    });
    let tail = texts(c1.excludes@).map_values(|p: Seq<char>| "--exclude="@ + p) + texts(
        c1.sources@,
    ) + seq![c1.destination.path@];
    let b = seq!["--backup"@, "--backup-dir="@ + backup_dir(c1, label)];
    assert(argv(c1, label, dry_run) == head + b + tail);
    assert(argv(c2, label, dry_run) == head + Seq::<Seq<char>>::empty() + tail);
    assert(argv(c2, label, dry_run).take(head.len() as int) == head);
    assert(argv(c2, label, dry_run).skip(head.len() as int) == tail);
}

/// Each exclude pattern appears, in order, as `--exclude=` followed by the
/// pattern, just before the sources.
pub proof fn law_excludes_in_order(c: Config, label: Seq<char>, dry_run: bool, i: int)
    requires
        0 <= i < c.excludes@.len(),
    ensures
        ({
            let a = argv(c, label, dry_run);
            a[a.len() - 1 - c.sources@.len() - c.excludes@.len() + i] == "--exclude="@
                + c.excludes@[i]@
        }),
{
    let a = argv(c, label, dry_run);
    let ex = texts(c.excludes@).map_values(|p: Seq<char>| "--exclude="@ + p);
    let tail = ex + texts(c.sources@) + seq![c.destination.path@];
    let head = a.take(a.len() - tail.len());
    assert(a == head + tail);
    assert(tail[i] == ex[i]);
    assert(ex[i] == "--exclude="@ + c.excludes@[i]@);
}

} // verus!

verus! {

/// The snapshot directory of a run labelled with a relative label is the label
/// inside the directory that the configuration names, or inside `snapshots`
/// next to the destination (in the destination's parent) where it names none.
pub proof fn law_backup_dir_location(c: Config, label: Seq<char>)
    requires
        label.len() > 0,
        label[0] != '/',
    ensures
        (c.versioning matches Some(Versioning { snapshots_path: Some(p), .. }) ==> (p@.len() > 0
            && p@.last() != '/' ==> backup_dir(c, label) == p@ + seq!['/'] + label)),
        (c.versioning matches Some(Versioning { snapshots_path: Some(p), .. }) ==> (p@.len() > 0
            && p@.last() == '/' ==> backup_dir(c, label) == p@ + label)),
        (c.versioning matches Some(Versioning { snapshots_path: None, .. }) ==> (parent(
            c.destination.path@,
        ) matches Some(q) ==> (q.len() > 0 && q.last() != '/' ==> backup_dir(c, label) == q
            + seq!['/'] + "snapshots"@ + seq!['/'] + label))),
        (c.versioning matches Some(Versioning { snapshots_path: None, .. }) ==> (parent(
            c.destination.path@,
        ) == Some(seq!['/']) ==> backup_dir(c, label) == seq!['/'] + "snapshots"@ + seq!['/']
            + label)),
{
    reveal_strlit("snapshots");
    let s = "snapshots"@;
    assert(s.len() == 9 && s[0] == 's' && s.last() == 's');
    match c.versioning {
        Some(Versioning { snapshots_path: None, .. }) => {
            match parent(c.destination.path@) {
                Some(q) => {
                    if q.len() > 0 && q.last() != '/' {
                        assert(join(q, s) == q + seq!['/'] + s);
                        assert((q + seq!['/'] + s).last() == 's');
                    }
                    if q == seq!['/'] {
                        assert(join(q, s) == q + s);
                        assert((q + s).last() == 's');
                    }
                },
                None => {},
            }
        },
        _ => {},
    }
}

} // verus!
