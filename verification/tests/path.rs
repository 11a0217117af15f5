use backup_sync::path::{components_of, join_path, parent_of};
use backup_sync::text::{count_nonempty_lines, parse_decimal_u32};
use std::path::{Component, Path};

const SAMPLES: &[&str] = &[
    "", "/", "//", "a", "/a", "a/", "/a/", "a/b", "/a/b/", "a//b", "./a", ".", "./", "..",
    "../a", "a/..", "a/.", "a/./b", "/./a", "/.", "./.", ".//a", "/mnt/backup/live",
    "/mnt//backup//live//", ".a", "a/.b/..", "é/ü", "/a/b/./", "././a",
];

fn std_components(p: &str) -> Vec<String> {
    Path::new(p)
        .components()
        .map(|c| match c {
            Component::RootDir => "/".to_string(),
            Component::CurDir => ".".to_string(),
            Component::ParentDir => "..".to_string(),
            Component::Normal(s) => s.to_str().unwrap().to_string(),
            Component::Prefix(_) => unreachable!(),
        })
        .collect()
}

#[test]
fn components_match_std() {
    for p in SAMPLES {
        let ours: Vec<String> =
            components_of(p).into_iter().map(|cs| cs.into_iter().collect()).collect();
        assert_eq!(ours, std_components(p), "{p:?}");
    }
}

#[test]
fn parent_matches_std() {
    for p in SAMPLES {
        let std_parent = Path::new(p).parent().map(|q| q.to_str().unwrap());
        assert_eq!(parent_of(p), std_parent, "{p:?}");
    }
}

#[test]
fn join_matches_std() {
    for base in SAMPLES {
        for rel in ["", "x", "/x", "x/", "./x", "snapshots"] {
            let std_joined = Path::new(base).join(rel);
            assert_eq!(join_path(base, rel), std_joined.to_str().unwrap(), "{base:?} {rel:?}");
        }
    }
}

#[test]
fn decimal_parsing() {
    assert_eq!(parse_decimal_u32("0"), Some(0));
    assert_eq!(parse_decimal_u32("007"), Some(7));
    assert_eq!(parse_decimal_u32("4294967295"), Some(4294967295));
    assert_eq!(parse_decimal_u32("4294967296"), None);
    assert_eq!(parse_decimal_u32("99999999999999999999"), None);
    assert_eq!(parse_decimal_u32(""), None);
    assert_eq!(parse_decimal_u32("1a"), None);
    assert_eq!(parse_decimal_u32("+1"), None);
}

#[test]
fn non_empty_line_count() {
    assert_eq!(count_nonempty_lines(""), 0);
    assert_eq!(count_nonempty_lines("a\nb"), 2);
    assert_eq!(count_nonempty_lines("a\n\n"), 1);
    assert_eq!(count_nonempty_lines("\r\n\r\n"), 0);
    assert_eq!(count_nonempty_lines("\r"), 1);
}
