use backup_sync::sync::precheck::{check, normalize, PrecheckError};

fn s(p: &str) -> String {
    String::from(p)
}

#[test]
fn disjoint_paths_ok() {
    check(&[s("/home/alvin/docs")], "/mnt/backup").unwrap();
    check(&[s("/data-old")], "/data").unwrap();
}

#[test]
fn overlap_is_rejected() {
    assert!(check(&[s("/data")], "/data").is_err());
    assert!(check(&[s("/data")], "/data/backup").is_err());
    assert!(check(&[s("/data/sub")], "/data").is_err());
}

#[test]
fn trailing_slash_normalized() {
    assert!(check(&[s("/data/")], "/data").is_err());
}

#[test]
fn reports_which_overlap() {
    assert_eq!(
        check(&[s("/data")], "/data"),
        Err(PrecheckError::SourceEqualsDestination(s("/data")))
    );
    assert_eq!(
        check(&[s("/data")], "/data/backup"),
        Err(PrecheckError::SourceContainsDestination { source: s("/data"), destination: s("/data/backup") })
    );
    assert_eq!(
        check(&[s("/data/sub")], "/data"),
        Err(PrecheckError::DestinationContainsSource { source: s("/data/sub"), destination: s("/data") })
    );
}

#[test]
fn reports_first_overlapping_source() {
    assert_eq!(
        check(&[s("/home"), s("/mnt/backup/x"), s("/mnt")], "/mnt/backup"),
        Err(PrecheckError::DestinationContainsSource {
            source: s("/mnt/backup/x"),
            destination: s("/mnt/backup"),
        })
    );
    assert_eq!(check(&[], "/mnt/backup"), Ok(()));
}

#[test]
fn compares_components_not_text() {
    assert_eq!(
        check(&[s("/data//./sub/")], "/data/sub"),
        Err(PrecheckError::SourceEqualsDestination(s("/data//./sub/")))
    );
    check(&[s("/data/..")], "/data").unwrap_err();
    check(&[s("data")], "/data").unwrap();
    check(&[s("./data")], "data").unwrap();
}

#[test]
fn destination_trailing_slash_normalized() {
    assert_eq!(
        check(&[s("/data")], "/data/"),
        Err(PrecheckError::SourceEqualsDestination(s("/data")))
    );
}

#[test]
fn overlap_is_symmetric() {
    for (a, b) in [("/data", "/data/sub"), ("/x", "/y"), ("/a/b", "/a/b/"), ("/a", "/ab")] {
        assert_eq!(check(&[s(a)], b).is_err(), check(&[s(b)], a).is_err(), "{a} {b}");
    }
    assert_eq!(
        check(&[s("/data/sub")], "/data"),
        Err(PrecheckError::DestinationContainsSource { source: s("/data/sub"), destination: s("/data") })
    );
    assert_eq!(
        check(&[s("/data")], "/data/sub"),
        Err(PrecheckError::SourceContainsDestination { source: s("/data"), destination: s("/data/sub") })
    );
}

#[test]
fn normalize_writes_components_back() {
    let text = |p: &str| -> String { normalize(p).into_iter().collect() };
    assert_eq!(text("/data/"), "/data");
    assert_eq!(text("a//b/./c"), "a/b/c");
    assert_eq!(text("./a/"), "./a");
    assert_eq!(text("/"), "/");
    assert_eq!(text(""), "");
    for p in ["/data/", "a//b/./c", "./a/", "/./x/../y", ".", "..//a", "/mnt//backup/live/"] {
        let once = text(p);
        let std_once: std::path::PathBuf = std::path::Path::new(p).components().collect();
        assert_eq!(once, std_once.to_str().unwrap(), "{p:?}");
        assert_eq!(text(&once), once, "{p:?}");
    }
}
