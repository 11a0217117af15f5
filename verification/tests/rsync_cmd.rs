use backup_sync::config::{validate, Config, Destination};
use backup_sync::sync::rsync_cmd::build_argv;

fn dest() -> Destination {
    Destination {
        drive_id: Some("drive-1".into()),
        path: String::from("/mnt/backup/live"),
    }
}

#[test]
fn minimal_argv() {
    let c = Config {
        sources: vec![String::from("/home/alvin/docs")],
        destination: dest(),
        ..Config::default()
    };
    let argv = build_argv(&c, "snapshot_2026-05-06_1430", false);
    assert_eq!(
        argv,
        vec![
            "rsync",
            "-a",
            "--backup",
            "--backup-dir=/mnt/backup/snapshots/snapshot_2026-05-06_1430",
            "/home/alvin/docs",
            "/mnt/backup/live",
        ]
    );
}

#[test]
fn dry_run() {
    let c = Config {
        sources: vec![String::from("/home/alvin/docs")],
        destination: dest(),
        ..Config::default()
    };
    let argv = build_argv(&c, "snap", true);
    assert_eq!(
        argv,
        vec![
            "rsync",
            "-a",
            "--dry-run",
            "--backup",
            "--backup-dir=/mnt/backup/snapshots/snap",
            "/home/alvin/docs",
            "/mnt/backup/live",
        ]
    );
}

#[test]
fn mirror_mode() {
    let c = Config {
        sources: vec![String::from("/home/alvin/docs")],
        destination: dest(),
        mirror: true,
        ..Config::default()
    };
    let argv = build_argv(&c, "snap", false);
    assert_eq!(
        argv,
        vec![
            "rsync",
            "-a",
            "--delete",
            "--backup",
            "--backup-dir=/mnt/backup/snapshots/snap",
            "/home/alvin/docs",
            "/mnt/backup/live",
        ]
    );
}

#[test]
fn versioning_disabled() {
    let mut c = Config {
        sources: vec![String::from("/home/alvin/docs")],
        destination: dest(),
        ..Config::default()
    };
    c.versioning = None;
    let argv = build_argv(&c, "snap", false);
    assert_eq!(argv, vec!["rsync", "-a", "/home/alvin/docs", "/mnt/backup/live"]);
}

#[test]
fn excludes() {
    let mut c = Config {
        sources: vec![String::from("/home/alvin/docs")],
        destination: dest(),
        excludes: vec!["node_modules".into(), "*.tmp".into(), ".cache/".into()],
        ..Config::default()
    };
    c.versioning = None;
    let argv = build_argv(&c, "snap", false);
    assert_eq!(
        argv,
        vec![
            "rsync",
            "-a",
            "--exclude=node_modules",
            "--exclude=*.tmp",
            "--exclude=.cache/",
            "/home/alvin/docs",
            "/mnt/backup/live",
        ]
    );
}

#[test]
fn multiple_sources() {
    let mut c = Config {
        sources: vec![String::from("/a"), String::from("/b/c"), String::from("/d e/f")],
        destination: dest(),
        ..Config::default()
    };
    c.versioning = None;
    let argv = build_argv(&c, "snap", false);
    assert_eq!(argv, vec!["rsync", "-a", "/a", "/b/c", "/d e/f", "/mnt/backup/live"]);
}

#[test]
fn explicit_snapshots_path() {
    let mut c = Config {
        sources: vec![String::from("/home/alvin/docs")],
        destination: dest(),
        ..Config::default()
    };
    c.versioning.as_mut().unwrap().snapshots_path = Some(String::from("/mnt/archive/snaps"));
    let argv = build_argv(&c, "snap", false);
    assert_eq!(
        argv,
        vec![
            "rsync",
            "-a",
            "--backup",
            "--backup-dir=/mnt/archive/snaps/snap",
            "/home/alvin/docs",
            "/mnt/backup/live",
        ]
    );
}

#[test]
fn all_options_in_order() {
    let c = Config {
        sources: vec![String::from("/a"), String::from("/b")],
        destination: Destination { drive_id: None, path: String::from("/mnt/backup/live/") },
        excludes: vec!["*.o".into()],
        mirror: true,
        ..Config::default()
    };
    let argv = build_argv(&c, "l", true);
    assert_eq!(
        argv,
        vec![
            "rsync",
            "-a",
            "--dry-run",
            "--delete",
            "--backup",
            "--backup-dir=/mnt/backup/snapshots/l",
            "--exclude=*.o",
            "/a",
            "/b",
            "/mnt/backup/live/",
        ]
    );
}

#[test]
fn snapshot_directory_joins_like_std_path() {
    let mut c = Config {
        sources: vec![String::from("/a")],
        destination: Destination { drive_id: None, path: String::from("live") },
        ..Config::default()
    };
    assert_eq!(build_argv(&c, "l", false)[3], "--backup-dir=snapshots/l");
    c.destination.path = String::from("/live");
    assert_eq!(build_argv(&c, "l", false)[3], "--backup-dir=/snapshots/l");
    assert_eq!(build_argv(&c, "/abs", false)[3], "--backup-dir=/abs");
    c.versioning.as_mut().unwrap().snapshots_path = Some(String::from("/snaps/"));
    assert_eq!(build_argv(&c, "l", false)[3], "--backup-dir=/snaps/l");
}

#[test]
fn validated_config_builds() {
    for path in ["/mnt/backup/live", "backups/live", "/live", "./live/"] {
        let c = Config {
            sources: vec![String::from("/home/alvin/docs")],
            destination: Destination { drive_id: None, path: String::from(path) },
            ..Config::default()
        };
        assert_eq!(validate(&c), Ok(()));
        let argv = build_argv(&c, "snap", false);
        assert_eq!(argv[0], "rsync");
        assert_eq!(argv[argv.len() - 1], path);
    }
}
