use backup_sync::config::{
    validate, Config, ConfigError, Destination, RetentionPolicy, Schedule, Versioning, Weekday,
    CONFIG_VERSION,
};

#[test]
fn default_config_validates_after_setting_required_fields() {
    let mut c = Config::default();
    c.sources.push(String::from("/x"));
    c.destination.path = String::from("/mnt/backup/live");
    validate(&c).unwrap();
}

#[test]
fn rejects_unsupported_version() {
    let mut c = Config::default();
    c.sources.push(String::from("/x"));
    c.destination.path = String::from("/mnt/backup/live");
    c.version = 999;
    assert_eq!(validate(&c), Err(ConfigError::UnsupportedVersion(999)));
}

#[test]
fn rejects_invalid_schedule_time() {
    let mut c = Config::default();
    c.sources.push(String::from("/x"));
    c.destination.path = String::from("/mnt/backup/live");
    c.schedule = Schedule::DailyAt { hour: 25, minute: 0 };
    assert_eq!(validate(&c), Err(ConfigError::InvalidScheduleTime));
}

#[test]
fn rejects_destination_with_no_parent_when_versioning_default() {
    let mut c = Config::default();
    c.sources.push(String::from("/x"));
    c.destination.path = String::from("/");
    assert_eq!(validate(&c), Err(ConfigError::DestinationHasNoParent));
}

#[test]
fn accepts_destination_with_no_parent_when_snapshots_path_explicit() {
    let mut c = Config::default();
    c.sources.push(String::from("/x"));
    c.destination.path = String::from("/");
    c.versioning.as_mut().unwrap().snapshots_path = Some(String::from("/snaps"));
    validate(&c).unwrap();
}

#[test]
fn rejects_empty_sources() {
    let c = Config::default();
    assert_eq!(validate(&c), Err(ConfigError::EmptySources));
}

fn usable() -> Config {
    let mut c = Config::default();
    c.sources.push(String::from("/x"));
    c.destination.path = String::from("/mnt/backup/live");
    c
}

#[test]
fn default_config_fields() {
    let c = Config::default();
    assert_eq!(c.version, CONFIG_VERSION);
    assert_eq!(c.version, 1);
    assert!(c.sources.is_empty());
    assert_eq!(
        c.destination,
        Destination { drive_id: None, path: String::new() }
    );
    assert_eq!(c.schedule, Schedule::Manual);
    assert!(c.excludes.is_empty());
    assert_eq!(
        c.versioning,
        Some(Versioning { retention: RetentionPolicy::KeepLast { count: 30 }, snapshots_path: None })
    );
    assert!(!c.mirror);
}

#[test]
fn version_is_checked_before_sources() {
    let mut c = Config::default();
    c.version = 2;
    assert_eq!(validate(&c), Err(ConfigError::UnsupportedVersion(2)));
}

#[test]
fn sources_are_checked_before_destination() {
    let mut c = Config::default();
    c.destination.path = String::from("/");
    assert_eq!(validate(&c), Err(ConfigError::EmptySources));
}

#[test]
fn destination_is_checked_before_schedule() {
    let mut c = usable();
    c.destination.path = String::from("live");
    c.schedule = Schedule::DailyAt { hour: 24, minute: 0 };
    assert_eq!(validate(&c), Err(ConfigError::DestinationHasNoParent));
}

#[test]
fn relative_destination_without_directory_has_no_parent() {
    let mut c = usable();
    c.destination.path = String::from("live");
    assert_eq!(validate(&c), Err(ConfigError::DestinationHasNoParent));
    c.destination.path = String::from("");
    assert_eq!(validate(&c), Err(ConfigError::DestinationHasNoParent));
    c.destination.path = String::from("backups/live");
    assert_eq!(validate(&c), Ok(()));
    c.destination.path = String::from("/live");
    assert_eq!(validate(&c), Ok(()));
}

#[test]
fn no_versioning_accepts_root_destination() {
    let mut c = usable();
    c.versioning = None;
    c.destination.path = String::from("/");
    assert_eq!(validate(&c), Ok(()));
}

#[test]
fn schedule_time_bounds() {
    let mut c = usable();
    c.schedule = Schedule::DailyAt { hour: 23, minute: 59 };
    assert_eq!(validate(&c), Ok(()));
    c.schedule = Schedule::DailyAt { hour: 0, minute: 60 };
    assert_eq!(validate(&c), Err(ConfigError::InvalidScheduleTime));
    c.schedule = Schedule::WeeklyAt { weekday: Weekday::Sun, hour: 24, minute: 0 };
    assert_eq!(validate(&c), Err(ConfigError::InvalidScheduleTime));
    c.schedule = Schedule::WeeklyAt { weekday: Weekday::Mon, hour: 7, minute: 30 };
    assert_eq!(validate(&c), Ok(()));
    c.schedule = Schedule::Interval { minutes: 0 };
    assert_eq!(validate(&c), Ok(()));
}

#[test]
fn error_messages() {
    assert_eq!(
        ConfigError::UnsupportedVersion(999).message(),
        "unsupported config version: 999"
    );
    assert_eq!(
        ConfigError::UnsupportedVersion(0).message(),
        "unsupported config version: 0"
    );
    assert_eq!(
        ConfigError::UnsupportedVersion(4294967295).message(),
        "unsupported config version: 4294967295"
    );
    assert_eq!(ConfigError::InvalidScheduleTime.message(), "invalid schedule time");
    assert_eq!(ConfigError::EmptySources.message(), "config has no sources");
    assert_eq!(
        ConfigError::DestinationHasNoParent.message(),
        "destination has no parent directory; set versioning.snapshots_path explicitly"
    );
}
