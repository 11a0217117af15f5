//! The backup configuration and the rules that a usable one obeys.
use vstd::prelude::*;
use vstd::string::StringExecFns;

use crate::path::{has_nonempty_parent, parent_of};

verus! {

/// The configuration format version this library reads and writes.
pub const CONFIG_VERSION: u32 = 1;

/// What to back up, where to, when, and how.
#[derive(Debug, Clone, PartialEq, Eq)]
pub struct Config {
    pub version: u32,
    pub sources: Vec<String>,
    pub destination: Destination,
    pub schedule: Schedule,
    pub excludes: Vec<String>,
    pub versioning: Option<Versioning>,
    pub mirror: bool,
}

/// The drive and the directory that backups are written to.
#[derive(Debug, Clone, PartialEq, Eq)]
pub struct Destination {
    pub drive_id: Option<String>,
    pub path: String,
}

/// When backups run.
#[derive(Debug, Clone, PartialEq, Eq)]
pub enum Schedule {
    Manual,
    Interval { minutes: u32 },
    DailyAt { hour: u8, minute: u8 },
    WeeklyAt { weekday: Weekday, hour: u8, minute: u8 },
}

#[derive(Debug, Clone, Copy, PartialEq, Eq)]
pub enum Weekday {
    Mon,
    Tue,
    Wed,
    Thu,
    Fri,
    Sat,
    Sun,
}

/// Keeping the files that a run replaces or deletes, in a snapshot directory per run.
#[derive(Debug, Clone, PartialEq, Eq)]
pub struct Versioning {
    pub retention: RetentionPolicy,
    pub snapshots_path: Option<String>,
}

/// Which snapshots are kept.
#[derive(Debug, Clone, PartialEq, Eq)]
pub enum RetentionPolicy {
    KeepLast { count: u32 },
    KeepDays { days: u32 },
    Tiered { daily_days: u32, weekly_weeks: u32, monthly_months: u32 },
}

/// Why a configuration is refused.
#[derive(Debug, Clone, PartialEq, Eq)]
pub enum ConfigError {
    UnsupportedVersion(u32),
    InvalidScheduleTime,
    EmptySources,
    DestinationHasNoParent,
}

/// The configuration that a new user starts from: no sources, an empty
/// destination, manual runs, no excludes, the last 30 snapshots kept next to
/// the destination, and no mirroring.
pub open spec fn is_default_config(c: Config) -> bool {
    &&& c.version == CONFIG_VERSION
    &&& c.sources@.len() == 0
    &&& c.destination.drive_id is None
    &&& c.destination.path@ == Seq::<char>::empty()
    &&& c.schedule == Schedule::Manual
    &&& c.excludes@.len() == 0
    &&& c.versioning == Some(
        Versioning { retention: RetentionPolicy::KeepLast { count: 30 }, snapshots_path: None },
    )
    &&& !c.mirror
}

impl Default for Config {
    fn default() -> (c: Self)
        ensures
            is_default_config(c),
    {
        Config {
            version: CONFIG_VERSION,
            sources: Vec::new(),
            destination: Destination { drive_id: None, path: String::new() },
            schedule: Schedule::Manual,
            excludes: Vec::new(),
            versioning: Some(
                Versioning {
                    retention: RetentionPolicy::KeepLast { count: 30 },
                    snapshots_path: None,
                },
            ),
            mirror: false,
        }
    }
}

/// A schedule that names a time of day that does not exist.
pub open spec fn has_invalid_time(s: Schedule) -> bool {
    match s {
        Schedule::Manual | Schedule::Interval { .. } => false,
        Schedule::DailyAt { hour, minute } | Schedule::WeeklyAt { hour, minute, .. } => hour
            >= 24 || minute >= 60,
    }
}

/// Snapshots go next to the destination: versioning is on and names no snapshot directory.
pub open spec fn snapshots_beside_destination(c: Config) -> bool {
    c.versioning matches Some(v) && v.snapshots_path is None
}

/// What `validate` answers for `c`: the first rule, in this order, that `c` breaks.
pub open spec fn validation(c: Config) -> Result<(), ConfigError> {
    if c.version != CONFIG_VERSION {
        Err(ConfigError::UnsupportedVersion(c.version))
    } else if c.sources@.len() == 0 {
        Err(ConfigError::EmptySources)
    } else if snapshots_beside_destination(c) && !has_nonempty_parent(c.destination.path@) {
        Err(ConfigError::DestinationHasNoParent)
    } else if has_invalid_time(c.schedule) {
        Err(ConfigError::InvalidScheduleTime)
    } else {
        Ok(())
    }
}

/// Checks that `config` can be used: its version is the one this library reads,
/// it has a source, its destination has a parent to hold the snapshot directory
/// where it needs one, and its schedule names a real time of day.
pub fn validate(config: &Config) -> (r: Result<(), ConfigError>)
    ensures
        r == validation(*config),
{
    if config.version != CONFIG_VERSION {
        return Err(ConfigError::UnsupportedVersion(config.version));
    }
    if config.sources.len() == 0 {
        return Err(ConfigError::EmptySources);
    }
    if let Some(versioning) = &config.versioning {
        if versioning.snapshots_path.is_none() {
            let has_parent = match parent_of(config.destination.path.as_str()) {
                Some(p) => !p.is_empty(),
                None => false,
            };
            if !has_parent {
                return Err(ConfigError::DestinationHasNoParent);
            }
        }
    }
    match config.schedule {
        Schedule::Manual | Schedule::Interval { .. } => {},
        Schedule::DailyAt { hour, minute } | Schedule::WeeklyAt { hour, minute, .. } => {
            if hour >= 24 || minute >= 60 {
                return Err(ConfigError::InvalidScheduleTime);
            }
        },
    }
    Ok(())
}

/// The ASCII digit that stands for `d`, for `d` below ten.
pub open spec fn digit_char(d: nat) -> char {
    (('0' as nat) + d) as char
}

/// `n` written in decimal digits, with no leading zero.
pub open spec fn decimal_text(n: nat) -> Seq<char>
    decreases n,
{
    if n < 10 {
        seq![digit_char(n)]
    } else {
        decimal_text(n / 10).push(digit_char(n % 10))
    }
}

fn digit_text(d: u32) -> (t: &'static str)
    requires
        d < 10,
    ensures
        t@ == seq![digit_char(d as nat)],
{
    proof {
        reveal_strlit("0");
        reveal_strlit("1");
        reveal_strlit("2");
        reveal_strlit("3");
        reveal_strlit("4");
        reveal_strlit("5");
        reveal_strlit("6");
        reveal_strlit("7");
        reveal_strlit("8");
        reveal_strlit("9");
    }
    if d == 0 {
        "0"
    } else if d == 1 {
        "1"
    } else if d == 2 {
        "2"
    } else if d == 3 {
        "3"
    } else if d == 4 {
        "4"
    } else if d == 5 {
        "5"
    } else if d == 6 {
        "6"
    } else if d == 7 {
        "7"
    } else if d == 8 {
        "8"
    } else {
        "9"
    }
}

fn append_decimal(out: &mut String, n: u32)
    ensures
        final(out)@ == old(out)@ + decimal_text(n as nat),
    decreases n,
{
    if n >= 10 {
        append_decimal(out, n / 10);
    }
    out.append(digit_text(n % 10));
}

/// The sentence that describes `e` to a user.
pub open spec fn error_message(e: ConfigError) -> Seq<char> {
    match e {
        ConfigError::UnsupportedVersion(v) => "unsupported config version: "@ + decimal_text(
            v as nat,
        ),
        ConfigError::InvalidScheduleTime => "invalid schedule time"@,
        ConfigError::EmptySources => "config has no sources"@,
        ConfigError::DestinationHasNoParent => "destination has no parent directory; set versioning.snapshots_path explicitly"@,
    }
}

impl ConfigError {
    /// The sentence that describes this error to a user.
    pub fn message(&self) -> (m: String)
        ensures
            m@ == error_message(*self),
    {
        match self {
            ConfigError::UnsupportedVersion(v) => {
                let mut m = String::from_str("unsupported config version: ");
                append_decimal(&mut m, *v);
                m
            },
            ConfigError::InvalidScheduleTime => String::from_str("invalid schedule time"),
            ConfigError::EmptySources => String::from_str("config has no sources"),
            ConfigError::DestinationHasNoParent => String::from_str(
                "destination has no parent directory; set versioning.snapshots_path explicitly",
            ),
        }
    }
}

} // verus!

verus! {

/// A configuration is accepted exactly when its version is the supported one, it
/// has a source, its destination has a non-empty parent wherever snapshots go
/// beside it, and its schedule names a real time of day.
pub proof fn law_validation_accepts_exactly(c: Config)
    ensures
        validation(c) is Ok <==> {
            &&& c.version == CONFIG_VERSION
            &&& c.sources@.len() > 0
            &&& snapshots_beside_destination(c) ==> has_nonempty_parent(c.destination.path@)
            &&& !has_invalid_time(c.schedule)
        },
{
}

/// Where a configuration names its snapshot directory, or keeps no snapshots,
/// its destination path plays no part in whether it is accepted.
pub proof fn law_destination_ignored_without_snapshots_beside(c1: Config, c2: Config)
    requires
        c1.version == c2.version,
        c1.sources@.len() == c2.sources@.len(),
        c1.schedule == c2.schedule,
        c1.versioning == c2.versioning,
        c1.versioning is None || (c1.versioning matches Some(v) && v.snapshots_path is Some),
    ensures
        validation(c1) == validation(c2),
{
}

/// The default configuration, once it has a source and a destination with a
/// non-empty parent, is accepted.
pub proof fn law_default_config_validates(c: Config, d: Config)
    requires
        is_default_config(d),
        c.version == d.version,
        c.schedule == d.schedule,
        c.versioning == d.versioning,
        c.sources@.len() > 0,
        has_nonempty_parent(c.destination.path@),
    ensures
        validation(c) is Ok,
{
}

} // verus!

verus! {

/// A configuration that passes every other rule is refused for its schedule
/// exactly when the schedule names a time of day whose hour is 24 or more or whose
/// minute is 60 or more, daily and weekly alike; manual and interval schedules
/// are never refused.
pub proof fn law_schedule_time_rule(c: Config)
    requires
        c.version == CONFIG_VERSION,
        c.sources@.len() > 0,
        (c.versioning matches Some(v) && v.snapshots_path is None) ==> has_nonempty_parent(
            c.destination.path@,
        ),
    ensures
        c.schedule matches Schedule::DailyAt { hour, minute } ==> (validation(c) == if hour >= 24
            || minute >= 60 {
            Err(ConfigError::InvalidScheduleTime)
        } else {
            Ok(())
        }),
        c.schedule matches Schedule::WeeklyAt { hour, minute, .. } ==> (validation(c) == if hour
            >= 24 || minute >= 60 {
            Err(ConfigError::InvalidScheduleTime)
        } else {
            Ok(())
        }),
        (c.schedule is Manual || c.schedule is Interval) ==> validation(c) == Ok::<(), ConfigError>(()),
{
}

/// The rules are applied in a fixed order, and the first that a configuration
/// breaks is the one reported: the version, then the sources, then the
/// destination's parent where snapshots go beside it.
pub proof fn law_refusal_order(c: Config)
    ensures
        c.version != CONFIG_VERSION ==> validation(c) == Err::<(), ConfigError>(
            ConfigError::UnsupportedVersion(c.version),
        ),
        c.version == CONFIG_VERSION && c.sources@.len() == 0 ==> validation(c) == Err::<
            (),
            ConfigError,
        >(ConfigError::EmptySources),
        c.version == CONFIG_VERSION && c.sources@.len() > 0 && (c.versioning matches Some(v)
            && v.snapshots_path is None) && !has_nonempty_parent(c.destination.path@) ==> validation(
            c,
        ) == Err::<
            (),
            ConfigError,
        >(ConfigError::DestinationHasNoParent),
{
}

} // verus!
