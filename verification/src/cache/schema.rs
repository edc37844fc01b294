//! Cache schema versions.
//!
//! The schema record is stored as JSON by the program, which encodes it
//! through a copy of `SchemaInfo` that derives serde's traits.
use vstd::prelude::*;

verus! {

/// The current schema version.
pub const CURRENT_SCHEMA_VERSION: u32 = 1;

/// The version of this package, recorded in the schema record.
pub const PACKAGE_VERSION: &'static str = "0.1.0";

/// The schema record of a cache.
#[derive(Debug, Clone)]
pub struct SchemaInfo {
    pub version: u32,
    pub created_at_secs: u64,
    pub last_migrated_secs: Option<u64>,
    pub rninja_version: String,
}

/// Statistics of a migration.
#[derive(Debug, Default, Clone, Copy)]
pub struct MigrationStats {
    pub entries_migrated: usize,
    pub entries_failed: usize,
    pub blobs_migrated: usize,
    pub duration_ms: u64,
}

/// The current time in whole seconds since the Unix epoch (0 before it).
/// It depends on the clock: nothing is promised of it.
#[verifier::external_body]
fn unix_now_secs() -> u64 {
    std::time::SystemTime::now().duration_since(std::time::UNIX_EPOCH).unwrap_or_default().as_secs()
}

impl SchemaInfo {
    /// The record of a cache created now with the current schema.
    pub fn current() -> (s: Self)
        ensures
            s.version == CURRENT_SCHEMA_VERSION,
            s.last_migrated_secs is None,
            s.rninja_version@ == PACKAGE_VERSION@,
    {
        SchemaInfo {
            version: CURRENT_SCHEMA_VERSION,
            created_at_secs: unix_now_secs(),
            last_migrated_secs: None,
            rninja_version: PACKAGE_VERSION.to_owned(),
        }
    }
}

/// What a cache with schema `version` needs.
#[derive(Debug, Clone, Copy, PartialEq, Eq, Structural)]
pub enum SchemaCheck {
    /// The schema is current.
    Current,
    /// The schema is older; it is migrated when migration is allowed.
    Migrate,
    /// The schema is older and migration is not allowed.
    MigrationRequired,
    /// The cache was made by a newer version.
    TooNew,
}

/// The decision for a stored schema `version`.
pub fn check_schema_version(version: u32, auto_migrate: bool) -> (r: SchemaCheck)
    ensures
        r == (if version < CURRENT_SCHEMA_VERSION {
            if auto_migrate {
                SchemaCheck::Migrate
            } else {
                SchemaCheck::MigrationRequired
            }
        } else if version > CURRENT_SCHEMA_VERSION {
            SchemaCheck::TooNew
        } else {
            SchemaCheck::Current
        }),
{
    if version < CURRENT_SCHEMA_VERSION {
        if auto_migrate {
            SchemaCheck::Migrate
        } else {
            SchemaCheck::MigrationRequired
        }
    } else if version > CURRENT_SCHEMA_VERSION {
        SchemaCheck::TooNew
    } else {
        SchemaCheck::Current
    }
}

/// The record after migrating `info` at time `now`: the current version,
/// the same creation time, `now` as the migration time.
pub fn migrated(info: &SchemaInfo, now: u64) -> (s: SchemaInfo)
    ensures
        s.version == CURRENT_SCHEMA_VERSION,
        s.created_at_secs == info.created_at_secs,
        s.last_migrated_secs == Some(now),
        s.rninja_version@ == PACKAGE_VERSION@,
{
    SchemaInfo {
        version: CURRENT_SCHEMA_VERSION,
        created_at_secs: info.created_at_secs,
        last_migrated_secs: Some(now),
        rninja_version: PACKAGE_VERSION.to_owned(),
    }
}

} // verus!
