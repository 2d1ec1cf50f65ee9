use vstd::prelude::*;

use crate::error::{ErrorView, UploadError};
use crate::text::{parse_u64, spec_parse_u64};

verus! {

/// Per-file download override, stored beside the blob.
#[derive(PartialEq, Eq, Structural, Clone, Copy, Debug)]
pub enum FileDataPermission {
    /// The stored value "none": nobody may download the file.
    Denied,
    /// The stored value "unlimited": anyone may download the file,
    /// independent of the authorization policy.
    Unlimited,
}

/// The optional per-file record: a download override and an absolute expiry.
/// An absent record, and each absent field, means "no override".
#[derive(PartialEq, Eq, Structural, Clone, Copy, Debug)]
pub struct FileData {
    pub download_permission: Option<FileDataPermission>,
    /// delete the file at this unix timestamp
    pub ttl: Option<u64>,
}

impl Default for FileData {
    /// The record meaning "no override at all".
    fn default() -> (r: Self)
        ensures
            r.download_permission is None,
            r.ttl is None,
    {
        FileData { download_permission: None, ttl: None }
    }
}

/// Relies on std::time::SystemTime::now and duration_since(UNIX_EPOCH): the
/// seconds since the Unix epoch, 0 if the clock reads before the epoch. The
/// result depends on the clock, so nothing more is assumed of it.
#[verifier::external_body]
pub fn current_unix_timestamp() -> (r: u64) {
    match std::time::SystemTime::now().duration_since(std::time::UNIX_EPOCH) {
        Ok(elapsed) => elapsed.as_secs(),
        Err(_) => 0,
    }
}

/// Whether the record's expiry lies strictly before `now`. No expiry set
/// means the record never expires.
pub open spec fn spec_expired_at(record: FileData, now: u64) -> bool {
    match record.ttl {
        Some(ttl) => ttl < now,
        None => false,
    }
}

/// What the permission override value parses to: "none" denies, "unlimited"
/// opens; anything else is refused.
pub open spec fn spec_parse_permission(s: Seq<char>) -> Option<FileDataPermission> {
    if s == "none"@ {
        Some(FileDataPermission::Denied)
    } else if s == "unlimited"@ {
        Some(FileDataPermission::Unlimited)
    } else {
        None
    }
}

/// Sum saturating at the largest timestamp (an expiry that far out never
/// arrives, which is the right reading of an overlong delete-after).
pub open spec fn spec_sat_add(a: u64, b: u64) -> u64 {
    if a + b > u64::MAX {
        u64::MAX
    } else {
        (a + b) as u64
    }
}

/// What the two optional override header values mean at time `now`: an
/// invalid value is refused with the offending header's name; a relative
/// delete-after becomes an absolute expiry.
pub open spec fn spec_from_overrides(
    permission: Option<Seq<char>>,
    delete_after: Option<Seq<char>>,
    now: u64,
) -> Result<FileData, ErrorView> {
    let parsed_permission = match permission {
        None => Ok(None),
        Some(text) => match spec_parse_permission(text) {
            Some(p) => Ok(Some(p)),
            None => Err(ErrorView::InvalidFileDataArgument("File-Data-Download-Permission"@)),
        },
    };
    match parsed_permission {
        Err(e) => Err(e),
        Ok(dp) => match delete_after {
            None => Ok(FileData { download_permission: dp, ttl: None }),
            Some(text) => match spec_parse_u64(text) {
                Some(seconds) => Ok(
                    FileData { download_permission: dp, ttl: Some(spec_sat_add(now, seconds)) },
                ),
                None => Err(ErrorView::InvalidFileDataArgument("File-Data-Delete-After"@)),
            },
        },
    }
}

/// View of an optional header value.
pub open spec fn spec_opt_view(v: Option<&str>) -> Option<Seq<char>> {
    match v {
        Some(s) => Some(s@),
        None => None,
    }
}

impl FileDataPermission {
    /// Parse an override or stored value: "none" denies, "unlimited" opens.
    pub fn parse(value: &str) -> (r: Result<FileDataPermission, UploadError>)
        ensures
            match r {
                Ok(p) => spec_parse_permission(value@) == Some(p),
                Err(e) => spec_parse_permission(value@) is None && e@
                    == ErrorView::InvalidFileDataArgument("File-Data-Download-Permission"@),
            },
    {
        if crate::text::str_eq(value, "none") {
            Ok(FileDataPermission::Denied)
        } else if crate::text::str_eq(value, "unlimited") {
            Ok(FileDataPermission::Unlimited)
        } else {
            Err(
                UploadError::InvalidFileDataArgument(
                    String::from_str("File-Data-Download-Permission"),
                ),
            )
        }
    }
}

impl FileData {
    /// True when nothing was overridden: such a record need not be stored,
    /// since its absence means the same.
    pub fn is_empty(&self) -> (r: bool)
        ensures
            r == (self.download_permission is None && self.ttl is None),
    {
        self.download_permission.is_none() && self.ttl.is_none()
    }

    /// Whether the record's expiry lies strictly before `now`.
    pub fn expired_at(&self, now: u64) -> (r: bool)
        ensures
            r == spec_expired_at(*self, now),
    {
        match self.ttl {
            Some(ttl) => ttl < now,
            None => false,
        }
    }

    /// Expiry against the live clock. A record with no expiry set is never
    /// expired, whatever the clock says.
    pub fn expired(&self) -> (r: bool)
        ensures
            self.ttl is None ==> !r,
            exists|now: u64| r == spec_expired_at(*self, now),
    {
        let now = current_unix_timestamp();
        self.expired_at(now)
    }

    /// Build the record from the two optional override header values at time
    /// `now`: the permission override, and a relative delete-after in seconds
    /// turned into an absolute expiry (saturating at the largest timestamp).
    pub fn from_overrides(
        permission: Option<&str>,
        delete_after: Option<&str>,
        now: u64,
    ) -> (r: Result<FileData, UploadError>)
        ensures
            match r {
                Ok(record) => spec_from_overrides(
                    spec_opt_view(permission),
                    spec_opt_view(delete_after),
                    now,
                ) == Ok::<FileData, ErrorView>(record),
                Err(e) => spec_from_overrides(
                    spec_opt_view(permission),
                    spec_opt_view(delete_after),
                    now,
                ) == Err::<FileData, ErrorView>(e@),
            },
    {
        let download_permission: Option<FileDataPermission> = match permission {
            None => None,
            Some(text) => match FileDataPermission::parse(text) {
                Ok(p) => Some(p),
                Err(e) => {
                    return Err(e);
                }
            },
        };
        let ttl: Option<u64> = match delete_after {
            None => None,
            Some(text) => match parse_u64(text) {
                Some(seconds) => {
                    if seconds > u64::MAX - now {
                        Some(u64::MAX)
                    } else {
                        Some(now + seconds)
                    }
                }
                None => {
                    return Err(
                        UploadError::InvalidFileDataArgument(
                            String::from_str("File-Data-Delete-After"),
                        ),
                    );
                }
            },
        };
        Ok(FileData { download_permission, ttl })
    }
}

} // verus!
