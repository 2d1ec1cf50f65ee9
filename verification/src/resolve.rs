use vstd::prelude::*;

use crate::error::{ErrorView, UploadError};
use crate::file_data::{spec_expired_at, FileData, FileDataPermission};

verus! {

/// What the access resolver tells the download path to do.
pub enum AccessDecision {
    /// Stream the blob.
    Allow,
    /// The record expired: delete blob and record, then answer "not found".
    ExpireAndHide,
    /// Refuse with this error ("not found" wherever nothing may be leaked).
    Deny(UploadError),
}

/// Mathematical image of an access decision.
pub enum Resolution {
    Allow,
    ExpireAndHide,
    Deny(ErrorView),
}

/// Mathematical image of an `AccessDecision`.
pub open spec fn spec_decision_view(d: AccessDecision) -> Resolution {
    match d {
        AccessDecision::Allow => Resolution::Allow,
        AccessDecision::ExpireAndHide => Resolution::ExpireAndHide,
        AccessDecision::Deny(e) => Resolution::Deny(e@),
    }
}

/// The access rules for a download, in order: a missing blob is "not found";
/// a past expiry is terminal — the file is hidden and removed, whatever the
/// overrides say; an unlimited override admits anyone; a denied override
/// hides the file like absence; otherwise the authorization outcome decides.
pub open spec fn spec_resolve(
    auth_error: Option<ErrorView>,
    record: FileData,
    blob_exists: bool,
    now: u64,
) -> Resolution {
    if !blob_exists {
        Resolution::Deny(ErrorView::FileNotExists)
    } else if spec_expired_at(record, now) {
        Resolution::ExpireAndHide
    } else {
        match record.download_permission {
            Some(FileDataPermission::Unlimited) => Resolution::Allow,
            Some(FileDataPermission::Denied) => Resolution::Deny(ErrorView::FileNotExists),
            None => match auth_error {
                None => Resolution::Allow,
                Some(e) => Resolution::Deny(e),
            },
        }
    }
}

/// View of the optional authorization failure.
pub open spec fn spec_auth_error_view(e: Option<UploadError>) -> Option<ErrorView> {
    match e {
        Some(err) => Some(err@),
        None => None,
    }
}

/// Merge the authorization outcome with the per-file record. Authorization
/// must have been evaluated before the blob is looked at, so that a missing
/// file costs the caller the same as a denied one.
pub fn resolve_access(
    auth_error: Option<UploadError>,
    record: &FileData,
    blob_exists: bool,
    now: u64,
) -> (r: AccessDecision)
    ensures
        spec_decision_view(r) == spec_resolve(
            spec_auth_error_view(auth_error),
            *record,
            blob_exists,
            now,
        ),
{
    if !blob_exists {
        return AccessDecision::Deny(UploadError::FileNotExists);
    }
    if record.expired_at(now) {
        return AccessDecision::ExpireAndHide;
    }
    match record.download_permission {
        Some(FileDataPermission::Unlimited) => AccessDecision::Allow,
        Some(FileDataPermission::Denied) => AccessDecision::Deny(UploadError::FileNotExists),
        None => match auth_error {
            None => AccessDecision::Allow,
            Some(e) => AccessDecision::Deny(e),
        },
    }
}

/// An unlimited per-file override admits the download even when the
/// authorization policy denied the caller.
pub proof fn lemma_unlimited_overrides_denial(
    auth_error: Option<ErrorView>,
    record: FileData,
    now: u64,
)
    requires
        record.download_permission == Some(FileDataPermission::Unlimited),
        !spec_expired_at(record, now),
    ensures
        spec_resolve(auth_error, record, true, now) == Resolution::Allow,
{
}

/// A past expiry is a hard terminal state: the resolver hides and deletes
/// the file whatever the authorization outcome and whatever the permission
/// override — no override revives an expired file.
pub proof fn lemma_expiry_is_terminal(auth_error: Option<ErrorView>, record: FileData, now: u64)
    requires
        spec_expired_at(record, now),
    ensures
        spec_resolve(auth_error, record, true, now) == Resolution::ExpireAndHide,
{
}

/// A denied override and a missing blob are indistinguishable: both resolve
/// to the very same "not found" denial.
pub proof fn lemma_denied_override_hides(auth_error: Option<ErrorView>, record: FileData, now: u64)
    requires
        record.download_permission == Some(FileDataPermission::Denied),
        !spec_expired_at(record, now),
    ensures
        spec_resolve(auth_error, record, true, now) == spec_resolve(
            auth_error,
            record,
            false,
            now,
        ),
        spec_resolve(auth_error, record, true, now) == Resolution::Deny(ErrorView::FileNotExists),
{
}

} // verus!
