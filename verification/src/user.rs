//! The participant record the roster keeps for each account seen in the
//! current instance.

use vstd::prelude::*;

use crate::advisory::ActiveAdvisory;
use crate::trust::TrustRank;

verus! {

/// The little a participant's group list needs: the group and its name.
#[derive(Debug, Clone, PartialEq, Eq)]
pub struct PartialGroup {
    pub id: String,
    pub name: String,
}

/// One participant of the current instance. A record is created when the
/// participant joins and never removed while the instance lasts: leaving
/// only sets `leave_time`, so late enrichment and re-joins can still
/// reconcile against it.
#[derive(Debug, Clone)]
pub struct VrcMrdUser {
    /// The stable remote identifier.
    pub id: String,
    /// The display name, as the log reported it.
    pub username: String,
    /// The current avatar's name, empty until one is known.
    pub avatar_name: String,
    /// The avatar performance rank shown in the interface.
    pub perf_rank: String,
    /// The account-creation date, in days since the Unix epoch, once
    /// enrichment reported one.
    pub account_created: Option<i64>,
    /// When the participant joined, as a timestamp.
    pub join_time: i64,
    /// When the participant left, if they did.
    pub leave_time: Option<i64>,
    /// The advisories currently active for this participant.
    pub advisories: Vec<ActiveAdvisory>,
    /// Whether the account's age is verified.
    pub age_verified: bool,
    /// The platform, one of "pc", "android" or "ios", once known.
    pub platform: Option<String>,
    /// The trust rank, once enrichment reported one.
    pub trust_rank: Option<TrustRank>,
    /// The groups the account belongs to, once fetched.
    pub groups: Vec<PartialGroup>,
}

/// The platform field this library keeps for a reported platform string:
/// the desktop build maps to "pc", the two mobile ones to themselves,
/// anything else to nothing.
pub open spec fn platform_of(reported: Seq<char>) -> Option<Seq<char>> {
    if reported == "standalonewindows"@ {
        Some("pc"@)
    } else if reported == "android"@ {
        Some("android"@)
    } else if reported == "ios"@ {
        Some("ios"@)
    } else {
        None
    }
}

/// Map a reported platform string to the field this library keeps.
pub fn map_platform(reported: &str) -> (r: Option<String>)
    ensures
        r.deep_view() == platform_of(reported@),
{
    if crate::strutil::str_eq(reported, "standalonewindows") {
        Some("pc".to_owned())
    } else if crate::strutil::str_eq(reported, "android") {
        Some("android".to_owned())
    } else if crate::strutil::str_eq(reported, "ios") {
        Some("ios".to_owned())
    } else {
        None
    }
}

} // verus!
