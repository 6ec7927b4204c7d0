//! Trust ranks: an ordered classification of a remote account's
//! standing, derived from the tag list that the remote directory
//! reports for the account.

use vstd::prelude::*;

use crate::strutil::str_eq;

verus! {

/// An account's standing, from least to most trusted.
#[derive(Debug, Clone, Copy, PartialEq, Eq, Structural)]
pub enum TrustRank {
    Nuisance,
    Visitor,
    NewUser,
    User,
    KnownUser,
    TrustedUser,
    Admin,
}

/// The position of a rank in the order, lowest first.
pub open spec fn rank_order(r: TrustRank) -> int {
    match r {
        TrustRank::Nuisance => 0,
        TrustRank::Visitor => 1,
        TrustRank::NewUser => 2,
        TrustRank::User => 3,
        TrustRank::KnownUser => 4,
        TrustRank::TrustedUser => 5,
        TrustRank::Admin => 6,
    }
}

impl TrustRank {
    /// Whether this rank is at most `other` in the trust order.
    pub fn at_most(&self, other: &TrustRank) -> (r: bool)
        ensures
            r == (rank_order(*self) <= rank_order(*other)),
    {
        self.position() <= other.position()
    }

    fn position(&self) -> (v: u8)
        ensures
            v == rank_order(*self),
    {
        match self {
            TrustRank::Nuisance => 0,
            TrustRank::Visitor => 1,
            TrustRank::NewUser => 2,
            TrustRank::User => 3,
            TrustRank::KnownUser => 4,
            TrustRank::TrustedUser => 5,
            TrustRank::Admin => 6,
        }
    }
}

/// Whether the tag `t` occurs in `tags`.
pub open spec fn tags_contain(tags: Seq<Seq<char>>, t: Seq<char>) -> bool {
    exists|i: int| 0 <= i < tags.len() && tags[i] == t
}

/// The rank that a remote account's tag list names. The tags are tried
/// in a fixed priority order; an account with none of them is a Visitor.
pub open spec fn rank_of_tags(tags: Seq<Seq<char>>) -> TrustRank {
    if tags_contain(tags, "admin_moderator"@) {
        TrustRank::Admin
    } else if tags_contain(tags, "system_trust_veteran"@) {
        TrustRank::TrustedUser
    } else if tags_contain(tags, "system_trust_trusted"@) {
        TrustRank::KnownUser
    } else if tags_contain(tags, "system_trust_basic"@) {
        TrustRank::NewUser
    } else if tags_contain(tags, "system_trust_known"@) {
        TrustRank::User
    } else if tags_contain(tags, "system_nuisance"@) {
        TrustRank::Nuisance
    } else {
        TrustRank::Visitor
    }
}

fn tags_contain_exec(tags: &Vec<String>, t: &str) -> (r: bool)
    ensures
        r == tags_contain(tags.deep_view(), t@),
{
    let mut i: usize = 0;
    while i < tags.len()
        invariant
            0 <= i <= tags@.len(),
            forall|k: int| 0 <= k < i ==> tags.deep_view()[k] != t@,
        decreases tags@.len() - i,
    {
        if str_eq(tags[i].as_str(), t) {
            proof {
                assert(tags.deep_view()[i as int] == t@);
            }
            return true;
        }
        i += 1;
    }
    false
}

/// Types that can name a trust rank for themselves.
pub trait GetTrustRank {
    /// The rank the value names, as a specification.
    spec fn spec_trust_rank(&self) -> TrustRank;

    /// The rank the value names.
    fn trust_rank(&self) -> (r: TrustRank)
        ensures
            r == self.spec_trust_rank(),
    ;
}

/// The attributes of an account as the remote directory reports them,
/// reduced to the plain values this library reads.
#[derive(Debug, Clone, PartialEq, Eq)]
pub struct RemoteUserInfo {
    /// The stable remote identifier.
    pub id: String,
    /// The display name.
    pub display_name: String,
    /// The raw tag list, from which the trust rank is derived.
    pub tags: Vec<String>,
    /// Whether the account's age is verified.
    pub age_verified: bool,
    /// The account-creation date as `YYYY-MM-DD`, when reported.
    pub date_joined: Option<String>,
    /// The platform the account was last seen on, as reported.
    pub last_platform: String,
}

impl GetTrustRank for RemoteUserInfo {
    open spec fn spec_trust_rank(&self) -> TrustRank {
        rank_of_tags(self.tags.deep_view())
    }

    fn trust_rank(&self) -> (r: TrustRank) {
        if tags_contain_exec(&self.tags, "admin_moderator") {
            TrustRank::Admin
        } else if tags_contain_exec(&self.tags, "system_trust_veteran") {
            TrustRank::TrustedUser
        } else if tags_contain_exec(&self.tags, "system_trust_trusted") {
            TrustRank::KnownUser
        } else if tags_contain_exec(&self.tags, "system_trust_basic") {
            TrustRank::NewUser
        } else if tags_contain_exec(&self.tags, "system_trust_known") {
            TrustRank::User
        } else if tags_contain_exec(&self.tags, "system_nuisance") {
            TrustRank::Nuisance
        } else {
            TrustRank::Visitor
        }
    }
}

} // verus!
