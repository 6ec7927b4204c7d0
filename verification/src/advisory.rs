//! The advisory catalog: user-authored rules, each a boolean condition
//! tree over a participant plus a message template and delivery flags,
//! and the in-memory store that keeps the catalog, its active subset,
//! and the instance-scoped notice log.

use vstd::prelude::*;

use crate::trust::TrustRank;

verus! {

/// How loud an advisory is.
#[derive(Debug, Clone, Copy, PartialEq, Eq, Structural)]
pub enum AdvisoryLevel {
    Low,
    Medium,
    High,
    Maximum,
}

/// A boolean condition over one participant and the instance context.
/// Substring tests are case-insensitive; `TrustRankAtMost` compares in
/// the trust order; `AccountAgeAtMostDays` compares the account's age in
/// days; composite nodes combine children as boolean logic requires.
pub enum AdvisoryCondition {
    UsernameContains(String),
    AgeNotVerified,
    TrustRankAtMost(TrustRank),
    PlatformIs(String),
    IsGroupMember(String),
    AccountAgeAtMostDays(i64),
    InstanceOwner(String),
    AvatarNameContains(String),
    InGroupNameContains(String),
    Not(Box<AdvisoryCondition>),
    And(Vec<AdvisoryCondition>),
    Or(Vec<AdvisoryCondition>),
}

/// One user-authored rule of the catalog.
pub struct Advisory {
    /// The stable, user-assigned identifier.
    pub id: String,
    /// Only active advisories take part in evaluation.
    pub active: bool,
    /// When this holds for a participant, the advisory is active for them.
    pub condition: AdvisoryCondition,
    /// The message, with `{placeholder}` substitutions.
    pub message_template: String,
    pub level: AdvisoryLevel,
    /// Whether an activation should reach the notification channel.
    pub send_notification: bool,
    /// Whether an activation should reach the speech channel.
    pub send_tts: bool,
}

/// An advisory currently active for one participant. For set membership,
/// entries count as the same advisory exactly when their ids are equal.
#[derive(Debug, Clone, PartialEq, Eq)]
pub struct ActiveAdvisory {
    /// The id of the advisory this entry came from.
    pub id: String,
    /// The rendered message.
    pub message: String,
    pub level: AdvisoryLevel,
    /// The group that made a group-membership condition true, when one did.
    pub relevant_group_id: Option<String>,
}

/// A record of an advisory activation, appended to the instance-scoped
/// notice log and offered to the delivery channels.
#[derive(Debug, Clone, PartialEq, Eq)]
pub struct Notice {
    /// A human-readable trigger phrase.
    pub title: Option<String>,
    /// The rendered advisory message.
    pub message: String,
    pub level: AdvisoryLevel,
    /// The participant the notice is about, when it is about one.
    pub relevant_user_id: Option<String>,
    pub send_notification: bool,
    pub send_tts: bool,
    /// When the notice was created, as a timestamp.
    pub created_at: i64,
}

/// Build the notice for a fresh activation of `advisory` as `active`.
pub fn make_notice(
    advisory: &Advisory,
    active: &ActiveAdvisory,
    user_id: &str,
    title: Option<String>,
    created_at: i64,
) -> (n: Notice)
    ensures
        n.title == title,
        n.message@ == active.message@,
        n.level == active.level,
        n.relevant_user_id matches Some(u) && u@ == user_id@,
        n.send_notification == advisory.send_notification,
        n.send_tts == advisory.send_tts,
        n.created_at == created_at,
{
    Notice {
        title,
        message: active.message.clone(),
        level: active.level,
        relevant_user_id: Some(user_id.to_owned()),
        send_notification: advisory.send_notification,
        send_tts: advisory.send_tts,
        created_at,
    }
}

/// The advisories of `l` that are marked active, in order.
pub open spec fn active_of(l: Seq<Advisory>) -> Seq<Advisory>
    decreases l.len(),
{
    if l.len() == 0 {
        l
    } else {
        active_of(l.drop_last()) + (if l.last().active {
            seq![l.last()]
        } else {
            Seq::<Advisory>::empty()
        })
    }
}

/// Whether some advisory of `l` has a group-membership condition at its
/// top level.
pub open spec fn has_group_condition(l: Seq<Advisory>) -> bool {
    exists|i: int| 0 <= i < l.len() && (#[trigger] l[i].condition) is IsGroupMember
}

/// The advisories of `all` that the index list `idx` picks, in order.
pub open spec fn selected(all: Seq<Advisory>, idx: Seq<usize>) -> Seq<Advisory> {
    idx.map_values(|i: usize| all[i as int])
}

/// The in-memory advisory store: the whole catalog, the indices of its
/// active members, and the instance-scoped notice log.
pub struct AdvisoryMemory {
    /// Whether some active advisory tests group membership, so that an
    /// enrichment pass knows to fetch group lists at all.
    pub has_group_membership_advisory: bool,
    /// The indices of the active members of the catalog, ascending, so
    /// that evaluation visits them in catalog order.
    pub active_advisories: Vec<usize>,
    /// The whole catalog, in order.
    pub all_advisories: Vec<Advisory>,
    /// The notices of the current instance, oldest first.
    pub notices: Vec<Notice>,
}

/// A store whose fields agree: the indices pick exactly the active
/// members of the catalog, and the group flag reports a group-membership
/// condition among them.
pub open spec fn memory_consistent(m: AdvisoryMemory) -> bool {
    &&& (forall|k: int|
        0 <= k < m.active_advisories@.len() ==> ((#[trigger] m.active_advisories@[k]) as int)
            < m.all_advisories@.len())
    &&& selected(m.all_advisories@, m.active_advisories@) == active_of(m.all_advisories@)
    &&& m.has_group_membership_advisory == has_group_condition(
        selected(m.all_advisories@, m.active_advisories@),
    )
}

impl AdvisoryMemory {
    /// An empty store.
    pub fn new() -> (r: AdvisoryMemory)
        ensures
            r.all_advisories@.len() == 0,
            r.active_advisories@.len() == 0,
            r.notices@.len() == 0,
            !r.has_group_membership_advisory,
            memory_consistent(r),
    {
        let r = AdvisoryMemory {
            has_group_membership_advisory: false,
            active_advisories: Vec::new(),
            all_advisories: Vec::new(),
            notices: Vec::new(),
        };
        proof {
            assert(selected(r.all_advisories@, r.active_advisories@) =~= active_of(
                r.all_advisories@,
            ));
        }
        r
    }

    /// The whole catalog, in order.
    pub fn get_advisories(&self) -> (r: &Vec<Advisory>)
        ensures
            r == self.all_advisories,
    {
        &self.all_advisories
    }

    /// The indices of the catalog's active members, in catalog order.
    pub fn get_active_advisories(&self) -> (r: &Vec<usize>)
        ensures
            r == self.active_advisories,
    {
        &self.active_advisories
    }

    /// Replace the catalog. The active subset and the group flag are
    /// recomputed; the notice log is kept.
    pub fn set(&mut self, advisories: Vec<Advisory>)
        ensures
            final(self).all_advisories@ == advisories@,
            selected(final(self).all_advisories@, final(self).active_advisories@) == active_of(
                advisories@,
            ),
            final(self).notices == old(self).notices,
            memory_consistent(*final(self)),
    {
        let mut idx: Vec<usize> = Vec::new();
        let mut has_group = false;
        let mut i: usize = 0;
        proof {
            assert(advisories@.subrange(0, 0) =~= Seq::<Advisory>::empty());
            assert(selected(advisories@, idx@) =~= active_of(advisories@.subrange(0, 0)));
        }
        while i < advisories.len()
            invariant
                0 <= i <= advisories@.len(),
                forall|k: int| 0 <= k < idx@.len() ==> ((#[trigger] idx@[k]) as int) < i,
                selected(advisories@, idx@) == active_of(advisories@.subrange(0, i as int)),
                has_group == has_group_condition(selected(advisories@, idx@)),
            decreases advisories@.len() - i,
        {
            proof {
                assert(advisories@.subrange(0, i + 1).drop_last() =~= advisories@.subrange(
                    0,
                    i as int,
                ));
                assert(advisories@.subrange(0, i + 1).last() == advisories@[i as int]);
            }
            if advisories[i].active {
                let is_group = match &advisories[i].condition {
                    AdvisoryCondition::IsGroupMember(_) => true,
                    _ => false,
                };
                let ghost before = selected(advisories@, idx@);
                idx.push(i);
                proof {
                    assert(selected(advisories@, idx@) =~= before.push(advisories@[i as int]));
                    assert(selected(advisories@, idx@) =~= active_of(
                        advisories@.subrange(0, i + 1),
                    ));
                    let now = selected(advisories@, idx@);
                    if is_group {
                        assert(now[now.len() - 1].condition is IsGroupMember);
                        assert(has_group_condition(now));
                    } else {
                        assert forall|k: int|
                            0 <= k < now.len() implies ((#[trigger] now[k].condition)
                            is IsGroupMember ==> has_group) by {
                            if k < now.len() - 1 {
                                assert(now[k] == before[k]);
                            }
                        }
                        if has_group {
                            let w = choose|j: int|
                                0 <= j < before.len() && (#[trigger] before[j].condition)
                                    is IsGroupMember;
                            assert(now[w] == before[w]);
                            assert(now[w].condition is IsGroupMember);
                        }
                        assert((has_group || is_group) == has_group_condition(now));
                    }
                }
                has_group = has_group || is_group;
            } else {
                proof {
                    assert(selected(advisories@, idx@) =~= active_of(
                        advisories@.subrange(0, i + 1),
                    ));
                }
            }
            i += 1;
        }
        proof {
            assert(advisories@.subrange(0, advisories@.len() as int) =~= advisories@);
        }
        self.all_advisories = advisories;
        self.active_advisories = idx;
        self.has_group_membership_advisory = has_group;
    }
}

} // verus!
