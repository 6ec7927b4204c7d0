//! The decisions around asynchronous enrichment: whether a group fetch
//! is needed at all, how remote group entries reduce to the roster's
//! form, how one fetched record merges into the roster, and which
//! participants still need a manual fetch.

use vstd::prelude::*;

use crate::advisory::{AdvisoryMemory, Notice, memory_consistent, selected};
use crate::engine::{AdvisoryTrigger, advisories_outcome, data_of, title_of};
use crate::roster::{Users, first_user_with_id};
use crate::strutil::str_eq;
use crate::timeparse::date_ymd_days;
use crate::trust::{RemoteUserInfo, rank_of_tags};
use crate::user::{PartialGroup, VrcMrdUser, platform_of};

verus! {

/// Where a participant's group list should come from: the cached list
/// when one is already held, a remote fetch only when some active
/// advisory actually tests group membership, and nothing otherwise.
#[derive(Debug, Clone, Copy, PartialEq, Eq, Structural)]
pub enum GroupFetchPlan {
    UseCached,
    FetchRemote,
    Skip,
}

/// Decide where a participant's group list comes from.
pub fn plan_group_fetch(base_groups: &Vec<PartialGroup>, has_group_membership_advisory: bool) -> (r:
    GroupFetchPlan)
    ensures
        r == (if base_groups@.len() > 0 {
            GroupFetchPlan::UseCached
        } else if has_group_membership_advisory {
            GroupFetchPlan::FetchRemote
        } else {
            GroupFetchPlan::Skip
        }),
{
    if base_groups.len() > 0 {
        GroupFetchPlan::UseCached
    } else if has_group_membership_advisory {
        GroupFetchPlan::FetchRemote
    } else {
        GroupFetchPlan::Skip
    }
}

/// One group entry as the remote directory reports it: both fields may
/// be absent.
#[derive(Debug, Clone, PartialEq, Eq)]
pub struct RemoteGroup {
    pub group_id: Option<String>,
    pub name: Option<String>,
}

/// What one remote group entry reduces to: a missing id becomes empty,
/// a missing name falls back to the id.
pub open spec fn reduced_group(g: RemoteGroup) -> (Seq<char>, Seq<char>) {
    let id = match g.group_id {
        Some(i) => i@,
        None => Seq::<char>::empty(),
    };
    let name = match g.name {
        Some(n) => n@,
        None => id,
    };
    (id, name)
}

/// Reduce a fetched group list to the roster's form, entry by entry.
pub fn groups_from_remote(list: &Vec<RemoteGroup>) -> (r: Vec<PartialGroup>)
    ensures
        r@.len() == list@.len(),
        forall|j: int|
            0 <= j < list@.len() ==> ((#[trigger] r@[j]).id@, r@[j].name@) == reduced_group(
                list@[j],
            ),
{
    let mut r: Vec<PartialGroup> = Vec::new();
    let mut i: usize = 0;
    while i < list.len()
        invariant
            0 <= i <= list@.len(),
            r@.len() == i,
            forall|j: int|
                0 <= j < i ==> ((#[trigger] r@[j]).id@, r@[j].name@) == reduced_group(list@[j]),
        decreases list@.len() - i,
    {
        let g = &list[i];
        let id: String = match &g.group_id {
            Some(s) => s.clone(),
            None => "".to_owned(),
        };
        let name: String = match &g.name {
            Some(n) => n.clone(),
            None => id.clone(),
        };
        proof {
            reveal_strlit("");
        }
        r.push(PartialGroup { id, name });
        i += 1;
    }
    r
}

/// Merge one fetched record into the roster: the participant with the
/// matching id is enriched and re-evaluated as `update_from` says, and
/// the fresh activations come back; a record about nobody in the roster
/// changes nothing. A caller must already have checked that the
/// instance did not change while the fetch was in flight.
pub fn apply_enrichment(
    users: &mut Users,
    other: &RemoteUserInfo,
    groups: Vec<PartialGroup>,
    mem: &AdvisoryMemory,
    instance_owner: &Option<String>,
    today: i64,
    now: i64,
) -> (r: Option<Vec<Notice>>)
    requires
        memory_consistent(*mem),
    ensures
        final(users).joined_before_settled == old(users).joined_before_settled,
        ({
            let i = first_user_with_id(old(users).inner@, other.id@);
            if i == -1 {
                r is None && final(users).inner == old(users).inner
            } else {
                &&& final(users).inner@.len() == old(users).inner@.len()
                &&& (forall|j: int|
                    0 <= j < old(users).inner@.len() && j != i ==> final(users).inner@[j] == old(
                        users,
                    ).inner@[j])
                &&& ({
                    let was = old(users).inner@[i];
                    let now_u = final(users).inner@[i];
                    &&& now_u.id == was.id
                    &&& now_u.username == was.username
                    &&& now_u.avatar_name == was.avatar_name
                    &&& now_u.perf_rank == was.perf_rank
                    &&& now_u.join_time == was.join_time
                    &&& now_u.leave_time == was.leave_time
                    &&& now_u.age_verified == other.age_verified
                    &&& now_u.account_created == (match other.date_joined {
                        Some(d) => date_ymd_days(d@),
                        None => was.account_created,
                    })
                    &&& now_u.trust_rank == Some(rank_of_tags(other.tags.deep_view()))
                    &&& now_u.platform.deep_view() == platform_of(other.last_platform@)
                    &&& now_u.groups == groups
                    &&& ({
                        let mid = VrcMrdUser { advisories: was.advisories, ..now_u };
                        let out = advisories_outcome(
                            data_of(mid),
                            was.advisories.deep_view(),
                            instance_owner.deep_view(),
                            today as int,
                            now as int,
                            Some(title_of(AdvisoryTrigger::JoinLeave, was.username@, was.avatar_name@)),
                            selected(mem.all_advisories@, mem.active_advisories@),
                        );
                        &&& now_u.advisories.deep_view() == out.0
                        &&& r matches Some(ns) && ns.deep_view() == out.1
                    })
                })
            }
        }),
{
    match users.find_by_id(other.id.as_str()) {
        Some(i) => {
            let mut u = users.inner.remove(i);
            let notices = u.update_from(other, groups, mem, instance_owner, today, now);
            users.inner.insert(i, u);
            Some(notices)
        },
        None => None,
    }
}

/// The ids of the participants whose trust rank is still unknown and
/// who were not handled by a batch update, in roster order: the ones a
/// manual fetch should cover.
pub open spec fn needing_fetch(users: Seq<VrcMrdUser>, handled: Seq<Seq<char>>) -> Seq<Seq<char>>
    decreases users.len(),
{
    if users.len() == 0 {
        Seq::<Seq<char>>::empty()
    } else {
        needing_fetch(users.drop_last(), handled) + (if users.last().trust_rank is None
            && !handled.contains(users.last().id@) {
            seq![users.last().id@]
        } else {
            Seq::<Seq<char>>::empty()
        })
    }
}

/// The participants a manual fetch should still cover.
pub fn users_needing_fetch(users: &Users, handled: &Vec<String>) -> (r: Vec<String>)
    ensures
        r.deep_view() == needing_fetch(users.inner@, handled.deep_view()),
{
    let mut r: Vec<String> = Vec::new();
    let mut i: usize = 0;
    proof {
        assert(users.inner@.subrange(0, 0) =~= Seq::<VrcMrdUser>::empty());
        assert(r.deep_view() =~= needing_fetch(users.inner@.subrange(0, 0), handled.deep_view()));
    }
    while i < users.inner.len()
        invariant
            0 <= i <= users.inner@.len(),
            r.deep_view() == needing_fetch(
                users.inner@.subrange(0, i as int),
                handled.deep_view(),
            ),
        decreases users.inner@.len() - i,
    {
        proof {
            assert(users.inner@.subrange(0, i + 1).drop_last() =~= users.inner@.subrange(
                0,
                i as int,
            ));
            assert(users.inner@.subrange(0, i + 1).last() == users.inner@[i as int]);
        }
        let u = &users.inner[i];
        if u.trust_rank.is_none() && !string_list_contains(handled, u.id.as_str()) {
            let ghost prev = r.deep_view();
            r.push(u.id.clone());
            proof {
                assert(r.deep_view() =~= prev.push(users.inner@[i as int].id@));
            }
        }
        i += 1;
    }
    proof {
        assert(users.inner@.subrange(0, users.inner@.len() as int) =~= users.inner@);
    }
    r
}

fn string_list_contains(list: &Vec<String>, s: &str) -> (r: bool)
    ensures
        r == list.deep_view().contains(s@),
{
    let mut i: usize = 0;
    while i < list.len()
        invariant
            0 <= i <= list@.len(),
            forall|k: int| 0 <= k < i ==> list.deep_view()[k] != s@,
        decreases list@.len() - i,
    {
        proof {
            assert(list.deep_view()[i as int] == list@[i as int]@);
        }
        if str_eq(list[i].as_str(), s) {
            proof {
                assert(list.deep_view()[i as int] == s@);
            }
            return true;
        }
        i += 1;
    }
    proof {
        assert(forall|k: int| 0 <= k < list.deep_view().len() ==> list.deep_view()[k] != s@);
    }
    false
}

} // verus!
