//! The presence roster: the authoritative set of participants of the
//! current instance, the pending-avatar buffer, and the application of
//! presence intents to them.

use vstd::prelude::*;

use crate::user::VrcMrdUser;

verus! {

/// The participants of the current instance.
pub struct Users {
    /// The participant records, in join order.
    pub inner: Vec<VrcMrdUser>,
    /// The ids of participants who joined before the observing session
    /// settled; notices about them are recorded but not delivered.
    pub joined_before_settled: Vec<String>,
}

/// Avatar switches seen before their participant joined, keyed by
/// display name: the avatar is applied the moment the participant's
/// join arrives. A later switch for the same name replaces the earlier.
pub struct AvatarsState {
    pub pending_avatar_names: Vec<(String, String)>,
}

/// Index of the first participant with `id`, or -1.
pub open spec fn first_user_with_id(users: Seq<VrcMrdUser>, id: Seq<char>) -> int
    decreases users.len(),
{
    if users.len() == 0 {
        -1
    } else if users[0].id@ == id {
        0
    } else {
        let r = first_user_with_id(users.drop_first(), id);
        if r == -1 {
            -1
        } else {
            r + 1
        }
    }
}

proof fn lemma_first_user_with_id_is(users: Seq<VrcMrdUser>, id: Seq<char>, i: int)
    requires
        0 <= i < users.len(),
        users[i].id@ == id,
        forall|k: int| 0 <= k < i ==> (#[trigger] users[k]).id@ != id,
    ensures
        first_user_with_id(users, id) == i,
    decreases users.len(),
{
    if i > 0 {
        assert(forall|k: int|
            0 <= k < i - 1 ==> (#[trigger] users.drop_first()[k]).id@ != id);
        lemma_first_user_with_id_is(users.drop_first(), id, i - 1);
    }
}

proof fn lemma_first_user_with_id_none(users: Seq<VrcMrdUser>, id: Seq<char>)
    requires
        forall|k: int| 0 <= k < users.len() ==> (#[trigger] users[k]).id@ != id,
    ensures
        first_user_with_id(users, id) == -1,
    decreases users.len(),
{
    if users.len() > 0 {
        assert(forall|k: int|
            0 <= k < users.drop_first().len() ==> (#[trigger] users.drop_first()[k]).id@ != id);
        lemma_first_user_with_id_none(users.drop_first(), id);
    }
}

/// Index of the first participant with display name `name`, or -1.
pub open spec fn first_user_with_name(users: Seq<VrcMrdUser>, name: Seq<char>) -> int
    decreases users.len(),
{
    if users.len() == 0 {
        -1
    } else if users[0].username@ == name {
        0
    } else {
        let r = first_user_with_name(users.drop_first(), name);
        if r == -1 {
            -1
        } else {
            r + 1
        }
    }
}

proof fn lemma_first_user_with_name_is(users: Seq<VrcMrdUser>, name: Seq<char>, i: int)
    requires
        0 <= i < users.len(),
        users[i].username@ == name,
        forall|k: int| 0 <= k < i ==> (#[trigger] users[k]).username@ != name,
    ensures
        first_user_with_name(users, name) == i,
    decreases users.len(),
{
    if i > 0 {
        assert(forall|k: int|
            0 <= k < i - 1 ==> (#[trigger] users.drop_first()[k]).username@ != name);
        lemma_first_user_with_name_is(users.drop_first(), name, i - 1);
    }
}

proof fn lemma_first_user_with_name_none(users: Seq<VrcMrdUser>, name: Seq<char>)
    requires
        forall|k: int| 0 <= k < users.len() ==> (#[trigger] users[k]).username@ != name,
    ensures
        first_user_with_name(users, name) == -1,
    decreases users.len(),
{
    if users.len() > 0 {
        assert(forall|k: int|
            0 <= k < users.drop_first().len() ==> (#[trigger] users.drop_first()[k]).username@
                != name);
        lemma_first_user_with_name_none(users.drop_first(), name);
    }
}

/// The roster without any record of `id`, in order.
pub open spec fn users_without_id(users: Seq<VrcMrdUser>, id: Seq<char>) -> Seq<VrcMrdUser>
    decreases users.len(),
{
    if users.len() == 0 {
        users
    } else {
        users_without_id(users.drop_last(), id) + (if users.last().id@ == id {
            Seq::<VrcMrdUser>::empty()
        } else {
            seq![users.last()]
        })
    }
}

/// The pending buffer without any entry for `name`, in order.
pub open spec fn pending_without_name(
    pending: Seq<(Seq<char>, Seq<char>)>,
    name: Seq<char>,
) -> Seq<(Seq<char>, Seq<char>)>
    decreases pending.len(),
{
    if pending.len() == 0 {
        pending
    } else {
        pending_without_name(pending.drop_last(), name) + (if pending.last().0 == name {
            Seq::<(Seq<char>, Seq<char>)>::empty()
        } else {
            seq![pending.last()]
        })
    }
}

impl AvatarsState {
    /// An empty buffer.
    pub fn new() -> (r: AvatarsState)
        ensures
            r.pending_avatar_names@.len() == 0,
    {
        AvatarsState { pending_avatar_names: Vec::new() }
    }

    /// Remember that `name` switched to `avatar` before joining; a later
    /// switch for the same name wins.
    pub fn buffer_pending(&mut self, name: String, avatar: String)
        ensures
            final(self).pending_avatar_names.deep_view() == pending_without_name(
                old(self).pending_avatar_names.deep_view(),
                name@,
            ).push((name@, avatar@)),
    {
        let ghost goal = pending_without_name(
            self.pending_avatar_names.deep_view(),
            name@,
        );
        let mut kept: Vec<(String, String)> = Vec::new();
        let mut i: usize = 0;
        proof {
            let dv = self.pending_avatar_names.deep_view();
            assert(dv.subrange(0, 0) =~= Seq::<(Seq<char>, Seq<char>)>::empty());
            assert(kept.deep_view() =~= pending_without_name(dv.subrange(0, 0), name@));
        }
        while i < self.pending_avatar_names.len()
            invariant
                0 <= i <= self.pending_avatar_names@.len(),
                kept.deep_view() == pending_without_name(
                    self.pending_avatar_names.deep_view().subrange(0, i as int),
                    name@,
                ),
            decreases self.pending_avatar_names@.len() - i,
        {
            proof {
                let dv = self.pending_avatar_names.deep_view();
                assert(dv.subrange(0, i + 1).drop_last() =~= dv.subrange(0, i as int));
                assert(dv.subrange(0, i + 1).last() == dv[i as int]);
                assert(dv[i as int].0 == self.pending_avatar_names@[i as int].0@);
            }
            if !crate::strutil::str_eq(self.pending_avatar_names[i].0.as_str(), name.as_str()) {
                let ghost prev = kept.deep_view();
                let entry = (
                    self.pending_avatar_names[i].0.clone(),
                    self.pending_avatar_names[i].1.clone(),
                );
                kept.push(entry);
                proof {
                    assert(kept.deep_view() =~= prev.push(
                        self.pending_avatar_names.deep_view()[i as int],
                    ));
                }
            }
            i += 1;
        }
        proof {
            let dv = self.pending_avatar_names.deep_view();
            assert(dv.subrange(0, dv.len() as int) =~= dv);
        }
        let ghost prev = kept.deep_view();
        let ghost nv = name@;
        let ghost av = avatar@;
        kept.push((name, avatar));
        proof {
            assert(kept.deep_view() =~= prev.push((nv, av)));
        }
        self.pending_avatar_names = kept;
    }

    /// Take the avatar buffered for `name`, if one is pending; the entry
    /// is consumed.
    pub fn take_pending(&mut self, name: &str) -> (r: Option<String>)
        ensures
            ({
                let dv = old(self).pending_avatar_names.deep_view();
                let i = first_pending_with_name(dv, name@);
                if i == -1 {
                    r is None && *final(self) == *old(self)
                } else {
                    &&& r matches Some(a) && a@ == dv[i].1
                    &&& final(self).pending_avatar_names.deep_view() == dv.remove(i)
                }
            }),
    {
        let mut i: usize = 0;
        while i < self.pending_avatar_names.len()
            invariant
                *self == *old(self),
                0 <= i <= self.pending_avatar_names@.len(),
                forall|k: int|
                    0 <= k < i ==> (#[trigger] self.pending_avatar_names.deep_view()[k]).0
                        != name@,
            decreases self.pending_avatar_names@.len() - i,
        {
            proof {
                assert(self.pending_avatar_names.deep_view()[i as int].0
                    == self.pending_avatar_names@[i as int].0@);
            }
            if crate::strutil::str_eq(self.pending_avatar_names[i].0.as_str(), name) {
                proof {
                    lemma_first_pending_with_name_is(
                        self.pending_avatar_names.deep_view(),
                        name@,
                        i as int,
                    );
                }
                let ghost dv = self.pending_avatar_names.deep_view();
                let entry = self.pending_avatar_names.remove(i);
                proof {
                    assert(self.pending_avatar_names.deep_view() =~= dv.remove(i as int));
                }
                return Some(entry.1);
            }
            i += 1;
        }
        proof {
            lemma_first_pending_with_name_none(self.pending_avatar_names.deep_view(), name@);
        }
        None
    }
}

/// Index of the first pending entry for `name`, or -1.
pub open spec fn first_pending_with_name(
    pending: Seq<(Seq<char>, Seq<char>)>,
    name: Seq<char>,
) -> int
    decreases pending.len(),
{
    if pending.len() == 0 {
        -1
    } else if pending[0].0 == name {
        0
    } else {
        let r = first_pending_with_name(pending.drop_first(), name);
        if r == -1 {
            -1
        } else {
            r + 1
        }
    }
}

proof fn lemma_first_pending_with_name_is(
    pending: Seq<(Seq<char>, Seq<char>)>,
    name: Seq<char>,
    i: int,
)
    requires
        0 <= i < pending.len(),
        pending[i].0 == name,
        forall|k: int| 0 <= k < i ==> (#[trigger] pending[k]).0 != name,
    ensures
        first_pending_with_name(pending, name) == i,
    decreases pending.len(),
{
    if i > 0 {
        assert(forall|k: int|
            0 <= k < i - 1 ==> (#[trigger] pending.drop_first()[k]).0 != name);
        lemma_first_pending_with_name_is(pending.drop_first(), name, i - 1);
    }
}

proof fn lemma_first_pending_with_name_none(
    pending: Seq<(Seq<char>, Seq<char>)>,
    name: Seq<char>,
)
    requires
        forall|k: int| 0 <= k < pending.len() ==> (#[trigger] pending[k]).0 != name,
    ensures
        first_pending_with_name(pending, name) == -1,
    decreases pending.len(),
{
    if pending.len() > 0 {
        assert(forall|k: int|
            0 <= k < pending.drop_first().len() ==> (#[trigger] pending.drop_first()[k]).0
                != name);
        lemma_first_pending_with_name_none(pending.drop_first(), name);
    }
}

impl Users {
    /// An empty roster.
    pub fn new() -> (r: Users)
        ensures
            r.inner@.len() == 0,
            r.joined_before_settled@.len() == 0,
    {
        Users { inner: Vec::new(), joined_before_settled: Vec::new() }
    }

    /// Forget every participant and the before-settle list, for a new
    /// instance.
    pub fn clear(&mut self)
        ensures
            final(self).inner@.len() == 0,
            final(self).joined_before_settled@.len() == 0,
    {
        self.inner.clear();
        self.joined_before_settled.clear();
    }

    /// Index of the first participant with `id`, if present.
    pub fn find_by_id(&self, id: &str) -> (r: Option<usize>)
        ensures
            match r {
                Some(i) => first_user_with_id(self.inner@, id@) == i && i < self.inner@.len(),
                None => first_user_with_id(self.inner@, id@) == -1,
            },
    {
        let mut i: usize = 0;
        while i < self.inner.len()
            invariant
                0 <= i <= self.inner@.len(),
                forall|k: int| 0 <= k < i ==> (#[trigger] self.inner@[k]).id@ != id@,
            decreases self.inner@.len() - i,
        {
            if crate::strutil::str_eq(self.inner[i].id.as_str(), id) {
                proof {
                    lemma_first_user_with_id_is(self.inner@, id@, i as int);
                }
                return Some(i);
            }
            i += 1;
        }
        proof {
            lemma_first_user_with_id_none(self.inner@, id@);
        }
        None
    }

    /// Index of the first participant named `name`, if present.
    pub fn find_by_name(&self, name: &str) -> (r: Option<usize>)
        ensures
            match r {
                Some(i) => first_user_with_name(self.inner@, name@) == i && i
                    < self.inner@.len(),
                None => first_user_with_name(self.inner@, name@) == -1,
            },
    {
        let mut i: usize = 0;
        while i < self.inner.len()
            invariant
                0 <= i <= self.inner@.len(),
                forall|k: int| 0 <= k < i ==> (#[trigger] self.inner@[k]).username@ != name@,
            decreases self.inner@.len() - i,
        {
            if crate::strutil::str_eq(self.inner[i].username.as_str(), name) {
                proof {
                    lemma_first_user_with_name_is(self.inner@, name@, i as int);
                }
                return Some(i);
            }
            i += 1;
        }
        proof {
            lemma_first_user_with_name_none(self.inner@, name@);
        }
        None
    }
}



impl Users {
    /// Apply a player-joined intent: any earlier record of the same id
    /// is dropped (a rapid re-join replaces it), a fresh record is
    /// appended with any pending avatar resolved and consumed, and a
    /// join before the session settled is remembered for suppression.
    pub fn apply_player_joined(
        &mut self,
        avatars: &mut AvatarsState,
        name: String,
        id: String,
        join_time: i64,
        settled: bool,
    )
        ensures
            ({
                let pv = old(avatars).pending_avatar_names.deep_view();
                let pi = first_pending_with_name(pv, name@);
                let avatar: Seq<char> = if pi == -1 {
                    Seq::<char>::empty()
                } else {
                    pv[pi].1
                };
                let base = users_without_id(old(self).inner@, id@);
                &&& (if pi == -1 {
                    *final(avatars) == *old(avatars)
                } else {
                    final(avatars).pending_avatar_names.deep_view() == pv.remove(pi)
                })
                &&& final(self).inner@.len() == base.len() + 1
                &&& (forall|j: int| 0 <= j < base.len() ==> final(self).inner@[j] == base[j])
                &&& ({
                    let u = final(self).inner@.last();
                    &&& u.id@ == id@
                    &&& u.username@ == name@
                    &&& u.avatar_name@ == avatar
                    &&& u.perf_rank@ == "VeryPoor"@
                    &&& u.account_created is None
                    &&& u.join_time == join_time
                    &&& u.leave_time is None
                    &&& u.advisories@.len() == 0
                    &&& !u.age_verified
                    &&& u.platform is None
                    &&& u.trust_rank is None
                    &&& u.groups@.len() == 0
                })
                &&& (if settled {
                    final(self).joined_before_settled == old(self).joined_before_settled
                } else {
                    &&& final(self).joined_before_settled@.len() == old(self).joined_before_settled@.len() + 1
                    &&& (forall|j: int|
                        0 <= j < old(self).joined_before_settled@.len() ==> final(self).joined_before_settled@[j] == old(self).joined_before_settled@[j])
                    &&& final(self).joined_before_settled@.last()@ == id@
                })
            }),
    {
        let avatar_name: String = match avatars.take_pending(name.as_str()) {
            Some(a) => a,
            None => "".to_owned(),
        };
        proof {
            reveal_strlit("");
        }
        // Drop any earlier record of the same id, in place.
        let ghost orig = self.inner@;
        let mut i: usize = 0;
        let ghost mut j: int = 0;
        proof {
            assert(orig.subrange(0, 0) =~= Seq::<VrcMrdUser>::empty());
            assert(self.inner@ =~= users_without_id(orig.subrange(0, 0), id@) + orig.subrange(
                0,
                orig.len() as int,
            ));
        }
        while i < self.inner.len()
            invariant
                old(self).inner@ == orig,
                self.joined_before_settled == old(self).joined_before_settled,
                0 <= i,
                i as int <= j <= orig.len(),
                i as int == users_without_id(orig.subrange(0, j), id@).len(),
                self.inner@ == users_without_id(orig.subrange(0, j), id@) + orig.subrange(
                    j,
                    orig.len() as int,
                ),
            decreases self.inner@.len() - i,
        {
            proof {
                assert(orig.subrange(0, j + 1).drop_last() =~= orig.subrange(0, j));
                assert(orig.subrange(0, j + 1).last() == orig[j]);
                assert(self.inner@[i as int] == orig[j]);
            }
            if crate::strutil::str_eq(self.inner[i].id.as_str(), id.as_str()) {
                let ghost before = self.inner@;
                self.inner.remove(i);
                proof {
                    j = j + 1;
                    assert(self.inner@ =~= users_without_id(orig.subrange(0, j), id@)
                        + orig.subrange(j, orig.len() as int));
                }
            } else {
                proof {
                    j = j + 1;
                    assert(users_without_id(orig.subrange(0, j), id@) =~= users_without_id(
                        orig.subrange(0, j - 1),
                        id@,
                    ).push(orig[j - 1]));
                    assert(self.inner@ =~= users_without_id(orig.subrange(0, j), id@)
                        + orig.subrange(j, orig.len() as int));
                }
                i += 1;
            }
        }
        proof {
            assert(j == orig.len());
            assert(orig.subrange(0, orig.len() as int) =~= orig);
            assert(orig.subrange(orig.len() as int, orig.len() as int) =~= Seq::<
                VrcMrdUser,
            >::empty());
            assert(self.inner@ =~= users_without_id(orig, id@));
        }
        if !settled {
            self.joined_before_settled.push(id.clone());
        }
        let user = VrcMrdUser {
            id,
            username: name,
            avatar_name,
            perf_rank: "VeryPoor".to_owned(),
            account_created: None,
            join_time,
            leave_time: None,
            advisories: Vec::new(),
            age_verified: false,
            platform: None,
            trust_rank: None,
            groups: Vec::new(),
        };
        self.inner.push(user);
    }

    /// Apply a player-left intent: an existing record gets its leave
    /// time set; a missing one gets a defensive leave-only stub.
    pub fn apply_player_left(&mut self, name: String, id: String, leave_time: i64)
        ensures
            final(self).joined_before_settled == old(self).joined_before_settled,
            ({
                let i = first_user_with_id(old(self).inner@, id@);
                if i == -1 {
                    &&& final(self).inner@.len() == old(self).inner@.len() + 1
                    &&& (forall|j: int|
                        0 <= j < old(self).inner@.len() ==> final(self).inner@[j] == old(self).inner@[j])
                    &&& ({
                        let u = final(self).inner@.last();
                        &&& u.id@ == id@
                        &&& u.username@ == name@
                        &&& u.leave_time == Some(leave_time)
                        &&& u.join_time == 0
                        &&& u.avatar_name@ == Seq::<char>::empty()
                        &&& u.advisories@.len() == 0
                    })
                } else {
                    &&& final(self).inner@.len() == old(self).inner@.len()
                    &&& (forall|j: int|
                        0 <= j < old(self).inner@.len() && j != i ==> final(self).inner@[j]
                            == old(self).inner@[j])
                    &&& final(self).inner@[i].leave_time == Some(leave_time)
                    &&& final(self).inner@[i].id == old(self).inner@[i].id
                    &&& final(self).inner@[i].username == old(self).inner@[i].username
                    &&& final(self).inner@[i].avatar_name == old(self).inner@[i].avatar_name
                    &&& final(self).inner@[i].advisories == old(self).inner@[i].advisories
                    &&& final(self).inner@[i].join_time == old(self).inner@[i].join_time
                    &&& final(self).inner@[i].groups == old(self).inner@[i].groups
                    &&& final(self).inner@[i].trust_rank == old(self).inner@[i].trust_rank
                    &&& final(self).inner@[i].platform == old(self).inner@[i].platform
                    &&& final(self).inner@[i].account_created == old(self).inner@[i].account_created
                    &&& final(self).inner@[i].age_verified == old(self).inner@[i].age_verified
                    &&& final(self).inner@[i].perf_rank == old(self).inner@[i].perf_rank
                }
            }),
    {
        proof {
            reveal_strlit("");
        }
        match self.find_by_id(id.as_str()) {
            Some(i) => {
                let ghost before = self.inner@;
                let mut u = self.inner.remove(i);
                u.leave_time = Some(leave_time);
                self.inner.insert(i, u);
                proof {
                    assert(forall|j: int|
                        0 <= j < before.len() && j != i ==> final(self).inner@[j] == before[j]);
                }
            },
            None => {
                let stub = VrcMrdUser {
                    id,
                    username: name,
                    avatar_name: "".to_owned(),
                    perf_rank: "VeryPoor".to_owned(),
                    account_created: None,
                    join_time: 0,
                    leave_time: Some(leave_time),
                    advisories: Vec::new(),
                    age_verified: false,
                    platform: None,
                    trust_rank: None,
                    groups: Vec::new(),
                };
                self.inner.push(stub);
            },
        }
    }

    /// Apply an avatar-switch intent: a known participant's avatar name
    /// is updated and their index returned; an unknown name is buffered
    /// as pending, a later switch winning.
    pub fn apply_avatar_switch(
        &mut self,
        avatars: &mut AvatarsState,
        name: String,
        avatar: String,
    ) -> (updated: Option<usize>)
        ensures
            final(self).joined_before_settled == old(self).joined_before_settled,
            ({
                let i = first_user_with_name(old(self).inner@, name@);
                if i == -1 {
                    &&& updated is None
                    &&& final(self).inner == old(self).inner
                    &&& final(avatars).pending_avatar_names.deep_view() == pending_without_name(
                        old(avatars).pending_avatar_names.deep_view(),
                        name@,
                    ).push((name@, avatar@))
                } else {
                    &&& updated == Some(i as usize)
                    &&& *final(avatars) == *old(avatars)
                    &&& final(self).inner@.len() == old(self).inner@.len()
                    &&& (forall|j: int|
                        0 <= j < old(self).inner@.len() && j != i ==> final(self).inner@[j]
                            == old(self).inner@[j])
                    &&& final(self).inner@[i].avatar_name@ == avatar@
                    &&& final(self).inner@[i].id == old(self).inner@[i].id
                    &&& final(self).inner@[i].username == old(self).inner@[i].username
                    &&& final(self).inner@[i].leave_time == old(self).inner@[i].leave_time
                    &&& final(self).inner@[i].advisories == old(self).inner@[i].advisories
                    &&& final(self).inner@[i].join_time == old(self).inner@[i].join_time
                    &&& final(self).inner@[i].groups == old(self).inner@[i].groups
                    &&& final(self).inner@[i].trust_rank == old(self).inner@[i].trust_rank
                    &&& final(self).inner@[i].platform == old(self).inner@[i].platform
                    &&& final(self).inner@[i].account_created == old(self).inner@[i].account_created
                    &&& final(self).inner@[i].age_verified == old(self).inner@[i].age_verified
                    &&& final(self).inner@[i].perf_rank == old(self).inner@[i].perf_rank
                }
            }),
    {
        match self.find_by_name(name.as_str()) {
            Some(i) => {
                let ghost before = self.inner@;
                let mut u = self.inner.remove(i);
                u.avatar_name = avatar;
                self.inner.insert(i, u);
                proof {
                    assert(forall|j: int|
                        0 <= j < before.len() && j != i ==> final(self).inner@[j] == before[j]);
                }
                Some(i)
            },
            None => {
                avatars.buffer_pending(name, avatar);
                None
            },
        }
    }
}

} // verus!
