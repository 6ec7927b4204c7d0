//! The instance context and its settle state machine. An instance is
//! settled once the tailer has caught up, the roster is non-empty, and
//! no join has arrived for a debounce window; only then may
//! join-triggered notices fire safely.

use vstd::prelude::*;

use crate::advisory::AdvisoryMemory;
use crate::instance_id::VrcMrdInstanceId;
use crate::roster::Users;

verus! {

/// How long a join keeps the instance from settling, in milliseconds.
pub const SETTLE_DEBOUNCE_MS: i64 = 1000;

/// What remote metadata this library reads about an instance.
#[derive(Debug, Clone, PartialEq, Eq)]
pub struct InstanceMetadata {
    /// The instance's display name, when it has one.
    pub display_name: Option<String>,
    /// The name of the world the instance runs.
    pub world_name: String,
    /// The instance owner, when the metadata names one.
    pub owner_id: Option<String>,
}

impl InstanceMetadata {
    /// The name shown for the instance: its display name when it has
    /// one, the world's name otherwise.
    pub fn title_name(&self) -> (r: String)
        ensures
            r@ == (match self.display_name {
                Some(d) => d@,
                None => self.world_name@,
            }),
    {
        match &self.display_name {
            Some(d) => d.clone(),
            None => self.world_name.clone(),
        }
    }
}

/// The live instance context. Replaced wholesale on an instance join;
/// `caught_up` and `settled` only ever go from false to true while one
/// instance lasts.
pub struct InstanceState {
    /// The raw identifier from the log, once one was seen.
    pub id: Option<String>,
    /// The identifier parsed into its parts.
    pub id_info: Option<VrcMrdInstanceId>,
    /// Remote metadata, once fetched; cleared on an instance change.
    pub info: Option<InstanceMetadata>,
    /// Whether the roster is considered caught up and stable.
    pub settled: bool,
    /// Whether the tailer has finished the pre-existing tail of the
    /// current file; settling cannot happen before that, since an old
    /// log may replay joins from several instances.
    pub caught_up: bool,
}

/// The owner the condition engine compares against: the remote
/// metadata's owner when present, the parsed identifier's otherwise.
pub open spec fn spec_owner(st: InstanceState) -> Option<Seq<char>> {
    match st.info {
        Some(m) => match m.owner_id {
            Some(o) => Some(o@),
            None => parsed_owner(st),
        },
        None => parsed_owner(st),
    }
}

pub open spec fn parsed_owner(st: InstanceState) -> Option<Seq<char>> {
    match st.id_info {
        Some(p) => match p.owner {
            Some(o) => Some(o@),
            None => None,
        },
        None => None,
    }
}

/// The debounce timer: one logical timer per instance, restarted by
/// every join.
pub struct SettleTimer {
    /// When the countdown ends, once one is running.
    pub deadline: Option<i64>,
}

impl SettleTimer {
    /// No countdown running.
    pub fn new() -> (r: SettleTimer)
        ensures
            r.deadline is None,
    {
        SettleTimer { deadline: None }
    }

    /// A join restarts the countdown: the instance may settle one
    /// debounce window after the latest join.
    pub fn on_join(&mut self, now_ms: i64)
        requires
            now_ms <= i64::MAX - SETTLE_DEBOUNCE_MS,
        ensures
            final(self).deadline == Some((now_ms + SETTLE_DEBOUNCE_MS) as i64),
    {
        self.deadline = Some(now_ms + SETTLE_DEBOUNCE_MS);
    }

    /// An instance change cancels any running countdown.
    pub fn cancel(&mut self)
        ensures
            final(self).deadline is None,
    {
        self.deadline = None;
    }
}

impl InstanceState {
    /// No instance seen yet.
    pub fn new() -> (r: InstanceState)
        ensures
            r.id is None,
            r.id_info is None,
            r.info is None,
            !r.settled,
            !r.caught_up,
    {
        InstanceState { id: None, id_info: None, info: None, settled: false, caught_up: false }
    }

    /// The owner the condition engine compares against.
    pub fn current_owner(&self) -> (r: Option<String>)
        ensures
            r.deep_view() == spec_owner(*self),
    {
        match &self.info {
            Some(m) => match &m.owner_id {
                Some(o) => Some(o.clone()),
                None => self.parsed_owner_exec(),
            },
            None => self.parsed_owner_exec(),
        }
    }

    fn parsed_owner_exec(&self) -> (r: Option<String>)
        ensures
            r.deep_view() == parsed_owner(*self),
    {
        match &self.id_info {
            Some(p) => match &p.owner {
                Some(o) => Some(o.clone()),
                None => None,
            },
            None => None,
        }
    }

    /// The tailer finished the pre-existing tail of the current file.
    /// The flag only ever rises.
    pub fn mark_caught_up(&mut self)
        ensures
            final(self).caught_up,
            final(self).id == old(self).id,
            final(self).id_info == old(self).id_info,
            final(self).info == old(self).info,
            final(self).settled == old(self).settled,
    {
        self.caught_up = true;
    }

    /// Remote metadata arrived for the current instance.
    pub fn set_info(&mut self, info: InstanceMetadata)
        ensures
            final(self).info == Some(info),
            final(self).id == old(self).id,
            final(self).id_info == old(self).id_info,
            final(self).settled == old(self).settled,
            final(self).caught_up == old(self).caught_up,
    {
        self.info = Some(info);
    }

    /// Apply an instance-join intent: the context is replaced wholesale
    /// (identifier recorded raw and parsed, metadata cleared, settled
    /// reset), the roster and the notice log are cleared, and any
    /// running settle countdown is cancelled. The caught-up flag
    /// belongs to the file position, not the instance, so it is kept.
    pub fn apply_instance_joined(
        &mut self,
        users: &mut Users,
        mem: &mut AdvisoryMemory,
        timer: &mut SettleTimer,
        raw_id: &str,
    )
        ensures
            final(self).id matches Some(s) && s@ == raw_id@,
            final(self).id_info matches Some(p) && p.raw@ == raw_id@,
            final(self).info is None,
            !final(self).settled,
            final(self).caught_up == old(self).caught_up,
            final(users).inner@.len() == 0,
            final(users).joined_before_settled@.len() == 0,
            final(mem).notices@.len() == 0,
            final(mem).all_advisories == old(mem).all_advisories,
            final(mem).active_advisories == old(mem).active_advisories,
            final(mem).has_group_membership_advisory == old(mem).has_group_membership_advisory,
            final(timer).deadline is None,
    {
        self.info = None;
        self.id = Some(raw_id.to_owned());
        self.id_info = Some(VrcMrdInstanceId::from(raw_id));
        self.settled = false;
        users.clear();
        mem.notices.clear();
        timer.cancel();
    }

    /// One poll of the settle countdown: the instance settles exactly
    /// when a countdown has expired with no intervening join, the
    /// tailer has caught up, the roster is non-empty, and the instance
    /// has not settled already. Settling consumes the countdown.
    pub fn poll_settle(
        &mut self,
        timer: &mut SettleTimer,
        now_ms: i64,
        roster_nonempty: bool,
    ) -> (fired: bool)
        ensures
            fired == (old(timer).deadline matches Some(d) && now_ms >= d && old(self).caught_up
                && roster_nonempty && !old(self).settled),
            final(self).id == old(self).id,
            final(self).id_info == old(self).id_info,
            final(self).info == old(self).info,
            final(self).caught_up == old(self).caught_up,
            final(self).settled == (old(self).settled || fired),
            fired ==> final(timer).deadline is None,
            !fired ==> *final(timer) == *old(timer),
    {
        match timer.deadline {
            Some(d) => {
                if now_ms >= d && self.caught_up && roster_nonempty && !self.settled {
                    self.settled = true;
                    timer.cancel();
                    true
                } else {
                    false
                }
            },
            None => false,
        }
    }
}

} // verus!
