//! The advisory rule engine: evaluation of one condition tree against a
//! participant and the instance context, and the reconciliation of a
//! participant's active-advisory set against the catalog.
//!
//! A leaf that needs data not yet available (groups not fetched, trust
//! rank or account age not yet reported) evaluates to the advisory's
//! previous activation state, so that activation does not flap while
//! enrichment arrives piecemeal.

use vstd::prelude::*;

use crate::advisory::{
    ActiveAdvisory, Advisory, AdvisoryCondition, AdvisoryLevel, AdvisoryMemory, Notice,
    make_notice, memory_consistent, selected,
};
use crate::numfmt::{dec_int, u64_to_string};
use crate::strutil::{contains_seq, contains_insensitive, lower_of, str_eq};
use crate::template::{TemplateVars, apply_templating, rendered};
use crate::timeparse::{date_ymd_days, parse_date_ymd_days};
use crate::trust::{GetTrustRank, RemoteUserInfo, TrustRank, rank_of_tags, rank_order};
use crate::user::{PartialGroup, VrcMrdUser, map_platform, platform_of};

verus! {

/// What fired the evaluation, for the notice's trigger phrase.
#[derive(Debug, Clone, Copy)]
pub enum AdvisoryTrigger {
    JoinLeave,
    AvatarSwitched,
}

/// The mathematical shadow of an `ActiveAdvisory`.
pub struct ActiveView {
    pub id: Seq<char>,
    pub message: Seq<char>,
    pub level: AdvisoryLevel,
    pub relevant_group_id: Option<Seq<char>>,
}

impl DeepView for ActiveAdvisory {
    type V = ActiveView;

    open spec fn deep_view(&self) -> ActiveView {
        ActiveView {
            id: self.id@,
            message: self.message@,
            level: self.level,
            relevant_group_id: match self.relevant_group_id {
                Some(s) => Some(s@),
                None => None,
            },
        }
    }
}

/// The mathematical shadow of a `Notice`.
pub struct NoticeView {
    pub title: Option<Seq<char>>,
    pub message: Seq<char>,
    pub level: AdvisoryLevel,
    pub relevant_user_id: Option<Seq<char>>,
    pub send_notification: bool,
    pub send_tts: bool,
    pub created_at: int,
}

impl DeepView for Notice {
    type V = NoticeView;

    open spec fn deep_view(&self) -> NoticeView {
        NoticeView {
            title: match self.title {
                Some(s) => Some(s@),
                None => None,
            },
            message: self.message@,
            level: self.level,
            relevant_user_id: match self.relevant_user_id {
                Some(s) => Some(s@),
                None => None,
            },
            send_notification: self.send_notification,
            send_tts: self.send_tts,
            created_at: self.created_at as int,
        }
    }
}

/// The running outcome of evaluating a condition: its boolean value, the
/// template variables collected so far, and the group that satisfied a
/// membership test, if one did.
pub struct EvalOut {
    pub value: bool,
    pub vars: Seq<(Seq<char>, Seq<char>)>,
    pub group: Option<Seq<char>>,
}

/// The (id, name) pairs of a participant's group list.
pub open spec fn groups_view(gs: Seq<PartialGroup>) -> Seq<(Seq<char>, Seq<char>)> {
    Seq::new(gs.len(), |i: int| (gs[i].id@, gs[i].name@))
}

/// The participant attributes that condition evaluation reads. The
/// active-advisory set is deliberately not part of it: evaluation sees
/// that only through the per-advisory prior state.
pub struct ParticipantData {
    pub id: Seq<char>,
    pub username: Seq<char>,
    pub avatar_name: Seq<char>,
    pub age_verified: bool,
    pub trust_rank: Option<TrustRank>,
    pub platform: Option<Seq<char>>,
    pub groups: Seq<(Seq<char>, Seq<char>)>,
    pub account_created: Option<int>,
}

/// The evaluation-relevant attributes of a participant record.
pub open spec fn data_of(u: VrcMrdUser) -> ParticipantData {
    ParticipantData {
        id: u.id@,
        username: u.username@,
        avatar_name: u.avatar_name@,
        age_verified: u.age_verified,
        trust_rank: u.trust_rank,
        platform: match u.platform {
            Some(p) => Some(p@),
            None => None,
        },
        groups: groups_view(u.groups@),
        account_created: match u.account_created {
            Some(d) => Some(d as int),
            None => None,
        },
    }
}

/// Index of the first group whose id is `g`, or -1.
pub open spec fn first_group_with_id(gs: Seq<(Seq<char>, Seq<char>)>, g: Seq<char>) -> int
    decreases gs.len(),
{
    if gs.len() == 0 {
        -1
    } else if gs[0].0 == g {
        0
    } else {
        let r = first_group_with_id(gs.drop_first(), g);
        if r == -1 {
            -1
        } else {
            r + 1
        }
    }
}

proof fn lemma_first_group_with_id_is(gs: Seq<(Seq<char>, Seq<char>)>, g: Seq<char>, i: int)
    requires
        0 <= i < gs.len(),
        gs[i].0 == g,
        forall|k: int| 0 <= k < i ==> (#[trigger] gs[k]).0 != g,
    ensures
        first_group_with_id(gs, g) == i,
    decreases gs.len(),
{
    if i > 0 {
        assert(forall|k: int| 0 <= k < i - 1 ==> (#[trigger] gs.drop_first()[k]).0 != g);
        lemma_first_group_with_id_is(gs.drop_first(), g, i - 1);
    }
}

proof fn lemma_first_group_with_id_none(gs: Seq<(Seq<char>, Seq<char>)>, g: Seq<char>)
    requires
        forall|k: int| 0 <= k < gs.len() ==> (#[trigger] gs[k]).0 != g,
    ensures
        first_group_with_id(gs, g) == -1,
    decreases gs.len(),
{
    if gs.len() > 0 {
        assert(forall|k: int|
            0 <= k < gs.drop_first().len() ==> (#[trigger] gs.drop_first()[k]).0 != g);
        lemma_first_group_with_id_none(gs.drop_first(), g);
    }
}

/// Index of the first group whose lowercased name contains the
/// lowercased needle, or -1.
pub open spec fn first_group_name_containing(
    gs: Seq<(Seq<char>, Seq<char>)>,
    needle: Seq<char>,
) -> int
    decreases gs.len(),
{
    if gs.len() == 0 {
        -1
    } else if contains_seq(lower_of(gs[0].1), lower_of(needle)) {
        0
    } else {
        let r = first_group_name_containing(gs.drop_first(), needle);
        if r == -1 {
            -1
        } else {
            r + 1
        }
    }
}

proof fn lemma_first_group_name_containing_is(
    gs: Seq<(Seq<char>, Seq<char>)>,
    needle: Seq<char>,
    i: int,
)
    requires
        0 <= i < gs.len(),
        contains_seq(lower_of(gs[i].1), lower_of(needle)),
        forall|k: int|
            0 <= k < i ==> !contains_seq(lower_of((#[trigger] gs[k]).1), lower_of(needle)),
    ensures
        first_group_name_containing(gs, needle) == i,
    decreases gs.len(),
{
    if i > 0 {
        assert(forall|k: int|
            0 <= k < i - 1 ==> !contains_seq(
                lower_of((#[trigger] gs.drop_first()[k]).1),
                lower_of(needle),
            ));
        lemma_first_group_name_containing_is(gs.drop_first(), needle, i - 1);
    }
}

proof fn lemma_first_group_name_containing_none(gs: Seq<(Seq<char>, Seq<char>)>, needle: Seq<char>)
    requires
        forall|k: int|
            0 <= k < gs.len() ==> !contains_seq(lower_of((#[trigger] gs[k]).1), lower_of(needle)),
    ensures
        first_group_name_containing(gs, needle) == -1,
    decreases gs.len(),
{
    if gs.len() > 0 {
        assert(forall|k: int|
            0 <= k < gs.drop_first().len() ==> !contains_seq(
                lower_of((#[trigger] gs.drop_first()[k]).1),
                lower_of(needle),
            ));
        lemma_first_group_name_containing_none(gs.drop_first(), needle);
    }
}

/// The value of one condition, with the template variables and relevant
/// group it contributes. `prior` is the advisory's previous activation
/// state, which leaves over unavailable data fall back to.
pub open spec fn spec_eval(
    c: AdvisoryCondition,
    u: ParticipantData,
    owner: Option<Seq<char>>,
    today: int,
    prior: bool,
    vars: Seq<(Seq<char>, Seq<char>)>,
    group: Option<Seq<char>>,
) -> EvalOut
    decreases c, 0int,
{
    match c {
        AdvisoryCondition::UsernameContains(s) => EvalOut {
            value: contains_seq(lower_of(u.username), lower_of(s@)),
            vars,
            group,
        },
        AdvisoryCondition::AgeNotVerified => EvalOut { value: !u.age_verified, vars, group },
        AdvisoryCondition::TrustRankAtMost(t) => EvalOut {
            value: match u.trust_rank {
                Some(r) => rank_order(r) <= rank_order(t),
                None => prior,
            },
            vars,
            group,
        },
        AdvisoryCondition::PlatformIs(p) => EvalOut {
            value: match u.platform {
                Some(pl) => lower_of(pl) == lower_of(p@),
                None => prior,
            },
            vars,
            group,
        },
        AdvisoryCondition::IsGroupMember(g) => {
            let gs = u.groups;
            if gs.len() == 0 {
                EvalOut { value: prior, vars, group }
            } else {
                let w = first_group_with_id(gs, g@);
                if w == -1 {
                    EvalOut { value: false, vars, group }
                } else {
                    EvalOut {
                        value: true,
                        vars: vars.push(("group_id"@, g@)).push(("group_name"@, gs[w].1)),
                        group: Some(g@),
                    }
                }
            }
        },
        AdvisoryCondition::AccountAgeAtMostDays(days) => match u.account_created {
            Some(created) => {
                let age = today - created;
                EvalOut {
                    value: age <= days as int,
                    vars: vars.push(("account_age_days"@, dec_int(age))),
                    group,
                }
            },
            None => EvalOut { value: prior, vars, group },
        },
        AdvisoryCondition::InstanceOwner(o) => EvalOut {
            value: owner == Some(o@),
            vars,
            group,
        },
        AdvisoryCondition::AvatarNameContains(s) => EvalOut {
            value: contains_seq(lower_of(u.avatar_name), lower_of(s@)),
            vars,
            group,
        },
        AdvisoryCondition::InGroupNameContains(s) => {
            let gs = u.groups;
            if gs.len() == 0 {
                EvalOut { value: prior, vars, group }
            } else {
                let w = first_group_name_containing(gs, s@);
                if w == -1 {
                    EvalOut { value: false, vars, group }
                } else {
                    EvalOut { value: true, vars: vars.push(("group_name"@, gs[w].1)), group }
                }
            }
        },
        AdvisoryCondition::Not(inner) => {
            let r = spec_eval(*inner, u, owner, today, prior, vars, group);
            EvalOut { value: !r.value, vars: r.vars, group: r.group }
        },
        AdvisoryCondition::And(list) => spec_eval_list(
            true,
            list,
            0,
            u,
            owner,
            today,
            prior,
            EvalOut { value: true, vars, group },
        ),
        AdvisoryCondition::Or(list) => spec_eval_list(
            false,
            list,
            0,
            u,
            owner,
            today,
            prior,
            EvalOut { value: false, vars, group },
        ),
    }
}

/// The children of a composite node from `i` on, folded with
/// short-circuiting: a conjunction stops at the first false child, a
/// disjunction at the first true one.
pub open spec fn spec_eval_list(
    conjunction: bool,
    list: Vec<AdvisoryCondition>,
    i: int,
    u: ParticipantData,
    owner: Option<Seq<char>>,
    today: int,
    prior: bool,
    st: EvalOut,
) -> EvalOut
    decreases list, list@.len() - i,
{
    if i < 0 || i >= list@.len() {
        st
    } else if conjunction && !st.value {
        st
    } else if !conjunction && st.value {
        st
    } else {
        let r = spec_eval(list@[i], u, owner, today, prior, st.vars, st.group);
        spec_eval_list(conjunction, list, i + 1, u, owner, today, prior, r)
    }
}

fn first_group_with_id_exec(groups: &Vec<PartialGroup>, g: &str) -> (r: Option<usize>)
    ensures
        match r {
            Some(i) => first_group_with_id(groups_view(groups@), g@) == i && i < groups@.len(),
            None => first_group_with_id(groups_view(groups@), g@) == -1,
        },
{
    let ghost gs = groups_view(groups@);
    let mut i: usize = 0;
    while i < groups.len()
        invariant
            gs == groups_view(groups@),
            0 <= i <= groups@.len(),
            forall|k: int| 0 <= k < i ==> (#[trigger] gs[k]).0 != g@,
        decreases groups@.len() - i,
    {
        if str_eq(groups[i].id.as_str(), g) {
            proof {
                assert(gs[i as int].0 == g@);
                lemma_first_group_with_id_is(gs, g@, i as int);
            }
            return Some(i);
        }
        proof {
            assert(gs[i as int].0 == groups@[i as int].id@);
        }
        i += 1;
    }
    proof {
        lemma_first_group_with_id_none(gs, g@);
    }
    None
}

fn first_group_name_containing_exec(groups: &Vec<PartialGroup>, needle: &str) -> (r: Option<usize>)
    ensures
        match r {
            Some(i) => first_group_name_containing(groups_view(groups@), needle@) == i && i
                < groups@.len(),
            None => first_group_name_containing(groups_view(groups@), needle@) == -1,
        },
{
    let ghost gs = groups_view(groups@);
    let mut i: usize = 0;
    while i < groups.len()
        invariant
            gs == groups_view(groups@),
            0 <= i <= groups@.len(),
            forall|k: int|
                0 <= k < i ==> !contains_seq(lower_of((#[trigger] gs[k]).1), lower_of(needle@)),
        decreases groups@.len() - i,
    {
        if contains_insensitive(groups[i].name.as_str(), needle) {
            proof {
                assert(gs[i as int].1 == groups@[i as int].name@);
                lemma_first_group_name_containing_is(gs, needle@, i as int);
            }
            return Some(i);
        }
        proof {
            assert(gs[i as int].1 == groups@[i as int].name@);
        }
        i += 1;
    }
    proof {
        lemma_first_group_name_containing_none(gs, needle@);
    }
    None
}

/// Evaluate one condition against a participant, collecting template
/// variables and the relevant group as it goes.
pub fn eval_condition(
    c: &AdvisoryCondition,
    u: &VrcMrdUser,
    owner: &Option<String>,
    today: i64,
    prior: bool,
    vars: &mut TemplateVars,
    group: &mut Option<String>,
) -> (b: bool)
    ensures
        ({
            let res = spec_eval(
                *c,
                data_of(*u),
                owner.deep_view(),
                today as int,
                prior,
                old(vars).pairs.deep_view(),
                old(group).deep_view(),
            );
            &&& b == res.value
            &&& final(vars).pairs.deep_view() == res.vars
            &&& final(group).deep_view() == res.group
        }),
    decreases *c,
{
    match c {
        AdvisoryCondition::UsernameContains(s) => contains_insensitive(
            u.username.as_str(),
            s.as_str(),
        ),
        AdvisoryCondition::AgeNotVerified => !u.age_verified,
        AdvisoryCondition::TrustRankAtMost(t) => match &u.trust_rank {
            Some(r) => r.at_most(t),
            None => prior,
        },
        AdvisoryCondition::PlatformIs(p) => match &u.platform {
            Some(pl) => {
                let a = crate::strutil::lowercase(pl.as_str());
                let b = crate::strutil::lowercase(p.as_str());
                str_eq(a.as_str(), b.as_str())
            },
            None => prior,
        },
        AdvisoryCondition::IsGroupMember(g) => {
            if u.groups.len() == 0 {
                prior
            } else {
                match first_group_with_id_exec(&u.groups, g.as_str()) {
                    Some(w) => {
                        vars.insert("group_id", g.clone());
                        vars.insert("group_name", u.groups[w].name.clone());
                        *group = Some(g.clone());
                        proof {
                            assert(data_of(*u).groups[w as int].1 == u.groups@[w as int].name@);
                        }
                        true
                    },
                    None => false,
                }
            }
        },
        AdvisoryCondition::AccountAgeAtMostDays(days) => match u.account_created {
            Some(created) => {
                let age: i128 = today as i128 - created as i128;
                let text = i128_days_to_string(age);
                vars.insert("account_age_days", text);
                age <= *days as i128
            },
            None => prior,
        },
        AdvisoryCondition::InstanceOwner(o) => match owner {
            Some(ow) => str_eq(ow.as_str(), o.as_str()),
            None => false,
        },
        AdvisoryCondition::AvatarNameContains(s) => contains_insensitive(
            u.avatar_name.as_str(),
            s.as_str(),
        ),
        AdvisoryCondition::InGroupNameContains(s) => {
            if u.groups.len() == 0 {
                prior
            } else {
                match first_group_name_containing_exec(&u.groups, s.as_str()) {
                    Some(w) => {
                        vars.insert("group_name", u.groups[w].name.clone());
                        proof {
                            assert(data_of(*u).groups[w as int].1 == u.groups@[w as int].name@);
                        }
                        true
                    },
                    None => false,
                }
            }
        },
        AdvisoryCondition::Not(inner) => {
            let b = eval_condition(&**inner, u, owner, today, prior, vars, group);
            !b
        },
        AdvisoryCondition::And(list) => eval_list(true, list, u, owner, today, prior, vars, group),
        AdvisoryCondition::Or(list) => eval_list(false, list, u, owner, today, prior, vars, group),
    }
}

fn eval_list(
    conjunction: bool,
    list: &Vec<AdvisoryCondition>,
    u: &VrcMrdUser,
    owner: &Option<String>,
    today: i64,
    prior: bool,
    vars: &mut TemplateVars,
    group: &mut Option<String>,
) -> (b: bool)
    ensures
        ({
            let res = spec_eval_list(
                conjunction,
                *list,
                0,
                data_of(*u),
                owner.deep_view(),
                today as int,
                prior,
                EvalOut {
                    value: conjunction,
                    vars: old(vars).pairs.deep_view(),
                    group: old(group).deep_view(),
                },
            );
            &&& b == res.value
            &&& final(vars).pairs.deep_view() == res.vars
            &&& final(group).deep_view() == res.group
        }),
    decreases *list,
{
    let ghost total = spec_eval_list(
        conjunction,
        *list,
        0,
        data_of(*u),
        owner.deep_view(),
        today as int,
        prior,
        EvalOut {
            value: conjunction,
            vars: vars.pairs.deep_view(),
            group: group.deep_view(),
        },
    );
    let mut acc: bool = conjunction;
    let mut i: usize = 0;
    while i < list.len() && (acc == conjunction)
        invariant
            0 <= i <= list@.len(),
            total == spec_eval_list(
                conjunction,
                *list,
                i as int,
                data_of(*u),
                owner.deep_view(),
                today as int,
                prior,
                EvalOut { value: acc, vars: vars.pairs.deep_view(), group: group.deep_view() },
            ),
        decreases list@.len() - i,
    {
        proof {
            assert(decreases_to!(*list => list@[i as int]));
        }
        let b = eval_condition(&list[i], u, owner, today, prior, vars, group);
        acc = b;
        i += 1;
    }
    acc
}

/// The decimal form of a difference of two day counts.
fn i128_days_to_string(n: i128) -> (r: String)
    requires
        -0xffff_ffff_ffff_ffff <= n <= 0xffff_ffff_ffff_ffff,
    ensures
        r@ == dec_int(n as int),
{
    if n >= 0 {
        u64_to_string(n as u64)
    } else {
        let mag: u64 = (-n) as u64;
        let mut r: String = "-".to_owned();
        let digits = u64_to_string(mag);
        r.append(digits.as_str());
        proof {
            reveal_strlit("-");
            assert("-"@ =~= seq!['-']);
            assert(r@ =~= dec_int(n as int));
        }
        r
    }
}



/// Whether an entry for `id` is in the active set.
pub open spec fn has_active_id(l: Seq<ActiveView>, id: Seq<char>) -> bool {
    exists|i: int| 0 <= i < l.len() && (#[trigger] l[i]).id == id
}

/// Whether the catalog slice holds an advisory with `id`.
pub open spec fn catalog_has_id(cat: Seq<Advisory>, id: Seq<char>) -> bool {
    exists|i: int| 0 <= i < cat.len() && (#[trigger] cat[i]).id@ == id
}

/// One advisory evaluated against a participant: the variable map starts
/// with the participant's username, and `prior` tells leaves over
/// unavailable data what the advisory's activation state already is.
pub open spec fn eval_of(
    a: Advisory,
    u: ParticipantData,
    owner: Option<Seq<char>>,
    today: int,
    prior: bool,
) -> EvalOut {
    spec_eval(
        a.condition,
        u,
        owner,
        today,
        prior,
        seq![("username"@, u.username)],
        None::<Seq<char>>,
    )
}

/// The trigger phrase of a notice.
pub open spec fn title_of(t: AdvisoryTrigger, username: Seq<char>, avatar: Seq<char>) -> Seq<
    char,
> {
    match t {
        AdvisoryTrigger::JoinLeave => "\""@ + username + "\" joined"@,
        AdvisoryTrigger::AvatarSwitched => "\""@ + username + "\" changed to avatar \""@ + avatar
            + "\""@,
    }
}

/// The active set with every entry for `id` re-rendered: its message,
/// level, and relevant group refreshed in place.
pub open spec fn refreshed(
    l: Seq<ActiveView>,
    id: Seq<char>,
    msg: Seq<char>,
    level: AdvisoryLevel,
    g: Option<Seq<char>>,
) -> Seq<ActiveView> {
    Seq::new(
        l.len(),
        |i: int|
            if l[i].id == id {
                ActiveView { id: l[i].id, message: msg, level, relevant_group_id: g }
            } else {
                l[i]
            },
    )
}

/// The active set with every entry for `id` removed.
pub open spec fn without_id(l: Seq<ActiveView>, id: Seq<char>) -> Seq<ActiveView> {
    l.filter(|e: ActiveView| e.id != id)
}

proof fn lemma_without_id_push(l: Seq<ActiveView>, id: Seq<char>, x: ActiveView)
    ensures
        without_id(l.push(x), id) == (if x.id != id {
            without_id(l, id).push(x)
        } else {
            without_id(l, id)
        }),
{
    reveal(Seq::filter);
    assert(l.push(x).drop_last() =~= l);
    assert(l.push(x).last() == x);
    assert(l.push(x).filter(|e: ActiveView| e.id != id) == (if x.id != id {
        l.filter(|e: ActiveView| e.id != id).push(x)
    } else {
        l.filter(|e: ActiveView| e.id != id)
    }));
}

/// One catalog advisory reconciled against the running (active set,
/// notices) state: a true condition updates the existing entry in place
/// or appends a fresh entry plus its notice; a false one removes the
/// entry, and removal never yields a notice.
pub open spec fn engine_step(
    u: ParticipantData,
    owner: Option<Seq<char>>,
    today: int,
    now: int,
    title: Option<Seq<char>>,
    a: Advisory,
    st: (Seq<ActiveView>, Seq<NoticeView>),
) -> (Seq<ActiveView>, Seq<NoticeView>) {
    let prior = has_active_id(st.0, a.id@);
    let ev = eval_of(a, u, owner, today, prior);
    if ev.value {
        let msg = rendered(a.message_template@, ev.vars);
        if prior {
            (refreshed(st.0, a.id@, msg, a.level, ev.group), st.1)
        } else {
            (
                st.0.push(
                    ActiveView {
                        id: a.id@,
                        message: msg,
                        level: a.level,
                        relevant_group_id: ev.group,
                    },
                ),
                st.1.push(
                    NoticeView {
                        title,
                        message: msg,
                        level: a.level,
                        relevant_user_id: Some(u.id),
                        send_notification: a.send_notification,
                        send_tts: a.send_tts,
                        created_at: now,
                    },
                ),
            )
        }
    } else {
        (without_id(st.0, a.id@), st.1)
    }
}

/// The whole catalog slice reconciled in order.
pub open spec fn engine_fold(
    u: ParticipantData,
    owner: Option<Seq<char>>,
    today: int,
    now: int,
    title: Option<Seq<char>>,
    cat: Seq<Advisory>,
    st: (Seq<ActiveView>, Seq<NoticeView>),
) -> (Seq<ActiveView>, Seq<NoticeView>)
    decreases cat.len(),
{
    if cat.len() == 0 {
        st
    } else {
        engine_fold(
            u,
            owner,
            today,
            now,
            title,
            cat.drop_first(),
            engine_step(u, owner, today, now, title, cat[0], st),
        )
    }
}

proof fn lemma_engine_fold_snoc(
    u: ParticipantData,
    owner: Option<Seq<char>>,
    today: int,
    now: int,
    title: Option<Seq<char>>,
    cat: Seq<Advisory>,
    st: (Seq<ActiveView>, Seq<NoticeView>),
    a: Advisory,
)
    ensures
        engine_fold(u, owner, today, now, title, cat.push(a), st) == engine_step(
            u,
            owner,
            today,
            now,
            title,
            a,
            engine_fold(u, owner, today, now, title, cat, st),
        ),
    decreases cat.len(),
{
    if cat.len() == 0 {
        assert(cat.push(a)[0] == a);
        assert(cat.push(a).drop_first() =~= Seq::<Advisory>::empty());
        assert(engine_fold(u, owner, today, now, title, cat.push(a), st) == engine_fold(
            u,
            owner,
            today,
            now,
            title,
            Seq::<Advisory>::empty(),
            engine_step(u, owner, today, now, title, a, st),
        ));
        assert(engine_fold(
            u,
            owner,
            today,
            now,
            title,
            Seq::<Advisory>::empty(),
            engine_step(u, owner, today, now, title, a, st),
        ) == engine_step(u, owner, today, now, title, a, st));
    } else {
        assert(cat.push(a)[0] == cat[0]);
        assert(cat.push(a).drop_first() =~= cat.drop_first().push(a));
        lemma_engine_fold_snoc(
            u,
            owner,
            today,
            now,
            title,
            cat.drop_first(),
            engine_step(u, owner, today, now, title, cat[0], st),
            a,
        );
        assert(engine_fold(u, owner, today, now, title, cat.push(a), st) == engine_fold(
            u,
            owner,
            today,
            now,
            title,
            cat.drop_first().push(a),
            engine_step(u, owner, today, now, title, cat[0], st),
        ));
        assert(engine_fold(u, owner, today, now, title, cat, st) == engine_fold(
            u,
            owner,
            today,
            now,
            title,
            cat.drop_first(),
            engine_step(u, owner, today, now, title, cat[0], st),
        ));
    }
}

/// The entries of `l` whose advisory still stands in the catalog slice.
pub open spec fn retained(l: Seq<ActiveView>, cat: Seq<Advisory>) -> Seq<ActiveView> {
    l.filter(|e: ActiveView| catalog_has_id(cat, e.id))
}

proof fn lemma_retained_push(l: Seq<ActiveView>, cat: Seq<Advisory>, x: ActiveView)
    ensures
        retained(l.push(x), cat) == (if catalog_has_id(cat, x.id) {
            retained(l, cat).push(x)
        } else {
            retained(l, cat)
        }),
{
    reveal(Seq::filter);
    assert(l.push(x).drop_last() =~= l);
    assert(l.push(x).last() == x);
    assert(l.push(x).filter(|e: ActiveView| catalog_has_id(cat, e.id)) == (if catalog_has_id(
        cat,
        x.id,
    ) {
        l.filter(|e: ActiveView| catalog_has_id(cat, e.id)).push(x)
    } else {
        l.filter(|e: ActiveView| catalog_has_id(cat, e.id))
    }));
}

/// The outcome of one full evaluation pass for a participant: the new
/// active set and the notices for fresh activations, in catalog order.
/// Entries whose advisory left the catalog are dropped at the end,
/// without a notice.
pub open spec fn advisories_outcome(
    u: ParticipantData,
    initial: Seq<ActiveView>,
    owner: Option<Seq<char>>,
    today: int,
    now: int,
    title: Option<Seq<char>>,
    cat: Seq<Advisory>,
) -> (Seq<ActiveView>, Seq<NoticeView>) {
    let st = engine_fold(u, owner, today, now, title, cat, (initial, Seq::<NoticeView>::empty()));
    (retained(st.0, cat), st.1)
}

fn contains_active_id(v: &Vec<ActiveAdvisory>, id: &str) -> (r: bool)
    ensures
        r == has_active_id(v.deep_view(), id@),
{
    let mut i: usize = 0;
    while i < v.len()
        invariant
            0 <= i <= v@.len(),
            forall|k: int| 0 <= k < i ==> (#[trigger] v.deep_view()[k]).id != id@,
        decreases v@.len() - i,
    {
        if str_eq(v[i].id.as_str(), id) {
            proof {
                assert(v.deep_view()[i as int].id == id@);
            }
            return true;
        }
        proof {
            assert(v.deep_view()[i as int].id == v@[i as int].id@);
        }
        i += 1;
    }
    false
}

fn dup_opt_string(o: &Option<String>) -> (r: Option<String>)
    ensures
        r.deep_view() == o.deep_view(),
{
    match o {
        Some(s) => Some(s.clone()),
        None => None,
    }
}

fn dup_active(e: &ActiveAdvisory) -> (r: ActiveAdvisory)
    ensures
        r.deep_view() == e.deep_view(),
{
    ActiveAdvisory {
        id: e.id.clone(),
        message: e.message.clone(),
        level: e.level,
        relevant_group_id: dup_opt_string(&e.relevant_group_id),
    }
}

fn dup_actives(v: &Vec<ActiveAdvisory>) -> (r: Vec<ActiveAdvisory>)
    ensures
        r.deep_view() == v.deep_view(),
{
    let mut r: Vec<ActiveAdvisory> = Vec::new();
    let mut i: usize = 0;
    while i < v.len()
        invariant
            0 <= i <= v@.len(),
            r.deep_view() =~= v.deep_view().subrange(0, i as int),
        decreases v@.len() - i,
    {
        let ghost prev = r.deep_view();
        let e = dup_active(&v[i]);
        r.push(e);
        proof {
            assert(r.deep_view() =~= prev.push(v.deep_view()[i as int]));
            assert(v.deep_view().subrange(0, i + 1) =~= v.deep_view().subrange(0, i as int).push(
                v.deep_view()[i as int],
            ));
        }
        i += 1;
    }
    proof {
        assert(v.deep_view().subrange(0, v@.len() as int) =~= v.deep_view());
    }
    r
}

/// The trigger phrase for a notice about `username`.
pub fn build_title(trigger: &AdvisoryTrigger, username: &str, avatar: &str) -> (r: String)
    ensures
        r@ == title_of(*trigger, username@, avatar@),
{
    match trigger {
        AdvisoryTrigger::JoinLeave => {
            let mut r: String = "\"".to_owned();
            r.append(username);
            r.append("\" joined");
            r
        },
        AdvisoryTrigger::AvatarSwitched => {
            let mut r: String = "\"".to_owned();
            r.append(username);
            r.append("\" changed to avatar \"");
            r.append(avatar);
            r.append("\"");
            r
        },
    }
}

fn update_entries(
    advs: Vec<ActiveAdvisory>,
    id: &str,
    msg: &String,
    level: AdvisoryLevel,
    group: &Option<String>,
) -> (r: Vec<ActiveAdvisory>)
    ensures
        r.deep_view() == refreshed(advs.deep_view(), id@, msg@, level, group.deep_view()),
{
    let ghost goal = refreshed(advs.deep_view(), id@, msg@, level, group.deep_view());
    let mut r: Vec<ActiveAdvisory> = Vec::new();
    let mut i: usize = 0;
    while i < advs.len()
        invariant
            goal == refreshed(advs.deep_view(), id@, msg@, level, group.deep_view()),
            0 <= i <= advs@.len(),
            r.deep_view().len() == i,
            forall|j: int| 0 <= j < i ==> #[trigger] r.deep_view()[j] == goal[j],
        decreases advs@.len() - i,
    {
        let e = &advs[i];
        proof {
            assert(advs.deep_view()[i as int].id == e.id@);
        }
        let ghost prev = r.deep_view();
        let updated = if str_eq(e.id.as_str(), id) {
            ActiveAdvisory {
                id: e.id.clone(),
                message: msg.clone(),
                level,
                relevant_group_id: dup_opt_string(group),
            }
        } else {
            dup_active(e)
        };
        proof {
            assert(updated.deep_view() == goal[i as int]);
        }
        r.push(updated);
        proof {
            assert(r.deep_view() =~= prev.push(updated.deep_view()));
        }
        i += 1;
    }
    proof {
        assert(r.deep_view() =~= goal);
    }
    r
}

fn remove_entries(advs: Vec<ActiveAdvisory>, id: &str) -> (r: Vec<ActiveAdvisory>)
    ensures
        r.deep_view() == without_id(advs.deep_view(), id@),
{
    let mut r: Vec<ActiveAdvisory> = Vec::new();
    let mut i: usize = 0;
    proof {
        assert(advs.deep_view().subrange(0, 0) =~= Seq::<ActiveView>::empty());
        assert(r.deep_view() =~= without_id(advs.deep_view().subrange(0, 0), id@));
    }
    while i < advs.len()
        invariant
            0 <= i <= advs@.len(),
            r.deep_view() == without_id(advs.deep_view().subrange(0, i as int), id@),
        decreases advs@.len() - i,
    {
        let e = &advs[i];
        proof {
            let dv = advs.deep_view();
            assert(dv[i as int].id == e.id@);
            assert(dv.subrange(0, i + 1) =~= dv.subrange(0, i as int).push(dv[i as int]));
            lemma_without_id_push(dv.subrange(0, i as int), id@, dv[i as int]);
        }
        if !str_eq(e.id.as_str(), id) {
            let ghost prev = r.deep_view();
            let kept = dup_active(e);
            r.push(kept);
            proof {
                assert(r.deep_view() =~= prev.push(advs.deep_view()[i as int]));
            }
        }
        i += 1;
    }
    proof {
        assert(advs.deep_view().subrange(0, advs@.len() as int) =~= advs.deep_view());
    }
    r
}

fn catalog_contains_id(mem: &AdvisoryMemory, id: &str) -> (r: bool)
    requires
        memory_consistent(*mem),
    ensures
        r == catalog_has_id(selected(mem.all_advisories@, mem.active_advisories@), id@),
{
    let ghost cat = selected(mem.all_advisories@, mem.active_advisories@);
    let mut k: usize = 0;
    while k < mem.active_advisories.len()
        invariant
            memory_consistent(*mem),
            cat == selected(mem.all_advisories@, mem.active_advisories@),
            0 <= k <= mem.active_advisories@.len(),
            forall|j: int| 0 <= j < k ==> (#[trigger] cat[j]).id@ != id@,
        decreases mem.active_advisories@.len() - k,
    {
        let idx = mem.active_advisories[k];
        proof {
            assert(cat[k as int] == mem.all_advisories@[idx as int]);
        }
        if str_eq(mem.all_advisories[idx].id.as_str(), id) {
            proof {
                assert(cat[k as int].id@ == id@);
            }
            return true;
        }
        k += 1;
    }
    false
}

fn retain_catalog(advs: Vec<ActiveAdvisory>, mem: &AdvisoryMemory) -> (r: Vec<ActiveAdvisory>)
    requires
        memory_consistent(*mem),
    ensures
        r.deep_view() == retained(
            advs.deep_view(),
            selected(mem.all_advisories@, mem.active_advisories@),
        ),
{
    let ghost cat = selected(mem.all_advisories@, mem.active_advisories@);
    let mut r: Vec<ActiveAdvisory> = Vec::new();
    let mut i: usize = 0;
    proof {
        assert(advs.deep_view().subrange(0, 0) =~= Seq::<ActiveView>::empty());
        assert(r.deep_view() =~= retained(advs.deep_view().subrange(0, 0), cat));
    }
    while i < advs.len()
        invariant
            memory_consistent(*mem),
            cat == selected(mem.all_advisories@, mem.active_advisories@),
            0 <= i <= advs@.len(),
            r.deep_view() == retained(advs.deep_view().subrange(0, i as int), cat),
        decreases advs@.len() - i,
    {
        let e = &advs[i];
        proof {
            let dv = advs.deep_view();
            assert(dv[i as int].id == e.id@);
            assert(dv.subrange(0, i + 1) =~= dv.subrange(0, i as int).push(dv[i as int]));
            lemma_retained_push(dv.subrange(0, i as int), cat, dv[i as int]);
        }
        if catalog_contains_id(mem, e.id.as_str()) {
            let ghost prev = r.deep_view();
            let kept = dup_active(e);
            r.push(kept);
            proof {
                assert(r.deep_view() =~= prev.push(advs.deep_view()[i as int]));
            }
        }
        i += 1;
    }
    proof {
        assert(advs.deep_view().subrange(0, advs@.len() as int) =~= advs.deep_view());
    }
    r
}

impl VrcMrdUser {
    /// Evaluate the active catalog against this participant: the new
    /// active-advisory set, and one notice for each advisory that was
    /// not active before and is now. An advisory that stops holding is
    /// removed without a notice; entries whose advisory left the catalog
    /// are dropped without a notice.
    pub fn with_advisories(
        &self,
        mem: &AdvisoryMemory,
        instance_owner: &Option<String>,
        trigger: &AdvisoryTrigger,
        today: i64,
        now: i64,
    ) -> (res: (Vec<ActiveAdvisory>, Vec<Notice>))
        requires
            memory_consistent(*mem),
        ensures
            ({
                let out = advisories_outcome(
                    data_of(*self),
                    self.advisories.deep_view(),
                    instance_owner.deep_view(),
                    today as int,
                    now as int,
                    Some(title_of(*trigger, self.username@, self.avatar_name@)),
                    selected(mem.all_advisories@, mem.active_advisories@),
                );
                &&& res.0.deep_view() == out.0
                &&& res.1.deep_view() == out.1
            }),
    {
        let ghost cat = selected(mem.all_advisories@, mem.active_advisories@);
        let ghost ownerv = instance_owner.deep_view();
        let ghost titlev = Some(title_of(*trigger, self.username@, self.avatar_name@));
        let ghost st0 = (self.advisories.deep_view(), Seq::<NoticeView>::empty());
        let title = build_title(trigger, self.username.as_str(), self.avatar_name.as_str());
        let mut advs = dup_actives(&self.advisories);
        let mut notices: Vec<Notice> = Vec::new();
        let mut k: usize = 0;
        proof {
            assert(cat.subrange(0, 0) =~= Seq::<Advisory>::empty());
            assert((advs.deep_view(), notices.deep_view()) == engine_fold(
                data_of(*self),
                ownerv,
                today as int,
                now as int,
                titlev,
                cat.subrange(0, 0),
                st0,
            ));
        }
        while k < mem.active_advisories.len()
            invariant
                memory_consistent(*mem),
                cat == selected(mem.all_advisories@, mem.active_advisories@),
                ownerv == instance_owner.deep_view(),
                titlev == Some(title_of(*trigger, self.username@, self.avatar_name@)),
                title@ == title_of(*trigger, self.username@, self.avatar_name@),
                st0 == (self.advisories.deep_view(), Seq::<NoticeView>::empty()),
                0 <= k <= mem.active_advisories@.len(),
                cat.len() == mem.active_advisories@.len(),
                (advs.deep_view(), notices.deep_view()) == engine_fold(
                    data_of(*self),
                    ownerv,
                    today as int,
                    now as int,
                    titlev,
                    cat.subrange(0, k as int),
                    st0,
                ),
            decreases mem.active_advisories@.len() - k,
        {
            let idx = mem.active_advisories[k];
            let a = &mem.all_advisories[idx];
            proof {
                assert(cat[k as int] == mem.all_advisories@[idx as int]);
            }
            let prior = contains_active_id(&advs, a.id.as_str());
            let mut vars = TemplateVars::new();
            vars.insert("username", self.username.clone());
            proof {
                assert(vars.pairs.deep_view() =~= seq![("username"@, self.username@)]);
            }
            let mut group: Option<String> = None;
            let ghost st_before = (advs.deep_view(), notices.deep_view());
            let b = eval_condition(
                &a.condition,
                self,
                instance_owner,
                today,
                prior,
                &mut vars,
                &mut group,
            );
            let ghost ev = eval_of(*a, data_of(*self), ownerv, today as int, prior);
            proof {
                assert(ev.value == b && ev.vars == vars.pairs.deep_view() && ev.group
                    == group.deep_view());
            }
            if b {
                let msg = apply_templating(a.message_template.as_str(), &vars);
                if prior {
                    advs = update_entries(advs, a.id.as_str(), &msg, a.level, &group);
                    proof {
                        assert(advs.deep_view() == refreshed(
                            st_before.0,
                            a.id@,
                            rendered(a.message_template@, ev.vars),
                            a.level,
                            ev.group,
                        ));
                    }
                } else {
                    let entry = ActiveAdvisory {
                        id: a.id.clone(),
                        message: msg.clone(),
                        level: a.level,
                        relevant_group_id: dup_opt_string(&group),
                    };
                    let notice = make_notice(a, &entry, self.id.as_str(), Some(title.clone()), now);
                    let ghost prev_a = advs.deep_view();
                    let ghost prev_n = notices.deep_view();
                    let ghost ev_entry = entry.deep_view();
                    let ghost ev_notice = notice.deep_view();
                    advs.push(entry);
                    notices.push(notice);
                    proof {
                        assert(advs.deep_view() =~= prev_a.push(ev_entry));
                        assert(notices.deep_view() =~= prev_n.push(ev_notice));
                        assert(ev_entry == ActiveView {
                            id: a.id@,
                            message: rendered(a.message_template@, ev.vars),
                            level: a.level,
                            relevant_group_id: ev.group,
                        });
                        assert(ev_notice == NoticeView {
                            title: titlev,
                            message: rendered(a.message_template@, ev.vars),
                            level: a.level,
                            relevant_user_id: Some(self.id@),
                            send_notification: a.send_notification,
                            send_tts: a.send_tts,
                            created_at: now as int,
                        });
                    }
                }
            } else {
                advs = remove_entries(advs, a.id.as_str());
                proof {
                    assert(advs.deep_view() == without_id(st_before.0, a.id@));
                }
            }
            proof {
                assert((advs.deep_view(), notices.deep_view()) == engine_step(
                    data_of(*self),
                    ownerv,
                    today as int,
                    now as int,
                    titlev,
                    cat[k as int],
                    st_before,
                ));
                lemma_engine_fold_snoc(
                    data_of(*self),
                    ownerv,
                    today as int,
                    now as int,
                    titlev,
                    cat.subrange(0, k as int),
                    st0,
                    cat[k as int],
                );
                assert(cat.subrange(0, k + 1) =~= cat.subrange(0, k as int).push(cat[k as int]));
            }
            k += 1;
        }
        proof {
            assert(cat.subrange(0, cat.len() as int) =~= cat);
        }
        let kept = retain_catalog(advs, mem);
        (kept, notices)
    }
}



impl VrcMrdUser {
    /// Merge freshly fetched attributes into this participant and
    /// re-evaluate the catalog against the updated record. Presence
    /// fields (names, times) are untouched; the returned notices are the
    /// fresh activations of the evaluation pass.
    pub fn update_from(
        &mut self,
        other: &RemoteUserInfo,
        groups: Vec<PartialGroup>,
        mem: &AdvisoryMemory,
        instance_owner: &Option<String>,
        today: i64,
        now: i64,
    ) -> (notices: Vec<Notice>)
        requires
            memory_consistent(*mem),
        ensures
            final(self).id == old(self).id,
            final(self).username == old(self).username,
            final(self).avatar_name == old(self).avatar_name,
            final(self).perf_rank == old(self).perf_rank,
            final(self).join_time == old(self).join_time,
            final(self).leave_time == old(self).leave_time,
            final(self).age_verified == other.age_verified,
            final(self).account_created == (match other.date_joined {
                Some(d) => date_ymd_days(d@),
                None => old(self).account_created,
            }),
            final(self).trust_rank == Some(rank_of_tags(other.tags.deep_view())),
            final(self).platform.deep_view() == platform_of(other.last_platform@),
            final(self).groups == groups,
            ({
                let mid = VrcMrdUser { advisories: old(self).advisories, ..*final(self) };
                let out = advisories_outcome(
                    data_of(mid),
                    old(self).advisories.deep_view(),
                    instance_owner.deep_view(),
                    today as int,
                    now as int,
                    Some(title_of(
                        AdvisoryTrigger::JoinLeave,
                        old(self).username@,
                        old(self).avatar_name@,
                    )),
                    selected(mem.all_advisories@, mem.active_advisories@),
                );
                &&& final(self).advisories.deep_view() == out.0
                &&& notices.deep_view() == out.1
            }),
    {
        self.age_verified = other.age_verified;
        match &other.date_joined {
            Some(d) => {
                self.account_created = parse_date_ymd_days(d.as_str());
            },
            None => {},
        }
        self.trust_rank = Some(other.trust_rank());
        self.platform = map_platform(other.last_platform.as_str());
        self.groups = groups;
        let (advs, notices) = self.with_advisories(
            mem,
            instance_owner,
            &AdvisoryTrigger::JoinLeave,
            today,
            now,
        );
        self.advisories = advs;
        notices
    }
}



/// The ids of an active set, in order.
pub open spec fn ids_of(l: Seq<ActiveView>) -> Seq<Seq<char>> {
    Seq::new(l.len(), |i: int| l[i].id)
}

proof fn lemma_refreshed_ids(
    l: Seq<ActiveView>,
    id: Seq<char>,
    msg: Seq<char>,
    level: AdvisoryLevel,
    g: Option<Seq<char>>,
)
    ensures
        ids_of(refreshed(l, id, msg, level, g)) == ids_of(l),
{
    assert(ids_of(refreshed(l, id, msg, level, g)) =~= ids_of(l));
}

proof fn lemma_has_from_ids(l1: Seq<ActiveView>, l2: Seq<ActiveView>, x: Seq<char>)
    requires
        ids_of(l1) == ids_of(l2),
    ensures
        has_active_id(l1, x) == has_active_id(l2, x),
{
    assert(ids_of(l1).len() == l1.len());
    assert(ids_of(l2).len() == l2.len());
    assert(l1.len() == l2.len());
    if has_active_id(l1, x) {
        let w = choose|i: int| 0 <= i < l1.len() && (#[trigger] l1[i]).id == x;
        assert(ids_of(l1)[w] == l1[w].id);
        assert(ids_of(l2)[w] == l2[w].id);
        assert(l2[w].id == x);
    }
    if has_active_id(l2, x) {
        let w = choose|i: int| 0 <= i < l2.len() && (#[trigger] l2[i]).id == x;
        assert(ids_of(l2)[w] == l2[w].id);
        assert(ids_of(l1)[w] == l1[w].id);
        assert(l1[w].id == x);
    }
}

proof fn lemma_push_membership(l: Seq<ActiveView>, e: ActiveView, x: Seq<char>)
    ensures
        has_active_id(l.push(e), x) == (has_active_id(l, x) || e.id == x),
{
    if has_active_id(l, x) {
        let w = choose|i: int| 0 <= i < l.len() && (#[trigger] l[i]).id == x;
        assert(l.push(e)[w].id == x);
    }
    if e.id == x {
        assert(l.push(e)[l.len() as int].id == x);
    }
    if has_active_id(l.push(e), x) {
        let w = choose|i: int| 0 <= i < l.push(e).len() && (#[trigger] l.push(e)[i]).id == x;
        if w < l.len() {
            assert(l[w].id == x);
        } else {
            assert(l.push(e)[w] == e);
        }
    }
}

proof fn lemma_without_id_membership(l: Seq<ActiveView>, id: Seq<char>, x: Seq<char>)
    ensures
        has_active_id(without_id(l, id), x) == (x != id && has_active_id(l, x)),
    decreases l.len(),
{
    reveal(Seq::filter);
    if l.len() == 0 {
        assert(without_id(l, id) =~= l);
    } else {
        lemma_without_id_membership(l.drop_last(), id, x);
        let sub = without_id(l.drop_last(), id);
        let last = l.last();
        assert(l.drop_last().filter(|e: ActiveView| e.id != id) == sub);
        if last.id != id {
            assert(without_id(l, id) == sub.push(last));
            lemma_push_membership(sub, last, x);
            if has_active_id(l.drop_last(), x) {
                let w = choose|i: int|
                    0 <= i < l.drop_last().len() && (#[trigger] l.drop_last()[i]).id == x;
                assert(l[w].id == x);
            }
            if has_active_id(l, x) && last.id != x {
                let w = choose|i: int| 0 <= i < l.len() && (#[trigger] l[i]).id == x;
                assert(w < l.len() - 1);
                assert(l.drop_last()[w].id == x);
            }
        } else {
            assert(without_id(l, id) == sub);
            if has_active_id(l.drop_last(), x) {
                let w = choose|i: int|
                    0 <= i < l.drop_last().len() && (#[trigger] l.drop_last()[i]).id == x;
                assert(l[w].id == x);
            }
            if has_active_id(l, x) && x != id {
                let w = choose|i: int| 0 <= i < l.len() && (#[trigger] l[i]).id == x;
                assert(w < l.len() - 1);
                assert(l.drop_last()[w].id == x);
            }
        }
    }
}

/// Activation stability under partial data: a group-membership condition
/// evaluated for a participant with no known groups keeps the advisory's
/// previous activation state, whatever it was.
pub proof fn lemma_group_membership_stability(
    c: AdvisoryCondition,
    u: ParticipantData,
    owner: Option<Seq<char>>,
    today: int,
    prior: bool,
    vars: Seq<(Seq<char>, Seq<char>)>,
    group: Option<Seq<char>>,
)
    requires
        c is IsGroupMember,
        u.groups.len() == 0,
    ensures
        spec_eval(c, u, owner, today, prior, vars, group).value == prior,
        spec_eval(c, u, owner, today, prior, vars, group).vars == vars,
        spec_eval(c, u, owner, today, prior, vars, group).group == group,
{
}

/// No notice on removal: an advisory whose condition stopped holding is
/// removed from the active set and the notice log grows by nothing.
pub proof fn lemma_no_notice_on_removal(
    u: ParticipantData,
    owner: Option<Seq<char>>,
    today: int,
    now: int,
    title: Option<Seq<char>>,
    a: Advisory,
    st: (Seq<ActiveView>, Seq<NoticeView>),
)
    requires
        !eval_of(a, u, owner, today, has_active_id(st.0, a.id@)).value,
    ensures
        engine_step(u, owner, today, now, title, a, st).1 == st.1,
        !has_active_id(engine_step(u, owner, today, now, title, a, st).0, a.id@),
{
    lemma_without_id_membership(st.0, a.id@, a.id@);
}

proof fn lemma_without_id_absent(l: Seq<ActiveView>, id: Seq<char>)
    requires
        !has_active_id(l, id),
    ensures
        without_id(l, id) == l,
    decreases l.len(),
{
    reveal(Seq::filter);
    if l.len() > 0 {
        assert(!has_active_id(l.drop_last(), id)) by {
            if has_active_id(l.drop_last(), id) {
                let w = choose|i: int|
                    0 <= i < l.drop_last().len() && (#[trigger] l.drop_last()[i]).id == id;
                assert(l[w].id == id);
            }
        }
        lemma_without_id_absent(l.drop_last(), id);
        assert(l[l.len() - 1].id != id);
        assert(without_id(l, id) == l.drop_last().push(l.last()));
        assert(l.drop_last().push(l.last()) =~= l);
    }
}

proof fn lemma_step_ids_when_fixed(
    u: ParticipantData,
    owner: Option<Seq<char>>,
    today: int,
    now: int,
    title: Option<Seq<char>>,
    a: Advisory,
    st: (Seq<ActiveView>, Seq<NoticeView>),
)
    requires
        eval_of(a, u, owner, today, has_active_id(st.0, a.id@)).value == has_active_id(
            st.0,
            a.id@,
        ),
    ensures
        ids_of(engine_step(u, owner, today, now, title, a, st).0) == ids_of(st.0),
        engine_step(u, owner, today, now, title, a, st).1 == st.1,
{
    let prior = has_active_id(st.0, a.id@);
    let ev = eval_of(a, u, owner, today, prior);
    if prior {
        lemma_refreshed_ids(st.0, a.id@, rendered(a.message_template@, ev.vars), a.level, ev.group);
    } else {
        lemma_without_id_absent(st.0, a.id@);
    }
}

proof fn lemma_fold_fixpoint(
    u: ParticipantData,
    owner: Option<Seq<char>>,
    today: int,
    now: int,
    title: Option<Seq<char>>,
    cat: Seq<Advisory>,
    st: (Seq<ActiveView>, Seq<NoticeView>),
)
    requires
        forall|k: int|
            0 <= k < cat.len() ==> eval_of(
                #[trigger] cat[k],
                u,
                owner,
                today,
                has_active_id(st.0, cat[k].id@),
            ).value == has_active_id(st.0, cat[k].id@),
    ensures
        ids_of(engine_fold(u, owner, today, now, title, cat, st).0) == ids_of(st.0),
        engine_fold(u, owner, today, now, title, cat, st).1 == st.1,
    decreases cat.len(),
{
    if cat.len() > 0 {
        let st1 = engine_step(u, owner, today, now, title, cat[0], st);
        lemma_step_ids_when_fixed(u, owner, today, now, title, cat[0], st);
        assert forall|k: int|
            0 <= k < cat.drop_first().len() implies eval_of(
            #[trigger] cat.drop_first()[k],
            u,
            owner,
            today,
            has_active_id(st1.0, cat.drop_first()[k].id@),
        ).value == has_active_id(st1.0, cat.drop_first()[k].id@) by {
            assert(cat.drop_first()[k] == cat[k + 1]);
            lemma_has_from_ids(st1.0, st.0, cat[k + 1].id@);
        }
        lemma_fold_fixpoint(u, owner, today, now, title, cat.drop_first(), st1);
    }
}

proof fn lemma_step_membership(
    u: ParticipantData,
    owner: Option<Seq<char>>,
    today: int,
    now: int,
    title: Option<Seq<char>>,
    a: Advisory,
    st: (Seq<ActiveView>, Seq<NoticeView>),
    x: Seq<char>,
)
    ensures
        has_active_id(engine_step(u, owner, today, now, title, a, st).0, x) == (if x == a.id@ {
            eval_of(a, u, owner, today, has_active_id(st.0, a.id@)).value
        } else {
            has_active_id(st.0, x)
        }),
{
    let prior = has_active_id(st.0, a.id@);
    let ev = eval_of(a, u, owner, today, prior);
    if ev.value {
        if prior {
            lemma_refreshed_ids(
                st.0,
                a.id@,
                rendered(a.message_template@, ev.vars),
                a.level,
                ev.group,
            );
            lemma_has_from_ids(engine_step(u, owner, today, now, title, a, st).0, st.0, x);
        } else {
            let entry = ActiveView {
                id: a.id@,
                message: rendered(a.message_template@, ev.vars),
                level: a.level,
                relevant_group_id: ev.group,
            };
            lemma_push_membership(st.0, entry, x);
        }
    } else {
        lemma_without_id_membership(st.0, a.id@, x);
    }
}

proof fn lemma_retained_membership(l: Seq<ActiveView>, cat: Seq<Advisory>, x: Seq<char>)
    ensures
        has_active_id(retained(l, cat), x) == (catalog_has_id(cat, x) && has_active_id(l, x)),
    decreases l.len(),
{
    reveal(Seq::filter);
    if l.len() == 0 {
        assert(retained(l, cat) =~= l);
    } else {
        lemma_retained_membership(l.drop_last(), cat, x);
        let sub = retained(l.drop_last(), cat);
        let last = l.last();
        assert(l.drop_last().filter(|e: ActiveView| catalog_has_id(cat, e.id)) == sub);
        if catalog_has_id(cat, last.id) {
            assert(retained(l, cat) == sub.push(last));
            lemma_push_membership(sub, last, x);
        } else {
            assert(retained(l, cat) == sub);
        }
        if has_active_id(l.drop_last(), x) {
            let w = choose|i: int|
                0 <= i < l.drop_last().len() && (#[trigger] l.drop_last()[i]).id == x;
            assert(l[w].id == x);
        }
        if has_active_id(l, x) && last.id != x {
            let w = choose|i: int| 0 <= i < l.len() && (#[trigger] l[i]).id == x;
            assert(w < l.len() - 1);
            assert(l.drop_last()[w].id == x);
        }
    }
}

/// Whether an advisory's evaluation never turns the previous activation
/// state upside down: a condition that would hold for a fresh entry also
/// holds for an existing one. Every condition free of negated
/// unavailable-data leaves is like this.
pub open spec fn prior_monotone(
    a: Advisory,
    u: ParticipantData,
    owner: Option<Seq<char>>,
    today: int,
) -> bool {
    eval_of(a, u, owner, today, false).value ==> eval_of(a, u, owner, today, true).value
}

/// The catalog slice has no two advisories with the same id.
pub open spec fn distinct_ids(cat: Seq<Advisory>) -> bool {
    forall|k1: int, k2: int|
        0 <= k1 < k2 < cat.len() ==> (#[trigger] cat[k1].id@) != (#[trigger] cat[k2].id@)
}

proof fn lemma_fold_membership(
    u: ParticipantData,
    owner: Option<Seq<char>>,
    today: int,
    now: int,
    title: Option<Seq<char>>,
    cat: Seq<Advisory>,
    st: (Seq<ActiveView>, Seq<NoticeView>),
    x: Seq<char>,
)
    requires
        forall|k: int| 0 <= k < cat.len() ==> (#[trigger] cat[k].id@) != x,
    ensures
        has_active_id(engine_fold(u, owner, today, now, title, cat, st).0, x) == has_active_id(
            st.0,
            x,
        ),
    decreases cat.len(),
{
    if cat.len() > 0 {
        let st1 = engine_step(u, owner, today, now, title, cat[0], st);
        lemma_step_membership(u, owner, today, now, title, cat[0], st, x);
        assert(forall|k: int|
            0 <= k < cat.drop_first().len() ==> (#[trigger] cat.drop_first()[k].id@) != x);
        lemma_fold_membership(u, owner, today, now, title, cat.drop_first(), st1, x);
    }
}

/// After a full pass, each distinct catalog advisory is in the resulting
/// set exactly when its condition, evaluated with its initial prior,
/// held.
proof fn lemma_fold_final_membership(
    u: ParticipantData,
    owner: Option<Seq<char>>,
    today: int,
    now: int,
    title: Option<Seq<char>>,
    cat: Seq<Advisory>,
    st: (Seq<ActiveView>, Seq<NoticeView>),
    j: int,
)
    requires
        distinct_ids(cat),
        0 <= j < cat.len(),
    ensures
        has_active_id(engine_fold(u, owner, today, now, title, cat, st).0, cat[j].id@) == eval_of(
            cat[j],
            u,
            owner,
            today,
            has_active_id(st.0, cat[j].id@),
        ).value,
    decreases cat.len(),
{
    let st1 = engine_step(u, owner, today, now, title, cat[0], st);
    if j == 0 {
        lemma_step_membership(u, owner, today, now, title, cat[0], st, cat[0].id@);
        assert(forall|k: int|
            0 <= k < cat.drop_first().len() ==> (#[trigger] cat.drop_first()[k].id@)
                != cat[0].id@);
        lemma_fold_membership(u, owner, today, now, title, cat.drop_first(), st1, cat[0].id@);
    } else {
        lemma_step_membership(u, owner, today, now, title, cat[0], st, cat[j].id@);
        assert(cat.drop_first()[j - 1] == cat[j]);
        assert(distinct_ids(cat.drop_first())) by {
            assert forall|k1: int, k2: int|
                0 <= k1 < k2 < cat.drop_first().len() implies (#[trigger] cat.drop_first()[
                k1
            ].id@) != (#[trigger] cat.drop_first()[k2].id@) by {
                assert(cat.drop_first()[k1] == cat[k1 + 1]);
                assert(cat.drop_first()[k2] == cat[k2 + 1]);
            }
        }
        lemma_fold_final_membership(u, owner, today, now, title, cat.drop_first(), st1, j - 1);
    }
}

/// Idempotence: evaluating the same participant, instance context and
/// catalog twice with no intervening change yields an active set with
/// the same advisories and produces no notice on the second pass. The
/// catalog's ids must be distinct, and no advisory's condition may turn
/// the previous activation state upside down (a condition such as the
/// negation of a group-membership test, for a participant whose groups
/// are unknown, does; such a condition flips on every pass by design of
/// the keep-previous rule).
pub proof fn lemma_evaluation_idempotent(
    u: ParticipantData,
    owner: Option<Seq<char>>,
    today: int,
    now1: int,
    now2: int,
    title1: Option<Seq<char>>,
    title2: Option<Seq<char>>,
    cat: Seq<Advisory>,
    init: Seq<ActiveView>,
)
    requires
        distinct_ids(cat),
        forall|k: int| 0 <= k < cat.len() ==> prior_monotone(#[trigger] cat[k], u, owner, today),
    ensures
        ({
            let pass1 = advisories_outcome(u, init, owner, today, now1, title1, cat);
            let pass2 = advisories_outcome(u, pass1.0, owner, today, now2, title2, cat);
            &&& pass2.1.len() == 0
            &&& forall|x: Seq<char>|
                #[trigger] has_active_id(pass2.0, x) == has_active_id(pass1.0, x)
        }),
{
    let st0 = (init, Seq::<NoticeView>::empty());
    let f1 = engine_fold(u, owner, today, now1, title1, cat, st0);
    let s1 = retained(f1.0, cat);
    // s1 is a fixpoint: each catalog advisory's membership in it equals
    // its own evaluation with that membership as the prior.
    assert forall|k: int|
        0 <= k < cat.len() implies eval_of(
        #[trigger] cat[k],
        u,
        owner,
        today,
        has_active_id(s1, cat[k].id@),
    ).value == has_active_id(s1, cat[k].id@) by {
        lemma_fold_final_membership(u, owner, today, now1, title1, cat, st0, k);
        lemma_retained_membership(f1.0, cat, cat[k].id@);
        assert(catalog_has_id(cat, cat[k].id@));
        let b0 = has_active_id(init, cat[k].id@);
        let v1 = eval_of(cat[k], u, owner, today, b0).value;
        assert(has_active_id(s1, cat[k].id@) == v1);
        // A monotone boolean step is idempotent.
        assert(prior_monotone(cat[k], u, owner, today));
    }
    let st1 = (s1, Seq::<NoticeView>::empty());
    let f2 = engine_fold(u, owner, today, now2, title2, cat, st1);
    lemma_fold_fixpoint(u, owner, today, now2, title2, cat, st1);
    assert(f2.1.len() == 0);
    assert forall|x: Seq<char>|
        #[trigger] has_active_id(retained(f2.0, cat), x) == has_active_id(s1, x) by {
        lemma_retained_membership(f2.0, cat, x);
        lemma_has_from_ids(f2.0, s1, x);
        lemma_retained_membership(f1.0, cat, x);
        if has_active_id(s1, x) {
            assert(catalog_has_id(cat, x));
        }
    }
}

} // verus!
