// Tests of the reactive core: roster intents, the settle debounce, the
// advisory engine's activation rules, notices, suppression, the catalog,
// and the enrichment decisions.

use vrcmrd::advisory::{Advisory, AdvisoryCondition, AdvisoryLevel, AdvisoryMemory};
use vrcmrd::api_mode::{AuthEvent, VrchatApiMode, auth_step, next_backoff, should_discard};
use vrcmrd::catalog::{add_advisory, generate_advisory_id, get_advisory, remove_advisory,
    update_advisory};
use vrcmrd::engine::AdvisoryTrigger;
use vrcmrd::enrich::{GroupFetchPlan, RemoteGroup, apply_enrichment, groups_from_remote,
    plan_group_fetch, users_needing_fetch};
use vrcmrd::notices::{channel_preference, dispatch_decision, get_all_notices, publish_notice,
    wrapped_lines_count};
use vrcmrd::xso::{XSOverlayCommand, XsOverlayChannel};
use vrcmrd::roster::{AvatarsState, Users};
use vrcmrd::settle::{InstanceMetadata, InstanceState, SettleTimer};
use vrcmrd::trust::{GetTrustRank, RemoteUserInfo, TrustRank};
use vrcmrd::user::PartialGroup;

fn advisory(id: &str, condition: AdvisoryCondition, template: &str) -> Advisory {
    Advisory {
        id: id.to_string(),
        active: true,
        condition,
        message_template: template.to_string(),
        level: AdvisoryLevel::Medium,
        send_notification: true,
        send_tts: false,
    }
}

fn joined_user(users: &mut Users, avatars: &mut AvatarsState, name: &str, id: &str) {
    users.apply_player_joined(avatars, name.to_string(), id.to_string(), 0, true);
}

#[test]
fn roster_upserts_and_resolves_pending_avatar() {
    let mut users = Users::new();
    let mut avatars = AvatarsState::new();
    // A switch arrives before the join and waits in the buffer; a later
    // switch for the same name wins.
    let updated = users.apply_avatar_switch(&mut avatars, "Ann".to_string(), "Old".to_string());
    assert_eq!(updated, None);
    users.apply_avatar_switch(&mut avatars, "Ann".to_string(), "New".to_string());
    joined_user(&mut users, &mut avatars, "Ann", "usr_a");
    assert_eq!(users.inner.len(), 1);
    assert_eq!(users.inner[0].avatar_name, "New");
    assert_eq!(avatars.pending_avatar_names.len(), 0);
    // A rapid re-join replaces the record instead of duplicating it.
    joined_user(&mut users, &mut avatars, "Ann", "usr_a");
    assert_eq!(users.inner.len(), 1);
    // A switch for a known participant applies directly.
    let updated = users.apply_avatar_switch(&mut avatars, "Ann".to_string(), "Third".to_string());
    assert_eq!(updated, Some(0));
    assert_eq!(users.inner[0].avatar_name, "Third");
}

#[test]
fn roster_records_leaves_and_stubs() {
    let mut users = Users::new();
    let mut avatars = AvatarsState::new();
    joined_user(&mut users, &mut avatars, "Ann", "usr_a");
    users.apply_player_left("Ann".to_string(), "usr_a".to_string(), 99);
    assert_eq!(users.inner.len(), 1);
    assert_eq!(users.inner[0].leave_time, Some(99));
    // A leave for an unknown id gets a defensive stub.
    users.apply_player_left("Bob".to_string(), "usr_b".to_string(), 100);
    assert_eq!(users.inner.len(), 2);
    assert_eq!(users.inner[1].leave_time, Some(100));
}

#[test]
fn joins_before_settling_are_remembered() {
    let mut users = Users::new();
    let mut avatars = AvatarsState::new();
    users.apply_player_joined(&mut avatars, "Early".to_string(), "usr_e".to_string(), 0, false);
    users.apply_player_joined(&mut avatars, "Late".to_string(), "usr_l".to_string(), 5, true);
    assert_eq!(users.joined_before_settled, vec!["usr_e".to_string()]);
}

#[test]
fn settle_debounce_waits_a_full_window_after_the_last_join() {
    let mut st = InstanceState::new();
    let mut timer = SettleTimer::new();
    let mut users = Users::new();
    let mut avatars = AvatarsState::new();
    let mut mem = AdvisoryMemory::new();
    st.apply_instance_joined(&mut users, &mut mem, &mut timer, "wrld_a:1~region(us)");
    st.mark_caught_up();
    // Joins at 0 ms, 500 ms and 600 ms each restart the countdown.
    users.apply_player_joined(&mut avatars, "Ann".to_string(), "usr_a".to_string(), 0, false);
    timer.on_join(0);
    timer.on_join(500);
    timer.on_join(600);
    assert!(!st.poll_settle(&mut timer, 1599, true));
    assert!(!st.settled);
    assert!(st.poll_settle(&mut timer, 1600, true));
    assert!(st.settled);
    // Settling is one-shot until the instance changes.
    assert!(!st.poll_settle(&mut timer, 1700, true));
    assert!(st.settled);
}

#[test]
fn settling_needs_caught_up_and_a_roster() {
    let mut st = InstanceState::new();
    let mut timer = SettleTimer::new();
    timer.on_join(0);
    // Not caught up yet.
    assert!(!st.poll_settle(&mut timer, 2000, true));
    st.mark_caught_up();
    // Roster empty.
    assert!(!st.poll_settle(&mut timer, 2000, false));
    assert!(st.poll_settle(&mut timer, 2000, true));
}

#[test]
fn instance_join_clears_roster_and_notices() {
    let mut st = InstanceState::new();
    let mut timer = SettleTimer::new();
    let mut users = Users::new();
    let mut avatars = AvatarsState::new();
    let mut mem = AdvisoryMemory::new();
    joined_user(&mut users, &mut avatars, "Ann", "usr_a");
    st.apply_instance_joined(&mut users, &mut mem, &mut timer, "wrld_a:1~region(us)");
    st.mark_caught_up();
    st.set_info(InstanceMetadata {
        display_name: None,
        world_name: "World".to_string(),
        owner_id: None,
    });
    timer.on_join(0);
    assert!(st.poll_settle(&mut timer, 1000, true));
    st.apply_instance_joined(&mut users, &mut mem, &mut timer, "wrld_b:2~region(eu)");
    assert_eq!(users.inner.len(), 0);
    assert_eq!(mem.notices.len(), 0);
    assert!(!st.settled);
    assert!(st.caught_up);
    assert_eq!(st.info, None);
    assert_eq!(st.id, Some("wrld_b:2~region(eu)".to_string()));
}

#[test]
fn activation_fires_one_notice_and_renders_the_template() {
    let mut mem = AdvisoryMemory::new();
    mem.set(vec![advisory(
        "adv_1",
        AdvisoryCondition::UsernameContains("tro".to_string()),
        "watch out for {username}",
    )]);
    let mut users = Users::new();
    let mut avatars = AvatarsState::new();
    joined_user(&mut users, &mut avatars, "Trouble", "usr_t");
    let u = &users.inner[0];
    let (active, notices) = u.with_advisories(&mem, &None, &AdvisoryTrigger::JoinLeave, 20000, 1);
    assert_eq!(active.len(), 1);
    assert_eq!(active[0].id, "adv_1");
    assert_eq!(active[0].message, "watch out for Trouble");
    assert_eq!(notices.len(), 1);
    assert_eq!(notices[0].message, "watch out for Trouble");
    assert_eq!(notices[0].title, Some("\"Trouble\" joined".to_string()));
    assert_eq!(notices[0].relevant_user_id, Some("usr_t".to_string()));
    assert!(notices[0].send_notification);
}

#[test]
fn evaluating_twice_changes_nothing_and_fires_nothing() {
    let mut mem = AdvisoryMemory::new();
    mem.set(vec![
        advisory("adv_1", AdvisoryCondition::UsernameContains("ann".to_string()), "hi {username}"),
        advisory("adv_2", AdvisoryCondition::AgeNotVerified, "unverified {username}"),
    ]);
    let mut users = Users::new();
    let mut avatars = AvatarsState::new();
    joined_user(&mut users, &mut avatars, "Ann", "usr_a");
    let (active1, notices1) = users.inner[0].with_advisories(
        &mem,
        &None,
        &AdvisoryTrigger::JoinLeave,
        20000,
        1,
    );
    assert_eq!(active1.len(), 2);
    assert_eq!(notices1.len(), 2);
    users.inner[0].advisories = active1;
    let (active2, notices2) = users.inner[0].with_advisories(
        &mem,
        &None,
        &AdvisoryTrigger::JoinLeave,
        20000,
        2,
    );
    assert_eq!(active2.len(), 2);
    assert_eq!(active2[0].id, "adv_1");
    assert_eq!(active2[1].id, "adv_2");
    assert_eq!(notices2.len(), 0);
}

#[test]
fn group_membership_keeps_previous_state_without_group_data() {
    let mut mem = AdvisoryMemory::new();
    mem.set(vec![advisory(
        "adv_g",
        AdvisoryCondition::IsGroupMember("grp_1".to_string()),
        "in the group",
    )]);
    let mut users = Users::new();
    let mut avatars = AvatarsState::new();
    joined_user(&mut users, &mut avatars, "Ann", "usr_a");
    // No groups known, no prior entry: stays inactive.
    let (active, notices) = users.inner[0].with_advisories(
        &mem,
        &None,
        &AdvisoryTrigger::JoinLeave,
        20000,
        1,
    );
    assert_eq!(active.len(), 0);
    assert_eq!(notices.len(), 0);
    // Groups arrive and the advisory activates.
    users.inner[0].groups = vec![PartialGroup { id: "grp_1".to_string(), name: "The Group".to_string() }];
    let (active, notices) = users.inner[0].with_advisories(
        &mem,
        &None,
        &AdvisoryTrigger::JoinLeave,
        20000,
        2,
    );
    assert_eq!(active.len(), 1);
    assert_eq!(active[0].relevant_group_id, Some("grp_1".to_string()));
    assert_eq!(notices.len(), 1);
    users.inner[0].advisories = active;
    // Group data vanishes again: the prior state of true is kept, and
    // no fresh notice fires.
    users.inner[0].groups = Vec::new();
    let (active, notices) = users.inner[0].with_advisories(
        &mem,
        &None,
        &AdvisoryTrigger::JoinLeave,
        20000,
        3,
    );
    assert_eq!(active.len(), 1);
    assert_eq!(notices.len(), 0);
}

#[test]
fn deactivation_removes_without_a_notice() {
    let mut mem = AdvisoryMemory::new();
    mem.set(vec![advisory(
        "adv_1",
        AdvisoryCondition::AvatarNameContains("spooky".to_string()),
        "spooky avatar",
    )]);
    let mut users = Users::new();
    let mut avatars = AvatarsState::new();
    joined_user(&mut users, &mut avatars, "Ann", "usr_a");
    users.inner[0].avatar_name = "Spooky Thing".to_string();
    let (active, notices) = users.inner[0].with_advisories(
        &mem,
        &None,
        &AdvisoryTrigger::AvatarSwitched,
        20000,
        1,
    );
    assert_eq!(active.len(), 1);
    assert_eq!(notices.len(), 1);
    assert_eq!(notices[0].title, Some("\"Ann\" changed to avatar \"Spooky Thing\"".to_string()));
    users.inner[0].advisories = active;
    users.inner[0].avatar_name = "Plain Thing".to_string();
    let (active, notices) = users.inner[0].with_advisories(
        &mem,
        &None,
        &AdvisoryTrigger::AvatarSwitched,
        20000,
        2,
    );
    assert_eq!(active.len(), 0);
    assert_eq!(notices.len(), 0);
}

#[test]
fn catalog_deletion_drops_stale_entries_without_a_notice() {
    let mut mem = AdvisoryMemory::new();
    mem.set(vec![advisory("adv_1", AdvisoryCondition::AgeNotVerified, "m")]);
    let mut users = Users::new();
    let mut avatars = AvatarsState::new();
    joined_user(&mut users, &mut avatars, "Ann", "usr_a");
    let (active, _) = users.inner[0].with_advisories(&mem, &None, &AdvisoryTrigger::JoinLeave, 1, 1);
    assert_eq!(active.len(), 1);
    users.inner[0].advisories = active;
    mem.set(Vec::new());
    let (active, notices) = users.inner[0].with_advisories(
        &mem,
        &None,
        &AdvisoryTrigger::JoinLeave,
        1,
        2,
    );
    assert_eq!(active.len(), 0);
    assert_eq!(notices.len(), 0);
}

#[test]
fn trust_rank_and_platform_conditions() {
    let mut mem = AdvisoryMemory::new();
    mem.set(vec![
        advisory("adv_rank", AdvisoryCondition::TrustRankAtMost(TrustRank::Visitor), "low rank"),
        advisory("adv_plat", AdvisoryCondition::PlatformIs("Android".to_string()), "mobile"),
    ]);
    let mut users = Users::new();
    let mut avatars = AvatarsState::new();
    joined_user(&mut users, &mut avatars, "Ann", "usr_a");
    users.inner[0].trust_rank = Some(TrustRank::Visitor);
    users.inner[0].platform = Some("android".to_string());
    let (active, _) = users.inner[0].with_advisories(&mem, &None, &AdvisoryTrigger::JoinLeave, 1, 1);
    assert_eq!(active.len(), 2);
    users.inner[0].advisories = active;
    users.inner[0].trust_rank = Some(TrustRank::User);
    users.inner[0].platform = Some("pc".to_string());
    let (active, notices) = users.inner[0].with_advisories(
        &mem,
        &None,
        &AdvisoryTrigger::JoinLeave,
        1,
        2,
    );
    assert_eq!(active.len(), 0);
    assert_eq!(notices.len(), 0);
}

#[test]
fn account_age_condition_renders_age_variable() {
    let mut mem = AdvisoryMemory::new();
    mem.set(vec![advisory(
        "adv_age",
        AdvisoryCondition::AccountAgeAtMostDays(30),
        "{username} is {account_age_days} days old",
    )]);
    let mut users = Users::new();
    let mut avatars = AvatarsState::new();
    joined_user(&mut users, &mut avatars, "Ann", "usr_a");
    users.inner[0].account_created = Some(20000 - 7);
    let (active, _) = users.inner[0].with_advisories(&mem, &None, &AdvisoryTrigger::JoinLeave, 20000, 1);
    assert_eq!(active.len(), 1);
    assert_eq!(active[0].message, "Ann is 7 days old");
}

#[test]
fn composite_conditions_short_circuit() {
    let mut mem = AdvisoryMemory::new();
    mem.set(vec![advisory(
        "adv_c",
        AdvisoryCondition::And(vec![
            AdvisoryCondition::AgeNotVerified,
            AdvisoryCondition::Not(Box::new(AdvisoryCondition::UsernameContains("safe".to_string()))),
        ]),
        "unverified and unsafe",
    )]);
    let mut users = Users::new();
    let mut avatars = AvatarsState::new();
    joined_user(&mut users, &mut avatars, "Ann", "usr_a");
    let (active, _) = users.inner[0].with_advisories(&mem, &None, &AdvisoryTrigger::JoinLeave, 1, 1);
    assert_eq!(active.len(), 1);
    let mut users2 = Users::new();
    joined_user(&mut users2, &mut avatars, "safe person", "usr_s");
    let (active, _) = users2.inner[0].with_advisories(&mem, &None, &AdvisoryTrigger::JoinLeave, 1, 1);
    assert_eq!(active.len(), 0);
}

#[test]
fn instance_owner_condition_uses_context() {
    let mut mem = AdvisoryMemory::new();
    mem.set(vec![advisory(
        "adv_o",
        AdvisoryCondition::InstanceOwner("usr_owner".to_string()),
        "owner instance",
    )]);
    let mut users = Users::new();
    let mut avatars = AvatarsState::new();
    joined_user(&mut users, &mut avatars, "Ann", "usr_a");
    let owner = Some("usr_owner".to_string());
    let (active, _) = users.inner[0].with_advisories(&mem, &owner, &AdvisoryTrigger::JoinLeave, 1, 1);
    assert_eq!(active.len(), 1);
    let (active, _) = users.inner[0].with_advisories(&mem, &None, &AdvisoryTrigger::JoinLeave, 1, 1);
    assert_eq!(active.len(), 0);
}

#[test]
fn suppressed_notice_is_recorded_but_not_delivered() {
    let mut mem = AdvisoryMemory::new();
    mem.set(vec![advisory("adv_1", AdvisoryCondition::AgeNotVerified, "m")]);
    let mut users = Users::new();
    let mut avatars = AvatarsState::new();
    // Joined before the session settled.
    users.apply_player_joined(&mut avatars, "Early".to_string(), "usr_e".to_string(), 0, false);
    let (active, notices) = users.inner[0].with_advisories(
        &mem,
        &None,
        &AdvisoryTrigger::JoinLeave,
        1,
        1,
    );
    assert_eq!(active.len(), 1);
    assert_eq!(notices.len(), 1);
    let notice = notices.into_iter().next().unwrap();
    let deliver = publish_notice(&mut mem, &users, notice.clone());
    assert!(!deliver);
    assert_eq!(get_all_notices(&mem).len(), 1);
    let (send_notification, send_tts) = dispatch_decision(&notice, &users, 1, 1);
    assert!(!send_notification);
    assert!(!send_tts);
}

#[test]
fn unsuppressed_notice_is_delivered_by_preference() {
    let mut mem = AdvisoryMemory::new();
    let mut users = Users::new();
    let mut avatars = AvatarsState::new();
    joined_user(&mut users, &mut avatars, "Late", "usr_l");
    mem.set(vec![advisory("adv_1", AdvisoryCondition::AgeNotVerified, "m")]);
    let (_, notices) = users.inner[0].with_advisories(&mem, &None, &AdvisoryTrigger::JoinLeave, 1, 1);
    let notice = notices.into_iter().next().unwrap();
    let deliver = publish_notice(&mut mem, &users, notice.clone());
    assert!(deliver);
    let (send_notification, _) = dispatch_decision(&notice, &users, 1, 1);
    assert!(send_notification);
    // Preference 0 switches the channel off.
    let (send_notification, _) = dispatch_decision(&notice, &users, 0, 1);
    assert!(!send_notification);
}

#[test]
fn channel_preferences_parse_with_default() {
    assert_eq!(channel_preference(None), 1);
    assert_eq!(channel_preference(Some(&"0".to_string())), 0);
    assert_eq!(channel_preference(Some(&"2".to_string())), 2);
    assert_eq!(channel_preference(Some(&"abc".to_string())), 1);
    assert_eq!(channel_preference(Some(&"999".to_string())), 1);
    assert_eq!(channel_preference(Some(&"".to_string())), 1);
}

#[test]
fn catalog_operations_apply_fully_or_not_at_all() {
    let mut list = Vec::new();
    let a1 = advisory("adv_1", AdvisoryCondition::AgeNotVerified, "one");
    assert!(add_advisory(&mut list, a1).is_ok());
    let dup = advisory("adv_1", AdvisoryCondition::AgeNotVerified, "again");
    let err = add_advisory(&mut list, dup).unwrap_err();
    assert_eq!(err, "Advisory with this ID already exists");
    assert_eq!(list.len(), 1);
    assert_eq!(list[0].message_template, "one");
    let upd = advisory("adv_1", AdvisoryCondition::AgeNotVerified, "two");
    assert!(update_advisory(&mut list, upd).is_ok());
    assert_eq!(list[0].message_template, "two");
    let missing = advisory("adv_x", AdvisoryCondition::AgeNotVerified, "nope");
    let err = update_advisory(&mut list, missing).unwrap_err();
    assert_eq!(err, "Advisory with this ID does not exist");
    assert!(get_advisory(&list, "adv_1").is_some());
    assert!(get_advisory(&list, "adv_x").is_none());
    assert!(remove_advisory(&mut list, "adv_1").is_ok());
    assert!(remove_advisory(&mut list, "adv_1").is_err());
    assert_eq!(list.len(), 0);
}

#[test]
fn generated_ids_have_the_catalog_prefix() {
    let id = generate_advisory_id();
    assert_eq!(id.chars().count(), 23);
    assert!(id.starts_with("vrcmrd_adv_"));
    let id2 = generate_advisory_id();
    assert_eq!(id2.chars().count(), 23);
}

#[test]
fn trust_rank_from_tags_uses_priority_order() {
    let mut info = RemoteUserInfo {
        id: "usr_a".to_string(),
        display_name: "Ann".to_string(),
        tags: vec!["system_trust_known".to_string(), "system_trust_basic".to_string()],
        age_verified: false,
        date_joined: None,
        last_platform: "standalonewindows".to_string(),
    };
    assert_eq!(info.trust_rank(), TrustRank::NewUser);
    info.tags = vec!["admin_moderator".to_string(), "system_nuisance".to_string()];
    assert_eq!(info.trust_rank(), TrustRank::Admin);
    info.tags = Vec::new();
    assert_eq!(info.trust_rank(), TrustRank::Visitor);
    assert!(TrustRank::Nuisance.at_most(&TrustRank::Visitor));
    assert!(!TrustRank::Admin.at_most(&TrustRank::TrustedUser));
}

#[test]
fn enrichment_merges_and_reevaluates() {
    let mut mem = AdvisoryMemory::new();
    mem.set(vec![advisory(
        "adv_age",
        AdvisoryCondition::AccountAgeAtMostDays(30),
        "new account",
    )]);
    let mut users = Users::new();
    let mut avatars = AvatarsState::new();
    joined_user(&mut users, &mut avatars, "Ann", "usr_a");
    let info = RemoteUserInfo {
        id: "usr_a".to_string(),
        display_name: "Ann".to_string(),
        tags: vec!["system_trust_trusted".to_string()],
        age_verified: true,
        date_joined: Some("2020-01-05".to_string()),
        last_platform: "standalonewindows".to_string(),
    };
    // Today is ten days after the reported creation date.
    let today = 18266 + 10;
    let notices = apply_enrichment(&mut users, &info, Vec::new(), &mem, &None, today, 5);
    let notices = notices.expect("participant is in the roster");
    assert_eq!(users.inner[0].account_created, Some(18266));
    assert_eq!(users.inner[0].trust_rank, Some(TrustRank::KnownUser));
    assert_eq!(users.inner[0].platform, Some("pc".to_string()));
    assert!(users.inner[0].age_verified);
    assert_eq!(users.inner[0].advisories.len(), 1);
    assert_eq!(notices.len(), 1);
    // A record about nobody in the roster changes nothing.
    let stranger = RemoteUserInfo { id: "usr_x".to_string(), ..info };
    assert!(apply_enrichment(&mut users, &stranger, Vec::new(), &mem, &None, today, 6).is_none());
}

#[test]
fn group_fetch_planning_and_reduction() {
    let cached = vec![PartialGroup { id: "grp_1".to_string(), name: "G".to_string() }];
    assert_eq!(plan_group_fetch(&cached, false), GroupFetchPlan::UseCached);
    assert_eq!(plan_group_fetch(&Vec::new(), true), GroupFetchPlan::FetchRemote);
    assert_eq!(plan_group_fetch(&Vec::new(), false), GroupFetchPlan::Skip);
    let remote = vec![
        RemoteGroup { group_id: Some("grp_1".to_string()), name: Some("One".to_string()) },
        RemoteGroup { group_id: Some("grp_2".to_string()), name: None },
        RemoteGroup { group_id: None, name: None },
    ];
    let reduced = groups_from_remote(&remote);
    assert_eq!(reduced[0], PartialGroup { id: "grp_1".to_string(), name: "One".to_string() });
    assert_eq!(reduced[1], PartialGroup { id: "grp_2".to_string(), name: "grp_2".to_string() });
    assert_eq!(reduced[2], PartialGroup { id: "".to_string(), name: "".to_string() });
}

#[test]
fn manual_fetch_covers_unhandled_unranked_users() {
    let mut users = Users::new();
    let mut avatars = AvatarsState::new();
    joined_user(&mut users, &mut avatars, "Ann", "usr_a");
    joined_user(&mut users, &mut avatars, "Bob", "usr_b");
    joined_user(&mut users, &mut avatars, "Cid", "usr_c");
    users.inner[1].trust_rank = Some(TrustRank::User);
    let handled = vec!["usr_c".to_string()];
    let need = users_needing_fetch(&users, &handled);
    assert_eq!(need, vec!["usr_a".to_string()]);
}

#[test]
fn stale_responses_are_discarded() {
    let a = Some("wrld_a:1".to_string());
    let b = Some("wrld_b:2".to_string());
    assert!(should_discard(&a, &b));
    assert!(!should_discard(&a, &a.clone()));
    assert!(!should_discard(&None, &b));
    assert!(!should_discard(&a, &None));
}

#[test]
fn backoff_doubles_capped_and_gives_up() {
    assert_eq!(next_backoff(5, 1, 5, 300), Some((10, 2)));
    assert_eq!(next_backoff(200, 1, 5, 300), Some((300, 2)));
    assert_eq!(next_backoff(5, 4, 5, 300), None);
}

#[test]
fn auth_flow_moves_between_modes() {
    let m = auth_step(VrchatApiMode::NotReady, AuthEvent::UiReady);
    assert_eq!(m, VrchatApiMode::Preparing);
    let m = auth_step(m, AuthEvent::TokenSubmitted("123456".to_string()));
    assert_eq!(m, VrchatApiMode::TwoFactorCode("123456".to_string()));
    let m = auth_step(m, AuthEvent::LoginSucceeded);
    assert_eq!(m, VrchatApiMode::Ready);
    // A token while ready is ignored; logout always resets.
    let m = auth_step(m, AuthEvent::TokenSubmitted("999".to_string()));
    assert_eq!(m, VrchatApiMode::Ready);
    assert_eq!(auth_step(m, AuthEvent::LoggedOut), VrchatApiMode::NotReady);
    assert_eq!(auth_step(VrchatApiMode::Preparing, AuthEvent::VerifyFailed), VrchatApiMode::NotReady);
}

#[test]
fn overlay_queue_holds_commands_until_drained() {
    let mut channel = XsOverlayChannel::new();
    assert!(!channel.connected);
    channel.mark_connected();
    channel.queue_xsoverlay_command(XSOverlayCommand {
        sender: "vrcmrd".to_string(),
        target: "xsoverlay".to_string(),
        command: "SendNotification".to_string(),
        json_data: "{}".to_string(),
        raw_data: "".to_string(),
    });
    assert_eq!(channel.queued_commands.len(), 1);
    let drained = channel.drain_commands();
    assert_eq!(drained.len(), 1);
    assert_eq!(channel.queued_commands.len(), 0);
    channel.mark_xsoverlay_disconnected();
    assert!(!channel.connected);
}

#[test]
fn wrapped_lines_count_counts_chunks() {
    assert_eq!(wrapped_lines_count("short"), 1);
    assert_eq!(wrapped_lines_count(""), 0);
    let sixty = "x".repeat(60);
    assert_eq!(wrapped_lines_count(&sixty), 2);
    let two_lines = format!("{}\n{}", "y".repeat(10), "z".repeat(51));
    assert_eq!(wrapped_lines_count(&two_lines), 3);
}
