// Tests of the text layer: log reassembly, classification, the instance
// identifier, templates, and number formatting.

use vrcmrd::classify::{PresenceIntent, classify_message, match_switching_avatar};
use vrcmrd::instance_id::VrcMrdInstanceId;
use vrcmrd::log_files::{LogFileMeta, TailerState, is_log_name};
use vrcmrd::log_text::{is_timestamped_line, parse_log_chunk};
use vrcmrd::numfmt::{i64_to_string, u64_to_string};
use vrcmrd::strutil::{contains_insensitive, str_contains, str_eq, trim_str};
use vrcmrd::template::{TemplateVars, apply_templating};

#[test]
fn reassembles_continuation_lines() {
    let bytes =
        b"2026.01.24 01:53:54 Warning    -  line one\nstill line one\n2026.01.24 01:53:55 Log        -  line two\n";
    let records = parse_log_chunk(bytes);
    assert_eq!(records.len(), 2);
    assert_eq!(records[0].message, "line one\nstill line one");
    assert_eq!(records[0].timestamp, "2026.01.24 01:53:54");
    assert_eq!(records[0].level, "Warning");
    assert_eq!(records[1].message, "line two");
    assert_eq!(records[1].level, "Log");
}

#[test]
fn drops_leading_garbage_and_short_records() {
    let bytes = b"no header here\n2026.01.24 01:53:54 Log        -  kept\n";
    let records = parse_log_chunk(bytes);
    assert_eq!(records.len(), 1);
    assert_eq!(records[0].message, "kept");
}

#[test]
fn decodes_non_ascii_messages() {
    let mut bytes = Vec::new();
    bytes.extend_from_slice(b"2026.01.24 01:53:54 Log        -  ");
    bytes.extend_from_slice("ユーザー".as_bytes());
    bytes.push(b'\n');
    let records = parse_log_chunk(&bytes);
    assert_eq!(records.len(), 1);
    assert_eq!(records[0].message, "ユーザー");
}

#[test]
fn accepts_well_formed_header() {
    let line = b"2026.01.24 01:53:54 Warning    -  some warning message here";
    assert!(is_timestamped_line(line));
}

#[test]
fn rejects_out_of_range_calendar_fields() {
    let line = b"2026.13.24 01:53:54 Warning    -  some warning message here";
    assert!(!is_timestamped_line(line));
    let line = b"2026.01.32 01:53:54 Warning    -  some warning message here";
    assert!(!is_timestamped_line(line));
    let line = b"2026.01.24 24:53:54 Warning    -  some warning message here";
    assert!(!is_timestamped_line(line));
}

#[test]
fn rejects_short_and_dashless_lines() {
    assert!(!is_timestamped_line(b"2026.01.24 01:53:54"));
    assert!(!is_timestamped_line(b"2026.01.24 01:53:54 Warning       some message without dash"));
}

#[test]
fn parses_group_public_instance_id() {
    let id = VrcMrdInstanceId::from("wrld_abc:123~group(grp_xyz)~groupAccessType(public)~region(us)");
    assert_eq!(id.world, "wrld_abc");
    assert_eq!(id.id, "123");
    assert_eq!(id.instance_type, "groupPublic");
    assert_eq!(id.owner, Some("grp_xyz".to_string()));
    assert_eq!(id.region, "us");
    assert!(id.public);
    assert_eq!(id.to_string(), "wrld_abc:123~group(grp_xyz)~groupAccessType(public)~region(us)");
}

#[test]
fn parses_friends_plus_instance_id() {
    let id = VrcMrdInstanceId::from("wrld_a:16648~hidden(usr_81bb)~region(use)");
    assert_eq!(id.instance_type, "friends+");
    assert_eq!(id.owner, Some("usr_81bb".to_string()));
    assert_eq!(id.region, "use");
    assert!(!id.public);
}

#[test]
fn parses_invite_plus_instance_id() {
    let id = VrcMrdInstanceId::from("wrld_f:79862~private(usr_50d9)~canRequestInvite~region(use)");
    assert_eq!(id.instance_type, "invite+");
    assert_eq!(id.owner, Some("usr_50d9".to_string()));
}

#[test]
fn invalid_instance_id_is_recorded_raw() {
    let id = VrcMrdInstanceId::from("not an instance id");
    assert_eq!(id.to_string(), "not an instance id");
    assert_eq!(id.world, "");
    assert_eq!(id.id, "");
    assert_eq!(id.instance_type, "unknown");
    assert_eq!(id.owner, None);
    assert!(!id.public);
    let two_colons = VrcMrdInstanceId::from("wrld_a:1:2~region(us)");
    assert_eq!(two_colons.instance_type, "unknown");
}

#[test]
fn classifies_instance_join() {
    let r = classify_message("[Behaviour] Joining wrld_abc:123~region(us)");
    match r {
        Some(PresenceIntent::InstanceJoined { raw_id }) => {
            assert_eq!(raw_id, "wrld_abc:123~region(us)");
        },
        other => panic!("unexpected intent: {:?}", other),
    }
}

#[test]
fn classifies_player_joined_and_left() {
    let r = classify_message("[Behaviour] OnPlayerJoined Some Person (usr_123)");
    match r {
        Some(PresenceIntent::PlayerJoined { name, id }) => {
            assert_eq!(name, "Some Person");
            assert_eq!(id, "usr_123");
        },
        other => panic!("unexpected intent: {:?}", other),
    }
    let r = classify_message("[Behaviour] OnPlayerLeft Some Person (usr_123)");
    match r {
        Some(PresenceIntent::PlayerLeft { name, id }) => {
            assert_eq!(name, "Some Person");
            assert_eq!(id, "usr_123");
        },
        other => panic!("unexpected intent: {:?}", other),
    }
}

#[test]
fn classifies_avatar_switch() {
    assert!(match_switching_avatar("[Behaviour] Switching Some Person to avatar Cool Avatar"));
    let r = classify_message("[Behaviour] Switching Some Person to avatar Cool Avatar");
    match r {
        Some(PresenceIntent::AvatarSwitched { name, avatar_name }) => {
            assert_eq!(name, "Some Person");
            assert_eq!(avatar_name, "Cool Avatar");
        },
        other => panic!("unexpected intent: {:?}", other),
    }
}

#[test]
fn malformed_lines_classify_as_nothing() {
    assert_eq!(classify_message("[Behaviour] OnPlayerJoined no parens"), None);
    assert_eq!(classify_message("plain chatter"), None);
    assert_eq!(classify_message("[Behaviour] Switching no separator"), None);
}

#[test]
fn selects_newest_log_file_and_resets_offset() {
    let mut tailer = TailerState::new();
    let files = vec![
        LogFileMeta { name: "output_log_1.txt".to_string(), time: Some(100) },
        LogFileMeta { name: "notes.txt".to_string(), time: Some(999) },
        LogFileMeta { name: "output_log_2.txt".to_string(), time: Some(200) },
    ];
    let rotated = tailer.on_scan(&files);
    assert!(rotated);
    assert_eq!(tailer.current, Some("output_log_2.txt".to_string()));
    assert_eq!(tailer.offset, 0);
    tailer.note_read(5000);
    assert_eq!(tailer.offset, 5000);
    // The same newest file again: no rotation, the offset survives.
    let rotated = tailer.on_scan(&files);
    assert!(!rotated);
    assert_eq!(tailer.offset, 5000);
    // A newer file appears: rotation resets the offset to zero.
    let mut files2 = files.clone();
    files2.push(LogFileMeta { name: "output_log_3.txt".to_string(), time: Some(300) });
    let rotated = tailer.on_scan(&files2);
    assert!(rotated);
    assert_eq!(tailer.current, Some("output_log_3.txt".to_string()));
    assert_eq!(tailer.offset, 0);
}

#[test]
fn log_name_pattern() {
    assert!(is_log_name("output_log_2026-01-24.txt"));
    assert!(!is_log_name("output_log_2026-01-24.json"));
    assert!(!is_log_name("other_log_1.txt"));
}

#[test]
fn renders_templates_with_unresolved_keys_verbatim() {
    let mut vars = TemplateVars::new();
    vars.insert("username", "Alice".to_string());
    let out = apply_templating("hello {username}, {unknown} stays", &vars);
    assert_eq!(out, "hello Alice, {unknown} stays");
}

#[test]
fn later_template_binding_wins() {
    let mut vars = TemplateVars::new();
    vars.insert("k", "first".to_string());
    vars.insert("k", "second".to_string());
    let out = apply_templating("{k}", &vars);
    assert_eq!(out, "second");
}

#[test]
fn unterminated_token_is_kept() {
    let vars = TemplateVars::new();
    assert_eq!(apply_templating("oops {unclosed", &vars), "oops {unclosed");
}

#[test]
fn string_helpers_behave() {
    assert!(str_eq("abc", "abc"));
    assert!(!str_eq("abc", "abd"));
    assert!(str_contains("hello world", "lo wo"));
    assert!(!str_contains("hello", "world"));
    assert!(contains_insensitive("Hello WORLD", "o worl"));
    assert!(!contains_insensitive("Hello", "world"));
    assert_eq!(trim_str("  padded\t"), "padded");
}

#[test]
fn formats_decimal_numbers() {
    assert_eq!(u64_to_string(0), "0");
    assert_eq!(u64_to_string(1234), "1234");
    assert_eq!(i64_to_string(-56), "-56");
    assert_eq!(i64_to_string(i64::MIN), "-9223372036854775808");
}
