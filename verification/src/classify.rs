//! Classification of log records into presence intents. Each record's
//! message is tried against a fixed, ordered set of line shapes; the
//! first match wins, and a malformed match counts as no match.

use vstd::prelude::*;

use crate::strutil::{
    find_sub, first_sub_idx, last_idx, lemma_last_idx_is, lemma_last_idx_none, rfind_char,
    starts_with_seq, str_contains, str_starts_with, substring, trim_str, trimmed,
};

verus! {

/// A typed presence event extracted from one log record.
#[derive(Debug, Clone, PartialEq, Eq)]
pub enum PresenceIntent {
    /// The observer entered an instance with the given raw identifier.
    InstanceJoined { raw_id: String },
    /// A participant entered the instance.
    PlayerJoined { name: String, id: String },
    /// A participant left the instance.
    PlayerLeft { name: String, id: String },
    /// A participant changed avatar.
    AvatarSwitched { name: String, avatar_name: String },
}

/// The raw instance identifier of an instance-join line, if the message
/// is one.
pub open spec fn instance_join_of(m: Seq<char>) -> Option<Seq<char>> {
    if starts_with_seq(m, "[Behaviour] Joining wrld_"@) {
        Some(m.subrange("[Behaviour] Joining "@.len() as int, m.len() as int))
    } else {
        None
    }
}

/// The name and identifier in a `Name (id)` tail: the name before the
/// last `(`, trimmed, and the identifier between that `(` and the last
/// `)`. Malformed tails (no parentheses, or `)` before `(`) give none.
pub open spec fn name_id_of(rest: Seq<char>) -> Option<(Seq<char>, Seq<char>)> {
    let open = last_idx(rest, '(');
    let close = last_idx(rest, ')');
    if 0 <= open && open < close {
        Some((trimmed(rest.subrange(0, open)), rest.subrange(open + 1, close)))
    } else {
        None
    }
}

/// The (name, id) of a player-joined line, if the message is one.
pub open spec fn player_joined_of(m: Seq<char>) -> Option<(Seq<char>, Seq<char>)> {
    if starts_with_seq(m, "[Behaviour] OnPlayerJoined "@) {
        name_id_of(m.subrange("[Behaviour] OnPlayerJoined "@.len() as int, m.len() as int))
    } else {
        None
    }
}

/// The (name, id) of a player-left line, if the message is one.
pub open spec fn player_left_of(m: Seq<char>) -> Option<(Seq<char>, Seq<char>)> {
    if starts_with_seq(m, "[Behaviour] OnPlayerLeft "@) {
        name_id_of(m.subrange("[Behaviour] OnPlayerLeft "@.len() as int, m.len() as int))
    } else {
        None
    }
}

/// The (name, avatar name) of an avatar-switch line, if the message is
/// one: the part after the marker, split at the single ` to avatar `
/// separator, both sides trimmed. More than one separator counts as
/// malformed, as the split would not give exactly two fields.
pub open spec fn avatar_switch_of(m: Seq<char>) -> Option<(Seq<char>, Seq<char>)> {
    if starts_with_seq(m, "[Behaviour] Switching "@) {
        let rest = m.subrange("[Behaviour] Switching "@.len() as int, m.len() as int);
        let sep = " to avatar "@;
        let i = first_sub_idx(rest, sep);
        if i >= 0 {
            let name = rest.subrange(0, i);
            let avatar = rest.subrange(i + sep.len(), rest.len() as int);
            if first_sub_idx(avatar, sep) == -1 {
                Some((trimmed(name), trimmed(avatar)))
            } else {
                None
            }
        } else {
            None
        }
    } else {
        None
    }
}

/// A message that starts with `a` cannot also start with a `b` that
/// differs from `a` inside the shared length.
proof fn lemma_prefix_excludes(m: Seq<char>, a: Seq<char>, b: Seq<char>, j: int)
    requires
        starts_with_seq(m, a),
        0 <= j < a.len(),
        j < b.len(),
        a[j] != b[j],
    ensures
        !starts_with_seq(m, b),
{
    assert(m.subrange(0, a.len() as int)[j] == a[j]);
    if starts_with_seq(m, b) {
        assert(m.subrange(0, b.len() as int)[j] == b[j]);
        assert(m[j] == a[j] && m[j] == b[j]);
    }
}

/// Whether the message carries the avatar-switch markers. The full parse
/// can still find the line malformed.
pub fn match_switching_avatar(message: &str) -> (r: bool)
    ensures
        r == (starts_with_seq(message@, "[Behaviour] Switching "@) && crate::strutil::contains_seq(
            message@,
            " to avatar "@,
        )),
{
    str_starts_with(message, "[Behaviour] Switching ") && str_contains(message, " to avatar ")
}

fn parse_name_id(rest: &str) -> (r: Option<(String, String)>)
    ensures
        match r {
            Some(pair) => name_id_of(rest@) matches Some(sp) && pair.0@ == sp.0 && pair.1@ == sp.1,
            None => name_id_of(rest@) is None,
        },
{
    let open = rfind_char(rest, '(');
    let close = rfind_char(rest, ')');
    proof {
        match open {
            Some(i) => lemma_last_idx_is(rest@, '(', i as int),
            None => lemma_last_idx_none(rest@, '('),
        }
        match close {
            Some(i) => lemma_last_idx_is(rest@, ')', i as int),
            None => lemma_last_idx_none(rest@, ')'),
        }
    }
    match (open, close) {
        (Some(open), Some(close)) if open < close => {
            let name_part = substring(rest, 0, open);
            let name = trim_str(name_part.as_str());
            let id = substring(rest, open + 1, close);
            Some((name, id))
        },
        _ => None,
    }
}

/// A switch-marked message is neither a join line nor a leave line.
proof fn lemma_switch_excludes_others(m: Seq<char>)
    requires
        starts_with_seq(m, "[Behaviour] Switching "@),
    ensures
        player_joined_of(m) is None,
        player_left_of(m) is None,
{
    reveal_strlit("[Behaviour] Switching ");
    reveal_strlit("[Behaviour] OnPlayerJoined ");
    reveal_strlit("[Behaviour] OnPlayerLeft ");
    lemma_prefix_excludes(m, "[Behaviour] Switching "@, "[Behaviour] OnPlayerJoined "@, 12);
    lemma_prefix_excludes(m, "[Behaviour] Switching "@, "[Behaviour] OnPlayerLeft "@, 12);
}

/// Classify one record's message into a presence intent. The shapes are
/// tried in a fixed order; the first match wins; a malformed match is no
/// match, never an error.
pub fn classify_message(message: &str) -> (r: Option<PresenceIntent>)
    ensures
        match r {
            Some(PresenceIntent::InstanceJoined { raw_id }) => instance_join_of(message@)
                matches Some(v) && raw_id@ == v,
            Some(PresenceIntent::AvatarSwitched { name, avatar_name }) => {
                &&& instance_join_of(message@) is None
                &&& avatar_switch_of(message@) matches Some(p) && name@ == p.0 && avatar_name@
                    == p.1
            },
            Some(PresenceIntent::PlayerJoined { name, id }) => {
                &&& instance_join_of(message@) is None
                &&& avatar_switch_of(message@) is None
                &&& player_joined_of(message@) matches Some(p) && name@ == p.0 && id@ == p.1
            },
            Some(PresenceIntent::PlayerLeft { name, id }) => {
                &&& instance_join_of(message@) is None
                &&& avatar_switch_of(message@) is None
                &&& player_joined_of(message@) is None
                &&& player_left_of(message@) matches Some(p) && name@ == p.0 && id@ == p.1
            },
            None => {
                &&& instance_join_of(message@) is None
                &&& avatar_switch_of(message@) is None
                &&& player_joined_of(message@) is None
                &&& player_left_of(message@) is None
            },
        },
{
    let mlen = message.unicode_len();
    if str_starts_with(message, "[Behaviour] Joining wrld_") {
        proof {
            reveal_strlit("[Behaviour] Joining wrld_");
            reveal_strlit("[Behaviour] Joining ");
        }
        let plen = "[Behaviour] Joining ".unicode_len();
        let raw_id = substring(message, plen, mlen);
        return Some(PresenceIntent::InstanceJoined { raw_id });
    }
    proof {
        reveal_strlit("[Behaviour] Joining wrld_");
    }
    if str_starts_with(message, "[Behaviour] Switching ") {
        let plen = "[Behaviour] Switching ".unicode_len();
        let rest = substring(message, plen, mlen);
        match find_sub(rest.as_str(), " to avatar ") {
            Some(i) => {
                let seplen = " to avatar ".unicode_len();
                let restlen = rest.as_str().unicode_len();
                proof {
                    crate::strutil::lemma_first_sub_idx_bounds(rest@, " to avatar "@);
                }
                let name_part = substring(rest.as_str(), 0, i);
                let avatar_part = substring(rest.as_str(), i + seplen, restlen);
                if find_sub(avatar_part.as_str(), " to avatar ").is_none() {
                    let name = trim_str(name_part.as_str());
                    let avatar_name = trim_str(avatar_part.as_str());
                    return Some(PresenceIntent::AvatarSwitched { name, avatar_name });
                } else {
                    proof {
                        lemma_switch_excludes_others(message@);
                    }
                    return None;
                }
            },
            None => {
                proof {
                    lemma_switch_excludes_others(message@);
                }
                return None;
            },
        }
    }
    if str_starts_with(message, "[Behaviour] OnPlayerJoined ") {
        let plen = "[Behaviour] OnPlayerJoined ".unicode_len();
        let rest = substring(message, plen, mlen);
        return match parse_name_id(rest.as_str()) {
            Some(pair) => Some(PresenceIntent::PlayerJoined { name: pair.0, id: pair.1 }),
            None => {
                proof {
                    reveal_strlit("[Behaviour] OnPlayerJoined ");
                    reveal_strlit("[Behaviour] OnPlayerLeft ");
                    lemma_prefix_excludes(
                        message@,
                        "[Behaviour] OnPlayerJoined "@,
                        "[Behaviour] OnPlayerLeft "@,
                        20,
                    );
                }
                None
            },
        };
    }
    if str_starts_with(message, "[Behaviour] OnPlayerLeft ") {
        let plen = "[Behaviour] OnPlayerLeft ".unicode_len();
        let rest = substring(message, plen, mlen);
        return match parse_name_id(rest.as_str()) {
            Some(pair) => Some(PresenceIntent::PlayerLeft { name: pair.0, id: pair.1 }),
            None => None,
        };
    }
    None
}

} // verus!
