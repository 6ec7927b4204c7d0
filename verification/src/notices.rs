//! The notice log and the delivery decisions: every notice is recorded;
//! whether it also reaches the notification and speech channels depends
//! on the per-channel preference and on whether its subject was already
//! present before the observing session settled.

use vstd::prelude::*;

use crate::advisory::{AdvisoryMemory, Notice};
use crate::engine::NoticeView;
use crate::roster::Users;
use crate::strutil::str_eq;

verus! {

/// Whether delivery of `n` is suppressed: its subject is known to have
/// joined before the observing session settled.
pub open spec fn suppressed_for(n: NoticeView, jbs: Seq<Seq<char>>) -> bool {
    match n.relevant_user_id {
        Some(u) => exists|i: int| 0 <= i < jbs.len() && jbs[i] == u,
        None => false,
    }
}

/// Whether `uid` is among the participants who joined before the
/// session settled.
fn joined_before(users: &Users, uid: &str) -> (r: bool)
    ensures
        r == exists|i: int|
            0 <= i < users.joined_before_settled.deep_view().len()
                && users.joined_before_settled.deep_view()[i] == uid@,
{
    let mut i: usize = 0;
    while i < users.joined_before_settled.len()
        invariant
            0 <= i <= users.joined_before_settled@.len(),
            forall|k: int| 0 <= k < i ==> users.joined_before_settled.deep_view()[k] != uid@,
        decreases users.joined_before_settled@.len() - i,
    {
        proof {
            assert(users.joined_before_settled.deep_view()[i as int]
                == users.joined_before_settled@[i as int]@);
        }
        if str_eq(users.joined_before_settled[i].as_str(), uid) {
            return true;
        }
        i += 1;
    }
    false
}

/// Record a notice in the instance-scoped log — the single point of
/// truth the interface observes — and say whether it may be delivered:
/// a notice about a participant who joined before the session settled
/// is recorded but never delivered.
pub fn publish_notice(mem: &mut AdvisoryMemory, users: &Users, notice: Notice) -> (deliver: bool)
    ensures
        final(mem).notices@ == old(mem).notices@.push(notice),
        final(mem).all_advisories == old(mem).all_advisories,
        final(mem).active_advisories == old(mem).active_advisories,
        final(mem).has_group_membership_advisory == old(mem).has_group_membership_advisory,
        deliver == !suppressed_for(notice.deep_view(), users.joined_before_settled.deep_view()),
{
    let suppressed = match &notice.relevant_user_id {
        Some(uid) => joined_before(users, uid.as_str()),
        None => false,
    };
    mem.notices.push(notice);
    !suppressed
}

/// Parse a stored channel preference: the decimal digits of a value up
/// to 255. Anything else does not parse.
pub open spec fn digits_value(s: Seq<char>) -> Option<int>
    decreases s.len(),
{
    if s.len() == 0 {
        None
    } else {
        let d = digit_of(s.last());
        if d == -1 {
            None
        } else if s.len() == 1 {
            Some(d)
        } else {
            match digits_value(s.drop_last()) {
                None => None,
                Some(v) => Some(v * 10 + d),
            }
        }
    }
}

/// The value of a digit character, or -1.
pub open spec fn digit_of(c: char) -> int {
    if c == '0' {
        0
    } else if c == '1' {
        1
    } else if c == '2' {
        2
    } else if c == '3' {
        3
    } else if c == '4' {
        4
    } else if c == '5' {
        5
    } else if c == '6' {
        6
    } else if c == '7' {
        7
    } else if c == '8' {
        8
    } else if c == '9' {
        9
    } else {
        -1
    }
}

/// The preference a stored string names: its decimal value when it
/// parses and fits, the default of 1 (host-only) otherwise or when
/// nothing is stored.
pub open spec fn preference_of(stored: Option<Seq<char>>) -> u8 {
    match stored {
        Some(s) => match digits_value(s) {
            Some(v) => if 0 <= v <= 255 {
                v as u8
            } else {
                1
            },
            None => 1,
        },
        None => 1,
    }
}


/// A string with a non-digit character has no digits value.
proof fn lemma_digits_value_bad(s: Seq<char>, i: int)
    requires
        0 <= i < s.len(),
        digit_of(s[i]) == -1,
    ensures
        digits_value(s) is None,
    decreases s.len(),
{
    if i == s.len() - 1 {
    } else if digit_of(s.last()) == -1 {
    } else {
        assert(s.drop_last()[i] == s[i]);
        lemma_digits_value_bad(s.drop_last(), i);
    }
}

fn digit_of_exec(c: char) -> (r: i8)
    ensures
        r as int == digit_of(c),
{
    match c {
        '0' => 0,
        '1' => 1,
        '2' => 2,
        '3' => 3,
        '4' => 4,
        '5' => 5,
        '6' => 6,
        '7' => 7,
        '8' => 8,
        '9' => 9,
        _ => -1,
    }
}

/// The channel preference a stored configuration string names.
pub fn channel_preference(stored: Option<&String>) -> (r: u8)
    ensures
        r == preference_of(match stored {
            Some(s) => Some(s@),
            None => None,
        }),
{
    let s = match stored {
        Some(s) => s,
        None => {
            return 1;
        },
    };
    let len = s.as_str().unicode_len();
    if len == 0 {
        return 1;
    }
    // `acc` follows the true value while it is small and saturates at
    // 300 once the value can no longer fit in a byte.
    let mut acc: u32 = 0;
    let mut i: usize = 0;
    let ghost sv = s@;
    while i < len
        invariant
            len == sv.len(),
            sv == s@,
            stored matches Some(ss) && ss@ == sv,
            0 < len,
            0 <= i <= len,
            acc <= 300,
            i > 0 ==> (digits_value(sv.subrange(0, i as int)) matches Some(v) && v >= 0 && (v
                <= 255 ==> acc == v) && (v > 255 ==> acc > 255)),
            i == 0 ==> acc == 0,
        decreases len - i,
    {
        let d = digit_of_exec(s.as_str().get_char(i));
        if d < 0 {
            proof {
                lemma_digits_value_bad(sv, i as int);
            }
            return 1;
        }
        proof {
            let sub = sv.subrange(0, i + 1);
            assert(sub.last() == sv[i as int]);
            assert(sub.drop_last() =~= sv.subrange(0, i as int));
            if i > 0 {
                assert(digits_value(sv.subrange(0, i as int)) is Some);
            }
        }
        let grown = acc * 10 + (d as u32);
        acc = if grown > 300 {
            300
        } else {
            grown
        };
        i += 1;
    }
    proof {
        assert(sv.subrange(0, len as int) =~= sv);
    }
    if acc <= 255 {
        acc as u8
    } else {
        1
    }
}

/// Where a notice goes: the notification and speech flags, resolved at
/// dispatch time from the notice's own flags, the suppression rule, and
/// the current per-channel preferences (0 switches a channel off).
pub open spec fn dispatch_flags(
    n: NoticeView,
    jbs: Seq<Seq<char>>,
    notification_preference: u8,
    tts_preference: u8,
) -> (bool, bool) {
    let ok = !suppressed_for(n, jbs);
    (
        n.send_notification && ok && notification_preference != 0,
        n.send_tts && ok && tts_preference != 0,
    )
}

/// Suppression: a notice whose subject joined before the observing
/// session settled reaches neither the notification channel nor the
/// speech channel, whatever the preferences say; `publish_notice` has
/// already recorded it in the log regardless.
pub proof fn lemma_suppressed_notice_not_delivered(
    n: NoticeView,
    jbs: Seq<Seq<char>>,
    notification_preference: u8,
    tts_preference: u8,
)
    requires
        n.relevant_user_id matches Some(u) && jbs.contains(u),
    ensures
        !dispatch_flags(n, jbs, notification_preference, tts_preference).0,
        !dispatch_flags(n, jbs, notification_preference, tts_preference).1,
{
    let u = n.relevant_user_id->0;
    let w = choose|i: int| 0 <= i < jbs.len() && jbs[i] == u;
    assert(suppressed_for(n, jbs));
}

/// Resolve the channel flags for a notice at dispatch time.
pub fn dispatch_decision(
    notice: &Notice,
    users: &Users,
    notification_preference: u8,
    tts_preference: u8,
) -> (r: (bool, bool))
    ensures
        r == dispatch_flags(
            notice.deep_view(),
            users.joined_before_settled.deep_view(),
            notification_preference,
            tts_preference,
        ),
{
    let suppressed = match &notice.relevant_user_id {
        Some(uid) => joined_before(users, uid.as_str()),
        None => false,
    };
    (
        notice.send_notification && !suppressed && notification_preference != 0,
        notice.send_tts && !suppressed && tts_preference != 0,
    )
}

/// The notices recorded for the current instance, oldest first.
pub fn get_all_notices(mem: &AdvisoryMemory) -> (r: &Vec<Notice>)
    ensures
        r == mem.notices,
{
    &mem.notices
}



/// `s` with leading blanks removed.
pub open spec fn trimmed_start(s: Seq<char>) -> Seq<char>
    decreases s.len(),
{
    if s.len() == 0 {
        s
    } else if crate::strutil::is_blank(s[0]) {
        trimmed_start(s.drop_first())
    } else {
        s
    }
}

/// How many display chunks one line takes: runs of at most fifty
/// characters, the space that follows a break swallowed; an empty line
/// takes none. (The inner bounds test merely keeps termination evident.)
pub open spec fn chunk_count(line: Seq<char>) -> nat
    decreases line.len(),
{
    if line.len() == 0 {
        0
    } else if line.len() <= 50 {
        1
    } else {
        let rest = trimmed_start(line.subrange(50, line.len() as int));
        if rest.len() < line.len() {
            1 + chunk_count(rest)
        } else {
            1
        }
    }
}

/// The chunk counts of a list of lines, summed.
pub open spec fn chunks_total(lines: Seq<Seq<char>>) -> nat
    decreases lines.len(),
{
    if lines.len() == 0 {
        0
    } else {
        chunk_count(lines[0]) + chunks_total(lines.drop_first())
    }
}

proof fn lemma_trimmed_start_len(s: Seq<char>)
    ensures
        trimmed_start(s).len() <= s.len(),
    decreases s.len(),
{
    if s.len() > 0 && crate::strutil::is_blank(s[0]) {
        lemma_trimmed_start_len(s.drop_first());
    }
}

proof fn lemma_chunk_count_le_len(line: Seq<char>)
    ensures
        chunk_count(line) <= line.len(),
    decreases line.len(),
{
    if line.len() > 50 {
        let rest = trimmed_start(line.subrange(50, line.len() as int));
        lemma_trimmed_start_len(line.subrange(50, line.len() as int));
        if rest.len() < line.len() {
            lemma_chunk_count_le_len(rest);
        }
    }
}

/// The lengths of a list of lines, summed.
pub open spec fn sum_lens(lines: Seq<Seq<char>>) -> nat
    decreases lines.len(),
{
    if lines.len() == 0 {
        0
    } else {
        lines[0].len() + sum_lens(lines.drop_first())
    }
}

proof fn lemma_chunks_total_le_sum(lines: Seq<Seq<char>>)
    ensures
        chunks_total(lines) <= sum_lens(lines),
    decreases lines.len(),
{
    if lines.len() > 0 {
        lemma_chunk_count_le_len(lines[0]);
        lemma_chunks_total_le_sum(lines.drop_first());
    }
}

proof fn lemma_split_sum(s: Seq<char>, sep: char)
    ensures
        sum_lens(crate::strutil::split_on(s, sep)) <= s.len(),
    decreases s.len(),
{
    if s.len() > 0 {
        lemma_split_sum(s.drop_first(), sep);
        let whole = crate::strutil::split_on(s, sep);
        let rest = crate::strutil::split_on(s.drop_first(), sep);
        crate::strutil::lemma_split_nonempty(s.drop_first(), sep);
        crate::strutil::lemma_split_nonempty(s, sep);
        assert(sum_lens(whole) == whole[0].len() + sum_lens(whole.drop_first()));
        if s[0] == sep {
            assert(whole.drop_first() =~= rest);
            assert(whole[0].len() == 0);
            assert(sum_lens(whole) == sum_lens(rest));
        } else {
            assert(whole.drop_first() =~= rest.drop_first());
            assert(whole[0] == seq![s[0]] + rest[0]);
            assert(whole[0].len() == 1 + rest[0].len());
            assert(sum_lens(rest) == rest[0].len() + sum_lens(rest.drop_first()));
            assert(sum_lens(whole) == 1 + sum_lens(rest));
        }
    } else {
        let whole = crate::strutil::split_on(s, sep);
        assert(whole =~= seq![s]);
        assert(sum_lens(whole) == whole[0].len() + sum_lens(whole.drop_first()));
        assert(whole.drop_first() =~= Seq::<Seq<char>>::empty());
        assert(sum_lens(whole.drop_first()) == 0);
        assert(whole[0].len() == 0);
    }
}

proof fn lemma_chunks_decompose(lines: Seq<Seq<char>>, i: int)
    requires
        0 <= i <= lines.len(),
    ensures
        chunks_total(lines) == chunks_total(lines.subrange(0, i)) + chunks_total(
            lines.subrange(i, lines.len() as int),
        ),
    decreases i,
{
    if i == 0 {
        assert(lines.subrange(0, 0) =~= Seq::<Seq<char>>::empty());
        assert(lines.subrange(0, lines.len() as int) =~= lines);
    } else {
        lemma_chunks_decompose(lines.drop_first(), i - 1);
        assert(lines.subrange(0, i)[0] == lines[0]);
        assert(lines.subrange(0, i).drop_first() =~= lines.drop_first().subrange(0, i - 1));
        assert(lines.subrange(i, lines.len() as int) =~= lines.drop_first().subrange(
            i - 1,
            lines.drop_first().len() as int,
        ));
    }
}

fn blank_at(line: &str, i: usize) -> (r: bool)
    requires
        i < line@.len(),
    ensures
        r == crate::strutil::is_blank(line@[i as int]),
{
    let c = line.get_char(i);
    c == ' ' || c == '\t' || c == '\r' || c == '\n'
}

fn chunk_count_exec(line: &str) -> (r: usize)
    ensures
        r == chunk_count(line@),
{
    let len = line.unicode_len();
    let mut pos: usize = 0;
    let mut count: usize = 0;
    proof {
        assert(line@.subrange(0, len as int) =~= line@);
        lemma_chunk_count_le_len(line@);
    }
    while pos < len
        invariant
            len == line@.len(),
            0 <= pos <= len,
            count + chunk_count(line@.subrange(pos as int, len as int)) == chunk_count(line@),
            count <= pos,
        decreases len - pos,
    {
        let remaining = len - pos;
        let ghost cur = line@.subrange(pos as int, len as int);
        if remaining <= 50 {
            count += 1;
            pos = len;
            proof {
                assert(line@.subrange(len as int, len as int) =~= Seq::<char>::empty());
            }
        } else {
            count += 1;
            let break_at = pos + 50;
            let mut skip: usize = break_at;
            proof {
                assert(cur.subrange(50, cur.len() as int) =~= line@.subrange(
                    break_at as int,
                    len as int,
                ));
            }
            while skip < len && blank_at(line, skip)
                invariant
                    len == line@.len(),
                    break_at <= skip <= len,
                    trimmed_start(line@.subrange(break_at as int, len as int)) == trimmed_start(
                        line@.subrange(skip as int, len as int),
                    ),
                decreases len - skip,
            {
                proof {
                    assert(line@.subrange(skip as int, len as int).drop_first() =~= line@.subrange(
                        skip + 1,
                        len as int,
                    ));
                }
                skip += 1;
            }
            proof {
                let tail = line@.subrange(skip as int, len as int);
                if skip < len {
                    assert(!crate::strutil::is_blank(tail[0]));
                }
                assert(trimmed_start(tail) == tail);
                lemma_trimmed_start_len(line@.subrange(break_at as int, len as int));
                assert(tail.len() < cur.len());
                lemma_chunk_count_le_len(tail);
            }
            pos = skip;
        }
    }
    proof {
        assert(line@.subrange(pos as int, len as int) =~= Seq::<char>::empty());
    }
    count
}

/// How many wrapped display lines a message takes: its lines, split at
/// `\n`, each counted in runs of at most fifty characters with the blank
/// after a break swallowed. The overlay sizes its notification box by
/// this.
pub fn wrapped_lines_count(s: &str) -> (r: usize)
    ensures
        r == chunks_total(crate::strutil::split_on(s@, '\n')),
{
    let slen = s.unicode_len();
    let lines = crate::strutil::split_string(s, '\n');
    let ghost lv = lines.deep_view();
    let mut total: usize = 0;
    let mut i: usize = 0;
    proof {
        lemma_chunks_total_le_sum(lv);
        lemma_split_sum(s@, '\n');
        assert(lv.subrange(0, 0) =~= Seq::<Seq<char>>::empty());
    }
    while i < lines.len()
        invariant
            lv == lines.deep_view(),
            slen == s@.len(),
            0 <= i <= lv.len(),
            total == chunks_total(lv.subrange(0, i as int)),
            chunks_total(lv) <= slen,
        decreases lv.len() - i,
    {
        let c = chunk_count_exec(lines[i].as_str());
        proof {
            assert(lv[i as int] == lines@[i as int]@);
            lemma_chunks_snoc(lv, i as int);
            lemma_chunks_decompose(lv, i + 1);
            assert(chunks_total(lv.subrange(0, i + 1)) <= chunks_total(lv));
        }
        total += c;
        i += 1;
    }
    proof {
        assert(lv.subrange(0, lv.len() as int) =~= lv);
    }
    total
}

proof fn lemma_chunks_snoc(lines: Seq<Seq<char>>, i: int)
    requires
        0 <= i < lines.len(),
    ensures
        chunks_total(lines.subrange(0, i + 1)) == chunks_total(lines.subrange(0, i))
            + chunk_count(lines[i]),
    decreases i,
{
    if i == 0 {
        assert(lines.subrange(0, 1).drop_first() =~= Seq::<Seq<char>>::empty());
        assert(lines.subrange(0, 1)[0] == lines[0]);
        assert(lines.subrange(0, 0) =~= Seq::<Seq<char>>::empty());
    } else {
        lemma_chunks_snoc(lines.drop_first(), i - 1);
        assert(lines.subrange(0, i + 1).drop_first() =~= lines.drop_first().subrange(0, i));
        assert(lines.subrange(0, i).drop_first() =~= lines.drop_first().subrange(0, i - 1));
        assert(lines.subrange(0, i + 1)[0] == lines[0]);
        assert(lines.subrange(0, i)[0] == lines[0]);
        assert(lines.drop_first()[i - 1] == lines[i]);
    }
}

} // verus!
