//! Parsing of the structured instance identifier:
//! `world:number~tag(value)~...~region(code)`. The recognised tags decide
//! the instance kind and owner; unrecognised or malformed tags are ignored.

use vstd::prelude::*;

use crate::strutil::{
    contains_seq, find_char, first_idx, lemma_first_idx_is, lemma_first_idx_none, split_on,
    split_string, starts_with_seq, str_contains, str_eq, str_starts_with, substring,
};

verus! {

broadcast use vstd::string::group_string_axioms;

/// Information extracted from an instance identifier string.
/// Some information, such as a display name, is not present in the
/// identifier itself and comes from remote metadata instead.
#[derive(Debug, Clone, PartialEq, Eq)]
pub struct VrcMrdInstanceId {
    /// The identifier exactly as it appeared in the log.
    pub raw: String,
    /// The instance number (the part after the colon).
    pub id: String,
    /// The world identifier (the part before the colon).
    pub world: String,
    /// The general kind of instance: one of "public", "friends+",
    /// "friends", "invite+", "invite", "group", "group+", "groupPublic",
    /// or "unknown".
    pub instance_type: String,
    /// The owner: a user for friends/invite instances, a group for group
    /// instances, absent for public instances.
    pub owner: Option<String>,
    /// Whether the instance is visible to everyone: true exactly for the
    /// "public" and "groupPublic" kinds.
    pub public: bool,
    /// The region code, such as "us" or "eu".
    pub region: String,
}

/// How many times `c` occurs in `s`.
pub open spec fn count_char(s: Seq<char>, c: char) -> nat
    decreases s.len(),
{
    if s.len() == 0 {
        0
    } else {
        count_char(s.drop_last(), c) + (if s.last() == c {
            1nat
        } else {
            0nat
        })
    }
}

fn count_char_str(s: &str, c: char) -> (r: usize)
    ensures
        r == count_char(s@, c),
{
    let len = s.unicode_len();
    let mut i: usize = 0;
    let mut r: usize = 0;
    proof {
        assert(s@.subrange(0, 0) =~= Seq::<char>::empty());
    }
    while i < len
        invariant
            len == s@.len(),
            0 <= i <= len,
            r <= i,
            r == count_char(s@.subrange(0, i as int), c),
        decreases len - i,
    {
        proof {
            let sub = s@.subrange(0, i + 1);
            assert(sub.drop_last() =~= s@.subrange(0, i as int));
        }
        if s.get_char(i) == c {
            r += 1;
        }
        i += 1;
    }
    proof {
        assert(s@.subrange(0, len as int) =~= s@);
    }
    r
}

/// Whether a string is a well-formed instance identifier: exactly one
/// colon, and the world-id marker somewhere in it.
pub open spec fn instance_id_valid(s: Seq<char>) -> bool {
    count_char(s, ':') == 1 && contains_seq(s, "wrld_"@)
}

/// The value between the first `(` and the first `)` after it, if both
/// are present.
pub open spec fn paren_value(part: Seq<char>) -> Option<Seq<char>> {
    let i = first_idx(part, '(');
    if i == -1 {
        None
    } else {
        let rest = part.subrange(i + 1, part.len() as int);
        let j = first_idx(rest, ')');
        if j == -1 {
            None
        } else {
            Some(rest.subrange(0, j))
        }
    }
}

fn paren_value_exec(part: &str) -> (r: Option<String>)
    ensures
        r.deep_view() == paren_value(part@),
{
    let len = part.unicode_len();
    match find_char(part, '(') {
        None => {
            proof {
                lemma_first_idx_none(part@, '(');
            }
            None
        },
        Some(i) => {
            proof {
                lemma_first_idx_is(part@, '(', i as int);
            }
            let rest = substring(part, i + 1, len);
            match find_char(rest.as_str(), ')') {
                None => {
                    proof {
                        lemma_first_idx_none(rest@, ')');
                    }
                    None
                },
                Some(j) => {
                    proof {
                        lemma_first_idx_is(rest@, ')', j as int);
                    }
                    Some(substring(rest.as_str(), 0, j))
                },
            }
        },
    }
}

/// The running result of reading the tag parts: kind, owner, region.
pub open spec fn initial_tags() -> (Seq<char>, Option<Seq<char>>, Seq<char>) {
    ("unknown"@, None::<Seq<char>>, Seq::<char>::empty())
}

/// One tag part applied to the running (kind, owner, region) state.
pub open spec fn apply_tag(
    st: (Seq<char>, Option<Seq<char>>, Seq<char>),
    part: Seq<char>,
) -> (Seq<char>, Option<Seq<char>>, Seq<char>) {
    if starts_with_seq(part, "public("@) {
        ("public"@, st.1, st.2)
    } else if starts_with_seq(part, "hidden("@) && st.0 == "unknown"@ {
        match paren_value(part) {
            Some(v) => ("friends+"@, Some(v), st.2),
            None => st,
        }
    } else if starts_with_seq(part, "friends("@) && st.0 == "unknown"@ {
        match paren_value(part) {
            Some(v) => ("friends"@, Some(v), st.2),
            None => st,
        }
    } else if starts_with_seq(part, "group("@) && st.0 == "unknown"@ && st.1 is None {
        match paren_value(part) {
            Some(v) => (st.0, Some(v), st.2),
            None => st,
        }
    } else if starts_with_seq(part, "private("@) && st.0 == "unknown"@ {
        match paren_value(part) {
            Some(v) => ("invite"@, Some(v), st.2),
            None => st,
        }
    } else if starts_with_seq(part, "canRequestInvite"@) && (st.0 == "invite"@ || st.0
        == "unknown"@) {
        ("invite+"@, st.1, st.2)
    } else if starts_with_seq(part, "groupAccessType("@) && st.0 == "unknown"@ {
        match paren_value(part) {
            Some(v) => if v == "members"@ {
                ("group"@, st.1, st.2)
            } else if v == "public"@ {
                ("groupPublic"@, st.1, st.2)
            } else if v == "plus"@ {
                ("group+"@, st.1, st.2)
            } else {
                st
            },
            None => st,
        }
    } else if starts_with_seq(part, "region"@) {
        match paren_value(part) {
            Some(v) => (st.0, st.1, v),
            None => st,
        }
    } else {
        st
    }
}

/// All tag parts applied in order.
pub open spec fn fold_tags(
    tags: Seq<Seq<char>>,
    st: (Seq<char>, Option<Seq<char>>, Seq<char>),
) -> (Seq<char>, Option<Seq<char>>, Seq<char>)
    decreases tags.len(),
{
    if tags.len() == 0 {
        st
    } else {
        fold_tags(tags.drop_first(), apply_tag(st, tags[0]))
    }
}

proof fn lemma_fold_tags_snoc(
    tags: Seq<Seq<char>>,
    st: (Seq<char>, Option<Seq<char>>, Seq<char>),
    x: Seq<char>,
)
    ensures
        fold_tags(tags.push(x), st) == apply_tag(fold_tags(tags, st), x),
    decreases tags.len(),
{
    if tags.len() == 0 {
        assert(tags.push(x)[0] == x);
        assert(tags.push(x).drop_first() =~= Seq::<Seq<char>>::empty());
        assert(fold_tags(tags.push(x), st) == fold_tags(
            Seq::<Seq<char>>::empty(),
            apply_tag(st, x),
        ));
        assert(fold_tags(Seq::<Seq<char>>::empty(), apply_tag(st, x)) == apply_tag(st, x));
    } else {
        assert(tags.push(x)[0] == tags[0]);
        assert(tags.push(x).drop_first() =~= tags.drop_first().push(x));
        lemma_fold_tags_snoc(tags.drop_first(), apply_tag(st, tags[0]), x);
        assert(fold_tags(tags.push(x), st) == fold_tags(
            tags.drop_first().push(x),
            apply_tag(st, tags[0]),
        ));
        assert(fold_tags(tags, st) == fold_tags(tags.drop_first(), apply_tag(st, tags[0])));
    }
}

/// The (kind, owner, region) that the tag parts of `s` yield.
pub open spec fn parsed_tags(s: Seq<char>) -> (Seq<char>, Option<Seq<char>>, Seq<char>) {
    fold_tags(split_on(s, '~').drop_first(), initial_tags())
}

/// The world part of the identifier head (before the colon), empty when
/// the head has no colon.
pub open spec fn head_world(s: Seq<char>) -> Seq<char> {
    let head = split_on(s, '~')[0];
    let i = first_idx(head, ':');
    if i == -1 {
        Seq::<char>::empty()
    } else {
        head.subrange(0, i)
    }
}

/// The instance-number part of the identifier head (after the colon),
/// empty when the head has no colon.
pub open spec fn head_num(s: Seq<char>) -> Seq<char> {
    let head = split_on(s, '~')[0];
    let i = first_idx(head, ':');
    if i == -1 {
        Seq::<char>::empty()
    } else {
        head.subrange(i + 1, head.len() as int)
    }
}

fn apply_tag_exec(kind: String, owner: Option<String>, region: String, part: &str) -> (r: (
    String,
    Option<String>,
    String,
))
    ensures
        (r.0@, r.1.deep_view(), r.2@) == apply_tag((kind@, owner.deep_view(), region@), part@),
{
    if str_starts_with(part, "public(") {
        return ("public".to_owned(), owner, region);
    }
    let kind_unknown = str_eq(kind.as_str(), "unknown");
    if str_starts_with(part, "hidden(") && kind_unknown {
        return match paren_value_exec(part) {
            Some(v) => ("friends+".to_owned(), Some(v), region),
            None => (kind, owner, region),
        };
    }
    if str_starts_with(part, "friends(") && kind_unknown {
        return match paren_value_exec(part) {
            Some(v) => ("friends".to_owned(), Some(v), region),
            None => (kind, owner, region),
        };
    }
    if str_starts_with(part, "group(") && kind_unknown && owner.is_none() {
        return match paren_value_exec(part) {
            Some(v) => (kind, Some(v), region),
            None => (kind, owner, region),
        };
    }
    if str_starts_with(part, "private(") && kind_unknown {
        return match paren_value_exec(part) {
            Some(v) => ("invite".to_owned(), Some(v), region),
            None => (kind, owner, region),
        };
    }
    if str_starts_with(part, "canRequestInvite") && (str_eq(kind.as_str(), "invite")
        || kind_unknown) {
        return ("invite+".to_owned(), owner, region);
    }
    if str_starts_with(part, "groupAccessType(") && kind_unknown {
        return match paren_value_exec(part) {
            Some(v) => {
                if str_eq(v.as_str(), "members") {
                    ("group".to_owned(), owner, region)
                } else if str_eq(v.as_str(), "public") {
                    ("groupPublic".to_owned(), owner, region)
                } else if str_eq(v.as_str(), "plus") {
                    ("group+".to_owned(), owner, region)
                } else {
                    (kind, owner, region)
                }
            },
            None => (kind, owner, region),
        };
    }
    if str_starts_with(part, "region") {
        return match paren_value_exec(part) {
            Some(v) => (kind, owner, v),
            None => (kind, owner, region),
        };
    }
    (kind, owner, region)
}

impl VrcMrdInstanceId {
    /// The identifier string as it appeared in the log.
    pub fn to_string(&self) -> (r: String)
        ensures
            r@ == self.raw@,
    {
        self.raw.clone()
    }

    /// Parse an identifier string. A string without exactly one colon or
    /// without the world-id marker is recorded raw, with every derived
    /// field empty or unknown; parsing never fails and never panics.
    pub fn from(full_string: &str) -> (r: VrcMrdInstanceId)
        ensures
            r.raw@ == full_string@,
            r.public == (r.instance_type@ == "public"@ || r.instance_type@ == "groupPublic"@),
            instance_id_valid(full_string@) ==> {
                &&& r.world@ == head_world(full_string@)
                &&& r.id@ == head_num(full_string@)
                &&& r.instance_type@ == parsed_tags(full_string@).0
                &&& r.owner.deep_view() == parsed_tags(full_string@).1
                &&& r.region@ == parsed_tags(full_string@).2
            },
            !instance_id_valid(full_string@) ==> {
                &&& r.world@ == Seq::<char>::empty()
                &&& r.id@ == Seq::<char>::empty()
                &&& r.instance_type@ == "unknown"@
                &&& r.owner is None
                &&& r.region@ == Seq::<char>::empty()
            },
    {
        let colon_count = count_char_str(full_string, ':');
        let has_world = str_contains(full_string, "wrld_");
        if colon_count != 1 || !has_world {
            proof {
                reveal_strlit("");
                reveal_strlit("unknown");
                reveal_strlit("public");
                reveal_strlit("groupPublic");
                assert("unknown"@.len() == 7);
                assert("public"@.len() == 6);
                assert("groupPublic"@.len() == 11);
            }
            return VrcMrdInstanceId {
                raw: full_string.to_owned(),
                world: "".to_owned(),
                id: "".to_owned(),
                instance_type: "unknown".to_owned(),
                owner: None,
                public: false,
                region: "".to_owned(),
            };
        }
        let parts = split_string(full_string, '~');
        let head = &parts[0];
        let (world, id) = match find_char(head.as_str(), ':') {
            None => {
                proof {
                    lemma_first_idx_none(head@, ':');
                }
                ("".to_owned(), "".to_owned())
            },
            Some(i) => {
                proof {
                    lemma_first_idx_is(head@, ':', i as int);
                }
                let hlen = head.as_str().unicode_len();
                (substring(head.as_str(), 0, i), substring(head.as_str(), i + 1, hlen))
            },
        };
        proof {
            reveal_strlit("");
        }
        let mut kind: String = "unknown".to_owned();
        let mut owner: Option<String> = None;
        let mut region: String = "".to_owned();
        let mut idx: usize = 1;
        proof {
            assert(parts.deep_view().subrange(1, 1) =~= Seq::<Seq<char>>::empty());
        }
        while idx < parts.len()
            invariant
                parts.deep_view() =~~= split_on(full_string@, '~'),
                1 <= idx <= parts.len(),
                (kind@, owner.deep_view(), region@) == fold_tags(
                    parts.deep_view().subrange(1, idx as int),
                    initial_tags(),
                ),
            decreases parts.len() - idx,
        {
            let (k2, o2, r2) = apply_tag_exec(kind, owner, region, parts[idx].as_str());
            kind = k2;
            owner = o2;
            region = r2;
            proof {
                lemma_fold_tags_snoc(
                    parts.deep_view().subrange(1, idx as int),
                    initial_tags(),
                    parts.deep_view()[idx as int],
                );
                assert(parts.deep_view().subrange(1, idx + 1) =~= parts.deep_view().subrange(
                    1,
                    idx as int,
                ).push(parts.deep_view()[idx as int]));
            }
            idx += 1;
        }
        proof {
            assert(parts.deep_view().subrange(1, parts.len() as int) =~= split_on(
                full_string@,
                '~',
            ).drop_first());
        }
        let public = str_eq(kind.as_str(), "public") || str_eq(kind.as_str(), "groupPublic");
        VrcMrdInstanceId {
            raw: full_string.to_owned(),
            world,
            id,
            instance_type: kind,
            owner,
            public,
            region,
        }
    }
}

} // verus!
