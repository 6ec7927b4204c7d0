//! Verified helpers over `&str` and `String`: prefix tests, substring
//! search, character search, trimming, and a trusted lowercase bridge.

use vstd::prelude::*;

verus! {

/// `needle` occurs as a contiguous run inside `hay`.
pub open spec fn contains_seq(hay: Seq<char>, needle: Seq<char>) -> bool {
    exists|i: int|
        0 <= i <= hay.len() - needle.len() && #[trigger] hay.subrange(i, i + needle.len())
            == needle
}

/// `prefix` is an initial run of `s`.
pub open spec fn starts_with_seq(s: Seq<char>, prefix: Seq<char>) -> bool {
    prefix.len() <= s.len() && s.subrange(0, prefix.len() as int) == prefix
}

/// `suffix` is a final run of `s`.
pub open spec fn ends_with_seq(s: Seq<char>, suffix: Seq<char>) -> bool {
    suffix.len() <= s.len() && s.subrange(s.len() - suffix.len(), s.len() as int) == suffix
}

/// What `str::to_lowercase` returns: a function of the characters alone.
pub uninterp spec fn lower_of(s: Seq<char>) -> Seq<char>;

/// Relies on str::to_lowercase: the lowercase form depends on the
/// characters alone, and an empty string stays empty.
#[verifier::external_body]
pub(crate) fn lowercase(s: &str) -> (r: String)
    ensures
        r@ == lower_of(s@),
        s@.len() == 0 ==> r@.len() == 0,
{
    s.to_lowercase()
}

/// The characters of `needle` all appear in `hay` starting at `at`.
fn match_at(hay: &str, needle: &str, at: usize) -> (r: bool)
    requires
        at + needle@.len() <= hay@.len(),
    ensures
        r == (hay@.subrange(at as int, at + needle@.len()) == needle@),
{
    let nlen = needle.unicode_len();
    let hlen = hay.unicode_len();
    let mut j: usize = 0;
    while j < nlen
        invariant
            0 <= j <= nlen,
            nlen == needle@.len(),
            hlen == hay@.len(),
            at + nlen <= hlen,
            forall|k: int| 0 <= k < j ==> hay@[at + k] == needle@[k],
        decreases nlen - j,
    {
        if hay.get_char(at + j) != needle.get_char(j) {
            assert(hay@.subrange(at as int, at + needle@.len())[j as int] != needle@[j as int]);
            return false;
        }
        j += 1;
    }
    assert(hay@.subrange(at as int, at + needle@.len()) =~= needle@);
    true
}

/// Whether `s` begins with `prefix`.
pub fn str_starts_with(s: &str, prefix: &str) -> (r: bool)
    ensures
        r == starts_with_seq(s@, prefix@),
{
    let plen = prefix.unicode_len();
    let slen = s.unicode_len();
    if plen > slen {
        return false;
    }
    match_at(s, prefix, 0)
}

/// Whether `s` ends with `suffix`.
pub fn str_ends_with(s: &str, suffix: &str) -> (r: bool)
    ensures
        r == ends_with_seq(s@, suffix@),
{
    let slen = s.unicode_len();
    let plen = suffix.unicode_len();
    if plen > slen {
        return false;
    }
    match_at(s, suffix, slen - plen)
}

/// Whether the two strings hold the same characters.
pub fn str_eq(a: &str, b: &str) -> (r: bool)
    ensures
        r == (a@ == b@),
{
    let alen = a.unicode_len();
    let blen = b.unicode_len();
    if alen != blen {
        return false;
    }
    let r = match_at(a, b, 0);
    proof {
        assert(a@.subrange(0, b@.len() as int) =~= a@);
    }
    r
}

/// Whether `needle` occurs anywhere inside `hay`.
pub fn str_contains(hay: &str, needle: &str) -> (r: bool)
    ensures
        r == contains_seq(hay@, needle@),
{
    let hlen = hay.unicode_len();
    let nlen = needle.unicode_len();
    if nlen > hlen {
        return false;
    }
    if nlen == 0 {
        proof {
            assert(hay@.subrange(0, 0 + needle@.len() as int) =~= needle@);
        }
        return true;
    }
    let mut i: usize = 0;
    while i <= hlen - nlen
        invariant
            hlen == hay@.len(),
            nlen == needle@.len(),
            1 <= nlen <= hlen,
            0 <= i <= hlen - nlen + 1,
            forall|k: int|
                0 <= k < i ==> #[trigger] hay@.subrange(k, k + needle@.len()) != needle@,
        decreases hlen - nlen - i + 1,
    {
        if match_at(hay, needle, i) {
            return true;
        }
        i += 1;
    }
    false
}

/// Whether `needle` occurs inside `hay` when both are folded to lowercase.
pub fn contains_insensitive(hay: &str, needle: &str) -> (r: bool)
    ensures
        r == contains_seq(lower_of(hay@), lower_of(needle@)),
{
    let h = lowercase(hay);
    let n = lowercase(needle);
    str_contains(h.as_str(), n.as_str())
}

/// Index of the first occurrence of `c` in `s`, if any.
pub fn find_char(s: &str, c: char) -> (r: Option<usize>)
    ensures
        match r {
            Some(i) => i < s@.len() && s@[i as int] == c && forall|k: int|
                0 <= k < i ==> s@[k] != c,
            None => forall|k: int| 0 <= k < s@.len() ==> s@[k] != c,
        },
{
    let len = s.unicode_len();
    let mut i: usize = 0;
    while i < len
        invariant
            len == s@.len(),
            0 <= i <= len,
            forall|k: int| 0 <= k < i ==> s@[k] != c,
        decreases len - i,
    {
        if s.get_char(i) == c {
            return Some(i);
        }
        i += 1;
    }
    None
}

/// Index of the last occurrence of `c` in `s`, if any.
pub fn rfind_char(s: &str, c: char) -> (r: Option<usize>)
    ensures
        match r {
            Some(i) => i < s@.len() && s@[i as int] == c && forall|k: int|
                i < k < s@.len() ==> s@[k] != c,
            None => forall|k: int| 0 <= k < s@.len() ==> s@[k] != c,
        },
{
    let len = s.unicode_len();
    let mut i: usize = len;
    while i > 0
        invariant
            len == s@.len(),
            0 <= i <= len,
            forall|k: int| i <= k < len ==> s@[k] != c,
        decreases i,
    {
        i -= 1;
        if s.get_char(i) == c {
            return Some(i);
        }
    }
    None
}

/// A character this library treats as blank when trimming.
pub open spec fn is_blank(c: char) -> bool {
    c == ' ' || c == '\t' || c == '\r' || c == '\n'
}

/// `s` with leading and trailing blanks removed.
pub open spec fn trimmed(s: Seq<char>) -> Seq<char>
    decreases s.len(),
{
    if s.len() == 0 {
        s
    } else if is_blank(s[0]) {
        trimmed(s.subrange(1, s.len() as int))
    } else if is_blank(s[s.len() - 1]) {
        trimmed(s.subrange(0, s.len() - 1))
    } else {
        s
    }
}

fn is_blank_exec(c: char) -> (r: bool)
    ensures
        r == is_blank(c),
{
    c == ' ' || c == '\t' || c == '\r' || c == '\n'
}

/// Copy of `s` with leading and trailing blanks removed.
pub fn trim_str(s: &str) -> (r: String)
    ensures
        r@ == trimmed(s@),
{
    let len = s.unicode_len();
    let mut lo: usize = 0;
    let mut hi: usize = len;
    proof {
        assert(s@.subrange(0, len as int) =~= s@);
    }
    while lo < hi && is_blank_exec(s.get_char(lo))
        invariant
            len == s@.len(),
            0 <= lo <= hi <= len,
            trimmed(s@) == trimmed(s@.subrange(lo as int, hi as int)),
            hi == len,
        decreases hi - lo,
    {
        proof {
            assert(s@.subrange(lo as int, hi as int).subrange(
                1,
                s@.subrange(lo as int, hi as int).len() as int,
            ) =~= s@.subrange(lo + 1, hi as int));
        }
        lo += 1;
    }
    while lo < hi && is_blank_exec(s.get_char(hi - 1))
        invariant
            len == s@.len(),
            0 <= lo <= hi <= len,
            trimmed(s@) == trimmed(s@.subrange(lo as int, hi as int)),
            lo < hi ==> !is_blank(s@[lo as int]),
        decreases hi,
    {
        proof {
            assert(s@.subrange(lo as int, hi as int).subrange(
                0,
                s@.subrange(lo as int, hi as int).len() - 1,
            ) =~= s@.subrange(lo as int, hi - 1));
        }
        hi -= 1;
    }
    let r = s.substring_char(lo, hi).to_owned();
    proof {
        if lo < hi {
            assert(!is_blank(s@.subrange(lo as int, hi as int)[0]));
            assert(!is_blank(s@.subrange(lo as int, hi as int)[
                s@.subrange(lo as int, hi as int).len() - 1
            ]));
        }
    }
    r
}

/// The characters of `s` from `from` (inclusive) to `to` (exclusive),
/// as an owned string.
pub fn substring(s: &str, from: usize, to: usize) -> (r: String)
    requires
        from <= to <= s@.len(),
    ensures
        r@ == s@.subrange(from as int, to as int),
{
    s.substring_char(from, to).to_owned()
}

/// Index of the first occurrence of `c` in `s`, or -1 when absent.
pub open spec fn first_idx<T>(s: Seq<T>, c: T) -> int
    decreases s.len(),
{
    if s.len() == 0 {
        -1
    } else if s[0] == c {
        0
    } else {
        let r = first_idx(s.drop_first(), c);
        if r == -1 {
            -1
        } else {
            r + 1
        }
    }
}

/// `first_idx` finds exactly the first occurrence.
pub proof fn lemma_first_idx_is<T>(s: Seq<T>, c: T, i: int)
    requires
        0 <= i < s.len(),
        s[i] == c,
        forall|k: int| 0 <= k < i ==> s[k] != c,
    ensures
        first_idx(s, c) == i,
    decreases s.len(),
{
    if i == 0 {
    } else {
        assert(forall|k: int| 0 <= k < i - 1 ==> s.drop_first()[k] != c);
        lemma_first_idx_is(s.drop_first(), c, i - 1);
    }
}

/// `first_idx` reports -1 exactly when the character is absent.
pub proof fn lemma_first_idx_none<T>(s: Seq<T>, c: T)
    requires
        forall|k: int| 0 <= k < s.len() ==> s[k] != c,
    ensures
        first_idx(s, c) == -1,
    decreases s.len(),
{
    if s.len() > 0 {
        assert(forall|k: int| 0 <= k < s.drop_first().len() ==> s.drop_first()[k] != c);
        lemma_first_idx_none(s.drop_first(), c);
    }
}

/// Bounds of a found index.
pub proof fn lemma_first_idx_bounds<T>(s: Seq<T>, c: T)
    ensures
        first_idx(s, c) == -1 || (0 <= first_idx(s, c) < s.len() && s[first_idx(s, c)] == c),
    decreases s.len(),
{
    if s.len() > 0 && s[0] != c {
        lemma_first_idx_bounds(s.drop_first(), c);
    }
}

/// Index of the last occurrence of `c` in `s`, or -1 when absent.
pub open spec fn last_idx<T>(s: Seq<T>, c: T) -> int
    decreases s.len(),
{
    if s.len() == 0 {
        -1
    } else if s.last() == c {
        s.len() - 1
    } else {
        last_idx(s.drop_last(), c)
    }
}

/// `last_idx` finds exactly the last occurrence.
pub proof fn lemma_last_idx_is<T>(s: Seq<T>, c: T, i: int)
    requires
        0 <= i < s.len(),
        s[i] == c,
        forall|k: int| i < k < s.len() ==> s[k] != c,
    ensures
        last_idx(s, c) == i,
    decreases s.len(),
{
    if i == s.len() - 1 {
    } else {
        assert(s.drop_last()[i] == c);
        lemma_last_idx_is(s.drop_last(), c, i);
    }
}

/// `last_idx` reports -1 exactly when the element is absent.
pub proof fn lemma_last_idx_none<T>(s: Seq<T>, c: T)
    requires
        forall|k: int| 0 <= k < s.len() ==> s[k] != c,
    ensures
        last_idx(s, c) == -1,
    decreases s.len(),
{
    if s.len() > 0 {
        assert(forall|k: int| 0 <= k < s.drop_last().len() ==> s.drop_last()[k] != c);
        lemma_last_idx_none(s.drop_last(), c);
    }
}

/// Index of the first occurrence of `needle` as a run inside `hay`,
/// or -1 when absent. An empty needle is found at index zero.
pub open spec fn first_sub_idx(hay: Seq<char>, needle: Seq<char>) -> int
    decreases hay.len(),
{
    if needle.len() == 0 {
        0
    } else if hay.len() < needle.len() {
        -1
    } else if hay.subrange(0, needle.len() as int) == needle {
        0
    } else {
        let r = first_sub_idx(hay.drop_first(), needle);
        if r == -1 {
            -1
        } else {
            r + 1
        }
    }
}

/// `first_sub_idx` finds exactly the first occurrence.
pub proof fn lemma_first_sub_idx_is(hay: Seq<char>, needle: Seq<char>, i: int)
    requires
        0 <= i,
        i + needle.len() <= hay.len(),
        hay.subrange(i, i + needle.len()) == needle,
        forall|k: int|
            0 <= k < i ==> #[trigger] hay.subrange(k, k + needle.len()) != needle,
    ensures
        first_sub_idx(hay, needle) == i,
    decreases hay.len(),
{
    if needle.len() == 0 {
        assert(hay.subrange(0, 0 + needle.len() as int) =~= needle);
        assert(i == 0) by {
            if i > 0 {
                assert(hay.subrange(0, 0 + needle.len() as int) != needle);
            }
        }
    } else if i == 0 {
    } else {
        assert(hay.subrange(0, 0 + needle.len() as int) != needle);
        assert(hay.subrange(0, needle.len() as int) == hay.subrange(0, 0 + needle.len() as int));
        assert(hay.drop_first().subrange(i - 1, i - 1 + needle.len()) =~= hay.subrange(
            i,
            i + needle.len(),
        ));
        assert forall|k: int|
            0 <= k < i - 1 implies #[trigger] hay.drop_first().subrange(k, k + needle.len())
            != needle by {
            assert(hay.drop_first().subrange(k, k + needle.len()) =~= hay.subrange(
                k + 1,
                k + 1 + needle.len(),
            ));
            assert(hay.subrange(k + 1, k + 1 + needle.len()) != needle);
        }
        lemma_first_sub_idx_is(hay.drop_first(), needle, i - 1);
    }
}

/// `first_sub_idx` reports -1 exactly when a non-empty run is absent.
pub proof fn lemma_first_sub_idx_none(hay: Seq<char>, needle: Seq<char>)
    requires
        needle.len() > 0,
        forall|k: int|
            0 <= k <= hay.len() - needle.len() ==> #[trigger] hay.subrange(k, k + needle.len())
                != needle,
    ensures
        first_sub_idx(hay, needle) == -1,
    decreases hay.len(),
{
    if hay.len() >= needle.len() {
        assert(hay.subrange(0, 0 + needle.len() as int) != needle);
        assert(hay.subrange(0, needle.len() as int) == hay.subrange(0, 0 + needle.len() as int));
        assert forall|k: int|
            0 <= k <= hay.drop_first().len() - needle.len() implies #[trigger] hay.drop_first()
            .subrange(k, k + needle.len()) != needle by {
            assert(hay.drop_first().subrange(k, k + needle.len()) =~= hay.subrange(
                k + 1,
                k + 1 + needle.len(),
            ));
            assert(hay.subrange(k + 1, k + 1 + needle.len()) != needle);
        }
        lemma_first_sub_idx_none(hay.drop_first(), needle);
    }
}

/// A found index lies in range and marks a real occurrence.
pub proof fn lemma_first_sub_idx_bounds(hay: Seq<char>, needle: Seq<char>)
    ensures
        first_sub_idx(hay, needle) >= -1,
        first_sub_idx(hay, needle) >= 0 ==> first_sub_idx(hay, needle) + needle.len() <= hay.len()
            && hay.subrange(
            first_sub_idx(hay, needle),
            first_sub_idx(hay, needle) + needle.len(),
        ) == needle,
    decreases hay.len(),
{
    if needle.len() == 0 {
        assert(hay.subrange(0, 0 + needle.len() as int) =~= needle);
    } else if hay.len() < needle.len() {
    } else if hay.subrange(0, needle.len() as int) == needle {
        assert(hay.subrange(0, 0 + needle.len() as int) == needle);
    } else {
        lemma_first_sub_idx_bounds(hay.drop_first(), needle);
        let r = first_sub_idx(hay.drop_first(), needle);
        if r >= 0 {
            assert(hay.drop_first().subrange(r, r + needle.len()) =~= hay.subrange(
                r + 1,
                r + 1 + needle.len(),
            ));
        }
    }
}

/// Index of the first occurrence of `needle` as a run inside `hay`, if
/// any. An empty needle is found at index zero.
pub fn find_sub(hay: &str, needle: &str) -> (r: Option<usize>)
    ensures
        match r {
            Some(i) => first_sub_idx(hay@, needle@) == i,
            None => first_sub_idx(hay@, needle@) == -1,
        },
{
    let hlen = hay.unicode_len();
    let nlen = needle.unicode_len();
    if nlen == 0 {
        return Some(0);
    }
    if nlen > hlen {
        proof {
            assert forall|k: int|
                0 <= k <= hay@.len() - needle@.len() implies #[trigger] hay@.subrange(
                k,
                k + needle@.len(),
            ) != needle@ by {}
            lemma_first_sub_idx_none(hay@, needle@);
        }
        return None;
    }
    let mut i: usize = 0;
    while i <= hlen - nlen
        invariant
            hlen == hay@.len(),
            nlen == needle@.len(),
            1 <= nlen <= hlen,
            0 <= i <= hlen - nlen + 1,
            forall|k: int|
                0 <= k < i ==> #[trigger] hay@.subrange(k, k + needle@.len()) != needle@,
        decreases hlen - nlen - i + 1,
    {
        if match_at(hay, needle, i) {
            proof {
                lemma_first_sub_idx_is(hay@, needle@, i as int);
            }
            return Some(i);
        }
        i += 1;
    }
    proof {
        lemma_first_sub_idx_none(hay@, needle@);
    }
    None
}

/// The pieces of `s` between occurrences of `sep`. Always non-empty;
/// a string without `sep` is one piece.
pub open spec fn split_on<T>(s: Seq<T>, sep: T) -> Seq<Seq<T>>
    decreases s.len(),
{
    if s.len() == 0 {
        seq![s]
    } else if s[0] == sep {
        seq![Seq::<T>::empty()] + split_on(s.drop_first(), sep)
    } else {
        let rest = split_on(s.drop_first(), sep);
        seq![seq![s[0]] + rest[0]] + rest.drop_first()
    }
}

pub proof fn lemma_split_nonempty<T>(s: Seq<T>, sep: T)
    ensures
        split_on(s, sep).len() >= 1,
    decreases s.len(),
{
    if s.len() > 0 {
        lemma_split_nonempty(s.drop_first(), sep);
    }
}

/// A string free of the separator is a single piece.
pub proof fn lemma_split_no_sep<T>(s: Seq<T>, sep: T)
    requires
        forall|k: int| 0 <= k < s.len() ==> s[k] != sep,
    ensures
        split_on(s, sep) =~~= seq![s],
    decreases s.len(),
{
    if s.len() > 0 {
        assert(forall|k: int|
            0 <= k < s.drop_first().len() ==> s.drop_first()[k] != sep);
        lemma_split_no_sep(s.drop_first(), sep);
        assert(seq![s[0]] + s.drop_first() =~= s);
    }
}

/// Splitting at the first separator peels off the first piece.
pub proof fn lemma_split_at_first<T>(s: Seq<T>, sep: T, i: int)
    requires
        0 <= i < s.len(),
        s[i] == sep,
        forall|k: int| 0 <= k < i ==> s[k] != sep,
    ensures
        split_on(s, sep) =~~= seq![s.subrange(0, i)] + split_on(
            s.subrange(i + 1, s.len() as int),
            sep,
        ),
    decreases s.len(),
{
    if i == 0 {
        assert(s.subrange(0, 0) =~= Seq::<T>::empty());
        assert(s.subrange(1, s.len() as int) =~= s.drop_first());
    } else {
        assert(s.drop_first()[i - 1] == sep);
        assert(forall|k: int| 0 <= k < i - 1 ==> s.drop_first()[k] != sep);
        lemma_split_at_first(s.drop_first(), sep, i - 1);
        lemma_split_nonempty(s.drop_first().subrange(i, s.len() - 1), sep);
        assert(s.drop_first().subrange(0, i - 1) =~= s.subrange(1, i));
        assert(s.drop_first().subrange(i, s.len() - 1) =~= s.subrange(i + 1, s.len() as int));
        assert(seq![s[0]] + s.subrange(1, i) =~= s.subrange(0, i));
        lemma_split_nonempty(s.subrange(i + 1, s.len() as int), sep);
    }
}

/// The pieces of `s` between occurrences of `sep`, as owned strings.
pub fn split_string(s: &str, sep: char) -> (r: Vec<String>)
    ensures
        r.deep_view() =~~= split_on(s@, sep),
        r.len() >= 1,
    decreases s@.len(),
{
    proof {
        lemma_split_nonempty(s@, sep);
    }
    match find_char(s, sep) {
        None => {
            proof {
                lemma_split_no_sep(s@, sep);
            }
            let mut r: Vec<String> = Vec::new();
            r.push(s.to_owned());
            r
        },
        Some(i) => {
            proof {
                lemma_split_at_first(s@, sep, i as int);
            }
            let head = substring(s, 0, i);
            let len = s.unicode_len();
            let tail = substring(s, i + 1, len);
            let rest = split_string(tail.as_str(), sep);
            let mut r: Vec<String> = Vec::new();
            r.push(head);
            let mut k: usize = 0;
            while k < rest.len()
                invariant
                    0 <= k <= rest.len(),
                    r.len() == k + 1,
                    r.deep_view() =~~= seq![s@.subrange(0, i as int)] + rest.deep_view().subrange(
                        0,
                        k as int,
                    ),
                decreases rest.len() - k,
            {
                let piece = substring(rest[k].as_str(), 0, rest[k].as_str().unicode_len());
                proof {
                    let p = rest[k as int]@;
                    assert(p.subrange(0, p.len() as int) =~= p);
                }
                let ghost prev = r.deep_view();
                r.push(piece);
                proof {
                    assert(r.deep_view() =~= prev.push(rest[k as int]@));
                    assert(rest.deep_view().subrange(0, k + 1) =~= rest.deep_view().subrange(
                        0,
                        k as int,
                    ).push(rest[k as int]@));
                }
                k += 1;
            }
            proof {
                assert(rest.deep_view().subrange(0, rest.len() as int) =~= rest.deep_view());
            }
            r
        },
    }
}

} // verus!
