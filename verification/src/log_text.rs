//! Reassembly of raw log bytes into records. A physical line starts a
//! new record only when it begins with a well-formed timestamp header;
//! any other line is folded, newline-joined, into the record before it.

use vstd::prelude::*;

use crate::strutil::{first_idx, lemma_first_idx_is, lemma_first_idx_none, split_on};

verus! {

/// Byte values the parser tests for, named for readability.
pub const B_NL: u8 = 10;
pub const B_TAB: u8 = 9;
pub const B_CR: u8 = 13;
pub const B_SPACE: u8 = 32;
pub const B_DOT: u8 = 46;
pub const B_COLON: u8 = 58;
pub const B_DASH: u8 = 45;
pub const B_ZERO: u8 = 48;
pub const B_NINE: u8 = 57;

/// A single reassembled record of the watched log.
#[derive(Debug, Clone, PartialEq, Eq)]
pub struct VrcLogEntry {
    /// The header timestamp, `YYYY.MM.DD HH:MM:SS`.
    pub timestamp: String,
    /// The level field of the header, trimmed.
    pub level: String,
    /// The message, with any folded continuation lines joined by `\n`.
    pub message: String,
}

/// What `String::from_utf8_lossy` returns: a function of the bytes alone.
pub uninterp spec fn lossy_utf8(b: Seq<u8>) -> Seq<char>;

/// Relies on String::from_utf8_lossy: the result depends on the bytes
/// alone, and valid UTF-8 input decodes exactly.
#[verifier::external_body]
pub(crate) fn bytes_to_string_lossy(b: &[u8]) -> (r: String)
    ensures
        r@ == lossy_utf8(b@),
        vstd::utf8::valid_utf8(b@) ==> r@ == vstd::utf8::decode_utf8(b@),
{
    String::from_utf8_lossy(b).into_owned()
}

/// An ASCII decimal digit.
pub open spec fn is_digit(b: u8) -> bool {
    B_ZERO <= b && b <= B_NINE
}

/// The number named by the two digits at `i` and `i + 1`.
pub open spec fn two_digits(b: Seq<u8>, i: int) -> int {
    (b[i] - B_ZERO) * 10 + (b[i + 1] - B_ZERO)
}

/// Whether a line begins with a well-formed record header: a full
/// timestamp with in-range calendar fields, and the first dash of the
/// line standing in the level area, after a space.
pub open spec fn timestamped_line(b: Seq<u8>) -> bool {
    &&& b.len() >= 34
    &&& b[4] == B_DOT && b[7] == B_DOT && b[10] == B_SPACE && b[13] == B_COLON && b[16] == B_COLON && b[19]
        == B_SPACE
    &&& is_digit(b[0]) && is_digit(b[1]) && is_digit(b[2]) && is_digit(b[3])
    &&& is_digit(b[5]) && is_digit(b[6]) && is_digit(b[8]) && is_digit(b[9])
    &&& is_digit(b[11]) && is_digit(b[12]) && is_digit(b[14]) && is_digit(b[15])
    &&& is_digit(b[17]) && is_digit(b[18])
    &&& 1 <= two_digits(b, 5) <= 12
    &&& 1 <= two_digits(b, 8) <= 31
    &&& two_digits(b, 11) <= 23
    &&& two_digits(b, 14) <= 59
    &&& two_digits(b, 17) <= 59
    &&& {
        let p = first_idx(b, B_DASH);
        30 <= p <= 40 && b[p - 1] == B_SPACE
    }
}

fn digit(b: u8) -> (r: bool)
    ensures
        r == is_digit(b),
{
    B_ZERO <= b && b <= B_NINE
}

/// Whether `b` begins with a well-formed record header.
pub fn is_timestamped_line(b: &[u8]) -> (r: bool)
    ensures
        r == timestamped_line(b@),
{
    if b.len() < 34 {
        return false;
    }
    let sep_ok = b[4] == B_DOT && b[7] == B_DOT && b[10] == B_SPACE && b[13] == B_COLON && b[16] == B_COLON
        && b[19] == B_SPACE;
    if !sep_ok {
        return false;
    }
    let digits_ok = digit(b[0]) && digit(b[1]) && digit(b[2]) && digit(b[3]) && digit(b[5])
        && digit(b[6]) && digit(b[8]) && digit(b[9]) && digit(b[11]) && digit(b[12]) && digit(
        b[14],
    ) && digit(b[15]) && digit(b[17]) && digit(b[18]);
    if !digits_ok {
        return false;
    }
    let month = (b[5] - B_ZERO) as u32 * 10 + (b[6] - B_ZERO) as u32;
    let day = (b[8] - B_ZERO) as u32 * 10 + (b[9] - B_ZERO) as u32;
    let hour = (b[11] - B_ZERO) as u32 * 10 + (b[12] - B_ZERO) as u32;
    let minute = (b[14] - B_ZERO) as u32 * 10 + (b[15] - B_ZERO) as u32;
    let second = (b[17] - B_ZERO) as u32 * 10 + (b[18] - B_ZERO) as u32;
    let ranges_ok = 1 <= month && month <= 12 && 1 <= day && day <= 31 && hour <= 23 && minute
        <= 59 && second <= 59;
    if !ranges_ok {
        return false;
    }
    match find_byte(b, B_DASH) {
        None => {
            proof {
                lemma_first_idx_none(b@, B_DASH);
            }
            false
        },
        Some(pos) => {
            proof {
                lemma_first_idx_is(b@, B_DASH, pos as int);
            }
            30 <= pos && pos <= 40 && b[pos - 1] == B_SPACE
        },
    }
}

/// Index of the first occurrence of `c` in `b`, if any.
pub fn find_byte(b: &[u8], c: u8) -> (r: Option<usize>)
    ensures
        match r {
            Some(i) => i < b@.len() && b@[i as int] == c && forall|k: int|
                0 <= k < i ==> b@[k] != c,
            None => forall|k: int| 0 <= k < b@.len() ==> b@[k] != c,
        },
{
    let len = b.len();
    let mut i: usize = 0;
    while i < len
        invariant
            len == b@.len(),
            0 <= i <= len,
            forall|k: int| 0 <= k < i ==> b@[k] != c,
        decreases len - i,
    {
        if b[i] == c {
            return Some(i);
        }
        i += 1;
    }
    None
}

/// The physical lines of a chunk, split at `\n`.
pub open spec fn lines_of(chunk: Seq<u8>) -> Seq<Seq<u8>> {
    split_on(chunk, B_NL)
}

/// The continuation bytes folded into the record that starts just before
/// piece `j`: every following line up to the next header, each joined
/// with a `\n`.
pub open spec fn absorbed(pieces: Seq<Seq<u8>>, j: int) -> Seq<u8>
    decreases pieces.len() - j,
{
    if j < 0 || j >= pieces.len() || timestamped_line(pieces[j]) {
        Seq::<u8>::empty()
    } else {
        seq![B_NL] + pieces[j] + absorbed(pieces, j + 1)
    }
}

/// The reassembled records found in `pieces` from index `i` on: each
/// header line together with its folded continuation lines.
pub open spec fn records_from(pieces: Seq<Seq<u8>>, i: int) -> Seq<Seq<u8>>
    decreases pieces.len() - i,
{
    if i < 0 || i >= pieces.len() {
        Seq::<Seq<u8>>::empty()
    } else if timestamped_line(pieces[i]) {
        seq![pieces[i] + absorbed(pieces, i + 1)] + records_from(pieces, i + 1)
    } else {
        records_from(pieces, i + 1)
    }
}

/// The reassembled records of a raw chunk.
pub open spec fn records_of(chunk: Seq<u8>) -> Seq<Seq<u8>> {
    records_from(lines_of(chunk), 0)
}

/// A byte this library treats as blank when trimming.
pub open spec fn is_blank_byte(b: u8) -> bool {
    b == B_SPACE || b == B_TAB || b == B_CR || b == B_NL
}

/// `s` with leading and trailing blank bytes removed.
pub open spec fn trimmed_bytes(s: Seq<u8>) -> Seq<u8>
    decreases s.len(),
{
    if s.len() == 0 {
        s
    } else if is_blank_byte(s[0]) {
        trimmed_bytes(s.subrange(1, s.len() as int))
    } else if is_blank_byte(s[s.len() - 1]) {
        trimmed_bytes(s.subrange(0, s.len() - 1))
    } else {
        s
    }
}

fn is_blank_byte_exec(b: u8) -> (r: bool)
    ensures
        r == is_blank_byte(b),
{
    b == B_SPACE || b == B_TAB || b == B_CR || b == B_NL
}

/// The bytes of `s` between `from` and `to`, with surrounding blanks
/// removed.
fn trim_range(s: &[u8], from: usize, to: usize) -> (r: Vec<u8>)
    requires
        from <= to <= s@.len(),
    ensures
        r@ == trimmed_bytes(s@.subrange(from as int, to as int)),
{
    let mut lo: usize = from;
    let mut hi: usize = to;
    while lo < hi && is_blank_byte_exec(s[lo])
        invariant
            from <= lo <= hi <= to <= s@.len(),
            trimmed_bytes(s@.subrange(from as int, to as int)) == trimmed_bytes(
                s@.subrange(lo as int, hi as int),
            ),
            hi == to,
        decreases hi - lo,
    {
        proof {
            assert(s@.subrange(lo as int, hi as int).subrange(
                1,
                s@.subrange(lo as int, hi as int).len() as int,
            ) =~= s@.subrange(lo + 1, hi as int));
        }
        lo += 1;
    }
    while lo < hi && is_blank_byte_exec(s[hi - 1])
        invariant
            from <= lo <= hi <= to <= s@.len(),
            trimmed_bytes(s@.subrange(from as int, to as int)) == trimmed_bytes(
                s@.subrange(lo as int, hi as int),
            ),
            lo < hi ==> !is_blank_byte(s@[lo as int]),
        decreases hi,
    {
        proof {
            assert(s@.subrange(lo as int, hi as int).subrange(
                0,
                s@.subrange(lo as int, hi as int).len() - 1,
            ) =~= s@.subrange(lo as int, hi - 1));
        }
        hi -= 1;
    }
    let mut r: Vec<u8> = Vec::new();
    let mut k: usize = lo;
    while k < hi
        invariant
            lo <= k <= hi <= s@.len(),
            r@ =~= s@.subrange(lo as int, k as int),
        decreases hi - k,
    {
        r.push(s[k]);
        k += 1;
    }
    proof {
        if lo < hi {
            assert(!is_blank_byte(s@.subrange(lo as int, hi as int)[0]));
            assert(!is_blank_byte(s@.subrange(lo as int, hi as int)[
                s@.subrange(lo as int, hi as int).len() - 1
            ]));
        }
        assert(r@ =~= s@.subrange(lo as int, hi as int));
    }
    r
}

/// The three header fields of a reassembled record: the timestamp bytes,
/// the trimmed level bytes, and the trimmed message bytes.
pub open spec fn record_fields(rec: Seq<u8>) -> (Seq<u8>, Seq<u8>, Seq<u8>) {
    (
        rec.subrange(0, 19),
        trimmed_bytes(rec.subrange(20, 30)),
        trimmed_bytes(rec.subrange(34, rec.len() as int)),
    )
}

/// What a record carries once decoded into text.
pub open spec fn entry_matches_record(e: VrcLogEntry, rec: Seq<u8>) -> bool {
    &&& e.timestamp@ == lossy_utf8(record_fields(rec).0)
    &&& e.level@ == lossy_utf8(record_fields(rec).1)
    &&& e.message@ == lossy_utf8(record_fields(rec).2)
}

/// Bytes of `s` from `from` to `to`, copied out unchanged.
fn copy_range(s: &[u8], from: usize, to: usize) -> (r: Vec<u8>)
    requires
        from <= to <= s@.len(),
    ensures
        r@ == s@.subrange(from as int, to as int),
{
    let mut r: Vec<u8> = Vec::new();
    let mut k: usize = from;
    while k < to
        invariant
            from <= k <= to <= s@.len(),
            r@ =~= s@.subrange(from as int, k as int),
        decreases to - k,
    {
        r.push(s[k]);
        k += 1;
    }
    proof {
        assert(r@ =~= s@.subrange(from as int, to as int));
    }
    r
}

fn entry_of_record(rec: &Vec<u8>) -> (e: VrcLogEntry)
    requires
        rec@.len() >= 34,
    ensures
        entry_matches_record(e, rec@),
{
    let ts = copy_range(rec.as_slice(), 0, 19);
    let level = trim_range(rec.as_slice(), 20, 30);
    let len = rec.len();
    let msg = trim_range(rec.as_slice(), 34, len);
    VrcLogEntry {
        timestamp: bytes_to_string_lossy(ts.as_slice()),
        level: bytes_to_string_lossy(level.as_slice()),
        message: bytes_to_string_lossy(msg.as_slice()),
    }
}

/// Reassemble a raw chunk of log bytes into records: a line with a
/// well-formed header starts a record; the lines after it, up to the
/// next header, are folded into its message, joined by `\n`; lines
/// before the first header are dropped.
pub fn parse_log_chunk(chunk: &[u8]) -> (r: Vec<VrcLogEntry>)
    ensures
        r.len() == records_of(chunk@).len(),
        forall|i: int|
            0 <= i < r.len() ==> entry_matches_record(r[i], #[trigger] records_of(chunk@)[i]),
{
    let pieces = split_bytes(chunk, B_NL);
    let ghost pv = pieces.deep_view();
    let mut out: Vec<VrcLogEntry> = Vec::new();
    let n = pieces.len();
    let mut i: usize = n;
    proof {
        assert(records_from(pv, n as int) =~= Seq::<Seq<u8>>::empty());
        assert(records_from(pv, n as int).reverse() =~= Seq::<Seq<u8>>::empty());
        assert(absorbed(pv, n as int) =~= Seq::<u8>::empty());
    }
    // Walk backwards so each header line can take its continuations from
    // the records already known to follow it.
    let mut recs: Vec<Vec<u8>> = Vec::new();
    let mut tail: Vec<u8> = Vec::new();
    // recs holds, reversed, the records of pieces[i..]; tail holds the
    // continuation bytes absorbed(pieces, i).
    while i > 0
        invariant
            n == pv.len(),
            pieces.deep_view() == pv,
            0 <= i <= n,
            tail@ == absorbed(pv, i as int),
            recs.deep_view() =~~= records_from(pv, i as int).reverse(),
        decreases i,
    {
        i -= 1;
        let piece = &pieces[i];
        proof {
            assert(pv[i as int] =~= piece@);
        }
        if is_timestamped_line(piece.as_slice()) {
            let mut rec: Vec<u8> = Vec::new();
            append_bytes(&mut rec, piece.as_slice());
            rec.append(&mut tail);
            proof {
                assert(rec@ =~= pv[i as int] + absorbed(pv, i + 1));
            }
            tail = Vec::new();
            let ghost prev = recs.deep_view();
            let ghost rv = rec@;
            recs.push(rec);
            proof {
                assert(recs.deep_view() =~~= prev.push(rv));
                assert(records_from(pv, i as int) =~= seq![pv[i as int] + absorbed(pv, i + 1)]
                    + records_from(pv, i + 1));
                assert(records_from(pv, i as int).reverse() =~~= records_from(
                    pv,
                    i + 1,
                ).reverse().push(pv[i as int] + absorbed(pv, i + 1)));
                assert(absorbed(pv, i as int) =~= Seq::<u8>::empty());
            }
        } else {
            let mut joined: Vec<u8> = Vec::new();
            joined.push(B_NL);
            append_bytes(&mut joined, piece.as_slice());
            joined.append(&mut tail);
            tail = joined;
            proof {
                assert(tail@ =~= seq![B_NL] + pv[i as int] + absorbed(pv, i + 1));
                assert(records_from(pv, i as int) == records_from(pv, i + 1));
            }
        }
    }
    // recs is reversed; emit entries from its back to the front.
    let total = recs.len();
    let ghost all = records_from(pv, 0);
    let mut k: usize = total;
    proof {
        assert(all.reverse().len() == all.len());
    }
    while k > 0
        invariant
            total == recs.len(),
            recs.deep_view() =~~= all.reverse(),
            all == records_from(pv, 0),
            total == all.len(),
            0 <= k <= total,
            out.len() == total - k,
            forall|j: int|
                0 <= j < out.len() ==> entry_matches_record(out[j], #[trigger] all[j]),
        decreases k,
    {
        k -= 1;
        let rec = &recs[k];
        proof {
            assert(recs.deep_view()[k as int] == recs@[k as int].deep_view());
            assert(recs@[k as int].deep_view() =~= recs@[k as int]@);
            assert(rec@ == all.reverse()[k as int]);
            assert(all.reverse()[k as int] == all[total - 1 - k]);
            lemma_records_long(pv, 0);
            assert(all == records_from(pv, 0));
            assert(0 <= total - 1 - k < records_from(pv, 0).len());
            assert(records_from(pv, 0)[total - 1 - k].len() >= 34);
        }
        let e = entry_of_record(rec);
        out.push(e);
        proof {
            assert(out@.len() == total - k);
            assert(total - 1 - k == out@.len() - 1);
            assert(entry_matches_record(out[out@.len() - 1], all[out@.len() - 1]));
        }
    }
    proof {
        assert(records_of(chunk@) == all);
    }
    out
}

/// Append the bytes of `src` to `dst`.
fn append_bytes(dst: &mut Vec<u8>, src: &[u8])
    ensures
        final(dst)@ == old(dst)@ + src@,
{
    let mut k: usize = 0;
    let len = src.len();
    while k < len
        invariant
            len == src@.len(),
            0 <= k <= len,
            dst@ =~= old(dst)@ + src@.subrange(0, k as int),
        decreases len - k,
    {
        dst.push(src[k]);
        k += 1;
    }
    proof {
        assert(dst@ =~= old(dst)@ + src@);
    }
}

/// Every reassembled record is at least as long as its header line.
proof fn lemma_records_long(pieces: Seq<Seq<u8>>, i: int)
    ensures
        forall|j: int|
            0 <= j < records_from(pieces, i).len() ==> (#[trigger] records_from(pieces, i)[j]).len()
                >= 34,
    decreases pieces.len() - i,
{
    if i < 0 || i >= pieces.len() {
    } else {
        lemma_records_long(pieces, i + 1);
        assert forall|j: int|
            0 <= j < records_from(pieces, i).len() implies (#[trigger] records_from(
            pieces,
            i,
        )[j]).len() >= 34 by {
            if timestamped_line(pieces[i]) {
                if j > 0 {
                    assert(records_from(pieces, i)[j] == records_from(pieces, i + 1)[j - 1]);
                }
            } else {
                assert(records_from(pieces, i)[j] == records_from(pieces, i + 1)[j]);
            }
        }
    }
}

/// The pieces of `chunk` between occurrences of `sep`, as owned vectors.
fn split_bytes(chunk: &[u8], sep: u8) -> (r: Vec<Vec<u8>>)
    ensures
        r.deep_view() =~~= split_on(chunk@, sep),
        r.len() >= 1,
{
    let mut r: Vec<Vec<u8>> = Vec::new();
    let mut cur: Vec<u8> = Vec::new();
    let len = chunk.len();
    let mut i: usize = 0;
    proof {
        assert(cur@ + chunk@.subrange(0, len as int) =~= chunk@);
        assert(r.deep_view() + split_on(chunk@, sep) =~= split_on(chunk@, sep));
    }
    while i < len
        invariant
            len == chunk@.len(),
            0 <= i <= len,
            split_on(chunk@, sep) =~~= r.deep_view() + split_on(
                cur@ + chunk@.subrange(i as int, len as int),
                sep,
            ),
            forall|k: int| 0 <= k < cur@.len() ==> cur@[k] != sep,
        decreases len - i,
    {
        let b = chunk[i];
        if b == sep {
            proof {
                let s = cur@ + chunk@.subrange(i as int, len as int);
                crate::strutil::lemma_split_at_first(s, sep, cur@.len() as int);
                assert(s.subrange(0, cur@.len() as int) =~= cur@);
                assert(s.subrange(cur@.len() as int + 1, s.len() as int) =~= chunk@.subrange(
                    i + 1,
                    len as int,
                ));
            }
            let ghost prev = r.deep_view();
            let ghost cv = cur@;
            r.push(cur);
            proof {
                assert(r.deep_view() =~~= prev.push(cv));
            }
            cur = Vec::new();
            proof {
                assert(cur@ + chunk@.subrange(i + 1, len as int) =~= chunk@.subrange(
                    i + 1,
                    len as int,
                ));
            }
        } else {
            let ghost oldcur = cur@;
            cur.push(b);
            proof {
                assert(cur@ + chunk@.subrange(i + 1, len as int) =~= oldcur + chunk@.subrange(
                    i as int,
                    len as int,
                ));
            }
        }
        i += 1;
    }
    proof {
        assert(cur@ + chunk@.subrange(len as int, len as int) =~= cur@);
        crate::strutil::lemma_split_no_sep(cur@, sep);
    }
    let ghost prev = r.deep_view();
    let ghost cv = cur@;
    r.push(cur);
    proof {
        assert(r.deep_view() =~~= prev.push(cv));
        assert(prev.push(cv) =~~= prev + seq![cv]);
    }
    r
}

} // verus!
