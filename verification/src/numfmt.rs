//! Decimal formatting of integers, verified against a character-level
//! specification, for use in rendered messages.

use vstd::prelude::*;

verus! {

/// The digit character for a value between 0 and 9.
pub open spec fn dec_digit(d: int) -> char {
    if d == 0 {
        '0'
    } else if d == 1 {
        '1'
    } else if d == 2 {
        '2'
    } else if d == 3 {
        '3'
    } else if d == 4 {
        '4'
    } else if d == 5 {
        '5'
    } else if d == 6 {
        '6'
    } else if d == 7 {
        '7'
    } else if d == 8 {
        '8'
    } else {
        '9'
    }
}

/// The decimal digits of a non-negative number, most significant first.
pub open spec fn dec_nat(n: int) -> Seq<char>
    decreases n,
{
    if n < 10 {
        seq![dec_digit(n)]
    } else {
        dec_nat(n / 10) + seq![dec_digit(n % 10)]
    }
}

/// The decimal form of an integer, with a leading minus when negative.
pub open spec fn dec_int(n: int) -> Seq<char> {
    if n < 0 {
        seq!['-'] + dec_nat(-n)
    } else {
        dec_nat(n)
    }
}

/// The decimal form of a non-negative number.
pub fn u64_to_string(n: u64) -> (r: String)
    ensures
        r@ == dec_nat(n as int),
{
    let mut stack: Vec<u8> = Vec::new();
    let mut m: u64 = n;
    let ghost mut tail: Seq<char> = Seq::empty();
    proof {
        assert(dec_nat(n as int) =~= dec_nat(m as int) + tail);
    }
    while m >= 10
        invariant
            dec_nat(n as int) == dec_nat(m as int) + tail,
            stack@.len() == tail.len(),
            forall|k: int|
                0 <= k < stack@.len() ==> 0 <= #[trigger] stack@[k] < 10 && tail[tail.len() - 1
                    - k] == dec_digit(stack@[k] as int),
        decreases m,
    {
        let d = (m % 10) as u8;
        proof {
            assert(dec_nat(m as int) == dec_nat(m as int / 10) + seq![dec_digit(m as int % 10)]);
            assert(dec_nat(m as int / 10) + (seq![dec_digit(d as int)] + tail) =~= dec_nat(
                m as int,
            ) + tail);
        }
        stack.push(d);
        proof {
            tail = seq![dec_digit(d as int)] + tail;
        }
        m = m / 10;
    }
    let d = m as u8;
    proof {
        assert(dec_nat(m as int) == seq![dec_digit(m as int)]);
        assert(seq![dec_digit(d as int)] + tail =~= dec_nat(n as int));
    }
    stack.push(d);
    let ghost total = seq![dec_digit(d as int)] + tail;
    // The digits sit in `stack` least significant first; emit them from
    // the top. Each digit becomes text by slicing a digit-table literal.
    let digits = "0123456789";
    proof {
        reveal_strlit("0123456789");
        assert(forall|dd: int| 0 <= dd < 10 ==> digits@[dd] == dec_digit(dd));
        assert forall|j: int|
            0 <= j < stack@.len() implies 0 <= #[trigger] stack@[j] < 10 && total[total.len() - 1
            - j] == dec_digit(stack@[j] as int) by {
            if j < stack@.len() - 1 {
                assert(total[total.len() - 1 - j] == tail[tail.len() - 1 - j]);
            } else {
                assert(total[total.len() - 1 - j] == dec_digit(d as int));
            }
        }
    }
    let mut r = String::new();
    let mut k: usize = stack.len();
    while k > 0
        invariant
            k <= stack@.len(),
            stack@.len() == total.len(),
            total == dec_nat(n as int),
            digits@.len() == 10,
            forall|dd: int| 0 <= dd < 10 ==> digits@[dd] == dec_digit(dd),
            forall|j: int|
                0 <= j < stack@.len() ==> 0 <= #[trigger] stack@[j] < 10 && total[total.len() - 1
                    - j] == dec_digit(stack@[j] as int),
            r@ =~= total.subrange(0, total.len() - k),
        decreases k,
    {
        k -= 1;
        let dv = stack[k];
        let piece = digits.substring_char(dv as usize, dv as usize + 1);
        proof {
            assert(piece@ =~= seq![dec_digit(dv as int)]);
            assert(total[total.len() - 1 - k] == dec_digit(dv as int));
        }
        r.append(piece);
        proof {
            assert(r@ =~= total.subrange(0, total.len() - k as int));
        }
    }
    proof {
        assert(r@ =~= total.subrange(0, total.len() as int));
        assert(total.subrange(0, total.len() as int) =~= total);
    }
    r
}

/// The decimal form of an integer.
pub fn i64_to_string(n: i64) -> (r: String)
    ensures
        r@ == dec_int(n as int),
{
    if n >= 0 {
        u64_to_string(n as u64)
    } else {
        // The magnitude is computed through i128 so that the smallest
        // i64 value does not overflow on negation.
        let wide: i128 = -(n as i128);
        let mag: u64 = wide as u64;
        proof {
            assert(mag as int == -(n as int));
        }
        let mut r: String = "-".to_owned();
        let digits = u64_to_string(mag);
        r.append(digits.as_str());
        proof {
            reveal_strlit("-");
            assert("-"@ =~= seq!['-']);
            assert(r@ =~= dec_int(n as int));
        }
        r
    }
}

} // verus!
