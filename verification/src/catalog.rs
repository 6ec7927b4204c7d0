//! Edits to the advisory catalog. Each operation either applies fully
//! or reports a typed failure and leaves the catalog unchanged; the
//! caller persists the whole catalog as one unit afterwards.

use vstd::prelude::*;

use crate::advisory::Advisory;
use crate::engine::catalog_has_id;
use crate::strutil::{starts_with_seq, str_eq};

verus! {

/// Index of the first advisory with `id`, or -1.
pub open spec fn first_adv_with_id(cat: Seq<Advisory>, id: Seq<char>) -> int
    decreases cat.len(),
{
    if cat.len() == 0 {
        -1
    } else if cat[0].id@ == id {
        0
    } else {
        let r = first_adv_with_id(cat.drop_first(), id);
        if r == -1 {
            -1
        } else {
            r + 1
        }
    }
}

proof fn lemma_first_adv_with_id_is(cat: Seq<Advisory>, id: Seq<char>, i: int)
    requires
        0 <= i < cat.len(),
        cat[i].id@ == id,
        forall|k: int| 0 <= k < i ==> (#[trigger] cat[k]).id@ != id,
    ensures
        first_adv_with_id(cat, id) == i,
    decreases cat.len(),
{
    if i > 0 {
        assert(forall|k: int| 0 <= k < i - 1 ==> (#[trigger] cat.drop_first()[k]).id@ != id);
        lemma_first_adv_with_id_is(cat.drop_first(), id, i - 1);
    }
}

proof fn lemma_first_adv_with_id_none(cat: Seq<Advisory>, id: Seq<char>)
    requires
        forall|k: int| 0 <= k < cat.len() ==> (#[trigger] cat[k]).id@ != id,
    ensures
        first_adv_with_id(cat, id) == -1,
    decreases cat.len(),
{
    if cat.len() > 0 {
        assert(forall|k: int|
            0 <= k < cat.drop_first().len() ==> (#[trigger] cat.drop_first()[k]).id@ != id);
        lemma_first_adv_with_id_none(cat.drop_first(), id);
    }
}

fn find_position(list: &Vec<Advisory>, id: &str) -> (r: Option<usize>)
    ensures
        match r {
            Some(i) => first_adv_with_id(list@, id@) == i && i < list@.len() && list@[
                i as int
            ].id@ == id@,
            None => first_adv_with_id(list@, id@) == -1 && forall|k: int|
                0 <= k < list@.len() ==> (#[trigger] list@[k]).id@ != id@,
        },
{
    let mut i: usize = 0;
    while i < list.len()
        invariant
            0 <= i <= list@.len(),
            forall|k: int| 0 <= k < i ==> (#[trigger] list@[k]).id@ != id@,
        decreases list@.len() - i,
    {
        if str_eq(list[i].id.as_str(), id) {
            proof {
                lemma_first_adv_with_id_is(list@, id@, i as int);
            }
            return Some(i);
        }
        i += 1;
    }
    proof {
        lemma_first_adv_with_id_none(list@, id@);
    }
    None
}

/// Add a new advisory to the catalog. An advisory whose id is already
/// present is refused, and the catalog is left unchanged.
pub fn add_advisory(list: &mut Vec<Advisory>, advisory: Advisory) -> (r: Result<(), String>)
    ensures
        match r {
            Ok(_) => !catalog_has_id(old(list)@, advisory.id@) && final(list)@ == old(
                list,
            )@.push(advisory),
            Err(e) => catalog_has_id(old(list)@, advisory.id@) && *final(list) == *old(list)
                && e@ == "Advisory with this ID already exists"@,
        },
{
    match find_position(list, advisory.id.as_str()) {
        Some(i) => {
            proof {
                assert(list@[i as int].id@ == advisory.id@);
            }
            Err("Advisory with this ID already exists".to_owned())
        },
        None => {
            list.push(advisory);
            Ok(())
        },
    }
}

/// Replace the advisory with the same id. A missing id is refused, and
/// the catalog is left unchanged.
pub fn update_advisory(list: &mut Vec<Advisory>, advisory: Advisory) -> (r: Result<(), String>)
    ensures
        match r {
            Ok(_) => ({
                let i = first_adv_with_id(old(list)@, advisory.id@);
                &&& i >= 0
                &&& final(list)@ == old(list)@.update(i, advisory)
            }),
            Err(e) => first_adv_with_id(old(list)@, advisory.id@) == -1 && *final(list) == *old(
                list,
            ) && e@ == "Advisory with this ID does not exist"@,
        },
{
    match find_position(list, advisory.id.as_str()) {
        Some(i) => {
            let ghost before = list@;
            list.remove(i);
            list.insert(i, advisory);
            proof {
                assert(list@ =~= before.update(i as int, advisory));
            }
            Ok(())
        },
        None => Err("Advisory with this ID does not exist".to_owned()),
    }
}

/// Remove the advisory with `advisory_id`. A missing id is refused, and
/// the catalog is left unchanged.
pub fn remove_advisory(list: &mut Vec<Advisory>, advisory_id: &str) -> (r: Result<(), String>)
    ensures
        match r {
            Ok(_) => ({
                let i = first_adv_with_id(old(list)@, advisory_id@);
                &&& i >= 0
                &&& final(list)@ == old(list)@.remove(i)
            }),
            Err(e) => first_adv_with_id(old(list)@, advisory_id@) == -1 && *final(list) == *old(
                list,
            ) && e@ == "Advisory with this ID does not exist"@,
        },
{
    match find_position(list, advisory_id) {
        Some(i) => {
            list.remove(i);
            Ok(())
        },
        None => Err("Advisory with this ID does not exist".to_owned()),
    }
}

/// The advisory with `advisory_id`, if the catalog holds one.
pub fn get_advisory<'a>(list: &'a Vec<Advisory>, advisory_id: &str) -> (r: Option<&'a Advisory>)
    ensures
        match r {
            Some(a) => ({
                let i = first_adv_with_id(list@, advisory_id@);
                i >= 0 && *a == list@[i]
            }),
            None => first_adv_with_id(list@, advisory_id@) == -1,
        },
{
    match find_position(list, advisory_id) {
        Some(i) => Some(&list[i]),
        None => None,
    }
}

/// Relies on nid's Nanoid::new and Nanoid::as_str: a fresh random
/// identifier of exactly 12 characters from the Base58 alphabet, all
/// ASCII.
#[verifier::external_body]
fn fresh_nanoid12() -> (r: String)
    ensures
        r@.len() == 12,
{
    let id: nid::Nanoid<12, nid::alphabet::Base58Alphabet> = nid::Nanoid::new();
    id.as_str().to_owned()
}

/// A fresh advisory identifier: the catalog prefix followed by a random
/// 12-character tag.
pub fn generate_advisory_id() -> (r: String)
    ensures
        r@.len() == 23,
        starts_with_seq(r@, "vrcmrd_adv_"@),
{
    let mut r: String = "vrcmrd_adv_".to_owned();
    proof {
        reveal_strlit("vrcmrd_adv_");
    }
    let tag = fresh_nanoid12();
    r.append(tag.as_str());
    proof {
        assert(r@.subrange(0, "vrcmrd_adv_"@.len() as int) =~= "vrcmrd_adv_"@);
    }
    r
}

} // verus!
