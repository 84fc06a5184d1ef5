//! Amounts by name.

use crate::num::constants::ZERO;
use crate::num::Double;
use crate::text::same;
use vstd::prelude::*;

verus! {

/// Amounts by name.
pub open spec fn entries(list: Seq<(String, Double)>) -> Seq<(Seq<char>, Double)> {
    Seq::new(list.len(), |i: int| (list[i].0@, list[i].1))
}

/// The place of a name.
pub open spec fn entry_at(list: Seq<(Seq<char>, Double)>, name: Seq<char>) -> Option<int>
    decreases list.len(),
{
    if list.len() == 0 {
        None
    } else if list[0].0 == name {
        Some(0)
    } else {
        match entry_at(list.drop_first(), name) {
            Some(i) => Some(i + 1),
            None => None,
        }
    }
}

pub fn find_entry(list: &Vec<(String, Double)>, name: &str) -> (r: Option<usize>)
    ensures
        match r {
            Some(i) => i < list@.len() && entry_at(entries(list@), name@) == Some(i as int),
            None => entry_at(entries(list@), name@) is None,
        },
{
    let ghost all = entries(list@);
    let mut i: usize = 0;
    proof {
        assert(all.skip(0) =~= all);
    }
    while i < list.len()
        invariant
            i <= list@.len(),
            all == entries(list@),
            entry_at(all, name@) == match entry_at(all.skip(i as int), name@) {
                Some(j) => Some(j + i),
                None => None,
            },
        decreases list@.len() - i,
    {
        proof {
            assert(all.skip(i as int)[0] == all[i as int]);
            assert(all.skip(i as int).drop_first() =~= all.skip(i as int + 1));
        }
        if same(list[i].0.as_str(), name) {
            return Some(i);
        }
        i = i + 1;
    }
    None
}

/// The amount of a name; zero where there is none.
pub open spec fn entry_or_zero(list: Seq<(Seq<char>, Double)>, name: Seq<char>) -> Double {
    match entry_at(list, name) {
        Some(i) => list[i].1,
        None => Double { bits: ZERO },
    }
}

pub fn amount_of(list: &Vec<(String, Double)>, name: &str) -> (r: Double)
    ensures
        r == entry_or_zero(entries(list@), name@),
{
    match find_entry(list, name) {
        Some(i) => list[i].1,
        None => Double { bits: ZERO },
    }
}

} // verus!
