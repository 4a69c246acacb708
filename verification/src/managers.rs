//! Detected package managers: the fixed candidate names, and the filter that
//! keeps the candidates found present, in their given order. Probing the
//! system for each candidate is the caller's job; the presence flags come in
//! as plain values.

use vstd::prelude::*;

use crate::order::names_of;

verus! {

/// The fixed candidate package-manager names, in probe order.
pub open spec fn manager_candidate_names() -> Seq<Seq<char>> {
    seq!["apt"@, "pacman"@, "yum"@, "dnf"@, "zypper"@, "snap"@]
}

/// The candidate package managers as owned strings.
pub fn manager_candidates() -> (r: Vec<String>)
    ensures
        names_of(r@) == manager_candidate_names(),
{
    let mut v: Vec<String> = Vec::new();
    v.push("apt".to_owned());
    v.push("pacman".to_owned());
    v.push("yum".to_owned());
    v.push("dnf".to_owned());
    v.push("zypper".to_owned());
    v.push("snap".to_owned());
    proof {
        assert(names_of(v@) =~= manager_candidate_names());
    }
    v
}

/// The names whose presence flag is set, in their given order.
pub open spec fn filter_present(names: Seq<Seq<char>>, flags: Seq<bool>) -> Seq<Seq<char>>
    recommends
        names.len() == flags.len(),
    decreases names.len(),
{
    if names.len() == 0 {
        Seq::<Seq<char>>::empty()
    } else {
        let rest = filter_present(names.drop_last(), flags.drop_last());
        if flags[names.len() - 1] {
            rest.push(names.last())
        } else {
            rest
        }
    }
}

/// The subset of the candidates whose executable was found present, in the
/// candidates' order: candidate `i` is kept exactly when `present[i]` is set.
pub fn check_package_managers(candidates: &Vec<String>, present: &Vec<bool>) -> (r: Vec<String>)
    requires
        candidates@.len() == present@.len(),
    ensures
        names_of(r@) == filter_present(names_of(candidates@), present@),
{
    let mut r: Vec<String> = Vec::new();
    let mut i: usize = 0;
    proof {
        assert(names_of(r@) =~= Seq::<Seq<char>>::empty());
        assert(names_of(candidates@).take(0) =~= Seq::<Seq<char>>::empty());
        assert(present@.take(0) =~= Seq::<bool>::empty());
    }
    while i < candidates.len()
        invariant
            i <= candidates@.len(),
            candidates@.len() == present@.len(),
            names_of(r@) == filter_present(
                names_of(candidates@).take(i as int),
                present@.take(i as int),
            ),
        decreases candidates@.len() - i,
    {
        let ghost r_before: Seq<String> = r@;
        if present[i] {
            r.push(candidates[i].clone());
            proof {
                assert(names_of(r@) =~= names_of(r_before).push(candidates@[i as int]@));
            }
        }
        proof {
            assert(names_of(candidates@).take(i + 1).drop_last() =~= names_of(candidates@).take(
                i as int,
            ));
            assert(present@.take(i + 1).drop_last() =~= present@.take(i as int));
            assert(names_of(candidates@).take(i + 1).last() == names_of(candidates@)[i as int]);
            assert(present@.take(i + 1).last() == present@[i as int]);
        }
        i = i + 1;
    }
    proof {
        assert(names_of(candidates@).take(candidates@.len() as int) =~= names_of(candidates@));
        assert(present@.take(present@.len() as int) =~= present@);
    }
    r
}

} // verus!
