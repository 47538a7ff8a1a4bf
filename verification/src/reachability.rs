//! The reachability engine: does an item, or anything consumed to make it,
//! trace back to a material the user owns?
//!
//! The executable search is a depth-first walk over the catalog. Its cycle
//! guard is strictly per path: an item id is put into the visiting set on
//! entry and taken out again on exit of its frame, so a call leaves the set
//! exactly as it found it, and an id blocked on one path may still be
//! explored on another. `reach_from` states the result as a property of
//! paths — the item is owned, or some production path avoiding the guard
//! set leads from it to an owned material — and the walk returns exactly
//! that.

use vstd::prelude::*;
use std::collections::HashSet;

use crate::reactions::Reaction;
use crate::reactions::ReactionDatabase;
use crate::reactions::lemma_lookup_properties;
use crate::reactions::output_ids;
use crate::reactions::spec_lookup;

verus! {

broadcast use {
    vstd::seq_lib::seq_to_set_is_finite,
    vstd::set::group_set_axioms,
    vstd::std_specs::hash::group_hash_axioms,
};

/// Number of producible items the walk may still enter: the termination
/// measure of every recursion in this module.
pub open spec fn free_count(cat: Seq<Reaction>, seen: Set<u32>) -> nat {
    output_ids(cat).difference(seen).len()
}

/// Guarding one more producible item strictly shrinks the measure.
pub proof fn lemma_free_insert_lt(cat: Seq<Reaction>, seen: Set<u32>, item: u32)
    requires
        output_ids(cat).contains(item),
        !seen.contains(item),
    ensures
        free_count(cat, seen.insert(item)) < free_count(cat, seen),
{
    output_ids(cat).lemma_set_insert_diff_decreases(seen, item);
}

/// Path-based reachability: the item is owned, or some production path that
/// avoids the guard set leads from it to an owned material. The guard set
/// holds only the ids of the active path, so truth depends on the path
/// taken, never on the order sibling branches were explored in.
pub open spec fn reach_from(cat: Seq<Reaction>, owned: Set<u32>, item: u32, seen: Set<u32>) -> bool
    decreases free_count(cat, seen), 0nat,
{
    owned.contains(item) || (!seen.contains(item) && match spec_lookup(cat, item) {
        Some(r) => {
            proof {
                lemma_lookup_properties(cat, item);
                lemma_free_insert_lt(cat, seen, item);
            }
            reach_any(cat, owned, r.inputs@, seen.insert(item))
        },
        None => false,
    })
}

/// Some input of the list reaches an owned material while avoiding `seen`.
pub open spec fn reach_any(
    cat: Seq<Reaction>,
    owned: Set<u32>,
    inputs: Seq<crate::reactions::ReactionItem>,
    seen: Set<u32>,
) -> bool
    decreases free_count(cat, seen), inputs.len() + 1,
{
    if inputs.len() == 0 {
        false
    } else {
        reach_from(cat, owned, inputs[0].id, seen) || reach_any(
            cat,
            owned,
            inputs.drop_first(),
            seen,
        )
    }
}

/// `reach_any` is exactly "some input reaches owned".
pub proof fn lemma_reach_any_exists(
    cat: Seq<Reaction>,
    owned: Set<u32>,
    inputs: Seq<crate::reactions::ReactionItem>,
    seen: Set<u32>,
)
    ensures
        reach_any(cat, owned, inputs, seen) <==> exists|i: int|
            0 <= i < inputs.len() && reach_from(cat, owned, inputs[i].id, seen),
    decreases inputs.len(),
{
    if inputs.len() > 0 {
        lemma_reach_any_exists(cat, owned, inputs.drop_first(), seen);
        if reach_from(cat, owned, inputs[0].id, seen) {
            assert(reach_from(cat, owned, inputs[0].id, seen));
        } else if reach_any(cat, owned, inputs.drop_first(), seen) {
            let i = choose|i: int|
                0 <= i < inputs.drop_first().len() && reach_from(
                    cat,
                    owned,
                    inputs.drop_first()[i].id,
                    seen,
                );
            assert(inputs[i + 1] == inputs.drop_first()[i]);
        } else {
            assert forall|i: int|
                0 <= i < inputs.len() && reach_from(cat, owned, inputs[i].id, seen) implies false by {
                if i > 0 {
                    assert(inputs.drop_first()[i - 1] == inputs[i]);
                }
            }
        }
    }
}

/// Check whether an item can be traced back to the user's moon materials:
/// either it is one itself, or a chain of reactions starting from one
/// produces it. `visited` guards only the active recursion path: the item
/// is marked on entry and unmarked on exit, so the call returns the set
/// exactly as it received it, and an id that blocks this path may still be
/// explored from a sibling branch.
pub fn traces_to_moon_materials(
    item_id: u32,
    reactions_db: &ReactionDatabase,
    user_moon_goo_ids: &HashSet<u32>,
    visited: &mut HashSet<u32>,
) -> (r: bool)
    ensures
        final(visited)@ == old(visited)@,
        r == reach_from(reactions_db.reactions@, user_moon_goo_ids@, item_id, old(visited)@),
        user_moon_goo_ids@.contains(item_id) ==> r,
    decreases free_count(reactions_db.reactions@, old(visited)@),
{
    let ghost cat = reactions_db.reactions@;
    let ghost owned = user_moon_goo_ids@;
    let ghost v0 = visited@;
    if user_moon_goo_ids.contains(&item_id) {
        return true;
    }
    if visited.contains(&item_id) {
        return false;
    }
    match reactions_db.lookup_by_output(item_id) {
        Some(reaction) => {
            proof {
                lemma_lookup_properties(cat, item_id);
                lemma_free_insert_lt(cat, v0, item_id);
            }
            visited.insert(item_id);
            let n = reaction.inputs.len();
            for i in 0..n
                invariant
                    n == reaction.inputs@.len(),
                    spec_lookup(cat, item_id) == Some(*reaction),
                    cat == reactions_db.reactions@,
                    owned == user_moon_goo_ids@,
                    !owned.contains(item_id),
                    old(visited)@ == v0,
                    !v0.contains(item_id),
                    output_ids(cat).contains(item_id),
                    visited@ == v0.insert(item_id),
                    forall|j: int|
                        0 <= j < i ==> !reach_from(
                            cat,
                            owned,
                            (#[trigger] reaction.inputs@[j]).id,
                            v0.insert(item_id),
                        ),
            {
                proof {
                    lemma_free_insert_lt(cat, v0, item_id);
                }
                let hit = traces_to_moon_materials(
                    reaction.inputs[i].id,
                    reactions_db,
                    user_moon_goo_ids,
                    visited,
                );
                if hit {
                    visited.remove(&item_id);
                    proof {
                        assert(visited@ =~= v0);
                        lemma_reach_any_exists(cat, owned, reaction.inputs@, v0.insert(item_id));
                    }
                    return true;
                }
            }
            visited.remove(&item_id);
            proof {
                assert(visited@ =~= v0);
                lemma_reach_any_exists(cat, owned, reaction.inputs@, v0.insert(item_id));
            }
            false
        },
        None => {
            false
        },
    }
}

/// A reaction is worth analysing when any of its direct inputs traces back
/// to the user's materials; each input starts from a fresh, empty guard
/// set.
pub fn reaction_uses_user_materials(
    reaction: &Reaction,
    reactions_db: &ReactionDatabase,
    user_moon_goo_ids: &HashSet<u32>,
) -> (r: bool)
    ensures
        r == reach_any(
            reactions_db.reactions@,
            user_moon_goo_ids@,
            reaction.inputs@,
            Set::empty(),
        ),
        r <==> exists|i: int|
            0 <= i < reaction.inputs@.len() && reach_from(
                reactions_db.reactions@,
                user_moon_goo_ids@,
                (#[trigger] reaction.inputs@[i]).id,
                Set::empty(),
            ),
{
    let ghost cat = reactions_db.reactions@;
    let ghost owned = user_moon_goo_ids@;
    let mut visited: HashSet<u32> = HashSet::new();
    let n = reaction.inputs.len();
    for i in 0..n
        invariant
            n == reaction.inputs@.len(),
            cat == reactions_db.reactions@,
            owned == user_moon_goo_ids@,
            visited@ == Set::<u32>::empty(),
            forall|j: int|
                0 <= j < i ==> !reach_from(
                    cat,
                    owned,
                    (#[trigger] reaction.inputs@[j]).id,
                    Set::empty(),
                ),
    {
        let hit = traces_to_moon_materials(
            reaction.inputs[i].id,
            reactions_db,
            user_moon_goo_ids,
            &mut visited,
        );
        if hit {
            proof {
                lemma_reach_any_exists(cat, owned, reaction.inputs@, Set::empty());
            }
            return true;
        }
    }
    proof {
        lemma_reach_any_exists(cat, owned, reaction.inputs@, Set::empty());
    }
    false
}

} // verus!
