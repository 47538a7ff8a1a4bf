//! Tree expansion: turning a profitable reaction into a full sourcing plan.
//!
//! Every node answers, for one required item, where it should come from:
//! owned stock, the market, or a nested reaction run. The expansion walks
//! the catalog depth first; a per-path visiting set keeps production cycles
//! in the raw data from recursing forever, while still allowing the same
//! item to appear again in a sibling branch.

use vstd::prelude::*;
use vstd::arithmetic::div_mod::lemma_fundamental_div_mod;
use vstd::arithmetic::div_mod::lemma_mod_bound;
use vstd::arithmetic::mul::lemma_mul_inequality;
use vstd::arithmetic::mul::lemma_mul_upper_bound;
use std::collections::HashSet;

use crate::prices::PriceInfo;
use crate::prices::PriceTable;
use crate::prices::price_of;
use crate::reachability::free_count;
use crate::reachability::lemma_free_insert_lt;
use crate::reactions::Reaction;
use crate::reactions::ReactionDatabase;
use crate::reactions::ReactionItem;
use crate::reactions::catalog_wf;
use crate::reactions::lemma_lookup_properties;
use crate::reactions::spec_lookup;

verus! {

broadcast use {
    vstd::seq_lib::seq_to_set_is_finite,
    vstd::set::group_set_axioms,
    vstd::std_specs::hash::group_hash_axioms,
};

/// Where a required material comes from.
#[derive(Clone, Copy, Debug, PartialEq, Eq, Structural)]
pub enum SourceType {
    /// Comes from the user's moons.
    Moon,
    /// Must be purchased.
    Buy,
    /// Produced by running a reaction.
    React,
    /// The final output: what the plan exists to sell.
    Output,
}

/// One node of the sourcing plan. Quantities are the amount this node must
/// deliver; prices are the item's sell price, for consistent valuation of
/// every node.
#[derive(Debug)]
pub struct ReactionTreeNode {
    pub name: String,
    pub id: u32,
    pub quantity: u64,
    pub source: SourceType,
    pub unit_price: u32,
    pub total_price: u128,
    /// For reacted nodes, the name of the producing formula.
    pub reaction_name: Option<String>,
    /// The inputs needed to produce this node, for reacted nodes.
    pub children: Vec<ReactionTreeNode>,
}

/// The mathematical shape of a sourcing-plan node: names as character
/// sequences, numbers as unbounded integers.
pub ghost struct NodeModel {
    pub name: Seq<char>,
    pub id: u32,
    pub quantity: int,
    pub source: SourceType,
    pub unit_price: int,
    pub total_price: int,
    pub reaction_name: Option<Seq<char>>,
    pub children: Seq<NodeModel>,
}

/// The model of an executable node.
pub open spec fn node_model(n: ReactionTreeNode) -> NodeModel
    decreases n,
{
    NodeModel {
        name: n.name@,
        id: n.id,
        quantity: n.quantity as int,
        source: n.source,
        unit_price: n.unit_price as int,
        total_price: n.total_price as int,
        reaction_name: match n.reaction_name {
            Some(s) => Some(s@),
            None => None,
        },
        children: children_models(n.children@),
    }
}

/// The models of a list of executable nodes.
pub open spec fn children_models(s: Seq<ReactionTreeNode>) -> Seq<NodeModel>
    decreases s,
{
    if s.len() == 0 {
        Seq::empty()
    } else {
        seq![node_model(s[0])] + children_models(s.drop_first())
    }
}

/// `children_models` is the pointwise model of the list.
pub proof fn lemma_children_models_index(s: Seq<ReactionTreeNode>)
    ensures
        children_models(s).len() == s.len(),
        forall|j: int| 0 <= j < s.len() ==> children_models(s)[j] == node_model(s[j]),
    decreases s.len(),
{
    if s.len() > 0 {
        lemma_children_models_index(s.drop_first());
    }
}

impl View for ReactionTreeNode {
    type V = NodeModel;

    open spec fn view(&self) -> NodeModel {
        node_model(*self)
    }
}

/// The sell price a node is valued at: the recorded price, or zero when the
/// snapshot has none.
pub open spec fn unit_price_of(entries: Seq<(String, PriceInfo)>, name: Seq<char>) -> u32 {
    match price_of(entries, name) {
        Some(p) => p.sell,
        None => 0u32,
    }
}

/// How many runs of a reaction cover a required quantity: the quotient
/// rounded up, since partial runs are not physically meaningful.
pub open spec fn spec_runs(quantity: u64, per_run: u32) -> int
    recommends
        per_run >= 1,
{
    (quantity + per_run - 1) / (per_run as int)
}

/// A required child quantity: the input's per-run quantity scaled by the
/// number of runs, saturating at the machine bound on absurdly deep chains.
pub open spec fn spec_scaled(per_run: u32, runs: int) -> u64 {
    if per_run * runs > u64::MAX {
        u64::MAX
    } else {
        (per_run * runs) as u64
    }
}

/// The run count is nonnegative, at most the required quantity, covers it,
/// and is the least count that does.
pub proof fn lemma_runs_ceiling(quantity: u64, per_run: u32)
    requires
        per_run >= 1,
    ensures
        0 <= spec_runs(quantity, per_run) <= quantity,
        spec_runs(quantity, per_run) * per_run >= quantity,
        quantity > 0 ==> (spec_runs(quantity, per_run) - 1) * per_run < quantity,
        quantity > 0 ==> spec_runs(quantity, per_run) >= 1,
{
    let q = quantity as int;
    let p = per_run as int;
    let x = q + p - 1;
    let r = x / p;
    lemma_fundamental_div_mod(x, p);
    lemma_mod_bound(x, p);
    assert(r * p == x - x % p);
    assert(r * p >= q);
    assert(r >= 0) by {
        if r < 0 {
            lemma_mul_inequality(r, -1, p);
        }
    }
    assert(r <= q) by {
        if r > q {
            lemma_mul_inequality(q + 1, r, p);
            assert((q + 1) * p == q * p + p) by (nonlinear_arith);
            lemma_mul_inequality(1, p, q);
            assert(q * p >= 1 * q || q == 0);
        }
    }
    if quantity > 0 {
        assert((r - 1) * p == r * p - p) by (nonlinear_arith);
        assert(r * p <= x);
        assert(r >= 1) by (nonlinear_arith)
            requires
                r * p >= q,
                q >= 1,
                p >= 1,
        ;
    }
}

/// Spec mirror of `build_reaction_tree` on one required item.
///
/// Owned stock always wins; otherwise a known producing reaction is
/// expanded unless this path already passed through the item; otherwise the
/// item is bought. The visiting guard makes the recursion terminate on any
/// catalog, cycles included.
pub open spec fn spec_expand(
    cat: Seq<Reaction>,
    owned: Set<u32>,
    entries: Seq<(String, PriceInfo)>,
    name: Seq<char>,
    id: u32,
    quantity: u64,
    visiting: Set<u32>,
) -> NodeModel
    decreases free_count(cat, visiting), 0nat,
{
    let unit = unit_price_of(entries, name);
    let total = unit * quantity;
    if owned.contains(id) {
        NodeModel {
            name,
            id,
            quantity: quantity as int,
            source: SourceType::Moon,
            unit_price: unit as int,
            total_price: total,
            reaction_name: None,
            children: Seq::empty(),
        }
    } else {
        match spec_lookup(cat, id) {
            Some(r) => {
                if !visiting.contains(id) {
                    proof {
                        lemma_lookup_properties(cat, id);
                        lemma_free_insert_lt(cat, visiting, id);
                    }
                    NodeModel {
                        name,
                        id,
                        quantity: quantity as int,
                        source: SourceType::React,
                        unit_price: unit as int,
                        total_price: total,
                        reaction_name: Some(r.formula_name@),
                        children: spec_expand_children(
                            cat,
                            owned,
                            entries,
                            r.inputs@,
                            spec_runs(quantity, r.output.quantity),
                            visiting.insert(id),
                        ),
                    }
                } else {
                    NodeModel {
                        name,
                        id,
                        quantity: quantity as int,
                        source: SourceType::Buy,
                        unit_price: unit as int,
                        total_price: total,
                        reaction_name: None,
                        children: Seq::empty(),
                    }
                }
            },
            None => NodeModel {
                name,
                id,
                quantity: quantity as int,
                source: SourceType::Buy,
                unit_price: unit as int,
                total_price: total,
                reaction_name: None,
                children: Seq::empty(),
            },
        }
    }
}

/// Spec mirror of expanding each input of a reaction, scaled by the run
/// count, all under the same visiting guard.
pub open spec fn spec_expand_children(
    cat: Seq<Reaction>,
    owned: Set<u32>,
    entries: Seq<(String, PriceInfo)>,
    inputs: Seq<ReactionItem>,
    runs: int,
    visiting: Set<u32>,
) -> Seq<NodeModel>
    decreases free_count(cat, visiting), inputs.len() + 1,
{
    if inputs.len() == 0 {
        Seq::empty()
    } else {
        seq![
            spec_expand(
                cat,
                owned,
                entries,
                inputs[0].name@,
                inputs[0].id,
                spec_scaled(inputs[0].quantity, runs),
                visiting,
            ),
        ] + spec_expand_children(cat, owned, entries, inputs.drop_first(), runs, visiting)
    }
}

/// The children mirror is the pointwise expansion of the input list.
pub proof fn lemma_expand_children_index(
    cat: Seq<Reaction>,
    owned: Set<u32>,
    entries: Seq<(String, PriceInfo)>,
    inputs: Seq<ReactionItem>,
    runs: int,
    visiting: Set<u32>,
)
    ensures
        spec_expand_children(cat, owned, entries, inputs, runs, visiting).len() == inputs.len(),
        forall|j: int|
            0 <= j < inputs.len() ==> spec_expand_children(
                cat,
                owned,
                entries,
                inputs,
                runs,
                visiting,
            )[j] == spec_expand(
                cat,
                owned,
                entries,
                inputs[j].name@,
                inputs[j].id,
                spec_scaled(inputs[j].quantity, runs),
                visiting,
            ),
    decreases inputs.len(),
{
    if inputs.len() > 0 {
        lemma_expand_children_index(cat, owned, entries, inputs.drop_first(), runs, visiting);
    }
}

/// Spec mirror of `build_full_reaction_tree`: the root node of a plan for
/// one run of the reaction producing `id`, its children expanded with the
/// root already marked as visiting.
pub open spec fn spec_full_tree(
    cat: Seq<Reaction>,
    owned: Set<u32>,
    entries: Seq<(String, PriceInfo)>,
    name: Seq<char>,
    id: u32,
    quantity: u32,
) -> NodeModel {
    let unit = unit_price_of(entries, name);
    let total = unit * quantity;
    NodeModel {
        name,
        id,
        quantity: quantity as int,
        source: SourceType::Output,
        unit_price: unit as int,
        total_price: total,
        reaction_name: match spec_lookup(cat, id) {
            Some(r) => Some(r.formula_name@),
            None => None,
        },
        children: match spec_lookup(cat, id) {
            Some(r) => spec_expand_children(
                cat,
                owned,
                entries,
                r.inputs@,
                1,
                Set::empty().insert(id),
            ),
            None => Seq::empty(),
        },
    }
}

/// Builds the sourcing node for one required item. The visiting set guards
/// the active recursion path only: the call leaves it exactly as it found
/// it, so the same item may appear again in a sibling branch.
pub fn build_reaction_tree(
    item_name: &str,
    item_id: u32,
    quantity: u64,
    reactions_db: &ReactionDatabase,
    user_moon_goo_ids: &HashSet<u32>,
    prices: &PriceTable,
    visited: &mut HashSet<u32>,
) -> (node: ReactionTreeNode)
    requires
        catalog_wf(reactions_db.reactions@),
    ensures
        final(visited)@ == old(visited)@,
        node@ == spec_expand(
            reactions_db.reactions@,
            user_moon_goo_ids@,
            prices.entries@,
            item_name@,
            item_id,
            quantity,
            old(visited)@,
        ),
    decreases free_count(reactions_db.reactions@, old(visited)@),
{
    let ghost cat = reactions_db.reactions@;
    let ghost owned = user_moon_goo_ids@;
    let ghost v0 = visited@;
    let unit_price = match prices.get(item_name) {
        Some(p) => p.sell,
        None => 0,
    };
    proof {
        lemma_mul_upper_bound(unit_price as int, 0xFFFF_FFFFint, quantity as int, u64::MAX as int);
    }
    let total_price: u128 = (unit_price as u128) * (quantity as u128);

    if user_moon_goo_ids.contains(&item_id) {
        return ReactionTreeNode {
            name: item_name.to_owned(),
            id: item_id,
            quantity,
            source: SourceType::Moon,
            unit_price,
            total_price,
            reaction_name: None,
            children: Vec::new(),
        };
    }

    let found = reactions_db.lookup_by_output(item_id);
    if let Some(reaction) = found {
        if !visited.contains(&item_id) {
            proof {
                lemma_lookup_properties(cat, item_id);
                lemma_free_insert_lt(cat, v0, item_id);
                assert(cat.contains(*reaction));
                let k = choose|k: int| 0 <= k < cat.len() && cat[k] == *reaction;
                assert(crate::reactions::reaction_wf(cat[k]));
            }
            visited.insert(item_id);

            let per_run = reaction.output.quantity;
            proof {
                lemma_runs_ceiling(quantity, per_run);
            }
            let runs: u64 = (((quantity as u128) + (per_run as u128) - 1) / (per_run as u128))
                as u64;
            let ghost g_runs = spec_runs(quantity, per_run);
            proof {
                assert(runs == g_runs);
            }

            let n = reaction.inputs.len();
            let mut children: Vec<ReactionTreeNode> = Vec::new();
            for i in 0..n
                invariant
                    n == reaction.inputs@.len(),
                    cat == reactions_db.reactions@,
                    catalog_wf(cat),
                    owned == user_moon_goo_ids@,
                    old(visited)@ == v0,
                    !v0.contains(item_id),
                    crate::reactions::output_ids(cat).contains(item_id),
                    visited@ == v0.insert(item_id),
                    runs == g_runs,
                    children@.len() == i,
                    forall|j: int|
                        0 <= j < i ==> node_model(#[trigger] children@[j]) == spec_expand(
                            cat,
                            owned,
                            prices.entries@,
                            reaction.inputs@[j].name@,
                            reaction.inputs@[j].id,
                            spec_scaled(reaction.inputs@[j].quantity, g_runs),
                            v0.insert(item_id),
                        ),
            {
                let input = &reaction.inputs[i];
                proof {
                    lemma_free_insert_lt(cat, v0, item_id);
                    lemma_mul_upper_bound(
                        input.quantity as int,
                        0xFFFF_FFFFint,
                        runs as int,
                        u64::MAX as int,
                    );
                }
                let prod: u128 = (input.quantity as u128) * (runs as u128);
                let child_quantity: u64 = if prod > 0xFFFF_FFFF_FFFF_FFFFu128 {
                    0xFFFF_FFFF_FFFF_FFFFu64
                } else {
                    prod as u64
                };
                proof {
                    assert(child_quantity == spec_scaled(input.quantity, g_runs));
                }
                let child = build_reaction_tree(
                    input.name.as_str(),
                    input.id,
                    child_quantity,
                    reactions_db,
                    user_moon_goo_ids,
                    prices,
                    visited,
                );
                children.push(child);
            }

            visited.remove(&item_id);
            proof {
                assert(visited@ =~= v0);
                lemma_children_models_index(children@);
                lemma_expand_children_index(
                    cat,
                    owned,
                    prices.entries@,
                    reaction.inputs@,
                    g_runs,
                    v0.insert(item_id),
                );
                assert(children_models(children@) =~= spec_expand_children(
                    cat,
                    owned,
                    prices.entries@,
                    reaction.inputs@,
                    g_runs,
                    v0.insert(item_id),
                ));
            }
            return ReactionTreeNode {
                name: item_name.to_owned(),
                id: item_id,
                quantity,
                source: SourceType::React,
                unit_price,
                total_price,
                reaction_name: Some(reaction.formula_name.clone()),
                children,
            };
        }
    }

    ReactionTreeNode {
        name: item_name.to_owned(),
        id: item_id,
        quantity,
        source: SourceType::Buy,
        unit_price,
        total_price,
        reaction_name: None,
        children: Vec::new(),
    }
}

/// Builds the full plan for a profitable reaction's output: a root node for
/// one run, whose children are the reaction's direct inputs expanded with
/// the output itself pre-seeded as visiting, so a self-referential recipe
/// cannot loop back immediately.
pub fn build_full_reaction_tree(
    output_name: &str,
    output_id: u32,
    output_quantity: u32,
    reactions_db: &ReactionDatabase,
    user_moon_goo_ids: &HashSet<u32>,
    prices: &PriceTable,
) -> (node: ReactionTreeNode)
    requires
        catalog_wf(reactions_db.reactions@),
    ensures
        node@ == spec_full_tree(
            reactions_db.reactions@,
            user_moon_goo_ids@,
            prices.entries@,
            output_name@,
            output_id,
            output_quantity,
        ),
{
    let ghost cat = reactions_db.reactions@;
    let ghost owned = user_moon_goo_ids@;
    let unit_price = match prices.get(output_name) {
        Some(p) => p.sell,
        None => 0,
    };
    proof {
        lemma_mul_upper_bound(
            unit_price as int,
            0xFFFF_FFFFint,
            output_quantity as int,
            0xFFFF_FFFFint,
        );
    }
    let total_price: u128 = (unit_price as u128) * (output_quantity as u128);

    let found = reactions_db.lookup_by_output(output_id);
    let mut children: Vec<ReactionTreeNode> = Vec::new();
    let mut reaction_name: Option<String> = None;
    if let Some(reaction) = found {
        let mut visited: HashSet<u32> = HashSet::new();
        visited.insert(output_id);
        let ghost vroot = Set::empty().insert(output_id);
        proof {
            assert(visited@ =~= vroot);
        }
        let n = reaction.inputs.len();
        for i in 0..n
            invariant
                n == reaction.inputs@.len(),
                cat == reactions_db.reactions@,
                catalog_wf(cat),
                owned == user_moon_goo_ids@,
                visited@ == vroot,
                vroot == Set::empty().insert(output_id),
                spec_lookup(cat, output_id) == Some(*reaction),
                children@.len() == i,
                forall|j: int|
                    0 <= j < i ==> node_model(#[trigger] children@[j]) == spec_expand(
                        cat,
                        owned,
                        prices.entries@,
                        reaction.inputs@[j].name@,
                        reaction.inputs@[j].id,
                        spec_scaled(reaction.inputs@[j].quantity, 1),
                        vroot,
                    ),
        {
            let input = &reaction.inputs[i];
            proof {
                assert(spec_scaled(input.quantity, 1) == input.quantity) by {
                    assert(input.quantity * 1 == input.quantity);
                }
            }
            let child = build_reaction_tree(
                input.name.as_str(),
                input.id,
                input.quantity as u64,
                reactions_db,
                user_moon_goo_ids,
                prices,
                &mut visited,
            );
            children.push(child);
        }
        reaction_name = Some(reaction.formula_name.clone());
        proof {
            lemma_children_models_index(children@);
            lemma_expand_children_index(
                cat,
                owned,
                prices.entries@,
                reaction.inputs@,
                1,
                vroot,
            );
            assert forall|j: int| 0 <= j < reaction.inputs@.len() implies spec_scaled(
                reaction.inputs@[j].quantity,
                1,
            ) == reaction.inputs@[j].quantity by {
                assert(reaction.inputs@[j].quantity * 1 == reaction.inputs@[j].quantity);
            }
            assert(children_models(children@) =~= spec_expand_children(
                cat,
                owned,
                prices.entries@,
                reaction.inputs@,
                1,
                vroot,
            ));
        }
    }

    ReactionTreeNode {
        name: output_name.to_owned(),
        id: output_id,
        quantity: output_quantity as u64,
        source: SourceType::Output,
        unit_price,
        total_price,
        reaction_name,
        children,
    }
}

} // verus!
