//! The engine's laws, stated and proved over the spec functions that the
//! executable contracts are pinned to.

use vstd::prelude::*;

use crate::analysis::spec_analyze;
use crate::analysis::spec_candidate;
use crate::analysis::spec_candidates;
use crate::analysis::spec_insert_ranked;
use crate::analysis::spec_is_candidate;
use crate::analysis::spec_rank;
use crate::prices::PriceInfo;
use crate::prices::ProfitModel;
use crate::reachability::lemma_reach_any_exists;
use crate::reachability::reach_from;
use crate::reaction_tree::NodeModel;
use crate::reaction_tree::SourceType;
use crate::reaction_tree::spec_expand;
use crate::reaction_tree::spec_expand_children;
use crate::reaction_tree::spec_full_tree;
use crate::reactions::Reaction;

verus! {

/// Reflexivity of reachability: an item the user owns always traces back
/// to the owned set, whatever the guard set holds.
pub proof fn lemma_owned_traces(cat: Seq<Reaction>, owned: Set<u32>, item: u32, seen: Set<u32>)
    requires
        owned.contains(item),
    ensures
        reach_from(cat, owned, item, seen),
{
}

/// Inserting into a ranking adds the newcomer and keeps everything else.
proof fn lemma_insert_ranked_membership(s: Seq<ProfitModel>, x: ProfitModel, y: ProfitModel)
    ensures
        spec_insert_ranked(s, x).contains(y) <==> s.contains(y) || y == x,
    decreases s.len(),
{
    if s.len() == 0 {
        if y == x {
            assert(spec_insert_ranked(s, x)[0] == x);
        }
        if spec_insert_ranked(s, x).contains(y) {
            let i = choose|i: int|
                0 <= i < spec_insert_ranked(s, x).len() && spec_insert_ranked(s, x)[i] == y;
            assert(i == 0);
        }
    } else if s[0].margin < x.margin {
        let t = seq![x] + s;
        if s.contains(y) {
            let i = choose|i: int| 0 <= i < s.len() && s[i] == y;
            assert(t[i + 1] == y);
        }
        if y == x {
            assert(t[0] == x);
        }
        if t.contains(y) {
            let i = choose|i: int| 0 <= i < t.len() && t[i] == y;
            if i > 0 {
                assert(s[i - 1] == y);
            }
        }
    } else {
        lemma_insert_ranked_membership(s.drop_first(), x, y);
        let rest = spec_insert_ranked(s.drop_first(), x);
        let t = seq![s[0]] + rest;
        if t.contains(y) {
            let i = choose|i: int| 0 <= i < t.len() && t[i] == y;
            if i == 0 {
                assert(s[0] == y);
            } else {
                assert(rest[i - 1] == y);
                assert(rest.contains(y));
                if s.drop_first().contains(y) {
                    let j = choose|j: int| 0 <= j < s.drop_first().len() && s.drop_first()[j] == y;
                    assert(s[j + 1] == y);
                }
            }
        }
        if s.contains(y) {
            let i = choose|i: int| 0 <= i < s.len() && s[i] == y;
            if i == 0 {
                assert(t[0] == y);
            } else {
                assert(s.drop_first()[i - 1] == y);
                assert(s.drop_first().contains(y));
                assert(rest.contains(y));
                let j = choose|j: int| 0 <= j < rest.len() && rest[j] == y;
                assert(t[j + 1] == y);
            }
        }
        if y == x {
            assert(rest.contains(y));
            let j = choose|j: int| 0 <= j < rest.len() && rest[j] == y;
            assert(t[j + 1] == y);
        }
    }
}

/// Ranking is a permutation: it neither adds nor loses summaries.
pub proof fn lemma_rank_membership(s: Seq<ProfitModel>, y: ProfitModel)
    ensures
        spec_rank(s).contains(y) <==> s.contains(y),
    decreases s.len(),
{
    if s.len() > 0 {
        lemma_rank_membership(s.drop_last(), y);
        lemma_insert_ranked_membership(spec_rank(s.drop_last()), s.last(), y);
        if s.contains(y) {
            let i = choose|i: int| 0 <= i < s.len() && s[i] == y;
            if i < s.len() - 1 {
                assert(s.drop_last()[i] == y);
                assert(s.drop_last().contains(y));
            }
        }
        if s.drop_last().contains(y) {
            let i = choose|i: int| 0 <= i < s.drop_last().len() && s.drop_last()[i] == y;
            assert(s[i] == y);
        }
        if y == s.last() {
            assert(s[s.len() - 1] == y);
        }
    }
}

/// Every ranked summary arises from some catalog reaction that is a
/// candidate.
proof fn lemma_candidates_membership(
    cat: Seq<Reaction>,
    owned: Set<u32>,
    entries: Seq<(String, PriceInfo)>,
    i: int,
    y: ProfitModel,
)
    requires
        spec_candidates(cat, owned, entries, i).contains(y),
    ensures
        exists|p: int|
            i <= p < cat.len() && spec_is_candidate(cat, owned, entries, #[trigger] cat[p]) && y
                == spec_candidate(cat, owned, entries, cat[p]),
    decreases cat.len() - i,
{
    if 0 <= i < cat.len() {
        let rest = spec_candidates(cat, owned, entries, i + 1);
        if spec_is_candidate(cat, owned, entries, cat[i]) {
            let cur = seq![spec_candidate(cat, owned, entries, cat[i])] + rest;
            let k = choose|k: int| 0 <= k < cur.len() && cur[k] == y;
            if k == 0 {
                assert(spec_is_candidate(cat, owned, entries, cat[i]));
            } else {
                assert(rest[k - 1] == y);
                assert(rest.contains(y));
                lemma_candidates_membership(cat, owned, entries, i + 1, y);
            }
        } else {
            lemma_candidates_membership(cat, owned, entries, i + 1, y);
        }
    }
}

/// Exclusion law: every reaction in the analysis result uses the owned
/// materials. A reaction none of whose inputs transitively reaches the
/// owned set never appears in the ranked output.
pub proof fn lemma_unreachable_excluded(
    cat: Seq<Reaction>,
    owned: Set<u32>,
    entries: Seq<(String, PriceInfo)>,
    y: ProfitModel,
)
    requires
        spec_analyze(cat, owned, entries).contains(y),
    ensures
        exists|p: int|
            0 <= p < cat.len() && (#[trigger] cat[p]).formula_id == y.formula_id
                && cat[p].output.id == y.output_id && exists|j: int|
                0 <= j < cat[p].inputs@.len() && reach_from(
                    cat,
                    owned,
                    cat[p].inputs@[j].id,
                    Set::empty(),
                ),
{
    lemma_rank_membership(spec_candidates(cat, owned, entries, 0), y);
    lemma_candidates_membership(cat, owned, entries, 0, y);
    let p = choose|p: int|
        0 <= p < cat.len() && spec_is_candidate(cat, owned, entries, #[trigger] cat[p]) && y
            == spec_candidate(cat, owned, entries, cat[p]);
    lemma_reach_any_exists(cat, owned, cat[p].inputs@, Set::empty());
    assert(cat[p].formula_id == y.formula_id && cat[p].output.id == y.output_id);
}

/// A candidate from position `i` on stays in the candidate list.
proof fn lemma_candidates_include(
    cat: Seq<Reaction>,
    owned: Set<u32>,
    entries: Seq<(String, PriceInfo)>,
    i: int,
    p: int,
)
    requires
        0 <= i <= p < cat.len(),
        spec_is_candidate(cat, owned, entries, cat[p]),
    ensures
        spec_candidates(cat, owned, entries, i).contains(
            spec_candidate(cat, owned, entries, cat[p]),
        ),
    decreases p - i,
{
    let y = spec_candidate(cat, owned, entries, cat[p]);
    let rest = spec_candidates(cat, owned, entries, i + 1);
    if i == p {
        let cur = seq![y] + rest;
        assert(cur[0] == y);
    } else {
        lemma_candidates_include(cat, owned, entries, i + 1, p);
        let j = choose|j: int| 0 <= j < rest.len() && rest[j] == y;
        if spec_is_candidate(cat, owned, entries, cat[i]) {
            let cur = seq![spec_candidate(cat, owned, entries, cat[i])] + rest;
            assert(cur[j + 1] == y);
        }
    }
}

/// Completeness law: no qualifying reaction is dropped. A reaction with an
/// input that path-reaches the owned set, a complete price record, and a
/// strictly positive profit appears in the ranked output.
pub proof fn lemma_candidate_included(
    cat: Seq<Reaction>,
    owned: Set<u32>,
    entries: Seq<(String, PriceInfo)>,
    p: int,
)
    requires
        0 <= p < cat.len(),
        spec_is_candidate(cat, owned, entries, cat[p]),
    ensures
        spec_analyze(cat, owned, entries).contains(spec_candidate(cat, owned, entries, cat[p])),
{
    lemma_candidates_include(cat, owned, entries, 0, p);
    lemma_rank_membership(
        spec_candidates(cat, owned, entries, 0),
        spec_candidate(cat, owned, entries, cat[p]),
    );
}

/// Characterisation law: the ranked output holds exactly the summaries of
/// the candidate reactions — those using the owned materials, fully priced
/// (a missing price drops the reaction, it never appears with partial
/// values), and strictly profitable.
pub proof fn lemma_result_characterized(
    cat: Seq<Reaction>,
    owned: Set<u32>,
    entries: Seq<(String, PriceInfo)>,
    y: ProfitModel,
)
    ensures
        spec_analyze(cat, owned, entries).contains(y) <==> exists|p: int|
            0 <= p < cat.len() && spec_is_candidate(cat, owned, entries, #[trigger] cat[p]) && y
                == spec_candidate(cat, owned, entries, cat[p]),
{
    if spec_analyze(cat, owned, entries).contains(y) {
        lemma_rank_membership(spec_candidates(cat, owned, entries, 0), y);
        lemma_candidates_membership(cat, owned, entries, 0, y);
    }
    if exists|p: int|
        0 <= p < cat.len() && spec_is_candidate(cat, owned, entries, #[trigger] cat[p]) && y
            == spec_candidate(cat, owned, entries, cat[p]) {
        let p = choose|p: int|
            0 <= p < cat.len() && spec_is_candidate(cat, owned, entries, #[trigger] cat[p]) && y
                == spec_candidate(cat, owned, entries, cat[p]);
        lemma_candidate_included(cat, owned, entries, p);
    }
}

/// Profit law, flat part: every ranked summary satisfies
/// `profit == output_value - input_cost`, and only strictly profitable
/// reactions are ranked at all.
pub proof fn lemma_profit_invariant(
    cat: Seq<Reaction>,
    owned: Set<u32>,
    entries: Seq<(String, PriceInfo)>,
    y: ProfitModel,
)
    requires
        spec_analyze(cat, owned, entries).contains(y),
    ensures
        y.profit == y.output_value - y.input_cost,
        y.profit > 0,
{
    lemma_rank_membership(spec_candidates(cat, owned, entries, 0), y);
    lemma_candidates_membership(cat, owned, entries, 0, y);
}

/// Ranking law: the analysis result is ordered by non-increasing margin.
pub proof fn lemma_rank_sorted(s: Seq<ProfitModel>)
    ensures
        forall|a: int, b: int|
            0 <= a < b < spec_rank(s).len() ==> spec_rank(s)[a].margin >= spec_rank(s)[b].margin,
    decreases s.len(),
{
    if s.len() > 0 {
        lemma_rank_sorted(s.drop_last());
        lemma_insert_ranked_sorted(spec_rank(s.drop_last()), s.last());
    }
}

/// Inserting into a margin-sorted list keeps it sorted.
proof fn lemma_insert_ranked_sorted(s: Seq<ProfitModel>, x: ProfitModel)
    requires
        forall|a: int, b: int| 0 <= a < b < s.len() ==> s[a].margin >= s[b].margin,
    ensures
        forall|a: int, b: int|
            0 <= a < b < spec_insert_ranked(s, x).len() ==> spec_insert_ranked(s, x)[a].margin
                >= spec_insert_ranked(s, x)[b].margin,
    decreases s.len(),
{
    if s.len() == 0 {
    } else if s[0].margin < x.margin {
    } else {
        assert(forall|a: int, b: int|
            0 <= a < b < s.drop_first().len() ==> s.drop_first()[a].margin
                >= s.drop_first()[b].margin);
        lemma_insert_ranked_sorted(s.drop_first(), x);
        let rest = spec_insert_ranked(s.drop_first(), x);
        lemma_insert_ranked_head_bound(s.drop_first(), x, s[0].margin);
    }
}

/// Every element of an insertion result is bounded by any margin bounding
/// both the list and the newcomer.
proof fn lemma_insert_ranked_head_bound(s: Seq<ProfitModel>, x: ProfitModel, bound: int)
    requires
        forall|a: int| 0 <= a < s.len() ==> bound >= s[a].margin,
        bound >= x.margin,
    ensures
        forall|a: int|
            0 <= a < spec_insert_ranked(s, x).len() ==> bound >= spec_insert_ranked(s, x)[a].margin,
    decreases s.len(),
{
    if s.len() == 0 {
    } else if s[0].margin < x.margin {
    } else {
        assert(forall|a: int| 0 <= a < s.drop_first().len() ==> bound >= s.drop_first()[a].margin);
        lemma_insert_ranked_head_bound(s.drop_first(), x, bound);
    }
}

/// Idempotence law: the analysis is a pure function of the catalog, the
/// owned id set and the price snapshot, so two runs over identical inputs
/// yield identical ranked output.
pub proof fn lemma_analysis_idempotent(
    cat: Seq<Reaction>,
    owned: Set<u32>,
    entries: Seq<(String, PriceInfo)>,
    first: Seq<ProfitModel>,
    second: Seq<ProfitModel>,
)
    requires
        first == spec_analyze(cat, owned, entries),
        second == spec_analyze(cat, owned, entries),
    ensures
        first == second,
{
}

/// Cycle-guard law: expanding an item that the active path already passed
/// through yields a purchase leaf instead of recursing, so expansion
/// terminates on cyclic catalogs and the re-entrant item is marked as
/// bought.
pub proof fn lemma_cycle_guard(
    cat: Seq<Reaction>,
    owned: Set<u32>,
    entries: Seq<(String, PriceInfo)>,
    name: Seq<char>,
    id: u32,
    quantity: u64,
    visiting: Set<u32>,
)
    requires
        visiting.contains(id),
        !owned.contains(id),
    ensures
        spec_expand(cat, owned, entries, name, id, quantity, visiting).source == SourceType::Buy,
        spec_expand(cat, owned, entries, name, id, quantity, visiting).children.len() == 0,
{
}

/// Scaling law: a reacted expansion has one child per input of the
/// producing reaction, each child stands for the same item as its input
/// slot, and each child's quantity is the slot's per-run quantity scaled by
/// the rounded-up run count.
pub proof fn lemma_reacted_expansion_scales(
    cat: Seq<Reaction>,
    owned: Set<u32>,
    entries: Seq<(String, PriceInfo)>,
    name: Seq<char>,
    id: u32,
    quantity: u64,
    visiting: Set<u32>,
)
    requires
        !owned.contains(id),
        !visiting.contains(id),
        crate::reactions::spec_lookup(cat, id) is Some,
    ensures
        ({
            let r = crate::reactions::spec_lookup(cat, id)->Some_0;
            let runs = crate::reaction_tree::spec_runs(quantity, r.output.quantity);
            let node = spec_expand(cat, owned, entries, name, id, quantity, visiting);
            &&& node.source == SourceType::React
            &&& node.children.len() == r.inputs@.len()
            &&& forall|j: int|
                0 <= j < r.inputs@.len() ==> (#[trigger] node.children[j]).id == r.inputs@[j].id
                    && node.children[j].quantity == crate::reaction_tree::spec_scaled(
                    r.inputs@[j].quantity,
                    runs,
                ) as int
        }),
{
    let r = crate::reactions::spec_lookup(cat, id)->Some_0;
    let runs = crate::reaction_tree::spec_runs(quantity, r.output.quantity);
    crate::reaction_tree::lemma_expand_children_index(
        cat,
        owned,
        entries,
        r.inputs@,
        runs,
        visiting.insert(id),
    );
}

/// The height of a plan node: a leaf counts one, a reacted node one more
/// than its tallest child.
pub open spec fn node_depth(m: NodeModel) -> nat
    decreases m,
{
    1 + depth_list(m.children)
}

/// The tallest height among a list of nodes.
pub open spec fn depth_list(s: Seq<NodeModel>) -> nat
    decreases s,
{
    if s.len() == 0 {
        0nat
    } else {
        let head = node_depth(s[0]);
        let rest = depth_list(s.drop_first());
        if head >= rest {
            head
        } else {
            rest
        }
    }
}

/// Depth law: however cyclic the raw data, an expansion is never deeper
/// than one more than the number of producible items the active path has
/// not yet passed through, so the recursion is bounded by the longest
/// dependency chain the guard admits.
pub proof fn lemma_expand_depth_bounded(
    cat: Seq<Reaction>,
    owned: Set<u32>,
    entries: Seq<(String, PriceInfo)>,
    name: Seq<char>,
    id: u32,
    quantity: u64,
    visiting: Set<u32>,
)
    ensures
        node_depth(spec_expand(cat, owned, entries, name, id, quantity, visiting))
            <= crate::reachability::free_count(cat, visiting) + 1,
    decreases crate::reachability::free_count(cat, visiting), 0nat,
{
    broadcast use {vstd::seq_lib::seq_to_set_is_finite, vstd::set::group_set_axioms};

    if !owned.contains(id) {
        if let Some(r) = crate::reactions::spec_lookup(cat, id) {
            if !visiting.contains(id) {
                crate::reactions::lemma_lookup_properties(cat, id);
                crate::reachability::lemma_free_insert_lt(cat, visiting, id);
                lemma_depth_list_bounded(
                    cat,
                    owned,
                    entries,
                    r.inputs@,
                    crate::reaction_tree::spec_runs(quantity, r.output.quantity),
                    visiting.insert(id),
                );
            }
        }
    }
}

/// Depth law over a list of inputs.
proof fn lemma_depth_list_bounded(
    cat: Seq<Reaction>,
    owned: Set<u32>,
    entries: Seq<(String, PriceInfo)>,
    inputs: Seq<crate::reactions::ReactionItem>,
    runs: int,
    visiting: Set<u32>,
)
    ensures
        depth_list(spec_expand_children(cat, owned, entries, inputs, runs, visiting))
            <= crate::reachability::free_count(cat, visiting) + 1,
    decreases crate::reachability::free_count(cat, visiting), inputs.len() + 1,
{
    broadcast use {vstd::seq_lib::seq_to_set_is_finite, vstd::set::group_set_axioms};

    if inputs.len() > 0 {
        lemma_expand_depth_bounded(
            cat,
            owned,
            entries,
            inputs[0].name@,
            inputs[0].id,
            crate::reaction_tree::spec_scaled(inputs[0].quantity, runs),
            visiting,
        );
        lemma_depth_list_bounded(cat, owned, entries, inputs.drop_first(), runs, visiting);
        let s = spec_expand_children(cat, owned, entries, inputs, runs, visiting);
        assert(s.drop_first() =~= spec_expand_children(
            cat,
            owned,
            entries,
            inputs.drop_first(),
            runs,
            visiting,
        ));
    }
}

/// The longest non-cyclic dependency chain from an item that the guard set
/// admits: the item itself, plus the longest chain of any input of its
/// producing reaction with the item itself now guarded. An unproducible or
/// guarded item ends the chain. Guarding makes every chain simple, so this
/// is finite even on cyclic raw data.
pub open spec fn chain_bound(cat: Seq<Reaction>, id: u32, seen: Set<u32>) -> nat
    decreases crate::reachability::free_count(cat, seen), 0nat,
{
    match crate::reactions::spec_lookup(cat, id) {
        Some(r) => {
            if !seen.contains(id) {
                proof {
                    broadcast use {vstd::seq_lib::seq_to_set_is_finite, vstd::set::group_set_axioms};

                    crate::reactions::lemma_lookup_properties(cat, id);
                    crate::reachability::lemma_free_insert_lt(cat, seen, id);
                }
                1 + chain_list_bound(cat, r.inputs@, seen.insert(id))
            } else {
                1
            }
        },
        None => 1,
    }
}

/// The longest chain among a list of input items.
pub open spec fn chain_list_bound(
    cat: Seq<Reaction>,
    inputs: Seq<crate::reactions::ReactionItem>,
    seen: Set<u32>,
) -> nat
    decreases crate::reachability::free_count(cat, seen), inputs.len() + 1,
{
    if inputs.len() == 0 {
        0nat
    } else {
        let head = chain_bound(cat, inputs[0].id, seen);
        let rest = chain_list_bound(cat, inputs.drop_first(), seen);
        if head >= rest {
            head
        } else {
            rest
        }
    }
}

/// Depth law in chain terms: an expansion is never deeper than the longest
/// non-cyclic dependency chain from its item that the active path still
/// admits, however cyclic the raw data — the guard cuts every cycle.
pub proof fn lemma_expand_depth_chain(
    cat: Seq<Reaction>,
    owned: Set<u32>,
    entries: Seq<(String, PriceInfo)>,
    name: Seq<char>,
    id: u32,
    quantity: u64,
    visiting: Set<u32>,
)
    ensures
        node_depth(spec_expand(cat, owned, entries, name, id, quantity, visiting)) <= chain_bound(
            cat,
            id,
            visiting,
        ),
    decreases crate::reachability::free_count(cat, visiting), 0nat,
{
    broadcast use {vstd::seq_lib::seq_to_set_is_finite, vstd::set::group_set_axioms};

    if !owned.contains(id) {
        if let Some(r) = crate::reactions::spec_lookup(cat, id) {
            if !visiting.contains(id) {
                crate::reactions::lemma_lookup_properties(cat, id);
                crate::reachability::lemma_free_insert_lt(cat, visiting, id);
                lemma_depth_list_chain(
                    cat,
                    owned,
                    entries,
                    r.inputs@,
                    crate::reaction_tree::spec_runs(quantity, r.output.quantity),
                    visiting.insert(id),
                );
            }
        }
    }
}

/// Chain-bound depth law over a list of inputs. The chain does not depend
/// on the required quantities, so any run scaling is covered.
proof fn lemma_depth_list_chain(
    cat: Seq<Reaction>,
    owned: Set<u32>,
    entries: Seq<(String, PriceInfo)>,
    inputs: Seq<crate::reactions::ReactionItem>,
    runs: int,
    visiting: Set<u32>,
)
    ensures
        depth_list(spec_expand_children(cat, owned, entries, inputs, runs, visiting))
            <= chain_list_bound(cat, inputs, visiting),
    decreases crate::reachability::free_count(cat, visiting), inputs.len() + 1,
{
    broadcast use {vstd::seq_lib::seq_to_set_is_finite, vstd::set::group_set_axioms};

    if inputs.len() > 0 {
        lemma_expand_depth_chain(
            cat,
            owned,
            entries,
            inputs[0].name@,
            inputs[0].id,
            crate::reaction_tree::spec_scaled(inputs[0].quantity, runs),
            visiting,
        );
        lemma_depth_list_chain(cat, owned, entries, inputs.drop_first(), runs, visiting);
        let s = spec_expand_children(cat, owned, entries, inputs, runs, visiting);
        assert(s.drop_first() =~= spec_expand_children(
            cat,
            owned,
            entries,
            inputs.drop_first(),
            runs,
            visiting,
        ));
    }
}

/// Chain-bound depth law for whole plans: a full sourcing tree is never
/// deeper than the longest non-cyclic dependency chain from its output.
pub proof fn lemma_full_tree_depth_chain(
    cat: Seq<Reaction>,
    owned: Set<u32>,
    entries: Seq<(String, PriceInfo)>,
    name: Seq<char>,
    id: u32,
    quantity: u32,
)
    ensures
        node_depth(spec_full_tree(cat, owned, entries, name, id, quantity)) <= chain_bound(
            cat,
            id,
            Set::empty(),
        ),
{
    broadcast use {vstd::seq_lib::seq_to_set_is_finite, vstd::set::group_set_axioms};

    if let Some(r) = crate::reactions::spec_lookup(cat, id) {
        crate::reactions::lemma_lookup_properties(cat, id);
        crate::reachability::lemma_free_insert_lt(cat, Set::empty(), id);
        lemma_depth_list_chain(cat, owned, entries, r.inputs@, 1, Set::empty().insert(id));
    }
}

/// A node's price fields are consistent: the total is the unit price times
/// the quantity, here and in every child.
pub open spec fn node_prices_consistent(m: NodeModel) -> bool
    decreases m,
{
    &&& m.total_price == m.unit_price * m.quantity
    &&& all_prices_consistent(m.children)
}

/// Price consistency of a list of nodes.
pub open spec fn all_prices_consistent(s: Seq<NodeModel>) -> bool
    decreases s,
{
    if s.len() == 0 {
        true
    } else {
        node_prices_consistent(s[0]) && all_prices_consistent(s.drop_first())
    }
}

/// Pointwise reading of `all_prices_consistent`.
pub proof fn lemma_all_prices_index(s: Seq<NodeModel>)
    requires
        all_prices_consistent(s),
    ensures
        forall|i: int| 0 <= i < s.len() ==> node_prices_consistent(#[trigger] s[i]),
    decreases s.len(),
{
    if s.len() > 0 {
        lemma_all_prices_index(s.drop_first());
        assert forall|i: int| 0 <= i < s.len() implies node_prices_consistent(
            #[trigger] s[i],
        ) by {
            if i > 0 {
                assert(s.drop_first()[i - 1] == s[i]);
            }
        }
    }
}

/// Profit law, tree part: every node an expansion produces has
/// `total_price == unit_price * quantity`.
pub proof fn lemma_expand_prices(
    cat: Seq<Reaction>,
    owned: Set<u32>,
    entries: Seq<(String, PriceInfo)>,
    name: Seq<char>,
    id: u32,
    quantity: u64,
    visiting: Set<u32>,
)
    ensures
        node_prices_consistent(spec_expand(cat, owned, entries, name, id, quantity, visiting)),
    decreases crate::reachability::free_count(cat, visiting), 0nat,
{
    broadcast use {vstd::seq_lib::seq_to_set_is_finite, vstd::set::group_set_axioms};

    let m = spec_expand(cat, owned, entries, name, id, quantity, visiting);
    if !owned.contains(id) {
        if let Some(r) = crate::reactions::spec_lookup(cat, id) {
            if !visiting.contains(id) {
                crate::reactions::lemma_lookup_properties(cat, id);
                crate::reachability::lemma_free_insert_lt(cat, visiting, id);
                lemma_expand_children_prices(
                    cat,
                    owned,
                    entries,
                    r.inputs@,
                    crate::reaction_tree::spec_runs(quantity, r.output.quantity),
                    visiting.insert(id),
                );
            }
        }
    }
}

/// Tree part of the profit law, over a list of inputs.
pub proof fn lemma_expand_children_prices(
    cat: Seq<Reaction>,
    owned: Set<u32>,
    entries: Seq<(String, PriceInfo)>,
    inputs: Seq<crate::reactions::ReactionItem>,
    runs: int,
    visiting: Set<u32>,
)
    ensures
        all_prices_consistent(spec_expand_children(cat, owned, entries, inputs, runs, visiting)),
    decreases crate::reachability::free_count(cat, visiting), inputs.len() + 1,
{
    broadcast use {vstd::seq_lib::seq_to_set_is_finite, vstd::set::group_set_axioms};

    if inputs.len() > 0 {
        lemma_expand_prices(
            cat,
            owned,
            entries,
            inputs[0].name@,
            inputs[0].id,
            crate::reaction_tree::spec_scaled(inputs[0].quantity, runs),
            visiting,
        );
        lemma_expand_children_prices(cat, owned, entries, inputs.drop_first(), runs, visiting);
        let s = spec_expand_children(cat, owned, entries, inputs, runs, visiting);
        assert(s.drop_first() =~= spec_expand_children(
            cat,
            owned,
            entries,
            inputs.drop_first(),
            runs,
            visiting,
        ));
    }
}

/// Profit law for whole plans: the root and every node of a full sourcing
/// tree price consistently.
pub proof fn lemma_full_tree_prices(
    cat: Seq<Reaction>,
    owned: Set<u32>,
    entries: Seq<(String, PriceInfo)>,
    name: Seq<char>,
    id: u32,
    quantity: u32,
)
    ensures
        node_prices_consistent(spec_full_tree(cat, owned, entries, name, id, quantity)),
{
    if let Some(r) = crate::reactions::spec_lookup(cat, id) {
        lemma_expand_children_prices(
            cat,
            owned,
            entries,
            r.inputs@,
            1,
            Set::empty().insert(id),
        );
    }
}

} // verus!
