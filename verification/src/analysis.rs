//! The analysis pipeline: from the user's scanned ore names and a frozen
//! price snapshot to the ranked list of profitable reactions, each carrying
//! its full sourcing plan.
//!
//! The pipeline is a pure function of the catalog, the ore-to-material
//! mapping, the owned ore names and the price snapshot: `spec_analyze` is
//! that function, and the executable `analyze_reactions` is pinned to it.

use vstd::prelude::*;
use std::collections::HashSet;

use crate::ore_mappings::OreMappings;
use crate::ore_mappings::goo_target;
use crate::prices::PriceInfo;
use crate::prices::PriceTable;
use crate::prices::ProfitModel;
use crate::prices::ReactionProfit;
use crate::prices::calculate_reaction_profit;
use crate::prices::price_of;
use crate::prices::profit_model;
use crate::prices::spec_input_cost;
use crate::prices::spec_profit;
use crate::reachability::reach_any;
use crate::reachability::reaction_uses_user_materials;
use crate::reaction_tree::build_full_reaction_tree;
use crate::reaction_tree::spec_full_tree;
use crate::reactions::Reaction;
use crate::reactions::ReactionDatabase;
use crate::reactions::catalog_wf;
use crate::reactions::name_in;
use crate::reactions::spec_name_to_id;

verus! {

broadcast use vstd::std_specs::hash::group_hash_axioms;

/// Why an analysis returns no result list.
#[derive(Clone, Copy, Debug, PartialEq, Eq, Structural)]
pub enum AnalysisError {
    /// The user owns no materials at all: there is nothing to analyse.
    NoMaterials,
    /// None of the owned names is a recognisable moon ore.
    NoValidOres,
}

impl AnalysisError {
    /// A human-readable description of the failure.
    pub fn message(&self) -> (r: String)
        ensures
            self is NoMaterials ==> r@ == "No moons loaded. Add some moons first."@,
            self is NoValidOres ==> r@
                == "No valid moon ores found. Make sure you're pasting moon scan data."@,
            r@.len() > 0,
    {
        let s = match self {
            AnalysisError::NoMaterials => "No moons loaded. Add some moons first.",
            AnalysisError::NoValidOres => {
                "No valid moon ores found. Make sure you're pasting moon scan data."
            },
        };
        proof {
            reveal_strlit("No moons loaded. Add some moons first.");
            reveal_strlit("No valid moon ores found. Make sure you're pasting moon scan data.");
        }
        s.to_owned()
    }
}

/// The owned-material id set an ore-name list resolves to: every refined
/// material one of the ores yields, translated to its catalog id.
pub open spec fn spec_owned_ids(
    cat: Seq<Reaction>,
    mappings: Seq<(String, Vec<String>)>,
    ore_names: Seq<String>,
) -> Set<u32> {
    Set::new(
        |id: u32|
            exists|k: int, m: Seq<char>|
                0 <= k < ore_names.len() && goo_target(mappings, ore_names[k]@, m)
                    && spec_name_to_id(cat, m) == Some(id),
    )
}

/// Some owned ore yields at least one refined material the mapping knows.
pub open spec fn spec_has_goo(
    mappings: Seq<(String, Vec<String>)>,
    ore_names: Seq<String>,
) -> bool {
    exists|k: int, m: Seq<char>| 0 <= k < ore_names.len() && goo_target(mappings, ore_names[k]@, m)
}

/// A reaction is a candidate when some direct input traces back to the
/// owned materials, every involved item is priced, and the run is strictly
/// profitable.
pub open spec fn spec_is_candidate(
    cat: Seq<Reaction>,
    owned: Set<u32>,
    entries: Seq<(String, PriceInfo)>,
    r: Reaction,
) -> bool {
    &&& reach_any(cat, owned, r.inputs@, Set::empty())
    &&& price_of(entries, r.output.name@) is Some
    &&& spec_input_cost(r.inputs@, entries) is Some
    &&& spec_profit(r, entries, owned).profit > 0
}

/// The candidate's summary with its sourcing plan attached.
pub open spec fn spec_candidate(
    cat: Seq<Reaction>,
    owned: Set<u32>,
    entries: Seq<(String, PriceInfo)>,
    r: Reaction,
) -> ProfitModel {
    ProfitModel {
        reaction_tree: Some(
            spec_full_tree(cat, owned, entries, r.output.name@, r.output.id, r.output.quantity),
        ),
        ..spec_profit(r, entries, owned)
    }
}

/// The candidates among the catalog's reactions from position `i` on, in
/// catalog order.
pub open spec fn spec_candidates(
    cat: Seq<Reaction>,
    owned: Set<u32>,
    entries: Seq<(String, PriceInfo)>,
    i: int,
) -> Seq<ProfitModel>
    decreases cat.len() - i,
{
    if i < 0 || i >= cat.len() {
        Seq::empty()
    } else {
        let rest = spec_candidates(cat, owned, entries, i + 1);
        if spec_is_candidate(cat, owned, entries, cat[i]) {
            seq![spec_candidate(cat, owned, entries, cat[i])] + rest
        } else {
            rest
        }
    }
}

/// Inserts a summary into a list already ranked by descending margin,
/// after every entry whose margin is at least as high: equal margins keep
/// their earlier order, so the ranking is stable.
pub open spec fn spec_insert_ranked(s: Seq<ProfitModel>, x: ProfitModel) -> Seq<ProfitModel>
    decreases s.len(),
{
    if s.len() == 0 {
        seq![x]
    } else if s[0].margin < x.margin {
        seq![x] + s
    } else {
        seq![s[0]] + spec_insert_ranked(s.drop_first(), x)
    }
}

/// Ranks summaries by descending margin, stably.
pub open spec fn spec_rank(s: Seq<ProfitModel>) -> Seq<ProfitModel>
    decreases s.len(),
{
    if s.len() == 0 {
        Seq::empty()
    } else {
        spec_insert_ranked(spec_rank(s.drop_last()), s.last())
    }
}

/// The whole analysis: every candidate reaction of the catalog, priced,
/// expanded into a sourcing plan, and ranked by descending margin.
pub open spec fn spec_analyze(
    cat: Seq<Reaction>,
    owned: Set<u32>,
    entries: Seq<(String, PriceInfo)>,
) -> Seq<ProfitModel> {
    spec_rank(spec_candidates(cat, owned, entries, 0))
}

/// The models of a list of executable summaries.
pub open spec fn profit_models(s: Seq<ReactionProfit>) -> Seq<ProfitModel> {
    s.map_values(|p: ReactionProfit| profit_model(p))
}

/// Inserting into a ranked list places the newcomer at the first position
/// whose margin is strictly lower.
proof fn lemma_insert_ranked_at(s: Seq<ProfitModel>, x: ProfitModel, k: int)
    requires
        0 <= k <= s.len(),
        forall|j: int| 0 <= j < k ==> !(s[j].margin < x.margin),
        k < s.len() ==> s[k].margin < x.margin,
    ensures
        spec_insert_ranked(s, x) == s.take(k) + seq![x] + s.skip(k),
    decreases k,
{
    if k == 0 {
        if s.len() == 0 {
            assert(spec_insert_ranked(s, x) =~= s.take(0) + seq![x] + s.skip(0));
        } else {
            assert(s.take(0) + seq![x] + s.skip(0) =~= seq![x] + s);
        }
    } else {
        assert(!(s[0].margin < x.margin));
        lemma_insert_ranked_at(s.drop_first(), x, k - 1);
        assert(s.drop_first().take(k - 1) =~= s.take(k).drop_first());
        assert(s.drop_first().skip(k - 1) =~= s.skip(k));
        assert(seq![s[0]] + (s.take(k).drop_first() + seq![x] + s.skip(k)) =~= s.take(k)
            + seq![x] + s.skip(k));
    }
}

/// Runs the analysis on already-fetched data: resolves the owned ores to
/// material ids, keeps the reactions that use them and are strictly
/// profitable under the snapshot, attaches each one's sourcing plan, and
/// ranks by descending margin. An empty ownership is an error, never an
/// empty success.
pub fn analyze_reactions(
    reactions_db: &ReactionDatabase,
    ore_mappings: &OreMappings,
    ore_names: &Vec<String>,
    prices: &PriceTable,
) -> (res: Result<Vec<ReactionProfit>, AnalysisError>)
    requires
        catalog_wf(reactions_db.reactions@),
    ensures
        match res {
            Ok(v) => {
                &&& ore_names@.len() > 0
                &&& spec_has_goo(ore_mappings@, ore_names@)
                &&& profit_models(v@) == spec_analyze(
                    reactions_db.reactions@,
                    spec_owned_ids(reactions_db.reactions@, ore_mappings@, ore_names@),
                    prices.entries@,
                )
            },
            Err(e) => {
                &&& e == AnalysisError::NoMaterials <==> ore_names@.len() == 0
                &&& e == AnalysisError::NoValidOres <==> (ore_names@.len() > 0 && !spec_has_goo(
                    ore_mappings@,
                    ore_names@,
                ))
            },
        },
{
    let ghost cat = reactions_db.reactions@;
    let ghost mv = ore_mappings@;
    if ore_names.len() == 0 {
        return Err(AnalysisError::NoMaterials);
    }

    let moon_goo = ore_mappings.ores_to_moon_goo(ore_names);
    if moon_goo.len() == 0 {
        proof {
            assert forall|k: int, m: Seq<char>|
                !(0 <= k < ore_names@.len() && goo_target(mv, ore_names@[k]@, m)) by {
                if 0 <= k < ore_names@.len() && goo_target(mv, ore_names@[k]@, m) {
                    assert(name_in(moon_goo@, m));
                }
            }
        }
        return Err(AnalysisError::NoValidOres);
    }
    proof {
        assert(name_in(moon_goo@, moon_goo@[0]@));
        assert(spec_has_goo(mv, ore_names@));
    }

    let user_material_ids = reactions_db.get_user_material_ids(&moon_goo);
    let ghost owned = spec_owned_ids(cat, mv, ore_names@);
    proof {
        assert forall|id: u32| user_material_ids@.contains(id) implies owned.contains(id) by {
            let p = choose|p: int|
                0 <= p < moon_goo@.len() && spec_name_to_id(cat, moon_goo@[p]@) == Some(id);
            assert(name_in(moon_goo@, moon_goo@[p]@));
        }
        assert forall|id: u32| owned.contains(id) implies user_material_ids@.contains(id) by {
            let (k, m) = choose|k: int, m: Seq<char>|
                0 <= k < ore_names@.len() && goo_target(mv, ore_names@[k]@, m) && spec_name_to_id(
                    cat,
                    m,
                ) == Some(id);
            assert(name_in(moon_goo@, m));
            let q = choose|q: int| 0 <= q < moon_goo@.len() && moon_goo@[q]@ == m;
            assert(spec_name_to_id(cat, moon_goo@[q]@) == Some(id));
        }
        assert(user_material_ids@ =~= owned);
    }

    let mut found: Vec<ReactionProfit> = Vec::new();
    let n = reactions_db.reactions.len();
    for i in 0..n
        invariant
            n == cat.len(),
            cat == reactions_db.reactions@,
            catalog_wf(cat),
            user_material_ids@ == owned,
            spec_candidates(cat, owned, prices.entries@, 0) == profit_models(found@)
                + spec_candidates(cat, owned, prices.entries@, i as int),
    {
        let reaction = &reactions_db.reactions[i];
        let ghost pre = found@;
        if reaction_uses_user_materials(reaction, reactions_db, &user_material_ids) {
            if let Some(mut p) = calculate_reaction_profit(reaction, prices, &user_material_ids) {
                if p.profit > 0 {
                    let tree = build_full_reaction_tree(
                        p.output_name.as_str(),
                        p.output_id,
                        p.output_quantity,
                        reactions_db,
                        &user_material_ids,
                        prices,
                    );
                    p.reaction_tree = Some(tree);
                    proof {
                        assert(profit_model(p) == spec_candidate(
                            cat,
                            owned,
                            prices.entries@,
                            cat[i as int],
                        ));
                    }
                    found.push(p);
                    proof {
                        assert(profit_models(found@) =~= profit_models(pre) + seq![
                            profit_model(p),
                        ]);
                        assert(profit_models(pre) + (seq![profit_model(p)] + spec_candidates(
                            cat,
                            owned,
                            prices.entries@,
                            i as int + 1,
                        )) =~= (profit_models(pre) + seq![profit_model(p)]) + spec_candidates(
                            cat,
                            owned,
                            prices.entries@,
                            i as int + 1,
                        ));
                    }
                }
            }
        }
    }

    let mut ranked: Vec<ReactionProfit> = Vec::new();
    let ghost all = profit_models(found@);
    let ghost total = all.len();
    proof {
        assert(spec_candidates(cat, owned, prices.entries@, n as int) =~= Seq::<
            ProfitModel,
        >::empty());
        assert(profit_models(found@) + Seq::<ProfitModel>::empty() =~= profit_models(found@));
        assert(all.skip(0) =~= all);
        assert(all.take(0) =~= Seq::<ProfitModel>::empty());
    }
    while found.len() > 0
        invariant
            profit_models(found@) == all.skip(total - found@.len()),
            found@.len() <= total,
            total == all.len(),
            profit_models(ranked@) == spec_rank(all.take(total - found@.len())),
        decreases found@.len(),
    {
        let ghost t = total - found@.len();
        let x = found.remove(0);
        proof {
            assert(profit_models(found@) =~= all.skip(t).drop_first());
            assert(all.skip(t).drop_first() =~= all.skip(t + 1));
            assert(profit_model(x) == all.skip(t)[0]);
            assert(all[t] == all.skip(t)[0]);
        }
        let mut idx: usize = 0;
        while idx < ranked.len() && !(ranked[idx].margin < x.margin)
            invariant
                idx <= ranked@.len(),
                forall|j: int|
                    0 <= j < idx ==> !((#[trigger] profit_models(ranked@)[j]).margin
                        < profit_model(x).margin),
            decreases ranked@.len() - idx,
        {
            idx = idx + 1;
        }
        let ghost pre_ranked = profit_models(ranked@);
        ranked.insert(idx, x);
        proof {
            lemma_insert_ranked_at(pre_ranked, profit_model(x), idx as int);
            assert(profit_models(ranked@) =~= pre_ranked.take(idx as int) + seq![
                profit_model(x),
            ] + pre_ranked.skip(idx as int));
            assert(all.take(t + 1).drop_last() =~= all.take(t));
            assert(all.take(t + 1).last() == all[t]);
        }
    }
    proof {
        assert(all.take(total as int) =~= all);
    }
    Ok(ranked)
}

} // verus!
