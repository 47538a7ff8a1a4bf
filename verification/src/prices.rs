//! Market prices and the profit calculator.
//!
//! Prices are whole market units. A reaction's profit for one run is
//! `output_value - input_cost`, where every input is costed at its sell
//! price: consuming a tradeable good forgoes its sale, even when the user
//! owns it. The margin is reported in hundredths of a percent, rounded to
//! the nearest, and is zero when the input cost is zero.

use vstd::prelude::*;
use vstd::arithmetic::mul::lemma_mul_upper_bound;
use std::collections::HashSet;

use crate::reaction_tree::NodeModel;
use crate::reaction_tree::ReactionTreeNode;
use crate::reaction_tree::node_model;
use crate::reaction_tree::unit_price_of;
use crate::reactions::Reaction;
use crate::reactions::ReactionItem;
use crate::reactions::reaction_wf;
use crate::strutil::str_eq;

verus! {

broadcast use vstd::std_specs::hash::group_hash_axioms;

/// The largest possible sell-price contribution of a single input slot.
pub open spec fn max_slot_cost() -> int {
    0xFFFF_FFFE_0000_0001
}

/// Buy and sell price of one item, in whole market units.
#[derive(Clone, Copy, Debug, PartialEq, Eq, Structural)]
pub struct PriceInfo {
    pub buy: u32,
    pub sell: u32,
}

/// A frozen snapshot of market prices, keyed by item name. The table is
/// built once per analysis and only read afterwards; the first entry for a
/// name is the one that counts.
pub struct PriceTable {
    pub entries: Vec<(String, PriceInfo)>,
}

/// The price recorded for a name: the first matching entry, or `None` when
/// the name is absent, meaning "price unknown", never zero.
pub open spec fn price_of(entries: Seq<(String, PriceInfo)>, name: Seq<char>) -> Option<PriceInfo>
    decreases entries.len(),
{
    if entries.len() == 0 {
        None
    } else if entries[0].0@ == name {
        Some(entries[0].1)
    } else {
        price_of(entries.drop_first(), name)
    }
}

/// Unrolls one step of `price_of` over a suffix of the table.
proof fn lemma_price_of_skip_step(entries: Seq<(String, PriceInfo)>, name: Seq<char>, i: int)
    requires
        0 <= i < entries.len(),
    ensures
        entries[i].0@ == name ==> price_of(entries.skip(i), name) == Some(entries[i].1),
        entries[i].0@ != name ==> price_of(entries.skip(i), name) == price_of(
            entries.skip(i + 1),
            name,
        ),
{
    assert(entries.skip(i)[0] == entries[i]);
    assert(entries.skip(i).drop_first() =~= entries.skip(i + 1));
}

impl PriceTable {
    /// An empty snapshot.
    pub fn new() -> (t: PriceTable)
        ensures
            t.entries@.len() == 0,
    {
        PriceTable { entries: Vec::new() }
    }

    /// Records a price. Entries recorded earlier win on lookup, so a
    /// snapshot never changes an already-recorded price.
    pub fn insert(&mut self, name: String, price: PriceInfo)
        ensures
            final(self).entries@ == old(self).entries@.push((name, price)),
    {
        self.entries.push((name, price));
    }

    /// Looks a name up in the snapshot.
    pub fn get(&self, name: &str) -> (r: Option<PriceInfo>)
        ensures
            r == price_of(self.entries@, name@),
    {
        let n = self.entries.len();
        proof {
            assert(self.entries@.skip(0) =~= self.entries@);
        }
        for i in 0..n
            invariant
                n == self.entries@.len(),
                price_of(self.entries@, name@) == price_of(self.entries@.skip(i as int), name@),
        {
            proof {
                lemma_price_of_skip_step(self.entries@, name@, i as int);
            }
            if str_eq(self.entries[i].0.as_str(), name) {
                return Some(self.entries[i].1);
            }
        }
        None
    }
}

/// One line of the cost breakdown shown for a priced reaction.
#[derive(Clone, Debug)]
pub struct InputBreakdown {
    pub name: String,
    pub quantity: u32,
    pub unit_price: u32,
    pub total_price: u64,
    /// The user already owns this input; it still carries its sell price as
    /// opportunity cost.
    pub from_moon: bool,
}

/// The full profitability summary of one reaction run, with the sourcing
/// plan attached after tree expansion.
#[derive(Debug)]
pub struct ReactionProfit {
    pub formula_id: u32,
    pub formula_name: String,
    pub output_name: String,
    pub output_id: u32,
    pub output_quantity: u32,
    pub output_unit_price: u32,
    pub output_value: u64,
    /// Total opportunity cost of all inputs at sell value.
    pub input_cost: u128,
    pub profit: i128,
    /// Margin in hundredths of a percent, rounded to the nearest.
    pub margin: i128,
    pub inputs: Vec<InputBreakdown>,
    pub uses_user_materials: bool,
    pub reaction_tree: Option<ReactionTreeNode>,
}

/// Total sell-value of a reaction's inputs, or `None` as soon as any input
/// has no recorded price.
pub open spec fn spec_input_cost(
    inputs: Seq<ReactionItem>,
    entries: Seq<(String, PriceInfo)>,
) -> Option<int>
    decreases inputs.len(),
{
    if inputs.len() == 0 {
        Some(0)
    } else {
        match (price_of(entries, inputs[0].name@), spec_input_cost(inputs.drop_first(), entries)) {
            (Some(p), Some(rest)) => Some(p.sell * inputs[0].quantity + rest),
            _ => None,
        }
    }
}

/// The input cost is bounded by the number of slots times the largest
/// possible slot cost.
pub proof fn lemma_input_cost_bound(inputs: Seq<ReactionItem>, entries: Seq<(String, PriceInfo)>)
    ensures
        spec_input_cost(inputs, entries) matches Some(c) ==> 0 <= c <= inputs.len()
            * max_slot_cost(),
    decreases inputs.len(),
{
    if inputs.len() > 0 {
        lemma_input_cost_bound(inputs.drop_first(), entries);
        if let (Some(p), Some(rest)) = (
            price_of(entries, inputs[0].name@),
            spec_input_cost(inputs.drop_first(), entries),
        ) {
            lemma_mul_upper_bound(p.sell as int, 0xFFFF_FFFFint, inputs[0].quantity as int, 0xFFFF_FFFFint);
        }
    }
}

/// Margin in hundredths of a percent, rounded to the nearest (half away
/// from zero), and zero when the input cost is zero.
pub open spec fn spec_margin(profit: int, cost: int) -> int {
    if cost > 0 {
        if profit >= 0 {
            (profit * 10000 + cost / 2) / cost
        } else {
            -(((-profit) * 10000 + cost / 2) / cost)
        }
    } else {
        0
    }
}

/// One priced input slot matches its breakdown line.
pub open spec fn breakdown_matches(
    b: InputBreakdown,
    it: ReactionItem,
    entries: Seq<(String, PriceInfo)>,
    owned: Set<u32>,
) -> bool {
    &&& b.name == it.name
    &&& b.quantity == it.quantity
    &&& price_of(entries, it.name@) matches Some(p) && b.unit_price == p.sell && b.total_price
        == p.sell * it.quantity
    &&& b.from_moon == owned.contains(it.id)
}

/// The mathematical shape of one cost-breakdown line.
pub ghost struct InputModel {
    pub name: Seq<char>,
    pub quantity: u32,
    pub unit_price: int,
    pub total_price: int,
    pub from_moon: bool,
}

/// The mathematical shape of a profitability summary.
pub ghost struct ProfitModel {
    pub formula_id: u32,
    pub formula_name: Seq<char>,
    pub output_name: Seq<char>,
    pub output_id: u32,
    pub output_quantity: u32,
    pub output_unit_price: int,
    pub output_value: int,
    pub input_cost: int,
    pub profit: int,
    pub margin: int,
    pub inputs: Seq<InputModel>,
    pub uses_user_materials: bool,
    pub reaction_tree: Option<NodeModel>,
}

/// The model of an executable breakdown line.
pub open spec fn input_model(b: InputBreakdown) -> InputModel {
    InputModel {
        name: b.name@,
        quantity: b.quantity,
        unit_price: b.unit_price as int,
        total_price: b.total_price as int,
        from_moon: b.from_moon,
    }
}

/// The model of an executable profitability summary.
pub open spec fn profit_model(p: ReactionProfit) -> ProfitModel {
    ProfitModel {
        formula_id: p.formula_id,
        formula_name: p.formula_name@,
        output_name: p.output_name@,
        output_id: p.output_id,
        output_quantity: p.output_quantity,
        output_unit_price: p.output_unit_price as int,
        output_value: p.output_value as int,
        input_cost: p.input_cost as int,
        profit: p.profit as int,
        margin: p.margin as int,
        inputs: p.inputs@.map_values(|b: InputBreakdown| input_model(b)),
        uses_user_materials: p.uses_user_materials,
        reaction_tree: match p.reaction_tree {
            Some(t) => Some(node_model(t)),
            None => None,
        },
    }
}

/// The input cost when every input is priced, else zero; only meaningful
/// under a complete price snapshot.
pub open spec fn cost_or_zero(inputs: Seq<ReactionItem>, entries: Seq<(String, PriceInfo)>) -> int {
    match spec_input_cost(inputs, entries) {
        Some(c) => c,
        None => 0,
    }
}

/// The breakdown line one priced input slot produces.
pub open spec fn spec_breakdown(
    it: ReactionItem,
    entries: Seq<(String, PriceInfo)>,
    owned: Set<u32>,
) -> InputModel {
    InputModel {
        name: it.name@,
        quantity: it.quantity,
        unit_price: unit_price_of(entries, it.name@) as int,
        total_price: unit_price_of(entries, it.name@) * it.quantity,
        from_moon: owned.contains(it.id),
    }
}

/// The summary one run of a fully priced reaction produces, before the
/// sourcing tree is attached.
pub open spec fn spec_profit(
    r: Reaction,
    entries: Seq<(String, PriceInfo)>,
    owned: Set<u32>,
) -> ProfitModel {
    let unit = unit_price_of(entries, r.output.name@) as int;
    let value = unit * r.output.quantity;
    let cost = cost_or_zero(r.inputs@, entries);
    ProfitModel {
        formula_id: r.formula_id,
        formula_name: r.formula_name@,
        output_name: r.output.name@,
        output_id: r.output.id,
        output_quantity: r.output.quantity,
        output_unit_price: unit,
        output_value: value,
        input_cost: cost,
        profit: value - cost,
        margin: spec_margin(value - cost, cost),
        inputs: Seq::new(r.inputs@.len(), |i: int| spec_breakdown(r.inputs@[i], entries, owned)),
        uses_user_materials: exists|i: int|
            0 <= i < r.inputs@.len() && owned.contains(r.inputs@[i].id),
        reaction_tree: None,
    }
}

/// Prices one run of a reaction. Returns `None` exactly when the output or
/// any input lacks a recorded price: a partial profit is never reported.
/// The sourcing tree is attached later and starts out empty.
pub fn calculate_reaction_profit(
    reaction: &Reaction,
    prices: &PriceTable,
    user_material_ids: &HashSet<u32>,
) -> (res: Option<ReactionProfit>)
    requires
        reaction_wf(*reaction),
    ensures
        res is Some <==> (price_of(prices.entries@, reaction.output.name@) is Some
            && spec_input_cost(reaction.inputs@, prices.entries@) is Some),
        res matches Some(p) ==> {
            &&& p.formula_id == reaction.formula_id
            &&& p.formula_name == reaction.formula_name
            &&& p.output_name == reaction.output.name
            &&& p.output_id == reaction.output.id
            &&& p.output_quantity == reaction.output.quantity
            &&& price_of(prices.entries@, reaction.output.name@) matches Some(op)
                && p.output_unit_price == op.sell
            &&& p.output_value == p.output_unit_price * p.output_quantity
            &&& spec_input_cost(reaction.inputs@, prices.entries@) == Some(p.input_cost as int)
            &&& p.profit == p.output_value - p.input_cost
            &&& p.margin == spec_margin(p.profit as int, p.input_cost as int)
            &&& p.inputs@.len() == reaction.inputs@.len()
            &&& forall|i: int|
                0 <= i < reaction.inputs@.len() ==> breakdown_matches(
                    p.inputs@[i],
                    reaction.inputs@[i],
                    prices.entries@,
                    user_material_ids@,
                )
            &&& p.uses_user_materials == exists|i: int|
                0 <= i < reaction.inputs@.len() && user_material_ids@.contains(
                    reaction.inputs@[i].id,
                )
            &&& p.reaction_tree is None
            &&& profit_model(p) == spec_profit(*reaction, prices.entries@, user_material_ids@)
        },
{
    let output_price = match prices.get(reaction.output.name.as_str()) {
        Some(p) => p,
        None => {
            return None;
        },
    };
    let output_unit_price = output_price.sell;
    proof {
        lemma_mul_upper_bound(
            output_unit_price as int,
            0xFFFF_FFFFint,
            reaction.output.quantity as int,
            0xFFFF_FFFFint,
        );
    }
    let output_value: u64 = (output_unit_price as u64) * (reaction.output.quantity as u64);

    let mut input_cost: u128 = 0;
    let mut inputs: Vec<InputBreakdown> = Vec::new();
    let mut uses_user_materials = false;
    let n = reaction.inputs.len();
    proof {
        assert(reaction.inputs@.skip(0) =~= reaction.inputs@);
    }
    for i in 0..n
        invariant
            n == reaction.inputs@.len(),
            n <= 0xFFFF_FFFF,
            inputs@.len() == i,
            input_cost <= i * max_slot_cost(),
            forall|j: int|
                0 <= j < i ==> breakdown_matches(
                    inputs@[j],
                    reaction.inputs@[j],
                    prices.entries@,
                    user_material_ids@,
                ),
            uses_user_materials == exists|j: int|
                0 <= j < i && user_material_ids@.contains(reaction.inputs@[j].id),
            spec_input_cost(reaction.inputs@, prices.entries@) == match spec_input_cost(
                reaction.inputs@.skip(i as int),
                prices.entries@,
            ) {
                Some(rest) => Some(input_cost + rest),
                None => None::<int>,
            },
    {
        proof {
            assert(reaction.inputs@.skip(i as int)[0] == reaction.inputs@[i as int]);
            assert(reaction.inputs@.skip(i as int).drop_first() =~= reaction.inputs@.skip(
                i as int + 1,
            ));
        }
        let input = &reaction.inputs[i];
        let input_price = match prices.get(input.name.as_str()) {
            Some(p) => p,
            None => {
                return None;
            },
        };
        let unit_price = input_price.sell;
        let from_moon = user_material_ids.contains(&input.id);
        if from_moon {
            uses_user_materials = true;
        }
        proof {
            lemma_mul_upper_bound(
                unit_price as int,
                0xFFFF_FFFFint,
                input.quantity as int,
                0xFFFF_FFFFint,
            );
        }
        let total_price: u64 = (unit_price as u64) * (input.quantity as u64);
        input_cost = input_cost + (total_price as u128);
        inputs.push(
            InputBreakdown {
                name: input.name.clone(),
                quantity: input.quantity,
                unit_price,
                total_price,
                from_moon,
            },
        );
    }
    proof {
        assert(reaction.inputs@.skip(n as int) =~= Seq::<ReactionItem>::empty());
    }

    let profit: i128 = (output_value as i128) - (input_cost as i128);
    let margin: i128 = if input_cost > 0 {
        if profit >= 0 {
            let m: u128 = ((profit as u128) * 10000 + input_cost / 2) / input_cost;
            m as i128
        } else {
            let neg: u128 = (-profit) as u128;
            let m: u128 = (neg * 10000 + input_cost / 2) / input_cost;
            -(m as i128)
        }
    } else {
        0
    };

    let result = ReactionProfit {
        formula_id: reaction.formula_id,
        formula_name: reaction.formula_name.clone(),
        output_name: reaction.output.name.clone(),
        output_id: reaction.output.id,
        output_quantity: reaction.output.quantity,
        output_unit_price,
        output_value,
        input_cost,
        profit,
        margin,
        inputs,
        uses_user_materials,
        reaction_tree: None,
    };
    proof {
        assert(profit_model(result).inputs =~= spec_profit(
            *reaction,
            prices.entries@,
            user_material_ids@,
        ).inputs);
    }
    Some(result)
}

} // verus!
