use moon_calculator::PriceInfo;
use moon_calculator::PriceTable;
use moon_calculator::Reaction;
use moon_calculator::ReactionDatabase;
use moon_calculator::ReactionItem;
use moon_calculator::SourceType;
use moon_calculator::build_full_reaction_tree;
use moon_calculator::build_reaction_tree;
use moon_calculator::calculate_reaction_profit;
use moon_calculator::reaction_uses_user_materials;
use moon_calculator::traces_to_moon_materials;
use std::collections::HashSet;

fn item(name: &str, id: u32, quantity: u32) -> ReactionItem {
    ReactionItem { name: name.to_string(), id, quantity }
}

fn reaction(fid: u32, fname: &str, output: ReactionItem, inputs: Vec<ReactionItem>) -> Reaction {
    Reaction { formula_id: fid, formula_name: fname.to_string(), output, inputs }
}

fn widget_db() -> ReactionDatabase {
    // R1: 2x Widget <- 1x Cobalt + 1x Tungsten
    ReactionDatabase::new(vec![reaction(
        1,
        "Widget Formula",
        item("Widget", 100, 2),
        vec![item("Cobalt", 10, 1), item("Tungsten", 20, 1)],
    )])
}

fn widget_prices() -> PriceTable {
    let mut t = PriceTable::new();
    t.insert("Widget".to_string(), PriceInfo { buy: 90, sell: 100 });
    t.insert("Cobalt".to_string(), PriceInfo { buy: 8, sell: 10 });
    t.insert("Tungsten".to_string(), PriceInfo { buy: 15, sell: 20 });
    t
}

#[test]
fn owned_item_always_traces() {
    let db = widget_db();
    let mut owned = HashSet::new();
    owned.insert(10u32);
    let mut visited = HashSet::new();
    assert!(traces_to_moon_materials(10, &db, &owned, &mut visited));
    // An owned item traces even when it has a producing reaction.
    let mut owned2 = HashSet::new();
    owned2.insert(100u32);
    let mut visited2 = HashSet::new();
    assert!(traces_to_moon_materials(100, &db, &owned2, &mut visited2));
}

#[test]
fn traces_through_reaction_chain() {
    // Gear <- Widget <- Cobalt: Gear traces to owned Cobalt transitively.
    let db = ReactionDatabase::new(vec![
        reaction(
            1,
            "Widget Formula",
            item("Widget", 100, 2),
            vec![item("Cobalt", 10, 1), item("Tungsten", 20, 1)],
        ),
        reaction(2, "Gear Formula", item("Gear", 200, 1), vec![item("Widget", 100, 4)]),
    ]);
    let mut owned = HashSet::new();
    owned.insert(10u32);
    let mut visited = HashSet::new();
    assert!(traces_to_moon_materials(200, &db, &owned, &mut visited));
    assert!(visited.is_empty());
    // Nothing owned: nothing traces.
    let none: HashSet<u32> = HashSet::new();
    let mut visited2 = HashSet::new();
    assert!(!traces_to_moon_materials(200, &db, &none, &mut visited2));
    assert!(visited2.is_empty());
}

#[test]
fn traces_terminates_on_cycle() {
    // A <- B and B <- A: a production cycle in the raw data.
    let db = ReactionDatabase::new(vec![
        reaction(1, "A Formula", item("A", 1, 1), vec![item("B", 2, 1)]),
        reaction(2, "B Formula", item("B", 2, 1), vec![item("A", 1, 1)]),
    ]);
    let mut owned = HashSet::new();
    owned.insert(99u32);
    let mut visited = HashSet::new();
    assert!(!traces_to_moon_materials(1, &db, &owned, &mut visited));
    // The guard is per path: the walk leaves the set as it found it.
    assert!(visited.is_empty());
}

#[test]
fn reaction_uses_user_materials_checks_direct_inputs() {
    let db = widget_db();
    let r = &db.reactions[0];
    let mut owned = HashSet::new();
    owned.insert(10u32);
    assert!(reaction_uses_user_materials(r, &db, &owned));
    let mut unrelated = HashSet::new();
    unrelated.insert(555u32);
    assert!(!reaction_uses_user_materials(r, &db, &unrelated));
}

#[test]
fn profit_of_widget_run() {
    let db = widget_db();
    let prices = widget_prices();
    let mut owned = HashSet::new();
    owned.insert(10u32);
    let p = calculate_reaction_profit(&db.reactions[0], &prices, &owned).unwrap();
    assert_eq!(p.output_value, 200);
    assert_eq!(p.input_cost, 30);
    assert_eq!(p.profit, 170);
    // 170 / 30 * 100 = 566.67 percent, reported in hundredths of a percent.
    assert_eq!(p.margin, 56667);
    assert_eq!(p.inputs.len(), 2);
    assert_eq!(p.inputs[0].name, "Cobalt");
    assert!(p.inputs[0].from_moon);
    assert_eq!(p.inputs[0].total_price, 10);
    assert_eq!(p.inputs[1].name, "Tungsten");
    assert!(!p.inputs[1].from_moon);
    assert_eq!(p.inputs[1].total_price, 20);
    assert!(p.uses_user_materials);
    assert!(p.reaction_tree.is_none());
}

#[test]
fn profit_is_none_when_a_price_is_missing() {
    let db = widget_db();
    let mut prices = PriceTable::new();
    prices.insert("Widget".to_string(), PriceInfo { buy: 90, sell: 100 });
    prices.insert("Cobalt".to_string(), PriceInfo { buy: 8, sell: 10 });
    // Tungsten is missing: no partial profit is reported.
    let owned = HashSet::new();
    assert!(calculate_reaction_profit(&db.reactions[0], &prices, &owned).is_none());
}

#[test]
fn profit_margin_zero_when_cost_zero() {
    let db = ReactionDatabase::new(vec![reaction(
        7,
        "Free Formula",
        item("Manna", 70, 1),
        vec![],
    )]);
    let mut prices = PriceTable::new();
    prices.insert("Manna".to_string(), PriceInfo { buy: 1, sell: 5 });
    let owned = HashSet::new();
    let p = calculate_reaction_profit(&db.reactions[0], &prices, &owned).unwrap();
    assert_eq!(p.input_cost, 0);
    assert_eq!(p.profit, 5);
    assert_eq!(p.margin, 0);
}

#[test]
fn profit_can_be_negative() {
    let db = widget_db();
    let mut prices = PriceTable::new();
    prices.insert("Widget".to_string(), PriceInfo { buy: 1, sell: 2 });
    prices.insert("Cobalt".to_string(), PriceInfo { buy: 8, sell: 10 });
    prices.insert("Tungsten".to_string(), PriceInfo { buy: 15, sell: 20 });
    let owned = HashSet::new();
    let p = calculate_reaction_profit(&db.reactions[0], &prices, &owned).unwrap();
    assert_eq!(p.output_value, 4);
    assert_eq!(p.input_cost, 30);
    assert_eq!(p.profit, -26);
    assert!(p.margin < 0);
}

#[test]
fn full_tree_for_widget() {
    let db = widget_db();
    let prices = widget_prices();
    let mut owned = HashSet::new();
    owned.insert(10u32);
    let node = build_full_reaction_tree("Widget", 100, 2, &db, &owned, &prices);
    assert_eq!(node.name, "Widget");
    assert_eq!(node.source, SourceType::Output);
    assert_eq!(node.quantity, 2);
    assert_eq!(node.unit_price, 100);
    assert_eq!(node.total_price, 200);
    assert_eq!(node.reaction_name.as_deref(), Some("Widget Formula"));
    assert_eq!(node.children.len(), 2);
    let cobalt = &node.children[0];
    assert_eq!(cobalt.name, "Cobalt");
    assert_eq!(cobalt.source, SourceType::Moon);
    assert_eq!(cobalt.quantity, 1);
    assert_eq!(cobalt.total_price, 10);
    assert!(cobalt.children.is_empty());
    let tungsten = &node.children[1];
    assert_eq!(tungsten.name, "Tungsten");
    assert_eq!(tungsten.source, SourceType::Buy);
    assert_eq!(tungsten.quantity, 1);
    assert_eq!(tungsten.total_price, 20);
    assert!(tungsten.children.is_empty());
}

#[test]
fn tree_rounds_runs_up() {
    // One run yields 3 Gadgets; needing 7 takes ceil(7/3) = 3 runs, and
    // each input quantity scales by exactly 3.
    let db = ReactionDatabase::new(vec![reaction(
        5,
        "Gadget Formula",
        item("Gadget", 50, 3),
        vec![item("Ore", 51, 2), item("Gas", 52, 5)],
    )]);
    let mut prices = PriceTable::new();
    prices.insert("Gadget".to_string(), PriceInfo { buy: 1, sell: 10 });
    prices.insert("Ore".to_string(), PriceInfo { buy: 1, sell: 1 });
    prices.insert("Gas".to_string(), PriceInfo { buy: 1, sell: 2 });
    let owned = HashSet::new();
    let mut visited = HashSet::new();
    let node = build_reaction_tree("Gadget", 50, 7, &db, &owned, &prices, &mut visited);
    assert_eq!(node.source, SourceType::React);
    assert_eq!(node.quantity, 7);
    assert_eq!(node.children.len(), 2);
    assert_eq!(node.children[0].quantity, 6); // 2 per run x 3 runs
    assert_eq!(node.children[1].quantity, 15); // 5 per run x 3 runs
    assert!(visited.is_empty());
}

#[test]
fn tree_cycle_reenters_as_buy() {
    // A <- B and B <- A: expanding A terminates and the re-entrant A
    // appears as a purchase, not a recursion.
    let db = ReactionDatabase::new(vec![
        reaction(1, "A Formula", item("A", 1, 1), vec![item("B", 2, 1)]),
        reaction(2, "B Formula", item("B", 2, 1), vec![item("A", 1, 1)]),
    ]);
    let mut prices = PriceTable::new();
    prices.insert("A".to_string(), PriceInfo { buy: 1, sell: 4 });
    prices.insert("B".to_string(), PriceInfo { buy: 1, sell: 3 });
    let owned = HashSet::new();
    let node = build_full_reaction_tree("A", 1, 1, &db, &owned, &prices);
    assert_eq!(node.source, SourceType::Output);
    assert_eq!(node.children.len(), 1);
    let b = &node.children[0];
    assert_eq!(b.name, "B");
    assert_eq!(b.source, SourceType::React);
    assert_eq!(b.children.len(), 1);
    let a_again = &b.children[0];
    assert_eq!(a_again.name, "A");
    assert_eq!(a_again.source, SourceType::Buy);
    assert!(a_again.children.is_empty());
}

#[test]
fn tree_same_item_allowed_in_sibling_branches() {
    // Both branches consume Fuel; the per-path guard must not block the
    // second branch.
    let db = ReactionDatabase::new(vec![
        reaction(
            1,
            "Top Formula",
            item("Top", 1, 1),
            vec![item("Left", 2, 1), item("Right", 3, 1)],
        ),
        reaction(2, "Left Formula", item("Left", 2, 1), vec![item("Fuel", 9, 1)]),
        reaction(3, "Right Formula", item("Right", 3, 1), vec![item("Fuel", 9, 2)]),
        reaction(4, "Fuel Formula", item("Fuel", 9, 1), vec![item("Ice", 8, 1)]),
    ]);
    let mut prices = PriceTable::new();
    for (n, s) in [("Top", 50), ("Left", 10), ("Right", 12), ("Fuel", 3), ("Ice", 1)] {
        prices.insert(n.to_string(), PriceInfo { buy: 1, sell: s });
    }
    let owned = HashSet::new();
    let node = build_full_reaction_tree("Top", 1, 1, &db, &owned, &prices);
    let left = &node.children[0];
    let right = &node.children[1];
    assert_eq!(left.children[0].name, "Fuel");
    assert_eq!(left.children[0].source, SourceType::React);
    assert_eq!(right.children[0].name, "Fuel");
    assert_eq!(right.children[0].source, SourceType::React);
}

#[test]
fn tree_prices_total_is_unit_times_quantity() {
    let db = widget_db();
    let prices = widget_prices();
    let owned = HashSet::new();
    let node = build_full_reaction_tree("Widget", 100, 2, &db, &owned, &prices);
    fn check(n: &moon_calculator::ReactionTreeNode) {
        assert_eq!(n.total_price, (n.unit_price as u128) * (n.quantity as u128));
        for c in &n.children {
            check(c);
        }
    }
    check(&node);
}

#[test]
fn unpriced_item_values_at_zero_in_tree() {
    let db = widget_db();
    let prices = PriceTable::new();
    let owned = HashSet::new();
    let node = build_full_reaction_tree("Widget", 100, 2, &db, &owned, &prices);
    assert_eq!(node.unit_price, 0);
    assert_eq!(node.total_price, 0);
}

#[test]
fn lookup_by_output_finds_reaction() {
    let db = widget_db();
    assert!(db.lookup_by_output(100).is_some());
    assert!(db.lookup_by_output(999).is_none());
}

#[test]
fn all_item_names_are_distinct_and_cover_catalog() {
    let db = ReactionDatabase::new(vec![
        reaction(
            1,
            "Widget Formula",
            item("Widget", 100, 2),
            vec![item("Cobalt", 10, 1), item("Tungsten", 20, 1)],
        ),
        reaction(2, "Gear Formula", item("Gear", 200, 1), vec![item("Widget", 100, 4)]),
    ]);
    let names = db.get_all_item_names();
    assert_eq!(names.len(), 4);
    for expected in ["Widget", "Cobalt", "Tungsten", "Gear"] {
        assert!(names.iter().any(|n| n == expected));
    }
}

#[test]
fn user_material_ids_resolve_known_names() {
    let db = widget_db();
    let names = vec!["Cobalt".to_string(), "Unobtainium".to_string()];
    let ids = db.get_user_material_ids(&names);
    assert!(ids.contains(&10));
    assert_eq!(ids.len(), 1);
}

#[test]
fn price_table_first_entry_wins() {
    let mut t = PriceTable::new();
    t.insert("X".to_string(), PriceInfo { buy: 1, sell: 2 });
    t.insert("X".to_string(), PriceInfo { buy: 3, sell: 4 });
    assert_eq!(t.get("X").unwrap().sell, 2);
    assert!(t.get("Y").is_none());
}
