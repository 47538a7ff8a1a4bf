use moon_calculator::AnalysisError;
use moon_calculator::OreMappings;
use moon_calculator::PriceInfo;
use moon_calculator::PriceTable;
use moon_calculator::Reaction;
use moon_calculator::ReactionDatabase;
use moon_calculator::ReactionItem;
use moon_calculator::SourceType;
use moon_calculator::analyze_reactions;
use moon_calculator::is_moon_goo;

fn item(name: &str, id: u32, quantity: u32) -> ReactionItem {
    ReactionItem { name: name.to_string(), id, quantity }
}

fn reaction(fid: u32, fname: &str, output: ReactionItem, inputs: Vec<ReactionItem>) -> Reaction {
    Reaction { formula_id: fid, formula_name: fname.to_string(), output, inputs }
}

fn widget_db() -> ReactionDatabase {
    ReactionDatabase::new(vec![reaction(
        1,
        "Widget Formula",
        item("Widget", 100, 2),
        vec![item("Cobalt", 10, 1), item("Tungsten", 20, 1)],
    )])
}

fn cobalt_mappings() -> OreMappings {
    // Cobaltite yields Cobalt (a refined moon material) and Pyerite (a
    // plain mineral, filtered out when the mapping is built).
    OreMappings::new(vec![(
        "Cobaltite".to_string(),
        vec!["Cobalt".to_string(), "Pyerite".to_string()],
    )])
}

fn widget_prices() -> PriceTable {
    let mut t = PriceTable::new();
    t.insert("Widget".to_string(), PriceInfo { buy: 90, sell: 100 });
    t.insert("Cobalt".to_string(), PriceInfo { buy: 8, sell: 10 });
    t.insert("Tungsten".to_string(), PriceInfo { buy: 15, sell: 20 });
    t
}

#[test]
fn base_ore_name_strips_variant_prefix() {
    assert_eq!(OreMappings::get_base_ore_name("Glossy Cobaltite"), "Cobaltite");
    assert_eq!(OreMappings::get_base_ore_name("Brilliant Zeolites"), "Zeolites");
    assert_eq!(OreMappings::get_base_ore_name("Cobaltite"), "Cobaltite");
}

#[test]
fn moon_goo_classification() {
    assert!(is_moon_goo("Cobalt"));
    assert!(is_moon_goo("Dysprosium"));
    assert!(is_moon_goo("Atmospheric Gases"));
    assert!(!is_moon_goo("Pyerite"));
    assert!(!is_moon_goo(""));
}

#[test]
fn ores_to_moon_goo_filters_and_dedups() {
    let mappings = cobalt_mappings();
    let ores = vec!["Glossy Cobaltite".to_string(), "Cobaltite".to_string()];
    let goo = mappings.ores_to_moon_goo(&ores);
    assert_eq!(goo.len(), 1);
    assert_eq!(goo[0], "Cobalt");
}

#[test]
fn analyze_finds_profitable_widget() {
    let db = widget_db();
    let mappings = cobalt_mappings();
    let ores = vec!["Glossy Cobaltite".to_string()];
    let prices = widget_prices();
    let result = analyze_reactions(&db, &mappings, &ores, &prices).unwrap();
    assert_eq!(result.len(), 1);
    let p = &result[0];
    assert_eq!(p.formula_name, "Widget Formula");
    assert_eq!(p.output_value, 200);
    assert_eq!(p.input_cost, 30);
    assert_eq!(p.profit, 170);
    assert_eq!(p.margin, 56667);
    assert!(p.uses_user_materials);
    let tree = p.reaction_tree.as_ref().unwrap();
    assert_eq!(tree.source, SourceType::Output);
    assert_eq!(tree.children[0].name, "Cobalt");
    assert_eq!(tree.children[0].source, SourceType::Moon);
    assert_eq!(tree.children[1].name, "Tungsten");
    assert_eq!(tree.children[1].source, SourceType::Buy);
}

#[test]
fn analyze_empty_ownership_is_an_error() {
    let db = widget_db();
    let mappings = cobalt_mappings();
    let ores: Vec<String> = vec![];
    let prices = widget_prices();
    let err = analyze_reactions(&db, &mappings, &ores, &prices).unwrap_err();
    assert_eq!(err, AnalysisError::NoMaterials);
    assert!(!err.message().is_empty());
}

#[test]
fn analyze_unknown_ores_is_an_error() {
    let db = widget_db();
    let mappings = cobalt_mappings();
    let ores = vec!["Granite".to_string()];
    let prices = widget_prices();
    let err = analyze_reactions(&db, &mappings, &ores, &prices).unwrap_err();
    assert_eq!(err, AnalysisError::NoValidOres);
    assert!(!err.message().is_empty());
}

#[test]
fn analyze_drops_reaction_with_missing_price() {
    let db = widget_db();
    let mappings = cobalt_mappings();
    let ores = vec!["Cobaltite".to_string()];
    let mut prices = PriceTable::new();
    prices.insert("Widget".to_string(), PriceInfo { buy: 90, sell: 100 });
    prices.insert("Cobalt".to_string(), PriceInfo { buy: 8, sell: 10 });
    // Tungsten unpriced: the reaction cannot be priced and is absent.
    let result = analyze_reactions(&db, &mappings, &ores, &prices).unwrap();
    assert!(result.is_empty());
}

#[test]
fn analyze_drops_unprofitable_reaction() {
    let db = widget_db();
    let mappings = cobalt_mappings();
    let ores = vec!["Cobaltite".to_string()];
    let mut prices = PriceTable::new();
    prices.insert("Widget".to_string(), PriceInfo { buy: 1, sell: 10 });
    prices.insert("Cobalt".to_string(), PriceInfo { buy: 8, sell: 10 });
    prices.insert("Tungsten".to_string(), PriceInfo { buy: 15, sell: 20 });
    // Output value 20 against cost 30: not profitable, so excluded.
    let result = analyze_reactions(&db, &mappings, &ores, &prices).unwrap();
    assert!(result.is_empty());
}

#[test]
fn analyze_excludes_reaction_unrelated_to_owned_materials() {
    let db = ReactionDatabase::new(vec![
        reaction(
            1,
            "Widget Formula",
            item("Widget", 100, 2),
            vec![item("Cobalt", 10, 1), item("Tungsten", 20, 1)],
        ),
        reaction(2, "Trinket Formula", item("Trinket", 300, 1), vec![item("Silver", 30, 1)]),
    ]);
    let mappings = cobalt_mappings();
    let ores = vec!["Cobaltite".to_string()];
    let mut prices = widget_prices();
    prices.insert("Trinket".to_string(), PriceInfo { buy: 1, sell: 1000 });
    prices.insert("Silver".to_string(), PriceInfo { buy: 1, sell: 1 });
    // The trinket would be hugely profitable, but no input of it traces
    // back to the owned materials, so it is excluded.
    let result = analyze_reactions(&db, &mappings, &ores, &prices).unwrap();
    assert_eq!(result.len(), 1);
    assert_eq!(result[0].formula_name, "Widget Formula");
}

#[test]
fn analyze_ranks_by_descending_margin() {
    // Two profitable reactions; the one with the higher margin comes first
    // even though it stands later in the catalog.
    let db = ReactionDatabase::new(vec![
        reaction(
            1,
            "Slim Formula",
            item("Slim", 101, 1),
            vec![item("Cobalt", 10, 2)],
        ),
        reaction(
            2,
            "Fat Formula",
            item("Fat", 102, 1),
            vec![item("Cobalt", 10, 1)],
        ),
    ]);
    let mappings = cobalt_mappings();
    let ores = vec!["Cobaltite".to_string()];
    let mut prices = PriceTable::new();
    prices.insert("Slim".to_string(), PriceInfo { buy: 1, sell: 30 }); // profit 10 on 20
    prices.insert("Fat".to_string(), PriceInfo { buy: 1, sell: 30 }); // profit 20 on 10
    prices.insert("Cobalt".to_string(), PriceInfo { buy: 8, sell: 10 });
    let result = analyze_reactions(&db, &mappings, &ores, &prices).unwrap();
    assert_eq!(result.len(), 2);
    assert_eq!(result[0].formula_name, "Fat Formula");
    assert_eq!(result[1].formula_name, "Slim Formula");
    assert!(result[0].margin >= result[1].margin);
}

#[test]
fn analyze_twice_gives_identical_ranked_output() {
    let db = widget_db();
    let mappings = cobalt_mappings();
    let ores = vec!["Cobaltite".to_string()];
    let prices = widget_prices();
    let first = analyze_reactions(&db, &mappings, &ores, &prices).unwrap();
    let second = analyze_reactions(&db, &mappings, &ores, &prices).unwrap();
    assert_eq!(first.len(), second.len());
    for (a, b) in first.iter().zip(second.iter()) {
        assert_eq!(a.formula_id, b.formula_id);
        assert_eq!(a.formula_name, b.formula_name);
        assert_eq!(a.output_value, b.output_value);
        assert_eq!(a.input_cost, b.input_cost);
        assert_eq!(a.profit, b.profit);
        assert_eq!(a.margin, b.margin);
        assert_eq!(a.uses_user_materials, b.uses_user_materials);
        let ta = a.reaction_tree.as_ref().unwrap();
        let tb = b.reaction_tree.as_ref().unwrap();
        assert_eq!(format!("{:?}", ta), format!("{:?}", tb));
    }
}
