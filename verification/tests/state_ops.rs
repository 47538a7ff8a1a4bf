use moon_calculator::AppState;
use moon_calculator::MaterialEntry;
use moon_calculator::MoonComposition;
use moon_calculator::OreMappings;
use moon_calculator::ReactionDatabase;
use moon_calculator::StateError;

fn entry(name: &str) -> MaterialEntry {
    MaterialEntry {
        name: name.to_string(),
        item_id: 1,
        system_id: 2,
        region_id: 3,
        additional_id: 4,
    }
}

fn moon(name: &str, materials: Vec<MaterialEntry>) -> MoonComposition {
    MoonComposition { name: name.to_string(), materials }
}

fn fresh_state() -> AppState {
    AppState::new(ReactionDatabase::new(vec![]), OreMappings::new(vec![]))
}

#[test]
fn add_and_list_moons() {
    let mut state = fresh_state();
    state
        .add_moons(vec![moon("Moon 1", vec![entry("Cobaltite")])])
        .unwrap();
    state
        .add_moons(vec![moon("Moon 2", vec![entry("Zeolites")])])
        .unwrap();
    let moons = state.get_moons();
    assert_eq!(moons.len(), 2);
    assert_eq!(moons[0].name, "Moon 1");
    assert_eq!(moons[1].name, "Moon 2");
}

#[test]
fn duplicate_moon_name_is_refused_and_state_untouched() {
    let mut state = fresh_state();
    state
        .add_moons(vec![moon("Moon 1", vec![entry("Cobaltite")])])
        .unwrap();
    let err = state
        .add_moons(vec![
            moon("Moon 3", vec![entry("Zeolites")]),
            moon("Moon 1", vec![entry("Bitumens")]),
        ])
        .unwrap_err();
    match err {
        StateError::DuplicateMoon(name) => assert_eq!(name, "Moon 1"),
        other => panic!("unexpected error: {:?}", other),
    }
    // The whole batch is refused: Moon 3 was not stored either.
    assert_eq!(state.get_moons().len(), 1);
}

#[test]
fn delete_moon_by_index() {
    let mut state = fresh_state();
    state
        .add_moons(vec![
            moon("Moon 1", vec![entry("Cobaltite")]),
            moon("Moon 2", vec![entry("Zeolites")]),
        ])
        .unwrap();
    state.delete_moon(0).unwrap();
    assert_eq!(state.get_moons().len(), 1);
    assert_eq!(state.get_moons()[0].name, "Moon 2");
}

#[test]
fn delete_moon_invalid_index_is_reported() {
    let mut state = fresh_state();
    let err = state.delete_moon(0).unwrap_err();
    assert!(matches!(err, StateError::InvalidIndex));
    state
        .add_moons(vec![moon("Moon 1", vec![entry("Cobaltite")])])
        .unwrap();
    assert!(matches!(state.delete_moon(5), Err(StateError::InvalidIndex)));
    assert_eq!(state.get_moons().len(), 1);
}

#[test]
fn unique_materials_are_sorted_and_distinct() {
    let mut state = fresh_state();
    state
        .add_moons(vec![
            moon("Moon 1", vec![entry("Zeolites"), entry("Cobaltite")]),
            moon("Moon 2", vec![entry("Cobaltite"), entry("Bitumens")]),
        ])
        .unwrap();
    let materials = state.get_unique_materials();
    assert_eq!(materials, vec!["Bitumens", "Cobaltite", "Zeolites"]);
}

#[test]
fn unique_materials_empty_without_moons() {
    let state = fresh_state();
    assert!(state.get_unique_materials().is_empty());
}
