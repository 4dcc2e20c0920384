use bevy_fabulous::materials::FabMaterialOverrides;

#[test]
fn a_new_material_registry_is_empty() {
    let overrides = FabMaterialOverrides::new();
    assert!(!overrides.contains_override("EarthMana"));
    assert_eq!(overrides.get_swap_mat(1), None);
}

#[test]
fn a_swap_material_leads_to_the_main_material_of_its_name() {
    let mut overrides = FabMaterialOverrides::new();
    overrides.register_main_mat("EarthMana", 100);
    overrides.register_main_mat("Stone", 200);
    overrides.register_swap_mat("EarthMana", 1);
    overrides.register_swap_mat("EarthMana", 2);
    overrides.register_swap_mat("Stone", 3);
    assert!(overrides.contains_override("EarthMana"));
    assert!(overrides.contains_override("Stone"));
    assert!(!overrides.contains_override("earthmana"));
    assert_eq!(overrides.get_swap_mat(1), Some(100));
    assert_eq!(overrides.get_swap_mat(2), Some(100));
    assert_eq!(overrides.get_swap_mat(3), Some(200));
    assert_eq!(overrides.get_swap_mat(4), None);
}

#[test]
fn a_swap_material_without_main_material_leads_nowhere() {
    let mut overrides = FabMaterialOverrides::new();
    overrides.register_swap_mat("EarthMana", 1);
    assert_eq!(overrides.get_swap_mat(1), None);
    overrides.register_main_mat("EarthMana", 100);
    assert_eq!(overrides.get_swap_mat(1), Some(100));
}

#[test]
fn a_later_main_material_replaces_the_earlier() {
    let mut overrides = FabMaterialOverrides::new();
    overrides.register_main_mat("EarthMana", 100);
    overrides.register_swap_mat("EarthMana", 1);
    overrides.register_main_mat("EarthMana", 101);
    assert_eq!(overrides.get_swap_mat(1), Some(101));
}

#[test]
fn waiting_materials_are_swapped_once_the_main_material_comes() {
    let mut overrides = FabMaterialOverrides::new();
    overrides.register_mat_for_processing("EarthMana", 1);
    overrides.register_mat_for_processing("EarthMana", 2);
    overrides.register_mat_for_processing("Stone", 3);
    assert_eq!(overrides.get_swap_mat(1), None);
    overrides.register_main_mat("EarthMana", 100);
    assert_eq!(overrides.get_swap_mat(1), Some(100));
    assert_eq!(overrides.get_swap_mat(2), Some(100));
    assert_eq!(overrides.get_swap_mat(3), None);
    overrides.register_main_mat("Stone", 200);
    assert_eq!(overrides.get_swap_mat(3), Some(200));
}

#[test]
fn named_materials_are_swapped_or_wait() {
    let mut overrides = FabMaterialOverrides::new();
    overrides.register_main_mat("EarthMana", 100);
    let named = vec![
        ("EarthMana".to_string(), 1),
        ("Stone".to_string(), 2),
        ("EarthMana".to_string(), 3),
    ];
    assert_eq!(overrides.take_named_materials(&named), 2);
    assert_eq!(overrides.get_swap_mat(1), Some(100));
    assert_eq!(overrides.get_swap_mat(3), Some(100));
    assert_eq!(overrides.get_swap_mat(2), None);
    overrides.register_main_mat("Stone", 200);
    assert_eq!(overrides.get_swap_mat(2), Some(200));
    assert_eq!(overrides.take_named_materials(&vec![]), 0);
}
