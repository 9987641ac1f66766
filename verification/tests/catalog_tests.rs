use astrocalc::catalog::{
    dso_type_map_for_ids, filter_selected, find_by_display_id, messier_indices, missing_ids,
    ngc_without_messier_indices, nights_needing_selected_dso, normalize_dso_id,
    select_target_indices, type_map_for_indices, DeepObject,
};

fn opt(s: &str) -> Option<String> {
    Some(s.to_string())
}

fn entry(
    messier: Option<&str>,
    ngc: Option<&str>,
    name: Option<&str>,
    object_type: Option<&str>,
) -> DeepObject {
    DeepObject {
        messier: messier.map(|s| s.to_string()),
        ngc: ngc.map(|s| s.to_string()),
        name: name.map(|s| s.to_string()),
        object_type: object_type.map(|s| s.to_string()),
        object_type_abrev: None,
        common_names: None,
    }
}

fn sample_catalog() -> Vec<DeepObject> {
    let mut andromeda = entry(Some("31"), Some("NGC 224"), Some("NGC0224"), Some("Galaxy"));
    andromeda.common_names = opt("Andromeda Galaxy");
    vec![
        andromeda,
        entry(None, Some("7000"), Some("NGC7000"), Some("Emission Nebula")),
        entry(Some("M42"), Some("1976"), Some("NGC1976"), Some("HII region")),
        entry(None, None, Some("Barnard 33"), None),
        entry(None, Some("ngc 869"), None, Some("Open Cluster")),
    ]
}

fn strings(v: &[&str]) -> Vec<String> {
    v.iter().map(|s| s.to_string()).collect()
}

#[test]
fn normalize_trims_uppercases_and_drops_spaces() {
    assert_eq!(normalize_dso_id(" m 31 "), "M31");
    assert_eq!(normalize_dso_id("ngc 7000"), "NGC7000");
    assert_eq!(normalize_dso_id("M42"), "M42");
    assert_eq!(normalize_dso_id("   "), "");
}

#[test]
fn display_id_prefers_messier() {
    let c = sample_catalog();
    assert_eq!(c[0].display_id(), Some("M31".to_string()));
    assert_eq!(c[2].display_id(), Some("M42".to_string()));
    let lower = entry(Some(" m31 "), None, None, None);
    assert_eq!(lower.display_id(), Some("M31".to_string()));
}

#[test]
fn display_id_falls_back_to_ngc_then_name() {
    let c = sample_catalog();
    assert_eq!(c[1].display_id(), Some("NGC7000".to_string()));
    assert_eq!(c[3].display_id(), Some("Barnard 33".to_string()));
    assert_eq!(c[4].display_id(), Some("NGC869".to_string()));
    let blank_messier = entry(Some("  "), Some("NGC 224"), None, None);
    assert_eq!(blank_messier.display_id(), Some("NGC224".to_string()));
}

#[test]
fn display_id_absent_without_any_identifier() {
    let none = entry(None, Some(" "), Some(""), None);
    assert_eq!(none.display_id(), None);
}

#[test]
fn type_label_fallbacks() {
    let c = sample_catalog();
    assert_eq!(c[0].type_label(), "Galaxy");
    assert_eq!(c[3].type_label(), "DSO");
    let mut abbrev = entry(None, None, None, Some("  "));
    abbrev.object_type_abrev = opt(" Gx ");
    assert_eq!(abbrev.type_label(), "Gx");
}

#[test]
fn messier_and_ngc_flags() {
    let c = sample_catalog();
    assert!(c[0].has_messier());
    assert!(c[0].has_ngc());
    assert!(!c[1].has_messier());
    assert!(c[1].has_ngc());
    assert!(!c[3].has_messier());
    assert!(!c[3].has_ngc());
}

#[test]
fn search_is_case_insensitive_over_ids_and_names() {
    let c = sample_catalog();
    assert!(c[0].matches_search("andromeda"));
    assert!(c[0].matches_search(" m31 "));
    assert!(c[0].matches_search("GALAXY"));
    assert!(!c[0].matches_search("orion"));
    assert!(c[1].matches_search("nebula"));
    assert!(c[3].matches_search("barnard"));
}

#[test]
fn blank_search_matches_everything() {
    let c = sample_catalog();
    assert!(c[3].matches_search(""));
    assert!(c[3].matches_search("   "));
}

#[test]
fn type_map_for_selected_ids() {
    let c = sample_catalog();
    let map = dso_type_map_for_ids(&c, &strings(&["m 31", "NGC7000", "M99"]));
    assert_eq!(
        map,
        vec![
            ("M31".to_string(), "Galaxy".to_string()),
            ("NGC7000".to_string(), "Emission Nebula".to_string()),
        ]
    );
    assert!(dso_type_map_for_ids(&c, &Vec::new()).is_empty());
}

#[test]
fn type_map_ignores_spacing_and_case_of_ids() {
    let c = sample_catalog();
    assert_eq!(
        dso_type_map_for_ids(&c, &strings(&[" m 31 "])),
        dso_type_map_for_ids(&c, &strings(&["M31"]))
    );
    assert_eq!(dso_type_map_for_ids(&c, &strings(&[" m 31 "])), vec![("M31".to_string(), "Galaxy".to_string())]);
}

#[test]
fn type_map_grows_with_the_wanted_ids() {
    let c = sample_catalog();
    let small = dso_type_map_for_ids(&c, &strings(&["NGC869"]));
    let large = dso_type_map_for_ids(&c, &strings(&["M42", "NGC869", "Barnard33"]));
    assert_eq!(small, vec![("NGC869".to_string(), "Open Cluster".to_string())]);
    for pair in &small {
        assert!(large.contains(pair));
    }
    assert_eq!(large.len(), 3);
    assert!(large.contains(&("Barnard 33".to_string(), "DSO".to_string())));
}

#[test]
fn last_entry_with_a_display_id_gives_its_label() {
    let c = vec![
        entry(Some("31"), None, None, Some("Galaxy")),
        entry(Some("m31"), None, None, Some("Spiral Galaxy")),
    ];
    assert_eq!(
        dso_type_map_for_ids(&c, &strings(&["M31"])),
        vec![("M31".to_string(), "Spiral Galaxy".to_string())]
    );
}

#[test]
fn type_map_of_target_indices() {
    let c = sample_catalog();
    let idx = select_target_indices(&c, &strings(&["M42", "NGC7000"]));
    assert_eq!(
        type_map_for_indices(&c, &idx),
        vec![
            ("NGC7000".to_string(), "Emission Nebula".to_string()),
            ("M42".to_string(), "HII region".to_string()),
        ]
    );
    assert!(type_map_for_indices(&c, &Vec::new()).is_empty());
}

#[test]
fn find_entry_by_display_id() {
    let c = sample_catalog();
    assert_eq!(find_by_display_id(&c, "m42"), Some(2));
    assert_eq!(find_by_display_id(&c, " ngc 7000"), Some(1));
    assert_eq!(find_by_display_id(&c, "barnard33"), Some(3));
    assert_eq!(find_by_display_id(&c, "M1"), None);
}

#[test]
fn messier_and_ngc_only_lists() {
    let c = sample_catalog();
    assert_eq!(messier_indices(&c), vec![0, 2]);
    assert_eq!(ngc_without_messier_indices(&c), vec![1, 4]);
}

#[test]
fn targets_follow_catalog_order() {
    let c = sample_catalog();
    assert_eq!(select_target_indices(&c, &strings(&["NGC869", "m31"])), vec![0, 4]);
    assert!(select_target_indices(&c, &Vec::new()).is_empty());
}

#[test]
fn cached_samples_filtered_by_selection() {
    let names = strings(&["M31", "Mars", "m 42", "M31", "NGC7000"]);
    assert_eq!(filter_selected(&names, &strings(&["M31", "M42"])), vec![0, 2, 3]);
    assert!(filter_selected(&names, &Vec::new()).is_empty());
}

#[test]
fn missing_ids_in_selection_order() {
    let selected = strings(&["M31", "m 42", "NGC7000"]);
    assert_eq!(missing_ids(&selected, &strings(&["M42"])), vec![0, 2]);
    assert_eq!(missing_ids(&selected, &strings(&["NGC 7000", "M31", "M42"])), Vec::<usize>::new());
}

#[test]
fn nights_missing_a_selected_object() {
    let selected = strings(&["M31", "M42"]);
    let cached = vec![
        strings(&["M31", "M42"]),
        strings(&["M31"]),
        Vec::new(),
        strings(&["m 42", "m31", "NGC7000"]),
    ];
    assert_eq!(nights_needing_selected_dso(&selected, &cached), vec![1, 2]);
    assert!(nights_needing_selected_dso(&Vec::new(), &cached).is_empty());
}
