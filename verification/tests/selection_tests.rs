use astrocalc::selection::{
    planet_type_map, selected_object_names, sort_ids, str_leq, ObjectSelectedFlags,
};

fn strings(v: &[&str]) -> Vec<String> {
    v.iter().map(|s| s.to_string()).collect()
}

#[test]
fn default_flags_select_bright_bodies() {
    let f = ObjectSelectedFlags::default();
    assert!(f.saturn && f.jupiter && f.venus && f.mars && f.moon);
    assert!(!f.neptune && !f.uranus && !f.mercury);
}

#[test]
fn all_names_in_display_order() {
    assert_eq!(
        ObjectSelectedFlags::all_names(),
        strings(&["Saturn", "Jupiter", "Neptune", "Uranus", "Mercury", "Venus", "Mars", "Moon"])
    );
}

#[test]
fn flags_read_by_name() {
    let f = ObjectSelectedFlags::default();
    assert_eq!(f.get_bool_flag("Saturn"), Some(&true));
    assert_eq!(f.get_bool_flag("Neptune"), Some(&false));
    assert_eq!(f.get_bool_flag("Pluto"), None);
    assert_eq!(f.get_bool_flag("saturn"), None);
}

#[test]
fn flag_set_through_mutable_reference_reads_back() {
    let mut f = ObjectSelectedFlags::default();
    if let Some(b) = f.get_mut_bool_flag("Neptune") {
        *b = true;
    }
    if let Some(b) = f.get_mut_bool_flag("Moon") {
        *b = false;
    }
    assert_eq!(f.get_bool_flag("Neptune"), Some(&true));
    assert_eq!(f.get_bool_flag("Moon"), Some(&false));
    assert_eq!(f.get_bool_flag("Saturn"), Some(&true));
    assert!(f.get_mut_bool_flag("Ceres").is_none());
}

#[test]
fn selected_names_follow_display_order() {
    let f = ObjectSelectedFlags::default();
    assert_eq!(
        f.selected_object_names(),
        strings(&["Saturn", "Jupiter", "Venus", "Mars", "Moon"])
    );
    let none = ObjectSelectedFlags {
        saturn: false,
        jupiter: false,
        neptune: false,
        uranus: false,
        mercury: false,
        venus: false,
        mars: false,
        moon: false,
    };
    assert!(none.selected_object_names().is_empty());
}

#[test]
fn planet_types() {
    let m = planet_type_map();
    assert_eq!(m.len(), 8);
    assert_eq!(m[0], ("Saturn".to_string(), "Planet".to_string()));
    assert_eq!(m[7], ("Moon".to_string(), "Moon".to_string()));
}

#[test]
fn plot_names_bodies_then_sorted_ids() {
    let f = ObjectSelectedFlags {
        saturn: false,
        jupiter: true,
        neptune: false,
        uranus: false,
        mercury: false,
        venus: false,
        mars: false,
        moon: true,
    };
    let names = selected_object_names(&f, strings(&["NGC7000", "M42", "M31"]));
    assert_eq!(names, strings(&["Jupiter", "Moon", "M31", "M42", "NGC7000"]));
}

#[test]
fn ids_sorted_like_strings() {
    assert_eq!(
        sort_ids(strings(&["b", "M31", "M3", "a", "M31"])),
        strings(&["M3", "M31", "M31", "a", "b"])
    );
    assert!(sort_ids(Vec::new()).is_empty());
}

#[test]
fn string_order_is_lexicographic() {
    assert!(str_leq("M3", "M31"));
    assert!(!str_leq("M31", "M3"));
    assert!(str_leq("", "a"));
    assert!(str_leq("abc", "abc"));
    assert!(str_leq("B", "a"));
}
