use astrocalc::colors::{dso_hue, object_color_index};

#[test]
fn hue_is_fnv1a_modulo_360() {
    assert_eq!(dso_hue(""), 61);
    assert_eq!(dso_hue("a"), 340);
    assert_eq!(dso_hue("M31"), 184);
    assert_eq!(dso_hue("NGC7000"), 316);
}

#[test]
fn hue_is_stable_and_in_range() {
    for name in ["M1", "M42", "NGC 869", "Barnard 33", "Omega Centauri"] {
        let h = dso_hue(name);
        assert!(h < 360);
        assert_eq!(h, dso_hue(name));
    }
}

#[test]
fn palette_slots_of_bodies() {
    assert_eq!(object_color_index("Mercury"), Some(0));
    assert_eq!(object_color_index("Venus"), Some(1));
    assert_eq!(object_color_index("Mars"), Some(2));
    assert_eq!(object_color_index("Jupiter"), Some(3));
    assert_eq!(object_color_index("Saturn"), Some(4));
    assert_eq!(object_color_index("Uranus"), Some(5));
    assert_eq!(object_color_index("Neptune"), Some(6));
    assert_eq!(object_color_index("Moon"), Some(7));
    assert_eq!(object_color_index("M31"), None);
    assert_eq!(object_color_index("moon"), None);
}
