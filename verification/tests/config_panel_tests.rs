use astrocalc::config_panel::{
    save_action, ConfigAction, ConfigPanelOutput, ConfigPanelState, SwitchChoice,
    ViewWindowEditorState,
};
use astrocalc::labels::ViewWindowCorner;
use astrocalc::weather::ForecastData;

#[test]
fn fresh_panel_has_no_dialog() {
    let s = ConfigPanelState::default();
    assert!(!s.save_as_open && !s.rename_open && !s.delete_open);
    assert_eq!(s.pending_switch, None);
    assert_eq!(s.name_draft, "");
    assert!(s.status.is_none());
}

#[test]
fn picking_a_profile_switches_or_asks() {
    let mut s = ConfigPanelState::default();
    assert_eq!(s.pick_profile(3, 3, true), None);
    assert_eq!(s.pending_switch, None);
    assert_eq!(s.pick_profile(4, 3, false), Some(ConfigAction::Switch(4)));
    assert_eq!(s.pending_switch, None);
    assert_eq!(s.pick_profile(4, 3, true), None);
    assert_eq!(s.pending_switch, Some(4));
}

#[test]
fn unsaved_changes_dialog_choices() {
    let mut s = ConfigPanelState::default();
    s.pick_profile(7, 1, true);
    assert_eq!(s.resolve_switch(SwitchChoice::SaveAndSwitch, false), None);
    assert_eq!(s.pending_switch, Some(7));
    assert_eq!(
        s.resolve_switch(SwitchChoice::SaveAndSwitch, true),
        Some(ConfigAction::SaveAndSwitch(7))
    );
    assert_eq!(s.pending_switch, None);

    s.pick_profile(7, 1, true);
    assert_eq!(s.resolve_switch(SwitchChoice::Discard, false), Some(ConfigAction::Switch(7)));
    assert_eq!(s.pending_switch, None);

    s.pick_profile(8, 1, true);
    assert_eq!(s.resolve_switch(SwitchChoice::Cancel, true), None);
    assert_eq!(s.pending_switch, None);
    assert_eq!(s.resolve_switch(SwitchChoice::Discard, true), None);
}

#[test]
fn save_needs_valid_settings_and_edits() {
    assert_eq!(save_action(true, true), Some(ConfigAction::Save));
    assert_eq!(save_action(true, false), None);
    assert_eq!(save_action(false, true), None);
}

#[test]
fn save_as_creates_with_trimmed_name() {
    let mut s = ConfigPanelState::default();
    s.name_draft = "old".to_string();
    s.open_save_as(false);
    assert!(!s.save_as_open);
    assert_eq!(s.name_draft, "old");
    s.open_save_as(true);
    assert!(s.save_as_open);
    assert_eq!(s.name_draft, "");
    assert_eq!(s.confirm_name(true), None);
    assert!(s.save_as_open);
    s.name_draft = "   ".to_string();
    assert_eq!(s.confirm_name(true), None);
    s.name_draft = "  Backyard  ".to_string();
    assert_eq!(s.confirm_name(true), Some(ConfigAction::SaveAs("Backyard".to_string())));
    assert!(!s.save_as_open);
}

#[test]
fn rename_starts_from_active_name() {
    let mut s = ConfigPanelState::default();
    s.open_rename(Some("Default"));
    assert!(s.rename_open);
    assert_eq!(s.name_draft, "Default");
    s.name_draft = "Roof ".to_string();
    assert_eq!(s.confirm_name(false), Some(ConfigAction::Rename("Roof".to_string())));
    assert!(!s.rename_open);
    s.open_rename(None);
    assert_eq!(s.name_draft, "");
    s.close_name_dialog(false);
    assert!(!s.rename_open);
    assert_eq!(s.confirm_name(false), None);
}

#[test]
fn delete_needs_another_profile() {
    let mut s = ConfigPanelState::default();
    s.open_delete(1);
    assert!(!s.delete_open);
    assert_eq!(s.confirm_delete(), None);
    s.open_delete(2);
    assert!(s.delete_open);
    s.cancel_delete();
    assert!(!s.delete_open);
    s.open_delete(3);
    assert_eq!(s.confirm_delete(), Some(ConfigAction::Delete));
    assert!(!s.delete_open);
}

#[test]
fn panel_output_carries_the_action() {
    let out = ConfigPanelOutput { settings_changed: true, action: Some(ConfigAction::Delete) };
    assert!(out.settings_changed);
    assert_eq!(out.action, Some(ConfigAction::Delete));
}

#[test]
fn zone_editor_selection_on_add_and_remove() {
    let mut st = ViewWindowEditorState::default();
    let mut zones = vec!["a", "b"];
    st.select_default(zones.len());
    assert_eq!(st.selected, Some(0));
    st.add_zone(&mut zones, "c");
    assert_eq!(zones, vec!["a", "b", "c"]);
    assert_eq!(st.selected, Some(2));
    st.remove_zone(&mut zones, 2);
    assert_eq!(zones, vec!["a", "b"]);
    assert_eq!(st.selected, Some(1));
    st.remove_zone(&mut zones, 0);
    assert_eq!(zones, vec!["b"]);
    assert_eq!(st.selected, Some(0));
    st.remove_zone(&mut zones, 5);
    assert_eq!(zones, vec!["b"]);
    st.remove_zone(&mut zones, 0);
    assert!(zones.is_empty());
    assert_eq!(st.selected, None);
    st.select_default(0);
    assert_eq!(st.selected, None);
}

#[test]
fn zone_editor_drag() {
    let mut st = ViewWindowEditorState { selected: Some(1), drag_corner: None };
    st.drag_started(Some(ViewWindowCorner::MaxAzMinAlt), Some(0));
    assert_eq!(st.selected, Some(1));
    assert_eq!(st.dragged_corner(), Some((1, ViewWindowCorner::MaxAzMinAlt)));
    st.drag_stopped();
    assert_eq!(st.dragged_corner(), None);
    st.drag_started(None, Some(0));
    assert_eq!(st.selected, Some(0));
    st.drag_started(None, None);
    assert_eq!(st.selected, None);
    assert_eq!(st.dragged_corner(), None);
}

#[test]
fn forecast_payload_text() {
    let f = ForecastData { yaml_content: "hourly: {}".to_string() };
    assert_eq!(f.yaml_content, "hourly: {}");
}

#[test]
fn name_draft_usability() {
    let mut s = ConfigPanelState::default();
    assert!(!s.name_draft_usable());
    s.name_draft = " \t ".to_string();
    assert!(!s.name_draft_usable());
    s.name_draft = " x ".to_string();
    assert!(s.name_draft_usable());
}
