use vstd::prelude::*;
use crate::labels::ViewWindowCorner;
use crate::text::{spec_trim, trim_str};

verus! {

/// Persistence action requested from the Config panel.
#[derive(Debug, PartialEq, Eq)]
pub enum ConfigAction {
    Save,
    SaveAndSwitch(i32),
    SaveAs(String),
    Rename(String),
    Delete,
    Switch(i32),
}

/// Dialog state of the Config panel between frames.
pub struct ConfigPanelState {
    pub save_as_open: bool,
    pub rename_open: bool,
    pub delete_open: bool,
    pub pending_switch: Option<i32>,
    pub name_draft: String,
    pub status: Option<(String, bool)>,
}

/// What one frame of the Config panel reports to the application.
pub struct ConfigPanelOutput {
    pub settings_changed: bool,
    pub action: Option<ConfigAction>,
}

impl Default for ConfigPanelState {
    fn default() -> (r: Self)
        ensures
            !r.save_as_open,
            !r.rename_open,
            !r.delete_open,
            r.pending_switch is None,
            r.name_draft@ == Seq::<char>::empty(),
            r.status is None,
    {
        ConfigPanelState {
            save_as_open: false,
            rename_open: false,
            delete_open: false,
            pending_switch: None,
            name_draft: String::new(),
            status: None,
        }
    }
}

/// A profile name is usable once trimmed it is not empty.
pub open spec fn name_usable(draft: Seq<char>) -> bool {
    spec_trim(draft).len() > 0
}

/// Which button of the unsaved-changes dialog was pressed.
#[derive(Clone, Copy, PartialEq, Eq, Debug)]
pub enum SwitchChoice {
    SaveAndSwitch,
    Discard,
    Cancel,
}

impl ConfigPanelState {
    /// A profile picked in the selector: switching away from the active profile with
    /// unsaved edits first asks what to do; without edits it switches at once.
    pub fn pick_profile(&mut self, id: i32, active_id: i32, dirty: bool) -> (r: Option<ConfigAction>)
        ensures
            id == active_id ==> r is None && final(self).pending_switch == old(self).pending_switch,
            id != active_id && dirty ==> r is None && final(self).pending_switch == Some(id),
            id != active_id && !dirty ==> r == Some(ConfigAction::Switch(id))
                && final(self).pending_switch == old(self).pending_switch,
            final(self).save_as_open == old(self).save_as_open,
            final(self).rename_open == old(self).rename_open,
            final(self).delete_open == old(self).delete_open,
            final(self).name_draft@ == old(self).name_draft@,
            final(self).status == old(self).status,
    {
        if id == active_id {
            None
        } else if dirty {
            self.pending_switch = Some(id);
            None
        } else {
            Some(ConfigAction::Switch(id))
        }
    }

    /// "Save as…" opens the name dialog with an empty draft (only when saving is allowed).
    pub fn open_save_as(&mut self, can_save: bool)
        ensures
            can_save ==> final(self).save_as_open && final(self).name_draft@ == Seq::<char>::empty(),
            !can_save ==> final(self).save_as_open == old(self).save_as_open
                && final(self).name_draft@ == old(self).name_draft@,
            final(self).rename_open == old(self).rename_open,
            final(self).delete_open == old(self).delete_open,
            final(self).pending_switch == old(self).pending_switch,
            final(self).status == old(self).status,
    {
        if can_save {
            self.name_draft = String::new();
            self.save_as_open = true;
        }
    }

    /// "Rename…" opens the name dialog holding the active profile's name (empty if unknown).
    pub fn open_rename(&mut self, active_name: Option<&str>)
        ensures
            final(self).rename_open,
            final(self).name_draft@ == match active_name {
                Some(n) => n@,
                None => Seq::<char>::empty(),
            },
            final(self).save_as_open == old(self).save_as_open,
            final(self).delete_open == old(self).delete_open,
            final(self).pending_switch == old(self).pending_switch,
            final(self).status == old(self).status,
    {
        self.name_draft = match active_name {
            Some(n) => String::from_str(n),
            None => String::new(),
        };
        self.rename_open = true;
    }

    /// "Delete…" opens the confirmation, only while more than one profile exists.
    pub fn open_delete(&mut self, profile_count: usize)
        ensures
            final(self).delete_open == (profile_count > 1 || old(self).delete_open),
            final(self).save_as_open == old(self).save_as_open,
            final(self).rename_open == old(self).rename_open,
            final(self).pending_switch == old(self).pending_switch,
            final(self).name_draft@ == old(self).name_draft@,
            final(self).status == old(self).status,
    {
        if profile_count > 1 {
            self.delete_open = true;
        }
    }

    /// The confirm button of the open name dialog ("Create" for save-as, "Rename"
    /// otherwise): with a usable name it closes the dialog and asks for the action with
    /// the trimmed name; with a blank name (button disabled) nothing happens.
    pub fn confirm_name(&mut self, save_as: bool) -> (r: Option<ConfigAction>)
        ensures
            ({
                let open = if save_as { old(self).save_as_open } else { old(self).rename_open };
                if open && name_usable(old(self).name_draft@) {
                    &&& r matches Some(a) && (if save_as {
                        a matches ConfigAction::SaveAs(n) && n@ == spec_trim(old(self).name_draft@)
                    } else {
                        a matches ConfigAction::Rename(n) && n@ == spec_trim(old(self).name_draft@)
                    })
                    &&& if save_as { !final(self).save_as_open } else { !final(self).rename_open }
                } else {
                    &&& r is None
                    &&& final(self).save_as_open == old(self).save_as_open
                    &&& final(self).rename_open == old(self).rename_open
                }
            }),
            save_as ==> final(self).rename_open == old(self).rename_open,
            !save_as ==> final(self).save_as_open == old(self).save_as_open,
            final(self).delete_open == old(self).delete_open,
            final(self).pending_switch == old(self).pending_switch,
            final(self).name_draft@ == old(self).name_draft@,
            final(self).status == old(self).status,
    {
        let open = if save_as {
            self.save_as_open
        } else {
            self.rename_open
        };
        if !open {
            return None;
        }
        let t = trim_str(self.name_draft.as_str());
        if t.unicode_len() == 0 {
            return None;
        }
        let name = String::from_str(t);
        if save_as {
            self.save_as_open = false;
            Some(ConfigAction::SaveAs(name))
        } else {
            self.rename_open = false;
            Some(ConfigAction::Rename(name))
        }
    }

    /// Whether the name being typed is usable (the confirm button is enabled).
    pub fn name_draft_usable(&self) -> (r: bool)
        ensures
            r == name_usable(self.name_draft@),
    {
        trim_str(self.name_draft.as_str()).unicode_len() > 0
    }

    /// "Cancel" or the window's close box of a name dialog.
    pub fn close_name_dialog(&mut self, save_as: bool)
        ensures
            save_as ==> !final(self).save_as_open && final(self).rename_open == old(self).rename_open,
            !save_as ==> !final(self).rename_open && final(self).save_as_open == old(self).save_as_open,
            final(self).delete_open == old(self).delete_open,
            final(self).pending_switch == old(self).pending_switch,
            final(self).name_draft@ == old(self).name_draft@,
            final(self).status == old(self).status,
    {
        if save_as {
            self.save_as_open = false;
        } else {
            self.rename_open = false;
        }
    }

    /// "Delete" in the open confirmation closes it and asks for the deletion.
    pub fn confirm_delete(&mut self) -> (r: Option<ConfigAction>)
        ensures
            old(self).delete_open ==> r == Some(ConfigAction::Delete),
            !old(self).delete_open ==> r is None,
            !final(self).delete_open,
            final(self).save_as_open == old(self).save_as_open,
            final(self).rename_open == old(self).rename_open,
            final(self).pending_switch == old(self).pending_switch,
            final(self).name_draft@ == old(self).name_draft@,
            final(self).status == old(self).status,
    {
        if self.delete_open {
            self.delete_open = false;
            Some(ConfigAction::Delete)
        } else {
            None
        }
    }

    /// "Cancel" or the close box of the delete confirmation.
    pub fn cancel_delete(&mut self)
        ensures
            !final(self).delete_open,
            final(self).save_as_open == old(self).save_as_open,
            final(self).rename_open == old(self).rename_open,
            final(self).pending_switch == old(self).pending_switch,
            final(self).name_draft@ == old(self).name_draft@,
            final(self).status == old(self).status,
    {
        self.delete_open = false;
    }

    /// A button of the unsaved-changes dialog for the pending switch.  "Save and switch"
    /// is disabled while the settings cannot be saved; every enabled button closes the
    /// dialog.
    pub fn resolve_switch(&mut self, choice: SwitchChoice, can_save: bool) -> (r: Option<ConfigAction>)
        ensures
            match old(self).pending_switch {
                None => r is None && final(self).pending_switch is None,
                Some(target) => match choice {
                    SwitchChoice::SaveAndSwitch => if can_save {
                        r == Some(ConfigAction::SaveAndSwitch(target)) && final(self).pending_switch is None
                    } else {
                        r is None && final(self).pending_switch == Some(target)
                    },
                    SwitchChoice::Discard => r == Some(ConfigAction::Switch(target))
                        && final(self).pending_switch is None,
                    SwitchChoice::Cancel => r is None && final(self).pending_switch is None,
                },
            },
            final(self).save_as_open == old(self).save_as_open,
            final(self).rename_open == old(self).rename_open,
            final(self).delete_open == old(self).delete_open,
            final(self).name_draft@ == old(self).name_draft@,
            final(self).status == old(self).status,
    {
        match self.pending_switch {
            None => None,
            Some(target) => match choice {
                SwitchChoice::SaveAndSwitch => {
                    if can_save {
                        self.pending_switch = None;
                        Some(ConfigAction::SaveAndSwitch(target))
                    } else {
                        None
                    }
                },
                SwitchChoice::Discard => {
                    self.pending_switch = None;
                    Some(ConfigAction::Switch(target))
                },
                SwitchChoice::Cancel => {
                    self.pending_switch = None;
                    None
                },
            },
        }
    }
}

/// "Save" is offered only for valid settings with unsaved edits.
pub fn save_action(can_save: bool, dirty: bool) -> (r: Option<ConfigAction>)
    ensures
        r == if can_save && dirty { Some(ConfigAction::Save) } else { None },
{
    if can_save && dirty {
        Some(ConfigAction::Save)
    } else {
        None
    }
}

/// Selection and drag state of the visibility-zone editor.
#[derive(Clone, Copy, PartialEq, Eq, Debug)]
pub struct ViewWindowEditorState {
    pub selected: Option<usize>,
    pub drag_corner: Option<ViewWindowCorner>,
}

impl Default for ViewWindowEditorState {
    fn default() -> (r: Self)
        ensures
            r.selected is None,
            r.drag_corner is None,
    {
        ViewWindowEditorState { selected: None, drag_corner: None }
    }
}

/// Selection kept after removing a zone, `n` zones remaining: the same position, or the
/// last zone, or none when no zone is left.
pub open spec fn selection_after_removal(idx: int, n: int) -> Option<usize> {
    if n == 0 {
        None
    } else if idx < n - 1 {
        Some(idx as usize)
    } else {
        Some((n - 1) as usize)
    }
}

impl ViewWindowEditorState {
    /// The first zone is selected when nothing is selected and zones exist.
    pub fn select_default(&mut self, zone_count: usize)
        ensures
            final(self).selected == if old(self).selected is None && zone_count > 0 {
                Some(0usize)
            } else {
                old(self).selected
            },
            final(self).drag_corner == old(self).drag_corner,
    {
        if self.selected.is_none() && zone_count > 0 {
            self.selected = Some(0);
        }
    }

    /// "Add zone": appends the zone and selects it.
    pub fn add_zone<T>(&mut self, zones: &mut Vec<T>, zone: T)
        requires
            old(zones)@.len() < usize::MAX,
        ensures
            final(zones)@ == old(zones)@.push(zone),
            final(self).selected == Some(old(zones)@.len() as usize),
            final(self).selected matches Some(i) && i < final(zones)@.len(),
            final(self).drag_corner is None,
    {
        zones.push(zone);
        self.selected = Some(zones.len() - 1);
        self.drag_corner = None;
    }

    /// Deleting zone `idx` (ignored when out of range): the zone goes, the selection
    /// stays at the same position or moves to the new last zone, and any drag ends.
    pub fn remove_zone<T>(&mut self, zones: &mut Vec<T>, idx: usize)
        ensures
            idx < old(zones)@.len() ==> {
                &&& final(zones)@ == old(zones)@.remove(idx as int)
                &&& final(self).selected == selection_after_removal(idx as int, final(zones)@.len() as int)
                &&& final(self).selected matches Some(i) ==> i < final(zones)@.len()
                &&& final(self).drag_corner is None
            },
            idx >= old(zones)@.len() ==> final(zones)@ == old(zones)@ && *final(self) == *old(self),
    {
        if idx < zones.len() {
            zones.remove(idx);
            let n = zones.len();
            self.selected = if n == 0 {
                None
            } else if idx < n - 1 {
                Some(idx)
            } else {
                Some(n - 1)
            };
            self.drag_corner = None;
        }
    }

    /// A drag begins: it grabs the handle hit on the selected zone, if any; otherwise the
    /// zone under the pointer (the topmost, if any) becomes the selection.
    pub fn drag_started(&mut self, handle_hit: Option<ViewWindowCorner>, zone_hit: Option<usize>)
        ensures
            final(self).drag_corner == handle_hit,
            handle_hit is None ==> final(self).selected == zone_hit,
            handle_hit is Some ==> final(self).selected == old(self).selected,
    {
        self.drag_corner = handle_hit;
        if handle_hit.is_none() {
            self.selected = zone_hit;
        }
    }

    /// A drag ends: no handle is held any more.
    pub fn drag_stopped(&mut self)
        ensures
            final(self).drag_corner is None,
            final(self).selected == old(self).selected,
    {
        self.drag_corner = None;
    }

    /// The corner being dragged on the selected zone, when both are set.
    pub fn dragged_corner(&self) -> (r: Option<(usize, ViewWindowCorner)>)
        ensures
            r == match (self.selected, self.drag_corner) {
                (Some(i), Some(c)) => Some((i, c)),
                _ => None,
            },
    {
        match (self.selected, self.drag_corner) {
            (Some(i), Some(c)) => Some((i, c)),
            _ => None,
        }
    }
}

} // verus!
