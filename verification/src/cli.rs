//! What the configuration prompt does with a configuration.

use vstd::prelude::*;
use crate::config::{contains_chars, contains_seq, Config};
use crate::text::chars_of;

verus! {

/// The text of a new configuration: its sections, all empty.
pub const CONFIG_TEMPLATE: &'static str = "[clientId]\n\n[icons]\n\n[messages]\n\n[default_icon]\n\n[default_small_icon]\n\n[default_icon_text]\n\n[default_small_text]\n\n[player]\n";

/// The text of a new record of the active configuration.
pub const ACTIVE_TEMPLATE: &'static str = "[active]";

/// The entries of the main menu of the prompt, in order.
pub const MAIN_MENU: [&'static str; 5] = [
    "Swap Config",
    "Edit Config",
    "Create Config",
    "Remove Config",
    "Exit",
];

/// The entries of the edit menu of the prompt, in order.
pub const EDIT_MENU: [&'static str; 3] = ["Add to Config", "Remove from Config", "Back"];

/// What a choice in the main menu leads to.
#[derive(Debug, PartialEq, Eq, Structural)]
pub enum MainAction {
    /// Make another configuration the active one.
    Swap,
    /// Add values to a key, or remove values from it.
    Edit,
    /// Create a configuration from the template.
    Create,
    /// Delete a configuration.
    Remove,
    /// Leave the prompt.
    Exit,
}

/// What a choice in the edit menu leads to.
#[derive(Debug, PartialEq, Eq, Structural)]
pub enum EditAction {
    /// Add a value to a key.
    Add,
    /// Remove values from a key.
    Remove,
    /// Go back to the main menu.
    Back,
}

/// What the answer to "Are you sure you want to delete this config?" leads to.
#[derive(Debug, PartialEq, Eq, Structural)]
pub enum DeleteAction {
    /// Delete the configuration.
    Delete,
    /// Keep it and say that the deletion was aborted.
    Abort,
    /// Keep it silently.
    Ignore,
}

/// The action of the entry `choice` of `MAIN_MENU`; any other index leaves the prompt.
pub fn main_action(choice: usize) -> (a: MainAction)
    ensures
        a == (if choice == 0 {
            MainAction::Swap
        } else if choice == 1 {
            MainAction::Edit
        } else if choice == 2 {
            MainAction::Create
        } else if choice == 3 {
            MainAction::Remove
        } else {
            MainAction::Exit
        }),
{
    if choice == 0 {
        MainAction::Swap
    } else if choice == 1 {
        MainAction::Edit
    } else if choice == 2 {
        MainAction::Create
    } else if choice == 3 {
        MainAction::Remove
    } else {
        MainAction::Exit
    }
}

/// The action of the entry `choice` of `EDIT_MENU`; any other index goes back.
pub fn edit_action(choice: usize) -> (a: EditAction)
    ensures
        a == (if choice == 0 {
            EditAction::Add
        } else if choice == 1 {
            EditAction::Remove
        } else {
            EditAction::Back
        }),
{
    if choice == 0 {
        EditAction::Add
    } else if choice == 1 {
        EditAction::Remove
    } else {
        EditAction::Back
    }
}

/// The action of the answer `choice` to the confirmation (`Yes` is 0, `No` is 1).
pub fn delete_action(choice: usize) -> (a: DeleteAction)
    ensures
        a == (if choice == 0 {
            DeleteAction::Delete
        } else if choice == 1 {
            DeleteAction::Abort
        } else {
            DeleteAction::Ignore
        }),
{
    if choice == 0 {
        DeleteAction::Delete
    } else if choice == 1 {
        DeleteAction::Abort
    } else {
        DeleteAction::Ignore
    }
}

/// Whether the prompt shows the main menu again after `a` is done: after every
/// action but leaving.
pub fn returns_to_menu(a: &MainAction) -> (b: bool)
    ensures
        b == (*a != MainAction::Exit),
{
    match a {
        MainAction::Exit => false,
        _ => true,
    }
}

/// A key that holds a single setting: adding a value to it replaces the values
/// already there.
pub open spec fn is_single_setting(key: Seq<char>) -> bool {
    key == "clientId"@ || key == "player"@ || contains_seq(key, "default"@)
}

/// What came of adding a value through the prompt.
#[derive(Debug, PartialEq, Eq, Structural)]
pub enum AddOutcome {
    /// The value was added.
    Added,
    /// The configuration has no such key; nothing was added.
    UnknownKey,
    /// The key is `active`, which the prompt does not edit; nothing changed.
    ActiveRefused,
}

/// Whether `key` holds a single setting.
pub fn is_single_setting_key(key: &str) -> (b: bool)
    ensures
        b == is_single_setting(key@),
{
    let k = key.to_owned();
    let client = "clientId".to_owned();
    let player = "player".to_owned();
    k == client || k == player || contains_chars(&chars_of(key), &chars_of(
        "default",
    ))
}

impl Config {
    /// Adds `value` under `key` as the prompt's "Add to Config" does: for a key that
    /// holds a single setting, `value` replaces the values there; for other keys it
    /// is appended; the key `active` is refused; a key that is not present gets nothing.
    pub fn edit_add(&mut self, key: &str, value: String) -> (r: AddOutcome)
        requires
            old(self).wf(),
        ensures
            final(self).wf(),
            key@ == "active"@ ==> r == AddOutcome::ActiveRefused && final(self)@ == old(self)@,
            key@ != "active"@ && !old(self)@.contains_key(key@) ==> r == AddOutcome::UnknownKey
                && final(self)@ == old(self)@,
            key@ != "active"@ && old(self)@.contains_key(key@) ==> r == AddOutcome::Added
                && final(self)@ == old(self)@.insert(
                key@,
                if is_single_setting(key@) {
                    seq![value@]
                } else {
                    old(self)@[key@].push(value@)
                },
            ),
    {
        let k = key.to_owned();
        if k == "active".to_owned() {
            return AddOutcome::ActiveRefused;
        }
        if is_single_setting_key(key) {
            if self.replace_values(key, value) {
                return AddOutcome::Added;
            } else {
                return AddOutcome::UnknownKey;
            }
        }
        if self.add_to_config(key, value) {
            AddOutcome::Added
        } else {
            AddOutcome::UnknownKey
        }
    }
}

} // verus!
