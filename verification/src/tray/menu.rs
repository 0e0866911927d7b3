//! The tray menu: what it lists, and what its items stand for.
use vstd::prelude::*;

use crate::text::{cat, same};
use crate::tray::config::{profile_models, AppConfig, ProfileModel};

verus! {

/// One entry of the menu.
#[derive(Debug)]
pub enum MenuEntry {
    /// A plain item.
    Item { id: String, label: String },
    /// An item with a check mark.
    Check { id: String, label: String, checked: bool },
    /// A submenu of checkable items.
    Submenu { label: String, items: Vec<(String, String, bool)> },
    Separator,
}

/// A menu entry, as a mathematical value.
pub enum EntryModel {
    Item { id: Seq<char>, label: Seq<char> },
    Check { id: Seq<char>, label: Seq<char>, checked: bool },
    Submenu { label: Seq<char>, items: Seq<(Seq<char>, Seq<char>, bool)> },
    Separator,
}

/// The models of a submenu's items.
pub open spec fn check_models(items: Seq<(String, String, bool)>) -> Seq<
    (Seq<char>, Seq<char>, bool),
> {
    Seq::new(items.len(), |i: int| (items[i].0@, items[i].1@, items[i].2))
}

impl View for MenuEntry {
    type V = EntryModel;

    open spec fn view(&self) -> EntryModel {
        match self {
            MenuEntry::Item { id, label } => EntryModel::Item { id: id@, label: label@ },
            MenuEntry::Check { id, label, checked } => EntryModel::Check {
                id: id@,
                label: label@,
                checked: *checked,
            },
            MenuEntry::Submenu { label, items } => EntryModel::Submenu {
                label: label@,
                items: check_models(items@),
            },
            MenuEntry::Separator => EntryModel::Separator,
        }
    }
}

/// The models of a list of entries.
pub open spec fn menu_models(entries: Seq<MenuEntry>) -> Seq<EntryModel> {
    Seq::new(entries.len(), |i: int| entries[i]@)
}

/// One checkable item per profile, the selected one checked.
pub open spec fn profile_entries(profiles: Seq<ProfileModel>, selected: Seq<char>) -> Seq<
    (Seq<char>, Seq<char>, bool),
> {
    Seq::new(
        profiles.len(),
        |i: int| ("profile:"@ + profiles[i].name, profiles[i].name, profiles[i].name == selected),
    )
}

/// The whole menu.
pub open spec fn menu_of(
    profiles: Seq<ProfileModel>,
    selected: Seq<char>,
    capturing: bool,
) -> Seq<EntryModel> {
    seq![
        EntryModel::Check { id: "capture"@, label: "Capture"@, checked: capturing },
        EntryModel::Submenu {
            label: "Profile"@,
            items: profile_entries(profiles, selected),
        },
        EntryModel::Separator,
        EntryModel::Item { id: "settings"@, label: "Settings…"@ },
        EntryModel::Item { id: "open_folder"@, label: "Open Store Folder"@ },
        EntryModel::Separator,
        EntryModel::Item { id: "quit"@, label: "Quit"@ },
    ]
}

/// The menu for a configuration.
pub fn build_menu(config: &AppConfig, capturing: bool) -> (menu: Vec<MenuEntry>)
    ensures
        menu_models(menu@) == menu_of(config@.profiles, config@.selected_profile, capturing),
{
    let ghost all = profile_models(config.profiles@);
    let mut items: Vec<(String, String, bool)> = Vec::new();
    let mut i: usize = 0;
    while i < config.profiles.len()
        invariant
            i <= config.profiles.len(),
            all == profile_models(config.profiles@),
            items@.len() == i,
            forall|k: int|
                0 <= k < i ==> #[trigger] check_models(items@)[k] == profile_entries(
                    all,
                    config.app.selected_profile@,
                )[k],
        decreases config.profiles.len() - i,
    {
        let ghost items0 = items@;
        let name = &config.profiles[i].name;
        let selected = same(name.as_str(), config.app.selected_profile.as_str());
        items.push((cat("profile:", name.as_str()), name.clone(), selected));
        i += 1;
        proof {
            assert forall|k: int| 0 <= k < i implies #[trigger] check_models(items@)[k]
                == profile_entries(all, config.app.selected_profile@)[k] by {
                if k < i - 1 {
                    assert(check_models(items@)[k] == check_models(items0)[k]);
                }
            }
        }
    }
    assert(check_models(items@) =~= profile_entries(all, config.app.selected_profile@));
    let mut menu: Vec<MenuEntry> = Vec::new();
    menu.push(
        MenuEntry::Check { id: "capture".to_owned(), label: "Capture".to_owned(), checked: capturing },
    );
    menu.push(MenuEntry::Submenu { label: "Profile".to_owned(), items });
    menu.push(MenuEntry::Separator);
    menu.push(MenuEntry::Item { id: "settings".to_owned(), label: "Settings…".to_owned() });
    menu.push(
        MenuEntry::Item { id: "open_folder".to_owned(), label: "Open Store Folder".to_owned() },
    );
    menu.push(MenuEntry::Separator);
    menu.push(MenuEntry::Item { id: "quit".to_owned(), label: "Quit".to_owned() });
    assert(menu_models(menu@) =~= menu_of(
        config@.profiles,
        config@.selected_profile,
        capturing,
    ));
    menu
}

/// What a menu item stands for.
#[derive(Debug)]
pub enum MenuAction {
    ToggleCapture,
    ShowSettings,
    OpenStoreFolder,
    Quit,
    SelectProfile(String),
    Nothing,
}

/// What the id of a menu item stands for.
pub open spec fn action_for(id: Seq<char>, action: MenuAction) -> bool {
    if id == "capture"@ {
        action is ToggleCapture
    } else if id == "settings"@ {
        action is ShowSettings
    } else if id == "open_folder"@ {
        action is OpenStoreFolder
    } else if id == "quit"@ {
        action is Quit
    } else {
        match action {
            MenuAction::SelectProfile(name) => id == "profile:"@ + name@,
            MenuAction::Nothing => forall|name: Seq<char>| id != #[trigger] ("profile:"@ + name),
            _ => false,
        }
    }
}

/// What the id of a menu item stands for.
pub fn menu_action(id: &str) -> (action: MenuAction)
    ensures
        action_for(id@, action),
{
    if same(id, "capture") {
        return MenuAction::ToggleCapture;
    }
    if same(id, "settings") {
        return MenuAction::ShowSettings;
    }
    if same(id, "open_folder") {
        return MenuAction::OpenStoreFolder;
    }
    if same(id, "quit") {
        return MenuAction::Quit;
    }
    let lead = "profile:";
    let n: usize = lead.unicode_len();
    let len: usize = id.unicode_len();
    if len >= n && same(id.substring_char(0, n), lead) {
        let name = id.substring_char(n, len).to_owned();
        assert(id@ =~= lead@ + name@);
        MenuAction::SelectProfile(name)
    } else {
        proof {
            assert forall|name: Seq<char>| id@ != #[trigger] (lead@ + name) by {
                if id@ == lead@ + name {
                    assert(id@.subrange(0, n as int) =~= lead@);
                }
            }
        }
        MenuAction::Nothing
    }
}

} // verus!
