//! Saved views: what a view is, naming one, and picking one.
use vstd::prelude::*;

use crate::app::tree_pane::{PaneModel, TreePane};
use crate::app::types::{shortened, KeyCode, KeyEvent};
use crate::keyed::{ascending, KeyMap, KeySet};
use crate::text::{texts, trim, trimmed};

verus! {

/// A saved view: the filter, what was open, and what was plotted. The cursor and
/// the scroll are where one happened to stop, not what one was looking at.
pub struct TuiProfile {
    pub name: String,
    pub filter: String,
    pub expanded: Vec<String>,
    pub unfolded: Vec<String>,
    pub plot_fields: KeyMap<String>,
    pub diff_enabled: bool,
}

/// A saved view, as a mathematical value.
pub struct ProfileModel {
    pub name: Seq<char>,
    pub filter: Seq<char>,
    pub expanded: Seq<Seq<char>>,
    pub unfolded: Seq<Seq<char>>,
    pub plot_fields: Map<Seq<char>, Seq<char>>,
    pub diff_enabled: bool,
}

/// The views of a map of strings.
pub open spec fn text_map(m: Map<Seq<char>, String>) -> Map<Seq<char>, Seq<char>> {
    m.map_values(|s: String| s@)
}

impl View for TuiProfile {
    type V = ProfileModel;

    open spec fn view(&self) -> ProfileModel {
        ProfileModel {
            name: self.name@,
            filter: self.filter@,
            expanded: texts(self.expanded@),
            unfolded: texts(self.unfolded@),
            plot_fields: text_map(self.plot_fields@),
            diff_enabled: self.diff_enabled,
        }
    }
}

/// The models of the saved views.
pub open spec fn profile_models(v: Seq<TuiProfile>) -> Seq<ProfileModel> {
    v.map_values(|p: TuiProfile| p@)
}

/// Whether a list holds exactly the members of a set, in ascending order, so that
/// saving the same view again writes the same thing.
pub open spec fn lists(v: Seq<Seq<char>>, s: Set<Seq<char>>) -> bool {
    &&& ascending(v)
    &&& forall|k: Seq<char>| s.contains(k) <==> #[trigger] v.contains(k)
}

/// Whether a saved view is what is looked at now, under a name.
pub open spec fn captures(
    p: ProfileModel,
    name: Seq<char>,
    pane: PaneModel,
    plot_field: Map<Seq<char>, Seq<char>>,
    diff_enabled: bool,
) -> bool {
    &&& p.name == name
    &&& p.filter == pane.filter
    &&& lists(p.expanded, pane.expanded)
    &&& lists(p.unfolded, pane.unfolded)
    &&& p.plot_fields == plot_field
    &&& p.diff_enabled == diff_enabled
}

/// A copy of a map of strings.
pub fn copy_text_map(m: &KeyMap<String>) -> (r: KeyMap<String>)
    ensures
        text_map(r@) == text_map(m@),
{
    let mut r: KeyMap<String> = KeyMap::new();
    let keys = m.keys();
    let ghost all = texts(keys@);
    let mut i: usize = 0;
    assert(all.take(0) =~= Seq::empty());
    while i < keys.len()
        invariant
            i <= keys.len(),
            all == texts(keys@),
            forall|k: Seq<char>| m@.dom().contains(k) <==> all.contains(k),
            forall|k: Seq<char>| #[trigger] r@.dom().contains(k) <==> all.take(i as int).contains(k),
            forall|k: Seq<char>| #[trigger] r@.dom().contains(k) ==> r@[k]@ == m@[k]@,
        decreases keys.len() - i,
    {
        let ghost before = r@;
        let ghost key = all[i as int];
        assert(keys@[i as int]@ == key);
        assert(all.contains(key));
        if let Some(v) = m.get(keys[i].as_str()) {
            r.insert(keys[i].clone(), v.clone());
        }
        proof {
            let a = all.take(i as int);
            let b = all.take(i + 1);
            assert(b =~= a.push(key));
            assert forall|k: Seq<char>| #[trigger] r@.dom().contains(k) <==> b.contains(k) by {
                if a.contains(k) {
                    let j = choose|j: int| 0 <= j < a.len() && a[j] == k;
                    assert(b[j] == k);
                }
                assert(b[i as int] == key);
                if b.contains(k) && k != key {
                    let j = choose|j: int| 0 <= j < b.len() && b[j] == k;
                    assert(a[j] == k);
                }
            }
        }
        i = i + 1;
    }
    assert(all.take(all.len() as int) =~= all);
    assert(text_map(r@) =~= text_map(m@));
    r
}

/// The set that a list names.
pub fn set_of(v: &Vec<String>) -> (s: KeySet)
    ensures
        s@ == texts(v@).to_set(),
{
    let ghost all = texts(v@);
    let mut s = KeySet::new();
    let mut i: usize = 0;
    assert(s@ =~= all.take(0).to_set());
    while i < v.len()
        invariant
            i <= v.len(),
            all == texts(v@),
            s@ == all.take(i as int).to_set(),
        decreases v.len() - i,
    {
        s.insert(v[i].clone());
        proof {
            let a = all.take(i as int);
            let b = all.take(i + 1);
            assert(b =~= a.push(all[i as int]));
            assert(b.to_set() =~= a.to_set().insert(all[i as int])) by {
                assert forall|k: Seq<char>| #[trigger] b.to_set().contains(k) <==> a.to_set().insert(
                    all[i as int],
                ).contains(k) by {
                    if a.contains(k) {
                        let j = choose|j: int| 0 <= j < a.len() && a[j] == k;
                        assert(b[j] == k);
                    }
                    assert(b[i as int] == all[i as int]);
                    if b.contains(k) && k != all[i as int] {
                        let j = choose|j: int| 0 <= j < b.len() && b[j] == k;
                        assert(a[j] == k);
                    }
                }
            }
        }
        i = i + 1;
    }
    assert(all.take(all.len() as int) =~= all);
    s
}

/// A copy of a list of strings.
pub fn copy_texts(v: &Vec<String>) -> (r: Vec<String>)
    ensures
        texts(r@) == texts(v@),
{
    let mut r: Vec<String> = Vec::new();
    let mut i: usize = 0;
    assert(texts(r@) =~= texts(v@).take(0));
    while i < v.len()
        invariant
            i <= v.len(),
            texts(r@) == texts(v@).take(i as int),
        decreases v.len() - i,
    {
        let ghost before = r@;
        r.push(v[i].clone());
        assert(texts(r@) =~= texts(before).push(v@[i as int]@));
        assert(texts(r@) =~= texts(v@).take(i + 1));
        i = i + 1;
    }
    assert(texts(v@).take(v@.len() as int) =~= texts(v@));
    r
}

impl TuiProfile {
    /// A copy of the view.
    pub fn duplicate(&self) -> (r: TuiProfile)
        ensures
            r@ == self@,
    {
        TuiProfile {
            name: self.name.clone(),
            filter: self.filter.clone(),
            expanded: copy_texts(&self.expanded),
            unfolded: copy_texts(&self.unfolded),
            plot_fields: copy_text_map(&self.plot_fields),
            diff_enabled: self.diff_enabled,
        }
    }
}

/// Capture what is looked at as a named view.
pub fn snapshot_profile(
    name: &str,
    pane: &TreePane,
    plot_field: &KeyMap<String>,
    diff_enabled: bool,
) -> (p: TuiProfile)
    ensures
        captures(p@, name@, pane@, text_map(plot_field@), diff_enabled),
{
    TuiProfile {
        name: name.to_owned(),
        filter: pane.filter.clone(),
        expanded: pane.expanded.keys(),
        unfolded: pane.unfolded.keys(),
        plot_fields: copy_text_map(plot_field),
        diff_enabled,
    }
}

impl PaneModel {
    /// After a saved view was restored. The expansion state is the user's own, so
    /// the automatic opening stands down.
    pub open spec fn restored(self, p: ProfileModel) -> PaneModel {
        (PaneModel {
            filter: p.filter,
            filtering: false,
            expanded: p.expanded.to_set(),
            unfolded: p.unfolded.to_set(),
            selected: 0,
            detail_scroll: 0,
            ..self
        }).touched().refreshed()
    }
}

impl TreePane {
    /// Restore what a saved view says of the tree.
    pub fn restore(&mut self, profile: &TuiProfile)
        ensures
            final(self)@ == old(self)@.restored(profile@),
    {
        self.filter = profile.filter.clone();
        self.filtering = false;
        self.expanded = set_of(&profile.expanded);
        self.unfolded = set_of(&profile.unfolded);
        self.selected = 0;
        self.detail_scroll = 0;
        self.mark_tree_touched();
        self.refresh_tree_rows();
    }
}

/// The saved views, the name being typed, and the cursor of the picker.
pub struct Profiles {
    pub profiles: Vec<TuiProfile>,
    pub profile_name_input: String,
    pub profile_selected: usize,
}

/// The saved views, as a mathematical value.
pub struct ProfilesModel {
    pub profiles: Seq<ProfileModel>,
    pub profile_name_input: Seq<char>,
    pub profile_selected: usize,
}

impl View for Profiles {
    type V = ProfilesModel;

    open spec fn view(&self) -> ProfilesModel {
        ProfilesModel {
            profiles: profile_models(self.profiles@),
            profile_name_input: self.profile_name_input@,
            profile_selected: self.profile_selected,
        }
    }
}

/// What a key press in the save dialog asks of the rest.
#[derive(Debug)]
pub enum SaveOutcome {
    Stay,
    Close,
    /// A name was not given.
    Refuse,
    /// Closed, and the view is to be saved under the name.
    Save(String),
}

/// What a key press asks, as a mathematical value.
pub enum SaveModel {
    Stay,
    Close,
    Refuse,
    Save(Seq<char>),
}

impl View for SaveOutcome {
    type V = SaveModel;

    open spec fn view(&self) -> SaveModel {
        match self {
            SaveOutcome::Stay => SaveModel::Stay,
            SaveOutcome::Close => SaveModel::Close,
            SaveOutcome::Refuse => SaveModel::Refuse,
            SaveOutcome::Save(name) => SaveModel::Save(name@),
        }
    }
}

/// What a key press in the picker asks of the rest.
#[derive(Debug, Clone, Copy, PartialEq, Eq, Structural)]
pub enum LoadOutcome {
    Stay,
    Close,
    /// Closed, and the view is to be restored.
    Load(usize),
}

impl ProfilesModel {
    /// After a key press in the save dialog.
    pub open spec fn save_pressed(self, code: KeyCode) -> ProfilesModel {
        match code {
            KeyCode::Esc => ProfilesModel { profile_name_input: Seq::empty(), ..self },
            KeyCode::Enter => if trimmed(self.profile_name_input).len() == 0 {
                self
            } else {
                ProfilesModel { profile_name_input: Seq::empty(), ..self }
            },
            KeyCode::Backspace => ProfilesModel {
                profile_name_input: shortened(self.profile_name_input),
                ..self
            },
            KeyCode::Char(c) => ProfilesModel {
                profile_name_input: self.profile_name_input.push(c),
                ..self
            },
            _ => self,
        }
    }

    /// What a key press in the save dialog asks.
    pub open spec fn save_outcome(self, code: KeyCode) -> SaveModel {
        match code {
            KeyCode::Esc => SaveModel::Close,
            KeyCode::Enter => if trimmed(self.profile_name_input).len() == 0 {
                SaveModel::Refuse
            } else {
                SaveModel::Save(trimmed(self.profile_name_input))
            },
            _ => SaveModel::Stay,
        }
    }

    /// After the cursor of the picker went down.
    pub open spec fn lower(self) -> ProfilesModel {
        if self.profiles.len() == 0 {
            self
        } else {
            ProfilesModel {
                profile_selected: if self.profile_selected + 1 < self.profiles.len() {
                    (self.profile_selected + 1) as usize
                } else {
                    (self.profiles.len() - 1) as usize
                },
                ..self
            }
        }
    }

    /// After the cursor of the picker went up.
    pub open spec fn higher(self) -> ProfilesModel {
        ProfilesModel {
            profile_selected: if self.profile_selected > 0 {
                (self.profile_selected - 1) as usize
            } else {
                0
            },
            ..self
        }
    }

    /// After a key press in the picker.
    pub open spec fn load_pressed(self, code: KeyCode) -> ProfilesModel {
        match code {
            KeyCode::Down => self.lower(),
            KeyCode::Up => self.higher(),
            KeyCode::Char(c) => if c == 'j' {
                self.lower()
            } else if c == 'k' {
                self.higher()
            } else {
                self
            },
            _ => self,
        }
    }

    /// What a key press in the picker asks.
    pub open spec fn load_outcome(self, code: KeyCode) -> LoadOutcome {
        match code {
            KeyCode::Esc => LoadOutcome::Close,
            KeyCode::Char(c) => if c == 'q' {
                LoadOutcome::Close
            } else {
                LoadOutcome::Stay
            },
            KeyCode::Enter => if self.profile_selected < self.profiles.len() {
                LoadOutcome::Load(self.profile_selected)
            } else {
                LoadOutcome::Close
            },
            _ => LoadOutcome::Stay,
        }
    }

    /// No saved views.
    pub open spec fn fresh() -> ProfilesModel {
        ProfilesModel {
            profiles: Seq::empty(),
            profile_name_input: Seq::empty(),
            profile_selected: 0,
        }
    }
}

impl Profiles {
    /// No saved views.
    pub fn new() -> (p: Profiles)
        ensures
            p@ == ProfilesModel::fresh(),
    {
        let p = Profiles {
            profiles: Vec::new(),
            profile_name_input: String::new(),
            profile_selected: 0,
        };
        assert(p@.profiles =~= Seq::empty());
        p
    }

    /// A key press in the save dialog.
    pub fn handle_profile_save_key(&mut self, key: KeyEvent) -> (r: SaveOutcome)
        ensures
            final(self)@ == old(self)@.save_pressed(key.code),
            r@ == old(self)@.save_outcome(key.code),
    {
        match key.code {
            KeyCode::Esc => {
                self.profile_name_input = String::new();
                return SaveOutcome::Close;
            },
            KeyCode::Enter => {
                let name = trim(self.profile_name_input.as_str());
                if name.as_str().is_empty() {
                    return SaveOutcome::Refuse;
                }
                self.profile_name_input = String::new();
                return SaveOutcome::Save(name);
            },
            KeyCode::Backspace => {
                let _ = self.profile_name_input.pop();
            },
            KeyCode::Char(c) => {
                self.profile_name_input.push(c);
            },
            _ => {},
        }
        SaveOutcome::Stay
    }

    fn move_down(&mut self)
        ensures
            final(self)@ == old(self)@.lower(),
    {
        let count: usize = self.profiles.len();
        if count > 0 {
            self.profile_selected = if self.profile_selected < count - 1 {
                self.profile_selected + 1
            } else {
                count - 1
            };
        }
    }

    /// A key press in the picker.
    pub fn handle_profile_load_key(&mut self, key: KeyEvent) -> (r: LoadOutcome)
        ensures
            final(self)@ == old(self)@.load_pressed(key.code),
            r == old(self)@.load_outcome(key.code),
    {
        match key.code {
            KeyCode::Esc => LoadOutcome::Close,
            KeyCode::Down => {
                self.move_down();
                LoadOutcome::Stay
            },
            KeyCode::Up => {
                self.profile_selected = self.profile_selected.saturating_sub(1);
                LoadOutcome::Stay
            },
            KeyCode::Char(c) => {
                if c == 'q' {
                    return LoadOutcome::Close;
                }
                if c == 'j' {
                    self.move_down();
                } else if c == 'k' {
                    self.profile_selected = self.profile_selected.saturating_sub(1);
                }
                LoadOutcome::Stay
            },
            KeyCode::Enter => if self.profile_selected < self.profiles.len() {
                LoadOutcome::Load(self.profile_selected)
            } else {
                LoadOutcome::Close
            },
            _ => LoadOutcome::Stay,
        }
    }
}

/// Restoring a view that was just captured gives back the filter and everything
/// that was open, on whatever tree there is by then.
pub proof fn law_a_saved_view_comes_back(
    p: ProfileModel,
    name: Seq<char>,
    then: PaneModel,
    plot_field: Map<Seq<char>, Seq<char>>,
    diff_enabled: bool,
    now: PaneModel,
)
    requires
        captures(p, name, then, plot_field, diff_enabled),
    ensures
        now.restored(p).filter == then.filter,
        now.restored(p).expanded == then.expanded,
        now.restored(p).unfolded == then.unfolded,
        now.restored(p).user_touched,
        p.plot_fields == plot_field,
        p.diff_enabled == diff_enabled,
{
    assert(p.expanded.to_set() =~= then.expanded);
    assert(p.unfolded.to_set() =~= then.unfolded);
}

/// Capturing the same view twice under one name writes the same thing.
pub proof fn law_capturing_is_repeatable(
    p: ProfileModel,
    q: ProfileModel,
    name: Seq<char>,
    pane: PaneModel,
    plot_field: Map<Seq<char>, Seq<char>>,
    diff_enabled: bool,
)
    requires
        captures(p, name, pane, plot_field, diff_enabled),
        captures(q, name, pane, plot_field, diff_enabled),
    ensures
        p == q,
{
    assert forall|x: Seq<char>| p.expanded.contains(x) <==> q.expanded.contains(x) by {
        assert(pane.expanded.contains(x) <==> p.expanded.contains(x));
        assert(pane.expanded.contains(x) <==> q.expanded.contains(x));
    }
    assert forall|x: Seq<char>| p.unfolded.contains(x) <==> q.unfolded.contains(x) by {
        assert(pane.unfolded.contains(x) <==> p.unfolded.contains(x));
        assert(pane.unfolded.contains(x) <==> q.unfolded.contains(x));
    }
    crate::tree_laws::lemma_ascending_unique(p.expanded, q.expanded);
    crate::tree_laws::lemma_ascending_unique(p.unfolded, q.unfolded);
}

} // verus!
