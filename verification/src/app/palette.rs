//! The command palette: the command table, and the filter and cursor over it.
use vstd::prelude::*;

use crate::app::types::{shortened, ConnectMode, KeyCode, KeyEvent, Space};
use crate::text::{ascii_lowercase, ascii_lowered, contains_text, occurs};

verus! {

/// What a palette command does.
#[derive(Debug, Clone, Copy, PartialEq, Eq, Structural)]
pub enum PaletteAction {
    SwitchSpace(Space),
    RunDoctor,
    ScoutRefresh,
    SetMode(ConnectMode),
    OpenScoutPort,
    OpenHelp,
    /// Open the publish editor. Listed even when publishing is off, so that the
    /// capability is discoverable and its absence is explained.
    OpenPublish,
    SaveProfile,
    LoadProfile,
    Quit,
}

/// One row of the palette and of the help overlay.
pub struct PaletteCommand {
    pub label: &'static str,
    /// The direct key, if any.
    pub key_hint: &'static str,
    pub action: PaletteAction,
}

/// A command, as a mathematical value.
pub struct CommandModel {
    pub label: Seq<char>,
    pub key_hint: Seq<char>,
    pub action: PaletteAction,
}

impl View for PaletteCommand {
    type V = CommandModel;

    open spec fn view(&self) -> CommandModel {
        CommandModel { label: self.label@, key_hint: self.key_hint@, action: self.action }
    }
}

/// The models of a list of commands.
pub open spec fn command_models(v: Seq<PaletteCommand>) -> Seq<CommandModel> {
    v.map_values(|c: PaletteCommand| c@)
}

/// A command of the table.
pub open spec fn command(label: Seq<char>, key_hint: Seq<char>, action: PaletteAction) -> CommandModel {
    CommandModel { label, key_hint, action }
}

/// The command table.
pub open spec fn commands() -> Seq<CommandModel> {
    seq![
        command("Go to Traffic"@, "1"@, PaletteAction::SwitchSpace(Space::Traffic)),
        command("Go to Network"@, "2"@, PaletteAction::SwitchSpace(Space::Network)),
        command("Run doctor"@, "d"@, PaletteAction::RunDoctor),
        command("Refresh nodes (scout)"@, "s"@, PaletteAction::ScoutRefresh),
        command("Switch to peer mode"@, ""@, PaletteAction::SetMode(ConnectMode::Peer)),
        command("Switch to client mode"@, ""@, PaletteAction::SetMode(ConnectMode::Client)),
        command("Set scout domain / port…"@, ""@, PaletteAction::OpenScoutPort),
        command("Publish to a key…"@, ""@, PaletteAction::OpenPublish),
        command("Save this view…"@, ""@, PaletteAction::SaveProfile),
        command("Load a saved view…"@, ""@, PaletteAction::LoadProfile),
        command("Help"@, "?"@, PaletteAction::OpenHelp),
        command("Quit"@, "q"@, PaletteAction::Quit),
    ]
}

fn entry(label: &'static str, key_hint: &'static str, action: PaletteAction) -> (c: PaletteCommand)
    ensures
        c@ == command(label@, key_hint@, action),
{
    PaletteCommand { label, key_hint, action }
}

/// The command table. The palette and the help overlay both list it, so the two can
/// never drift apart.
pub fn palette_commands() -> (v: Vec<PaletteCommand>)
    ensures
        command_models(v@) == commands(),
        v@.len() == 12,
{
    let v = vec![
        entry("Go to Traffic", "1", PaletteAction::SwitchSpace(Space::Traffic)),
        entry("Go to Network", "2", PaletteAction::SwitchSpace(Space::Network)),
        entry("Run doctor", "d", PaletteAction::RunDoctor),
        entry("Refresh nodes (scout)", "s", PaletteAction::ScoutRefresh),
        entry("Switch to peer mode", "", PaletteAction::SetMode(ConnectMode::Peer)),
        entry("Switch to client mode", "", PaletteAction::SetMode(ConnectMode::Client)),
        entry("Set scout domain / port…", "", PaletteAction::OpenScoutPort),
        entry("Publish to a key…", "", PaletteAction::OpenPublish),
        entry("Save this view…", "", PaletteAction::SaveProfile),
        entry("Load a saved view…", "", PaletteAction::LoadProfile),
        entry("Help", "?", PaletteAction::OpenHelp),
        entry("Quit", "q", PaletteAction::Quit),
    ];
    assert(command_models(v@) =~= commands());
    v
}

/// The filter and the cursor of the palette.
pub struct Palette {
    pub palette_input: String,
    pub palette_selected: usize,
}

/// The filter and the cursor, as a mathematical value.
pub struct PaletteModel {
    pub palette_input: Seq<char>,
    pub palette_selected: usize,
}

impl View for Palette {
    type V = PaletteModel;

    open spec fn view(&self) -> PaletteModel {
        PaletteModel {
            palette_input: self.palette_input@,
            palette_selected: self.palette_selected,
        }
    }
}

/// Whether a command is listed for an input: its label holds it, whatever the case
/// of ASCII letters. Nothing typed lists everything.
pub open spec fn listed(input: Seq<char>, i: int) -> bool {
    input.len() == 0 || occurs(ascii_lowered(commands()[i].label), ascii_lowered(input))
}

/// The positions of the listed ones among the first `n` commands.
pub open spec fn listed_upto(input: Seq<char>, n: nat) -> Seq<usize>
    decreases n,
{
    if n == 0 {
        Seq::empty()
    } else {
        let before = listed_upto(input, (n - 1) as nat);
        if listed(input, n - 1) {
            before.push((n - 1) as usize)
        } else {
            before
        }
    }
}

impl PaletteModel {
    /// The positions of the listed commands.
    pub open spec fn filtered(self) -> Seq<usize> {
        listed_upto(self.palette_input, commands().len())
    }

    /// The action under the cursor.
    pub open spec fn chosen(self) -> Option<PaletteAction> {
        if self.palette_selected < self.filtered().len() {
            Some(commands()[self.filtered()[self.palette_selected as int] as int].action)
        } else {
            None
        }
    }

    /// After the cursor went down.
    pub open spec fn lower(self) -> PaletteModel {
        let len = self.filtered().len();
        if len == 0 {
            self
        } else {
            PaletteModel {
                palette_selected: if self.palette_selected + 1 < len {
                    (self.palette_selected + 1) as usize
                } else {
                    (len - 1) as usize
                },
                ..self
            }
        }
    }

    /// After the cursor went up.
    pub open spec fn higher(self) -> PaletteModel {
        PaletteModel {
            palette_selected: if self.palette_selected > 0 {
                (self.palette_selected - 1) as usize
            } else {
                0
            },
            ..self
        }
    }

    /// After a key press in the palette.
    pub open spec fn pressed(self, code: KeyCode) -> PaletteModel {
        match code {
            KeyCode::Down | KeyCode::Tab => self.lower(),
            KeyCode::Up => self.higher(),
            KeyCode::Backspace => PaletteModel {
                palette_input: shortened(self.palette_input),
                palette_selected: 0,
            },
            KeyCode::Char(c) => PaletteModel {
                palette_input: self.palette_input.push(c),
                palette_selected: 0,
            },
            _ => self,
        }
    }

    /// A palette with nothing typed.
    pub open spec fn fresh() -> PaletteModel {
        PaletteModel { palette_input: Seq::empty(), palette_selected: 0 }
    }
}

/// What a key press in the palette asks of the rest.
#[derive(Debug, Clone, Copy, PartialEq, Eq, Structural)]
pub enum PaletteOutcome {
    Stay,
    Close,
    Run(PaletteAction),
}

/// What a key press in the palette asks of the rest.
pub open spec fn palette_outcome(m: PaletteModel, code: KeyCode) -> PaletteOutcome {
    match code {
        KeyCode::Esc => PaletteOutcome::Close,
        KeyCode::Enter => match m.chosen() {
            Some(action) => PaletteOutcome::Run(action),
            None => PaletteOutcome::Stay,
        },
        _ => PaletteOutcome::Stay,
    }
}

proof fn lemma_listed_upto(input: Seq<char>, n: nat)
    ensures
        forall|k: int|
            0 <= k < listed_upto(input, n).len() ==> #[trigger] listed_upto(input, n)[k] < n || n
                > usize::MAX,
        listed_upto(input, n).len() <= n,
    decreases n,
{
    if n > 0 {
        lemma_listed_upto(input, (n - 1) as nat);
    }
}

impl Palette {
    /// A palette with nothing typed.
    pub fn new() -> (p: Palette)
        ensures
            p@ == PaletteModel::fresh(),
    {
        Palette { palette_input: String::new(), palette_selected: 0 }
    }

    /// Start over.
    pub fn open(&mut self)
        ensures
            final(self)@ == PaletteModel::fresh(),
    {
        self.palette_input = String::new();
        self.palette_selected = 0;
    }

    /// Positions in the command table of the commands whose label holds the input,
    /// whatever the case of ASCII letters. Nothing typed lists everything.
    pub fn filtered_palette_commands(&self) -> (v: Vec<usize>)
        ensures
            v@ == self@.filtered(),
            forall|k: int| 0 <= k < v@.len() ==> #[trigger] v@[k] < commands().len(),
    {
        let needle = ascii_lowercase(self.palette_input.as_str());
        let table = palette_commands();
        let ghost input = self@.palette_input;
        let mut v: Vec<usize> = Vec::new();
        let mut i: usize = 0;
        while i < table.len()
            invariant
                i <= table.len(),
                table.len() == 12,
                command_models(table@) == commands(),
                input == self.palette_input@,
                needle@ == ascii_lowered(input),
                v@ == listed_upto(input, i as nat),
            decreases table.len() - i,
        {
            assert(commands()[i as int] == table@[i as int]@);
            if self.palette_input.as_str().is_empty() {
                v.push(i);
            } else {
                let label = ascii_lowercase(table[i].label);
                if contains_text(label.as_str(), needle.as_str()) {
                    v.push(i);
                }
            }
            i = i + 1;
        }
        proof {
            lemma_listed_upto(input, 12);
        }
        v
    }

    /// A key press in the palette: printable characters filter, the arrows and
    /// `Tab` move the cursor, `Enter` runs, `Esc` closes.
    pub fn handle_palette_key(&mut self, key: KeyEvent) -> (r: PaletteOutcome)
        ensures
            final(self)@ == old(self)@.pressed(key.code),
            r == palette_outcome(old(self)@, key.code),
    {
        match key.code {
            KeyCode::Esc => {
                return PaletteOutcome::Close;
            },
            KeyCode::Enter => {
                let filtered = self.filtered_palette_commands();
                if self.palette_selected < filtered.len() {
                    let table = palette_commands();
                    let at: usize = filtered[self.palette_selected];
                    assert(commands()[at as int] == table@[at as int]@);
                    return PaletteOutcome::Run(table[at].action);
                }
            },
            KeyCode::Down | KeyCode::Tab => {
                let len: usize = self.filtered_palette_commands().len();
                if len > 0 {
                    self.palette_selected = if self.palette_selected < len - 1 {
                        self.palette_selected + 1
                    } else {
                        len - 1
                    };
                }
            },
            KeyCode::Up => {
                self.palette_selected = self.palette_selected.saturating_sub(1);
            },
            KeyCode::Backspace => {
                let _ = self.palette_input.pop();
                self.palette_selected = 0;
            },
            KeyCode::Char(c) => {
                self.palette_input.push(c);
                self.palette_selected = 0;
            },
            _ => {},
        }
        PaletteOutcome::Stay
    }
}

/// With nothing typed every command is listed, in table order.
pub proof fn law_nothing_typed_lists_everything(n: nat)
    requires
        n <= commands().len(),
    ensures
        listed_upto(Seq::empty(), n) == Seq::new(n, |i: int| i as usize),
    decreases n,
{
    if n > 0 {
        law_nothing_typed_lists_everything((n - 1) as nat);
        assert(listed_upto(Seq::empty(), n) =~= Seq::new(n, |i: int| i as usize));
    } else {
        assert(listed_upto(Seq::empty(), 0) =~= Seq::new(0, |i: int| i as usize));
    }
}

/// Every listed command holds the input, and every command that holds it is listed.
pub proof fn law_the_palette_lists_what_holds_the_input(input: Seq<char>, n: nat, i: int)
    requires
        n <= commands().len(),
        0 <= i < n,
    ensures
        listed_upto(input, n).contains(i as usize) <==> listed(input, i),
    decreases n,
{
    lemma_listed_upto(input, (n - 1) as nat);
    let before = listed_upto(input, (n - 1) as nat);
    let all = listed_upto(input, n);
    if i < n - 1 {
        law_the_palette_lists_what_holds_the_input(input, (n - 1) as nat, i);
        if before.contains(i as usize) {
            let k = choose|k: int| 0 <= k < before.len() && before[k] == i as usize;
            assert(all[k] == i as usize);
        }
        if all.contains(i as usize) {
            let k = choose|k: int| 0 <= k < all.len() && all[k] == i as usize;
            assert(before[k] == i as usize);
        }
    } else {
        if listed(input, i) {
            assert(all[before.len() as int] == i as usize);
        } else if all.contains(i as usize) {
            let k = choose|k: int| 0 <= k < before.len() && before[k] == i as usize;
            assert(before[k] < n - 1);
        }
    }
}

} // verus!
