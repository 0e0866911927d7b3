//! The scout port switcher: type a port, scan the domains, or pick a scanned one.
use vstd::prelude::*;

use crate::app::network_pane::{node_models, NodeInfo, NodeModel};
use crate::app::types::{shortened, KeyCode, KeyEvent};
use crate::text::{cat3, cat4, decimal, decimal_text, is_digit, parse_small, small_number, trim, trimmed};

verus! {

/// Characters that a port can be typed in.
pub const PORT_DIGITS: usize = 5;

/// The nodes that answered on a scout port.
#[derive(Debug, Clone, PartialEq, Eq)]
pub struct PortScoutResult {
    pub port: u16,
    pub nodes: Vec<NodeInfo>,
}

/// The answers on a port, as a mathematical value.
pub struct PortModel {
    pub port: u16,
    pub nodes: Seq<NodeModel>,
}

impl View for PortScoutResult {
    type V = PortModel;

    open spec fn view(&self) -> PortModel {
        PortModel { port: self.port, nodes: node_models(self.nodes@) }
    }
}

/// The models of a scan.
pub open spec fn port_models(v: Seq<PortScoutResult>) -> Seq<PortModel> {
    v.map_values(|r: PortScoutResult| r@)
}

/// The positions of those among the first `n` ports where somebody answered.
pub open spec fn hits(results: Seq<PortModel>, n: nat) -> Seq<int>
    decreases n,
{
    if n == 0 {
        Seq::empty()
    } else {
        let before = hits(results, (n - 1) as nat);
        if results[n - 1].nodes.len() > 0 {
            before.push(n - 1)
        } else {
            before
        }
    }
}

/// Human label of a scout port. Ports of the domain range are shown by their domain;
/// anything else is a custom port, and labelled as a port.
pub open spec fn port_label(port: u16) -> Seq<char> {
    if 7446 <= port <= 7546 {
        "domain "@ + decimal((port - 7446) as nat) + " (port "@ + decimal(port as nat) + ")"@
    } else {
        "port "@ + decimal(port as nat) + " (custom)"@
    }
}

/// Human label of a scout port.
pub fn domain_port_label(port: u16) -> (s: String)
    ensures
        s@ == port_label(port),
{
    let number = decimal_text(port as u64);
    if 7446 <= port && port <= 7546 {
        let domain = decimal_text((port - 7446) as u64);
        let s = cat4("domain ", domain.as_str(), " (port ", number.as_str());
        let r = crate::text::cat(s.as_str(), ")");
        assert(r@ =~= port_label(port));
        r
    } else {
        let r = cat3("port ", number.as_str(), " (custom)");
        assert(r@ =~= port_label(port));
        r
    }
}

/// The switcher.
pub struct ScoutPort {
    pub scout_port_input: String,
    pub scout_port_current: Option<u16>,
    pub port_scan_results: Vec<PortScoutResult>,
    /// The cursor, over the ports where somebody answered.
    pub port_scan_selected: usize,
    pub port_scan_in_progress: bool,
    pub pending_port_scan_request: bool,
    pub pending_reconnect_port: Option<u16>,
}

/// The switcher, as a mathematical value.
pub struct ScoutModel {
    pub scout_port_input: Seq<char>,
    pub scout_port_current: Option<u16>,
    pub port_scan_results: Seq<PortModel>,
    pub port_scan_selected: usize,
    pub port_scan_in_progress: bool,
    pub pending_port_scan_request: bool,
    pub pending_reconnect_port: Option<u16>,
}

impl View for ScoutPort {
    type V = ScoutModel;

    open spec fn view(&self) -> ScoutModel {
        ScoutModel {
            scout_port_input: self.scout_port_input@,
            scout_port_current: self.scout_port_current,
            port_scan_results: port_models(self.port_scan_results@),
            port_scan_selected: self.port_scan_selected,
            port_scan_in_progress: self.port_scan_in_progress,
            pending_port_scan_request: self.pending_port_scan_request,
            pending_reconnect_port: self.pending_reconnect_port,
        }
    }
}

/// What a key press in the switcher asks of the rest.
#[derive(Debug, Clone, Copy, PartialEq, Eq, Structural)]
pub enum ScoutOutcome {
    Stay,
    Close,
    /// Closed, and a reconnect on the port was asked for.
    Switch(u16),
    /// There is no port to switch to.
    Refuse,
}

impl ScoutModel {
    /// The ports where somebody answered.
    pub open spec fn found(self) -> Seq<int> {
        hits(self.port_scan_results, self.port_scan_results.len())
    }

    /// The port that was typed.
    pub open spec fn typed_port(self) -> Option<u16> {
        match small_number(trimmed(self.scout_port_input)) {
            Some(p) => if p > 0 {
                Some(p)
            } else {
                None
            },
            None => None,
        }
    }

    /// The port under the cursor, which counts only while nothing is typed.
    pub open spec fn listed_port(self) -> Option<u16> {
        if self.scout_port_input.len() == 0 && self.port_scan_selected < self.found().len() {
            Some(self.port_scan_results[self.found()[self.port_scan_selected as int]].port)
        } else {
            None
        }
    }

    /// The port to switch to.
    pub open spec fn target(self) -> Option<u16> {
        match self.typed_port() {
            Some(p) => Some(p),
            None => self.listed_port(),
        }
    }

    /// After the switch was asked for.
    pub open spec fn switching(self, port: u16) -> ScoutModel {
        ScoutModel {
            pending_reconnect_port: Some(port),
            scout_port_current: Some(port),
            scout_port_input: Seq::empty(),
            ..self
        }
    }

    /// Whether `s` asks for a scan: not while a port is typed or a scan runs.
    pub open spec fn scans(self) -> bool {
        self.scout_port_input.len() == 0 && !self.port_scan_in_progress
    }

    /// After a key press.
    pub open spec fn pressed(self, code: KeyCode) -> ScoutModel {
        match code {
            KeyCode::Esc => ScoutModel { scout_port_input: Seq::empty(), ..self },
            KeyCode::Enter => match self.target() {
                Some(port) => self.switching(port),
                None => self,
            },
            KeyCode::Backspace => ScoutModel {
                scout_port_input: shortened(self.scout_port_input),
                ..self
            },
            KeyCode::Up => self.higher(),
            KeyCode::Down => self.lower(),
            KeyCode::Char(c) => if c == 's' && self.scans() {
                ScoutModel { pending_port_scan_request: true, ..self }
            } else if is_digit(c) && self.scout_port_input.len() < PORT_DIGITS {
                ScoutModel { scout_port_input: self.scout_port_input.push(c), ..self }
            } else if c == 'k' {
                self.higher()
            } else if c == 'j' {
                self.lower()
            } else {
                self
            },
            _ => self,
        }
    }

    /// After the cursor went up.
    pub open spec fn higher(self) -> ScoutModel {
        ScoutModel {
            port_scan_selected: if self.port_scan_selected > 0 {
                (self.port_scan_selected - 1) as usize
            } else {
                0
            },
            ..self
        }
    }

    /// After the cursor went down.
    pub open spec fn lower(self) -> ScoutModel {
        if self.port_scan_selected + 1 < self.found().len() {
            ScoutModel { port_scan_selected: (self.port_scan_selected + 1) as usize, ..self }
        } else {
            self
        }
    }

    /// After a scan came back.
    pub open spec fn scanned(self, results: Seq<PortModel>) -> ScoutModel {
        ScoutModel {
            port_scan_results: results,
            port_scan_selected: 0,
            port_scan_in_progress: false,
            ..self
        }
    }

    /// A switcher with no scan yet.
    pub open spec fn fresh() -> ScoutModel {
        ScoutModel {
            scout_port_input: Seq::empty(),
            scout_port_current: None,
            port_scan_results: Seq::empty(),
            port_scan_selected: 0,
            port_scan_in_progress: false,
            pending_port_scan_request: false,
            pending_reconnect_port: None,
        }
    }
}

/// What a key press asks of the rest.
pub open spec fn scout_outcome(m: ScoutModel, code: KeyCode) -> ScoutOutcome {
    match code {
        KeyCode::Esc => ScoutOutcome::Close,
        KeyCode::Enter => match m.target() {
            Some(port) => ScoutOutcome::Switch(port),
            None => ScoutOutcome::Refuse,
        },
        _ => ScoutOutcome::Stay,
    }
}

impl ScoutPort {
    /// A switcher with no scan yet.
    pub fn new() -> (s: ScoutPort)
        ensures
            s@ == ScoutModel::fresh(),
    {
        let s = ScoutPort {
            scout_port_input: String::new(),
            scout_port_current: None,
            port_scan_results: Vec::new(),
            port_scan_selected: 0,
            port_scan_in_progress: false,
            pending_port_scan_request: false,
            pending_reconnect_port: None,
        };
        assert(s@.port_scan_results =~= Seq::empty());
        s
    }

    /// The positions of the ports where somebody answered.
    pub fn found_ports(&self) -> (v: Vec<usize>)
        ensures
            v@.map_values(|i: usize| i as int) == self@.found(),
            forall|k: int| 0 <= k < v@.len() ==> #[trigger] v@[k] < self.port_scan_results.len(),
            v@.len() == self@.found().len(),
    {
        let ghost results = self@.port_scan_results;
        let mut v: Vec<usize> = Vec::new();
        let mut i: usize = 0;
        assert(v@.map_values(|i: usize| i as int) =~= Seq::empty());
        while i < self.port_scan_results.len()
            invariant
                i <= self.port_scan_results.len(),
                results == self@.port_scan_results,
                v@.map_values(|i: usize| i as int) == hits(results, i as nat),
                forall|k: int| 0 <= k < v@.len() ==> #[trigger] v@[k] < i,
            decreases self.port_scan_results.len() - i,
        {
            assert(results[i as int] == self.port_scan_results[i as int]@);
            let ghost before = v@;
            if self.port_scan_results[i].nodes.len() > 0 {
                v.push(i);
                assert(v@.map_values(|i: usize| i as int) =~= before.map_values(
                    |i: usize| i as int,
                ).push(i as int));
            }
            i = i + 1;
        }
        assert(v@.len() == v@.map_values(|i: usize| i as int).len());
        v
    }

    /// The port to switch to: the typed one, else, while nothing is typed, the one
    /// under the cursor.
    fn target_port(&self) -> (r: Option<u16>)
        ensures
            r == self@.target(),
    {
        let typed = trim(self.scout_port_input.as_str());
        match parse_small(typed.as_str()) {
            Some(p) => if p > 0 {
                return Some(p);
            },
            None => {},
        }
        if self.scout_port_input.as_str().is_empty() {
            let found = self.found_ports();
            if self.port_scan_selected < found.len() {
                let at: usize = found[self.port_scan_selected];
                assert(self@.found()[self.port_scan_selected as int] == at as int);
                assert(self@.port_scan_results[at as int] == self.port_scan_results[at as int]@);
                return Some(self.port_scan_results[at].port);
            }
        }
        None
    }

    fn move_down(&mut self)
        ensures
            final(self)@ == old(self)@.lower(),
    {
        let count: usize = self.found_ports().len();
        if count > 0 && self.port_scan_selected < count - 1 {
            self.port_scan_selected = self.port_scan_selected + 1;
        }
    }

    /// A key press in the switcher.
    pub fn handle_scout_modal_key(&mut self, key: KeyEvent) -> (r: ScoutOutcome)
        ensures
            final(self)@ == old(self)@.pressed(key.code),
            r == scout_outcome(old(self)@, key.code),
    {
        match key.code {
            KeyCode::Esc => {
                self.scout_port_input = String::new();
                return ScoutOutcome::Close;
            },
            KeyCode::Enter => {
                match self.target_port() {
                    Some(port) => {
                        self.pending_reconnect_port = Some(port);
                        self.scout_port_current = Some(port);
                        self.scout_port_input = String::new();
                        return ScoutOutcome::Switch(port);
                    },
                    None => {
                        return ScoutOutcome::Refuse;
                    },
                }
            },
            KeyCode::Backspace => {
                let _ = self.scout_port_input.pop();
            },
            KeyCode::Up => {
                self.port_scan_selected = self.port_scan_selected.saturating_sub(1);
            },
            KeyCode::Down => {
                self.move_down();
            },
            KeyCode::Char(c) => {
                if c == 's' && self.scout_port_input.as_str().is_empty()
                    && !self.port_scan_in_progress {
                    self.pending_port_scan_request = true;
                } else if '0' <= c && c <= '9' && self.scout_port_input.as_str().unicode_len()
                    < PORT_DIGITS {
                    self.scout_port_input.push(c);
                } else if c == 'k' {
                    self.port_scan_selected = self.port_scan_selected.saturating_sub(1);
                } else if c == 'j' {
                    self.move_down();
                }
            },
            _ => {},
        }
        ScoutOutcome::Stay
    }

    /// A scan came back.
    pub fn scan_done(&mut self, results: Vec<PortScoutResult>)
        ensures
            final(self)@ == old(self)@.scanned(port_models(results@)),
    {
        self.port_scan_results = results;
        self.port_scan_selected = 0;
        self.port_scan_in_progress = false;
    }
}

/// A typed port goes before the list, and what is switched to is never port zero.
pub proof fn law_a_typed_port_goes_first(m: ScoutModel)
    ensures
        m.typed_port() is Some ==> m.target() == m.typed_port(),
        m.typed_port() matches Some(p) ==> p > 0,
        m.scout_port_input.len() > 0 && m.typed_port() is None ==> m.target() is None,
{
}

} // verus!
