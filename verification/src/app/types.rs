//! The small vocabulary of the dashboard: spaces, overlays, keys, rectangles and
//! connection states.
use vstd::prelude::*;

verus! {

/// A top-level navigation space.
#[derive(Debug, Clone, Copy, PartialEq, Eq, Structural)]
pub enum Space {
    Traffic,
    Network,
}

impl Space {
    /// Position of the space among the header tabs.
    pub fn index(self) -> (i: usize)
        ensures
            i == self.position(),
    {
        match self {
            Space::Traffic => 0,
            Space::Network => 1,
        }
    }

    /// The space that `Tab` goes to.
    pub fn next(self) -> (s: Space)
        ensures
            s == self.following(),
    {
        match self {
            Space::Traffic => Space::Network,
            Space::Network => Space::Traffic,
        }
    }

    /// Position of the space among the header tabs.
    pub open spec fn position(self) -> usize {
        match self {
            Space::Traffic => 0,
            Space::Network => 1,
        }
    }

    /// The space that `Tab` goes to.
    pub open spec fn following(self) -> Space {
        match self {
            Space::Traffic => Space::Network,
            Space::Network => Space::Traffic,
        }
    }

    /// The label of the space in the header.
    pub open spec fn name(self) -> Seq<char> {
        match self {
            Space::Traffic => "Traffic"@,
            Space::Network => "Network"@,
        }
    }

    /// The label of the space in the header.
    pub fn title(self) -> (s: &'static str)
        ensures
            s@ == self.name(),
    {
        match self {
            Space::Traffic => "Traffic",
            Space::Network => "Network",
        }
    }
}

/// Two steps of `Tab` lead back, one step never stays, and no two spaces share a
/// header tab.
pub proof fn law_tab_alternates_between_the_spaces(s: Space, t: Space)
    ensures
        s.following() != s,
        s.following().following() == s,
        s.position() == t.position() ==> s == t,
{
}

/// A modal overlay drawn on top of the active space.
#[derive(Debug, Clone, Copy, PartialEq, Eq, Structural)]
pub enum Overlay {
    /// Nothing is drawn on top.
    Closed,
    Help,
    Doctor,
    /// The `:` command list.
    Palette,
    /// The scout port and domain switcher.
    ScoutPort,
    /// Pick which numeric field of the selected key to plot.
    PlotPicker,
    /// Compose a message to publish. Only reachable in a session that may write.
    Publish,
    /// Name the view being saved.
    ProfileSave,
    /// Pick a saved view to restore.
    ProfileLoad,
}

/// Which pane holds focus when the terminal is too narrow to show both.
#[derive(Debug, Clone, Copy, PartialEq, Eq, Structural)]
pub enum PaneFocus {
    Master,
    Detail,
}

/// What the Traffic detail shows for the selected key.
#[derive(Debug, Clone, Copy, PartialEq, Eq, Structural)]
pub enum DetailMode {
    /// Latest payload and scrolling history.
    Live,
    /// Results of a `get` on the key.
    Query,
}

/// How the session joins the network.
#[derive(Debug, Clone, Copy, PartialEq, Eq, Structural)]
pub enum ConnectMode {
    Peer,
    Client,
}

impl ConnectMode {
    /// The mode as it is spelled in messages.
    pub open spec fn word(self) -> Seq<char> {
        match self {
            ConnectMode::Peer => "peer"@,
            ConnectMode::Client => "client"@,
        }
    }

    /// The mode as it is spelled in messages.
    pub fn name(self) -> (s: &'static str)
        ensures
            s@ == self.word(),
    {
        match self {
            ConnectMode::Peer => "peer",
            ConnectMode::Client => "client",
        }
    }
}

/// The state of the session.
#[derive(Debug, Clone, PartialEq, Eq)]
pub enum ConnectionState {
    Disconnected(String),
    Connecting,
    Connected(String),
}

/// The state of the session, as a mathematical value.
pub enum ConnectionModel {
    Disconnected(Seq<char>),
    Connecting,
    Connected(Seq<char>),
}

impl View for ConnectionState {
    type V = ConnectionModel;

    open spec fn view(&self) -> ConnectionModel {
        match self {
            ConnectionState::Disconnected(reason) => ConnectionModel::Disconnected(reason@),
            ConnectionState::Connecting => ConnectionModel::Connecting,
            ConnectionState::Connected(zid) => ConnectionModel::Connected(zid@),
        }
    }
}

/// A rectangle of terminal cells.
#[derive(Debug, Clone, Copy, PartialEq, Eq, Structural)]
pub struct Rect {
    pub x: u16,
    pub y: u16,
    pub width: u16,
    pub height: u16,
}

impl Rect {
    /// Whether a cell lies in the rectangle.
    pub open spec fn holds(self, col: u16, row: u16) -> bool {
        &&& self.x <= col < self.x + self.width
        &&& self.y <= row < self.y + self.height
    }

    /// Whether a cell lies in the rectangle.
    pub fn contains(&self, col: u16, row: u16) -> (r: bool)
        ensures
            r == self.holds(col, row),
    {
        let right: u32 = self.x as u32 + self.width as u32;
        let bottom: u32 = self.y as u32 + self.height as u32;
        col >= self.x && (col as u32) < right && row >= self.y && (row as u32) < bottom
    }

    /// The rectangle inside a border one cell wide on every side.
    pub open spec fn inside(self) -> Rect {
        Rect {
            x: if self.width > 0 && self.x < u16::MAX {
                (self.x + 1) as u16
            } else {
                self.x
            },
            y: if self.height > 0 && self.y < u16::MAX {
                (self.y + 1) as u16
            } else {
                self.y
            },
            width: less_two(self.width),
            height: less_two(self.height),
        }
    }

    /// The rectangle inside a border one cell wide on every side.
    pub fn inner(&self) -> (r: Rect)
        ensures
            r == self.inside(),
    {
        Rect {
            x: if self.width > 0 && self.x < u16::MAX {
                self.x + 1
            } else {
                self.x
            },
            y: if self.height > 0 && self.y < u16::MAX {
                self.y + 1
            } else {
                self.y
            },
            width: self.width.saturating_sub(2),
            height: self.height.saturating_sub(2),
        }
    }
}

/// Two less, or nothing.
pub open spec fn less_two(n: u16) -> u16 {
    if n >= 2 {
        (n - 2) as u16
    } else {
        0
    }
}

/// A key on the keyboard.
#[derive(Debug, Clone, Copy, PartialEq, Eq, Structural)]
pub enum KeyCode {
    Char(char),
    Enter,
    Esc,
    Tab,
    Backspace,
    Up,
    Down,
    Left,
    Right,
    /// Any key that nothing is bound to.
    Other,
}

/// A key press, with the modifiers that were held.
#[derive(Debug, Clone, Copy, PartialEq, Eq, Structural)]
pub struct KeyEvent {
    pub code: KeyCode,
    pub ctrl: bool,
    pub shift: bool,
}

impl KeyEvent {
    /// A press of a key alone.
    pub fn plain(code: KeyCode) -> (k: KeyEvent)
        ensures
            k == (KeyEvent { code, ctrl: false, shift: false }),
    {
        KeyEvent { code, ctrl: false, shift: false }
    }
}

/// What the pointer did.
#[derive(Debug, Clone, Copy, PartialEq, Eq, Structural)]
pub enum MouseEvent {
    /// The left button went down on a cell.
    LeftDown { column: u16, row: u16 },
    ScrollUp,
    ScrollDown,
    /// Anything that nothing is bound to.
    Other,
}

/// Why a view is showing nothing, so that empty states explain the cause and the
/// next action instead of an ambiguous blank panel.
#[derive(Debug, Clone, Copy, PartialEq, Eq, Structural)]
pub enum EmptyReason {
    Connecting,
    Disconnected,
    NoDataYet,
    FilteredOut,
}

/// The first line of an empty state: why.
pub open spec fn empty_why(reason: EmptyReason) -> Seq<char> {
    match reason {
        EmptyReason::Connecting => "Connecting to the network…"@,
        EmptyReason::Disconnected => "Not connected."@,
        EmptyReason::NoDataYet => "Connected, but no messages observed yet."@,
        EmptyReason::FilteredOut => "Nothing matches the current filter."@,
    }
}

/// The second line of an empty state: what to do.
pub open spec fn empty_action(reason: EmptyReason) -> Seq<char> {
    match reason {
        EmptyReason::Connecting => "Waiting for the session to come up."@,
        EmptyReason::Disconnected =>
            "Check the endpoint, or press : for commands — switch mode, change scout port."@,
        EmptyReason::NoDataYet =>
            "Keys appear as messages arrive. Press d to run doctor, or ? for the keys."@,
        EmptyReason::FilteredOut => "Press / to edit or clear the filter."@,
    }
}

/// Reason and next action of an empty state, understandable without colour.
///
/// The texts point at `:`, `d` and `?` rather than at keys of single commands:
/// the palette is the stable address, and what it holds can change.
pub fn empty_state_text(reason: EmptyReason) -> (r: (&'static str, &'static str))
    ensures
        r.0@ == empty_why(reason),
        r.1@ == empty_action(reason),
{
    match reason {
        EmptyReason::Connecting => (
            "Connecting to the network…",
            "Waiting for the session to come up.",
        ),
        EmptyReason::Disconnected => (
            "Not connected.",
            "Check the endpoint, or press : for commands — switch mode, change scout port.",
        ),
        EmptyReason::NoDataYet => (
            "Connected, but no messages observed yet.",
            "Keys appear as messages arrive. Press d to run doctor, or ? for the keys.",
        ),
        EmptyReason::FilteredOut => (
            "Nothing matches the current filter.",
            "Press / to edit or clear the filter.",
        ),
    }
}

/// A detail-panel scroll request. Uppercase `J` and `K` scroll the detail panel in
/// every view, however the terminal reports the Shift modifier. Lowercase `j` and
/// `k` remain list navigation.
#[derive(Debug, Clone, Copy, PartialEq, Eq, Structural)]
pub enum DetailScroll {
    Down,
    Up,
}

/// The scroll request that a key makes.
pub open spec fn scroll_request(code: KeyCode) -> Option<DetailScroll> {
    match code {
        KeyCode::Char(c) => if c == 'J' {
            Some(DetailScroll::Down)
        } else if c == 'K' {
            Some(DetailScroll::Up)
        } else {
            None
        },
        _ => None,
    }
}

/// The scroll request that a key makes.
pub fn detail_scroll_action(key: KeyEvent) -> (r: Option<DetailScroll>)
    ensures
        r == scroll_request(key.code),
{
    match key.code {
        KeyCode::Char(c) => if c == 'J' {
            Some(DetailScroll::Down)
        } else if c == 'K' {
            Some(DetailScroll::Up)
        } else {
            None
        },
        _ => None,
    }
}

/// A scroll offset moved by a number of lines, kept within its range.
pub open spec fn scrolled_by(scroll: u16, by: int) -> u16 {
    if scroll + by < 0 {
        0
    } else if scroll + by > u16::MAX {
        u16::MAX
    } else {
        (scroll + by) as u16
    }
}

/// A scroll offset after a scroll request: three lines a step.
pub open spec fn scrolled(scroll: u16, action: DetailScroll) -> u16 {
    match action {
        DetailScroll::Down => scrolled_by(scroll, 3),
        DetailScroll::Up => scrolled_by(scroll, -3),
    }
}

/// Apply a scroll request to a scroll offset: three lines a step, never below the
/// first line.
pub fn apply_detail_scroll(scroll: u16, action: DetailScroll) -> (r: u16)
    ensures
        r == scrolled(scroll, action),
{
    match action {
        DetailScroll::Down => scroll.saturating_add(3),
        DetailScroll::Up => scroll.saturating_sub(3),
    }
}

/// Minimum body width (columns) at which master and detail stand side by side.
pub const TWO_PANE_MIN_WIDTH: u16 = 90;

/// Whether a body is too narrow for two panes.
pub fn is_narrow(width: u16) -> (r: bool)
    ensures
        r == (width < TWO_PANE_MIN_WIDTH),
{
    width < TWO_PANE_MIN_WIDTH
}

/// The view of an optional toast.
pub open spec fn toast_view(t: Option<Toast>) -> Option<ToastModel> {
    match t {
        Some(t) => Some(t@),
        None => None,
    }
}

/// A message shown for a moment, and when it was raised.
#[derive(Debug)]
pub struct Toast {
    pub text: String,
    pub at: u64,
    pub is_error: bool,
}

/// A toast, as a mathematical value.
pub struct ToastModel {
    pub text: Seq<char>,
    pub at: u64,
    pub is_error: bool,
}

impl View for Toast {
    type V = ToastModel;

    open spec fn view(&self) -> ToastModel {
        ToastModel { text: self.text@, at: self.at, is_error: self.is_error }
    }
}

/// The text without its last character.
pub open spec fn shortened(s: Seq<char>) -> Seq<char> {
    if s.len() == 0 {
        s
    } else {
        s.drop_last()
    }
}

} // verus!
