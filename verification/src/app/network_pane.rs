//! The participants of the network: transport sessions and liveliness tokens, as
//! the Network space lists them.
use std::collections::VecDeque;
use vstd::prelude::*;

use crate::app::feed::{elapsed, since};
use crate::app::network_laws::{law_the_rows_are_who_is_asked_for, lists_who_is_asked_for};
use crate::app::tree_pane::{clamp_selection, clamped, move_selection, moved};
use crate::app::types::shortened;
use crate::message::string_view;
use crate::text::{
    contains_text, lemma_text_lt_irreflexive, lemma_text_lt_total, lemma_text_lt_transitive, less,
    lowercase, lowercased, occurs, same, text_lt, texts,
};

verus! {

/// Join and leave events kept.
pub const LIVELINESS_EVENT_CAP: usize = 200;

/// A transport session seen on the network.
#[derive(Debug, Clone, PartialEq, Eq)]
pub struct NodeInfo {
    pub zid: String,
    /// Router, peer or client.
    pub kind: String,
    pub locators: Vec<String>,
    /// When a router last reported it, and when it last answered a scout.
    pub admin_last_seen: Option<u64>,
    pub scout_last_seen: Option<u64>,
}

/// A transport session, as a mathematical value.
pub struct NodeModel {
    pub zid: Seq<char>,
    pub kind: Seq<char>,
    pub locators: Seq<Seq<char>>,
    pub admin_last_seen: Option<u64>,
    pub scout_last_seen: Option<u64>,
}

impl View for NodeInfo {
    type V = NodeModel;

    open spec fn view(&self) -> NodeModel {
        NodeModel {
            zid: self.zid@,
            kind: self.kind@,
            locators: texts(self.locators@),
            admin_last_seen: self.admin_last_seen,
            scout_last_seen: self.scout_last_seen,
        }
    }
}

/// How long ago a node that only a scout found may have answered before it is stale.
pub const STALE_NANOS: u64 = 30_000_000_000;

impl NodeModel {
    /// Whether only a scout found the node, and too long ago.
    pub open spec fn stale(self, now: u64) -> bool {
        match (self.admin_last_seen, self.scout_last_seen) {
            (None, Some(at)) => since(at, now) > STALE_NANOS,
            _ => false,
        }
    }
}

impl NodeInfo {
    /// Whether only a scout found the node, and too long ago.
    pub fn is_scout_stale(&self, now: u64) -> (r: bool)
        ensures
            r == self@.stale(now),
    {
        match (self.admin_last_seen, self.scout_last_seen) {
            (None, Some(at)) => elapsed(at, now) > STALE_NANOS,
            _ => false,
        }
    }
}

/// The models of a list of sessions.
pub open spec fn node_models(v: Seq<NodeInfo>) -> Seq<NodeModel> {
    v.map_values(|n: NodeInfo| n@)
}

/// A token that a participant holds to show that it is alive.
#[derive(Debug, Clone, PartialEq, Eq)]
pub struct LivelinessToken {
    pub key_expr: String,
    pub source_zid: Option<String>,
    pub alive: bool,
    /// The node name in the key, where it has one.
    pub node_name: Option<String>,
    /// The prefix of the key that groups the token, where it has one.
    pub group: Option<String>,
}

/// A token, as a mathematical value.
pub struct TokenModel {
    pub key_expr: Seq<char>,
    pub source_zid: Option<Seq<char>>,
    pub alive: bool,
    pub node_name: Option<Seq<char>>,
    pub group: Option<Seq<char>>,
}

impl View for LivelinessToken {
    type V = TokenModel;

    open spec fn view(&self) -> TokenModel {
        TokenModel {
            key_expr: self.key_expr@,
            source_zid: string_view(self.source_zid),
            alive: self.alive,
            node_name: string_view(self.node_name),
            group: string_view(self.group),
        }
    }
}

impl TokenModel {
    /// The name that the token is shown by.
    pub open spec fn shown_name(self) -> Seq<char> {
        match self.node_name {
            Some(n) => n,
            None => self.key_expr,
        }
    }
}

impl LivelinessToken {
    /// The name that the token is shown by: its node name, else its key.
    pub fn display_name(&self) -> (s: String)
        ensures
            s@ == self@.shown_name(),
    {
        match &self.node_name {
            Some(n) => n.clone(),
            None => self.key_expr.clone(),
        }
    }
}

/// The models of a list of tokens.
pub open spec fn token_models(v: Seq<LivelinessToken>) -> Seq<TokenModel> {
    v.map_values(|t: LivelinessToken| t@)
}

/// One join or leave, newest first in the log.
#[derive(Debug, Clone)]
pub struct LivelinessEventRecord {
    pub timestamp: u64,
    pub is_join: bool,
    pub key_expr: String,
    pub node_name: String,
}

/// A log entry, as a mathematical value.
pub struct RecordModel {
    pub timestamp: u64,
    pub is_join: bool,
    pub key_expr: Seq<char>,
    pub node_name: Seq<char>,
}

impl View for LivelinessEventRecord {
    type V = RecordModel;

    open spec fn view(&self) -> RecordModel {
        RecordModel {
            timestamp: self.timestamp,
            is_join: self.is_join,
            key_expr: self.key_expr@,
            node_name: self.node_name@,
        }
    }
}

/// The models of the log.
pub open spec fn record_models(v: Seq<LivelinessEventRecord>) -> Seq<RecordModel> {
    v.map_values(|r: LivelinessEventRecord| r@)
}

/// A selectable row of the participant list: a session (index into the nodes) or a
/// token (index into the tokens). Section headers are drawn by the view and are not
/// rows.
#[derive(Debug, Clone, Copy, PartialEq, Eq, Structural)]
pub enum NetworkRow {
    Session(usize),
    Service(usize),
}

/// The participants and how they are looked at.
pub struct NetworkPane {
    pub admin_nodes: Vec<NodeInfo>,
    pub scout_nodes: Vec<NodeInfo>,
    /// The two lists above, merged.
    pub nodes: Vec<NodeInfo>,
    pub node_selected: usize,
    pub node_detail_scroll: u16,
    pub scout_in_progress: bool,
    pub last_scout_at: Option<u64>,
    pub pending_scout_request: bool,
    pub self_zid: Option<String>,
    pub liveliness_tokens: Vec<LivelinessToken>,
    pub liveliness_events: VecDeque<LivelinessEventRecord>,
    pub liveliness_selected: usize,
    pub liveliness_log_scroll: u16,
    /// The cursor over the rows of both sections.
    pub network_selected: usize,
    /// Case-insensitive substring filter; empty means no filtering.
    pub network_filter: String,
    /// The filter is being edited.
    pub network_filtering: bool,
    /// Only tokens that died are listed.
    pub network_dead_only: bool,
}

/// The participants, as a mathematical value.
pub struct NetworkModel {
    pub admin_nodes: Seq<NodeModel>,
    pub scout_nodes: Seq<NodeModel>,
    pub nodes: Seq<NodeModel>,
    pub node_selected: usize,
    pub node_detail_scroll: u16,
    pub scout_in_progress: bool,
    pub last_scout_at: Option<u64>,
    pub pending_scout_request: bool,
    pub self_zid: Option<Seq<char>>,
    pub liveliness_tokens: Seq<TokenModel>,
    pub liveliness_events: Seq<RecordModel>,
    pub liveliness_selected: usize,
    pub liveliness_log_scroll: u16,
    pub network_selected: usize,
    pub network_filter: Seq<char>,
    pub network_filtering: bool,
    pub network_dead_only: bool,
}

impl View for NetworkPane {
    type V = NetworkModel;

    open spec fn view(&self) -> NetworkModel {
        NetworkModel {
            admin_nodes: node_models(self.admin_nodes@),
            scout_nodes: node_models(self.scout_nodes@),
            nodes: node_models(self.nodes@),
            node_selected: self.node_selected,
            node_detail_scroll: self.node_detail_scroll,
            scout_in_progress: self.scout_in_progress,
            last_scout_at: self.last_scout_at,
            pending_scout_request: self.pending_scout_request,
            self_zid: string_view(self.self_zid),
            liveliness_tokens: token_models(self.liveliness_tokens@),
            liveliness_events: record_models(self.liveliness_events@),
            liveliness_selected: self.liveliness_selected,
            liveliness_log_scroll: self.liveliness_log_scroll,
            network_selected: self.network_selected,
            network_filter: self.network_filter@,
            network_filtering: self.network_filtering,
            network_dead_only: self.network_dead_only,
        }
    }
}

/// Whether a text passes the filter: a substring, whatever the case. An empty filter
/// lets everything pass.
pub open spec fn passes(filter: Seq<char>, hay: Seq<char>) -> bool {
    filter.len() == 0 || occurs(lowercased(hay), lowercased(filter))
}

/// Whether a text passes a filter, given the filter in lower case as well.
fn passes_filter(filter: &str, needle: &str, hay: &str) -> (r: bool)
    requires
        needle@ == lowercased(filter@),
    ensures
        r == passes(filter@, hay@),
{
    if filter.is_empty() {
        return true;
    }
    let low = lowercase(hay);
    contains_text(low.as_str(), needle)
}

/// Whether a token stands before another: dead ones first, then by key. A token
/// that stopped is the finding; on a fleet it is a handful of rows among thousands.
pub open spec fn stands_before(a: TokenModel, b: TokenModel) -> bool {
    ||| !a.alive && b.alive
    ||| a.alive == b.alive && text_lt(a.key_expr, b.key_expr)
}

/// An ordered list of token indices with one more put at its place, behind those
/// that it does not stand before.
pub open spec fn placed(tokens: Seq<TokenModel>, order: Seq<int>, x: int) -> Seq<int>
    decreases order.len(),
{
    if order.len() > 0 && stands_before(tokens[x], tokens[order.last()]) {
        placed(tokens, order.drop_last(), x).push(order.last())
    } else {
        order.push(x)
    }
}

impl NetworkModel {
    /// Whether a session is listed. The dead-only toggle hides them all: it answers
    /// "which token died", and a session has no such state.
    pub open spec fn lists_node(self, i: int) -> bool {
        &&& !self.network_dead_only
        &&& (passes(self.network_filter, self.nodes[i].zid) || passes(
            self.network_filter,
            self.nodes[i].kind,
        ))
    }

    /// Whether a token is listed.
    pub open spec fn lists_token(self, i: int) -> bool {
        &&& (!self.network_dead_only || !self.liveliness_tokens[i].alive)
        &&& passes(self.network_filter, self.liveliness_tokens[i].key_expr)
    }

    /// The rows of the first `n` sessions, in node order.
    pub open spec fn session_rows(self, n: nat) -> Seq<NetworkRow>
        decreases n,
    {
        if n == 0 {
            Seq::empty()
        } else {
            let before = self.session_rows((n - 1) as nat);
            if self.lists_node(n - 1) {
                before.push(NetworkRow::Session((n - 1) as usize))
            } else {
                before
            }
        }
    }

    /// The indices of the listed ones among the first `n` tokens, in order.
    pub open spec fn token_order(self, n: nat) -> Seq<int>
        decreases n,
    {
        if n == 0 {
            Seq::empty()
        } else {
            let before = self.token_order((n - 1) as nat);
            if self.lists_token(n - 1) {
                placed(self.liveliness_tokens, before, n - 1)
            } else {
                before
            }
        }
    }

    /// All selectable rows, in display order.
    pub open spec fn rows(self) -> Seq<NetworkRow> {
        self.session_rows(self.nodes.len()) + self.token_order(
            self.liveliness_tokens.len(),
        ).map_values(|i: int| NetworkRow::Service(i as usize))
    }

    /// The row under the cursor.
    pub open spec fn selected_row(self) -> Option<NetworkRow> {
        if self.network_selected < self.rows().len() {
            Some(self.rows()[self.network_selected as int])
        } else {
            None
        }
    }

    /// After making sure that the cursor is on a row.
    pub open spec fn on_a_row(self) -> NetworkModel {
        NetworkModel { network_selected: clamped(self.network_selected, self.rows().len()), ..self }
    }

    /// After the cursor went one row down or up.
    pub open spec fn stepped(self, down: bool) -> NetworkModel {
        if self.rows().len() == 0 {
            self
        } else {
            NetworkModel {
                network_selected: moved(
                    self.network_selected,
                    if down {
                        1
                    } else {
                        -1
                    },
                    self.rows().len(),
                ),
                node_detail_scroll: 0,
                ..self
            }
        }
    }

    /// After a scout was asked for. One that runs is not asked for again.
    pub open spec fn scout_asked(self) -> NetworkModel {
        if self.scout_in_progress {
            self
        } else {
            NetworkModel { pending_scout_request: true, ..self }
        }
    }

    /// After the dead-only toggle.
    pub open spec fn dead_toggled(self) -> NetworkModel {
        NetworkModel {
            node_detail_scroll: 0,
            ..(NetworkModel { network_dead_only: !self.network_dead_only, ..self }).on_a_row()
        }
    }

    /// After a character was typed into the filter.
    pub open spec fn typed(self, c: char) -> NetworkModel {
        (NetworkModel { network_filter: self.network_filter.push(c), ..self }).on_a_row()
    }

    /// After the last character of the filter was taken out.
    pub open spec fn rubbed_out(self) -> NetworkModel {
        (NetworkModel { network_filter: shortened(self.network_filter), ..self }).on_a_row()
    }

    /// What is copied for the row under the cursor, and how it is called.
    pub open spec fn copied(self) -> Option<(Seq<char>, Seq<char>)> {
        match self.selected_row() {
            Some(NetworkRow::Session(i)) => Some((self.nodes[i as int].zid, "zid"@)),
            Some(NetworkRow::Service(i)) => Some(
                (self.liveliness_tokens[i as int].key_expr, "key"@),
            ),
            None => None,
        }
    }

    /// After a new list of sessions that the routers report, and its merge with the
    /// scouted ones.
    pub open spec fn admin_seen(self, nodes: Seq<NodeModel>, merged: Seq<NodeModel>) -> NetworkModel {
        NetworkModel {
            admin_nodes: nodes,
            nodes: merged,
            node_selected: clamped(self.node_selected, merged.len()),
            ..self
        }
    }

    /// After a scout came back, and its merge with what the routers report.
    pub open spec fn scouted(
        self,
        nodes: Seq<NodeModel>,
        merged: Seq<NodeModel>,
        now: u64,
    ) -> NetworkModel {
        NetworkModel {
            scout_nodes: nodes,
            last_scout_at: Some(now),
            scout_in_progress: false,
            nodes: merged,
            node_selected: clamped(self.node_selected, merged.len()),
            ..self
        }
    }

    /// After a token was seen to join or to leave.
    pub open spec fn lived(self, token: TokenModel, is_join: bool, now: u64) -> NetworkModel {
        NetworkModel {
            liveliness_events: logged(
                RecordModel {
                    timestamp: now,
                    is_join,
                    key_expr: token.key_expr,
                    node_name: token.shown_name(),
                },
                self.liveliness_events,
            ),
            liveliness_tokens: if is_join {
                joined_tokens(self.liveliness_tokens, token)
            } else {
                left_tokens(self.liveliness_tokens, token.key_expr)
            },
            ..self
        }
    }

    /// After a new session came up: what the old one knew to be alive is dropped.
    pub open spec fn reconnected(self, zid: Seq<char>) -> NetworkModel {
        NetworkModel {
            self_zid: Some(zid),
            liveliness_tokens: Seq::empty(),
            liveliness_events: Seq::empty(),
            liveliness_selected: 0,
            liveliness_log_scroll: 0,
            ..self
        }
    }

    /// After the sessions were dropped. Tokens and filters stay.
    pub open spec fn emptied(self) -> NetworkModel {
        NetworkModel {
            admin_nodes: Seq::empty(),
            scout_nodes: Seq::empty(),
            nodes: Seq::empty(),
            node_selected: 0,
            node_detail_scroll: 0,
            ..self
        }
    }

    /// A new pane.
    pub open spec fn fresh() -> NetworkModel {
        NetworkModel {
            admin_nodes: Seq::empty(),
            scout_nodes: Seq::empty(),
            nodes: Seq::empty(),
            node_selected: 0,
            node_detail_scroll: 0,
            scout_in_progress: false,
            last_scout_at: None,
            pending_scout_request: false,
            self_zid: None,
            liveliness_tokens: Seq::empty(),
            liveliness_events: Seq::empty(),
            liveliness_selected: 0,
            liveliness_log_scroll: 0,
            network_selected: 0,
            network_filter: Seq::empty(),
            network_filtering: false,
            network_dead_only: false,
        }
    }
}

/// The log with a new entry in front, within its cap.
pub open spec fn logged(r: RecordModel, log: Seq<RecordModel>) -> Seq<RecordModel> {
    let all = seq![r] + log;
    if all.len() > LIVELINESS_EVENT_CAP {
        all.drop_last()
    } else {
        all
    }
}

/// Position of the first token with a key.
pub open spec fn first_with(tokens: Seq<TokenModel>, key: Seq<char>) -> Option<int>
    decreases tokens.len(),
{
    if tokens.len() == 0 {
        None
    } else {
        match first_with(tokens.drop_last(), key) {
            Some(i) => Some(i),
            None => if tokens.last().key_expr == key {
                Some(tokens.len() - 1)
            } else {
                None
            },
        }
    }
}

/// The tokens after one joined: a known one is alive again and keeps its source
/// where the new word gives none, an unknown one is listed.
pub open spec fn joined_tokens(tokens: Seq<TokenModel>, token: TokenModel) -> Seq<TokenModel> {
    match first_with(tokens, token.key_expr) {
        Some(i) => tokens.update(
            i,
            TokenModel {
                alive: true,
                source_zid: match token.source_zid {
                    Some(z) => Some(z),
                    None => tokens[i].source_zid,
                },
                ..tokens[i]
            },
        ),
        None => tokens.push(token),
    }
}

/// The tokens after one left: it stays listed, as dead.
pub open spec fn left_tokens(tokens: Seq<TokenModel>, key: Seq<char>) -> Seq<TokenModel> {
    match first_with(tokens, key) {
        Some(i) => tokens.update(i, TokenModel { alive: false, ..tokens[i] }),
        None => tokens,
    }
}

proof fn lemma_first_with(tokens: Seq<TokenModel>, key: Seq<char>, i: int)
    requires
        0 <= i < tokens.len(),
        tokens[i].key_expr == key,
        forall|k: int| 0 <= k < i ==> (#[trigger] tokens[k]).key_expr != key,
    ensures
        first_with(tokens, key) == Some(i),
    decreases tokens.len(),
{
    if i < tokens.len() - 1 {
        lemma_first_with(tokens.drop_last(), key, i);
    } else {
        lemma_none_with(tokens.drop_last(), key);
    }
}

proof fn lemma_none_with(tokens: Seq<TokenModel>, key: Seq<char>)
    requires
        forall|k: int| 0 <= k < tokens.len() ==> (#[trigger] tokens[k]).key_expr != key,
    ensures
        first_with(tokens, key) is None,
    decreases tokens.len(),
{
    if tokens.len() > 0 {
        lemma_none_with(tokens.drop_last(), key);
    }
}

impl NetworkPane {
    /// A pane with nobody in it.
    pub fn new() -> (p: NetworkPane)
        ensures
            p@ == NetworkModel::fresh(),
    {
        let p = NetworkPane {
            admin_nodes: Vec::new(),
            scout_nodes: Vec::new(),
            nodes: Vec::new(),
            node_selected: 0,
            node_detail_scroll: 0,
            scout_in_progress: false,
            last_scout_at: None,
            pending_scout_request: false,
            self_zid: None,
            liveliness_tokens: Vec::new(),
            liveliness_events: VecDeque::new(),
            liveliness_selected: 0,
            liveliness_log_scroll: 0,
            network_selected: 0,
            network_filter: String::new(),
            network_filtering: false,
            network_dead_only: false,
        };
        assert(p@.admin_nodes =~= Seq::empty());
        assert(p@.scout_nodes =~= Seq::empty());
        assert(p@.nodes =~= Seq::empty());
        assert(p@.liveliness_tokens =~= Seq::empty());
        assert(p@.liveliness_events =~= Seq::empty());
        p
    }

    /// Whether token `a` stands before token `b`.
    fn before(&self, a: usize, b: usize) -> (r: bool)
        requires
            a < self.liveliness_tokens.len(),
            b < self.liveliness_tokens.len(),
        ensures
            r == stands_before(
                self@.liveliness_tokens[a as int],
                self@.liveliness_tokens[b as int],
            ),
    {
        let ta = &self.liveliness_tokens[a];
        let tb = &self.liveliness_tokens[b];
        if ta.alive == tb.alive {
            less(ta.key_expr.as_str(), tb.key_expr.as_str())
        } else {
            !ta.alive
        }
    }

    /// Put a token index at its place in an ordered list.
    fn place(&self, order: &mut Vec<usize>, x: usize)
        requires
            x < self.liveliness_tokens.len(),
            forall|k: int|
                0 <= k < old(order).len() ==> #[trigger] old(order)@[k]
                    < self.liveliness_tokens.len(),
        ensures
            indices(final(order)@) == placed(
                self@.liveliness_tokens,
                indices(old(order)@),
                x as int,
            ),
            forall|k: int|
                0 <= k < final(order).len() ==> #[trigger] final(order)@[k]
                    < self.liveliness_tokens.len(),
    {
        let ghost all = order@;
        let ghost tokens = self@.liveliness_tokens;
        let mut at: usize = order.len();
        assert(all.skip(all.len() as int) =~= Seq::empty());
        assert(indices(all).take(all.len() as int) =~= indices(all));
        assert(placed(tokens, indices(all), x as int) + Seq::<int>::empty() =~= placed(
            tokens,
            indices(all),
            x as int,
        ));
        assert(indices(all).skip(all.len() as int) =~= Seq::empty());
        while at > 0 && self.before(x, order[at - 1])
            invariant
                at <= all.len(),
                order@ == all,
                x < self.liveliness_tokens.len(),
                tokens == self@.liveliness_tokens,
                forall|k: int| 0 <= k < all.len() ==> #[trigger] all[k] < self.liveliness_tokens.len(),
                placed(tokens, indices(all), x as int) == placed(
                    tokens,
                    indices(all).take(at as int),
                    x as int,
                ) + indices(all).skip(at as int),
            decreases at,
        {
            proof {
                let front = indices(all).take(at as int);
                assert(front.last() == all[at - 1] as int);
                assert(front.drop_last() =~= indices(all).take(at - 1));
                assert(indices(all).skip(at - 1) =~= seq![all[at - 1] as int] + indices(all).skip(
                    at as int,
                ));
                let p = placed(tokens, front.drop_last(), x as int);
                assert(p.push(front.last()) + indices(all).skip(at as int) =~= p + indices(
                    all,
                ).skip(at - 1));
            }
            at = at - 1;
        }
        proof {
            let front = indices(all).take(at as int);
            if at > 0 {
                assert(front.last() == all[at - 1] as int);
            }
            assert(placed(tokens, front, x as int) == front.push(x as int));
        }
        order.insert(at, x);
        assert(order@ =~= all.insert(at as int, x));
        assert(indices(order@) =~= indices(all).take(at as int).push(x as int) + indices(all).skip(
            at as int,
        ));
    }

    /// The selectable rows, in display order: every session (in node order), then
    /// every token, dead first, then by key.
    pub fn network_rows(&self) -> (rows: Vec<NetworkRow>)
        ensures
            rows@ == self@.rows(),
            forall|k: int| 0 <= k < rows@.len() ==> self@.row_exists(#[trigger] rows@[k]),
            lists_who_is_asked_for(rows@, self@),
    {
        let needle = lowercase(self.network_filter.as_str());
        let ghost m = self@;
        let mut rows: Vec<NetworkRow> = Vec::new();
        let mut i: usize = 0;
        while i < self.nodes.len()
            invariant
                i <= self.nodes.len(),
                m == self@,
                needle@ == lowercased(m.network_filter),
                rows@ == m.session_rows(i as nat),
                forall|k: int| 0 <= k < rows@.len() ==> m.row_exists(#[trigger] rows@[k]),
            decreases self.nodes.len() - i,
        {
            if !self.network_dead_only {
                let n = &self.nodes[i];
                assert(n@ == m.nodes[i as int]);
                if passes_filter(
                    self.network_filter.as_str(),
                    needle.as_str(),
                    n.zid.as_str(),
                ) || passes_filter(
                    self.network_filter.as_str(),
                    needle.as_str(),
                    n.kind.as_str(),
                ) {
                    rows.push(NetworkRow::Session(i));
                }
            }
            i = i + 1;
        }
        let mut order: Vec<usize> = Vec::new();
        let mut j: usize = 0;
        assert(indices(order@) =~= Seq::empty());
        while j < self.liveliness_tokens.len()
            invariant
                j <= self.liveliness_tokens.len(),
                m == self@,
                needle@ == lowercased(m.network_filter),
                indices(order@) == m.token_order(j as nat),
                forall|k: int|
                    0 <= k < order@.len() ==> #[trigger] order@[k] < self.liveliness_tokens.len(),
            decreases self.liveliness_tokens.len() - j,
        {
            let t = &self.liveliness_tokens[j];
            assert(t@ == m.liveliness_tokens[j as int]);
            if (!self.network_dead_only || !t.alive) && passes_filter(
                self.network_filter.as_str(),
                needle.as_str(),
                t.key_expr.as_str(),
            ) {
                self.place(&mut order, j);
            }
            j = j + 1;
        }
        let ghost sessions = rows@;
        let ghost all = m.token_order(m.liveliness_tokens.len());
        let ghost services = all.map_values(|i: int| NetworkRow::Service(i as usize));
        let mut k: usize = 0;
        assert(services.take(0) =~= Seq::empty());
        while k < order.len()
            invariant
                k <= order.len(),
                m == self@,
                indices(order@) == all,
                services == all.map_values(|i: int| NetworkRow::Service(i as usize)),
                rows@ == sessions + services.take(k as int),
                forall|k: int|
                    0 <= k < order@.len() ==> #[trigger] order@[k] < self.liveliness_tokens.len(),
                forall|k: int| 0 <= k < rows@.len() ==> m.row_exists(#[trigger] rows@[k]),
            decreases order.len() - k,
        {
            assert(all[k as int] == order@[k as int] as int);
            rows.push(NetworkRow::Service(order[k]));
            assert(rows@ =~= sessions + services.take(k + 1));
            k = k + 1;
        }
        proof {
            assert(services.take(services.len() as int) =~= services);
            law_the_rows_are_who_is_asked_for(m);
        }
        rows
    }

    /// The row under the cursor, if any.
    pub fn selected_network_row(&self) -> (r: Option<NetworkRow>)
        ensures
            r == self@.selected_row(),
            match r {
                Some(row) => self@.row_exists(row),
                None => true,
            },
    {
        let rows = self.network_rows();
        if self.network_selected < rows.len() {
            Some(rows[self.network_selected])
        } else {
            None
        }
    }

    /// Keep the cursor inside the row list after a filter changed it.
    pub fn clamp_network_selection(&mut self)
        ensures
            final(self)@ == old(self)@.on_a_row(),
    {
        let len: usize = self.network_rows().len();
        self.network_selected = clamp_selection(self.network_selected, len);
    }

    /// Move the cursor over the rows, kept on them, and start the new selection at
    /// its top.
    pub fn move_network_selection(&mut self, down: bool)
        ensures
            final(self)@ == old(self)@.stepped(down),
    {
        let len: usize = self.network_rows().len();
        if len == 0 {
            return;
        }
        self.network_selected = move_selection(self.network_selected, down, len);
        self.node_detail_scroll = 0;
    }

    /// Ask for a scout, unless one is running.
    pub fn request_scout(&mut self)
        ensures
            final(self)@ == old(self)@.scout_asked(),
    {
        if !self.scout_in_progress {
            self.pending_scout_request = true;
        }
    }

    /// Show only the tokens that died, or everyone again.
    pub fn toggle_dead_only(&mut self)
        ensures
            final(self)@ == old(self)@.dead_toggled(),
    {
        self.network_dead_only = !self.network_dead_only;
        self.clamp_network_selection();
        self.node_detail_scroll = 0;
    }

    /// A character typed into the filter.
    pub fn type_char(&mut self, c: char)
        ensures
            final(self)@ == old(self)@.typed(c),
    {
        self.network_filter.push(c);
        self.clamp_network_selection();
    }

    /// The last character of the filter taken out.
    pub fn rub_out(&mut self)
        ensures
            final(self)@ == old(self)@.rubbed_out(),
    {
        let _ = self.network_filter.pop();
        self.clamp_network_selection();
    }

    /// What to copy for the row under the cursor, and how to call it.
    pub fn copy_of_selection(&self) -> (r: Option<(String, &'static str)>)
        ensures
            match r {
                Some((text, label)) => self@.copied() == Some((text@, label@)),
                None => self@.copied() is None,
            },
    {
        match self.selected_network_row() {
            Some(NetworkRow::Session(i)) => Some((self.nodes[i].zid.clone(), "zid")),
            Some(NetworkRow::Service(i)) => Some(
                (self.liveliness_tokens[i].key_expr.clone(), "key"),
            ),
            None => None,
        }
    }

    /// Position of the first token with a key.
    fn position_of(&self, key: &str) -> (r: Option<usize>)
        ensures
            match r {
                Some(i) => i < self.liveliness_tokens.len() && first_with(
                    self@.liveliness_tokens,
                    key@,
                ) == Some(i as int),
                None => first_with(self@.liveliness_tokens, key@) is None,
            },
    {
        let ghost tokens = self@.liveliness_tokens;
        let mut i: usize = 0;
        while i < self.liveliness_tokens.len()
            invariant
                i <= self.liveliness_tokens.len(),
                tokens == self@.liveliness_tokens,
                forall|k: int| 0 <= k < i ==> (#[trigger] tokens[k]).key_expr != key@,
            decreases self.liveliness_tokens.len() - i,
        {
            assert(tokens[i as int] == self.liveliness_tokens[i as int]@);
            if same(self.liveliness_tokens[i].key_expr.as_str(), key) {
                proof {
                    lemma_first_with(tokens, key@, i as int);
                }
                return Some(i);
            }
            i = i + 1;
        }
        proof {
            lemma_none_with(tokens, key@);
        }
        None
    }

    /// A token joined or left.
    pub fn handle_liveliness(&mut self, token: LivelinessToken, is_join: bool, now: u64)
        ensures
            final(self)@ == old(self)@.lived(token@, is_join, now),
    {
        let ghost before = self@;
        let record = LivelinessEventRecord {
            timestamp: now,
            is_join,
            key_expr: token.key_expr.clone(),
            node_name: token.display_name(),
        };
        let ghost log = self.liveliness_events@;
        let ghost r = record@;
        self.liveliness_events.push_front(record);
        let ghost longer = self.liveliness_events@;
        assert(record_models(longer) =~= seq![r] + record_models(log));
        if self.liveliness_events.len() > LIVELINESS_EVENT_CAP {
            let _ = self.liveliness_events.pop_back();
            assert(record_models(self.liveliness_events@) =~= record_models(longer).drop_last());
        }
        let ghost tokens = self.liveliness_tokens@;
        let at = self.position_of(token.key_expr.as_str());
        if is_join {
            match at {
                Some(i) => {
                    let old_token = &self.liveliness_tokens[i];
                    let source_zid = match token.source_zid {
                        Some(z) => Some(z),
                        None => match &old_token.source_zid {
                            Some(z) => Some(z.clone()),
                            None => None,
                        },
                    };
                    let renewed = LivelinessToken {
                        key_expr: old_token.key_expr.clone(),
                        source_zid,
                        alive: true,
                        node_name: copy_option(&old_token.node_name),
                        group: copy_option(&old_token.group),
                    };
                    let ghost n = renewed@;
                    self.liveliness_tokens.set(i, renewed);
                    assert(token_models(self.liveliness_tokens@) =~= token_models(tokens).update(
                        i as int,
                        n,
                    ));
                },
                None => {
                    let ghost t = token@;
                    self.liveliness_tokens.push(token);
                    assert(token_models(self.liveliness_tokens@) =~= token_models(tokens).push(t));
                },
            }
        } else {
            if let Some(i) = at {
                let old_token = &self.liveliness_tokens[i];
                let renewed = LivelinessToken {
                    key_expr: old_token.key_expr.clone(),
                    source_zid: copy_option(&old_token.source_zid),
                    alive: false,
                    node_name: copy_option(&old_token.node_name),
                    group: copy_option(&old_token.group),
                };
                let ghost n = renewed@;
                self.liveliness_tokens.set(i, renewed);
                assert(token_models(self.liveliness_tokens@) =~= token_models(tokens).update(
                    i as int,
                    n,
                ));
            }
        }
        assert(self@ == before.lived(token@, is_join, now));
    }

    /// A new list of the sessions that the routers report, and that list merged with
    /// the scouted ones.
    pub fn handle_admin_nodes(&mut self, nodes: Vec<NodeInfo>, merged: Vec<NodeInfo>)
        ensures
            final(self)@ == old(self)@.admin_seen(node_models(nodes@), node_models(merged@)),
    {
        self.admin_nodes = nodes;
        self.nodes = merged;
        self.clamp_node_selection();
    }

    /// The sessions that a scout found, and that list merged with what the routers
    /// report.
    pub fn handle_scout_nodes(&mut self, nodes: Vec<NodeInfo>, merged: Vec<NodeInfo>, now: u64)
        ensures
            final(self)@ == old(self)@.scouted(node_models(nodes@), node_models(merged@), now),
    {
        self.scout_nodes = nodes;
        self.last_scout_at = Some(now);
        self.scout_in_progress = false;
        self.nodes = merged;
        self.clamp_node_selection();
    }

    fn clamp_node_selection(&mut self)
        ensures
            final(self)@ == (NetworkModel {
                node_selected: clamped(old(self)@.node_selected, old(self)@.nodes.len()),
                ..old(self)@
            }),
    {
        self.node_selected = clamp_selection(self.node_selected, self.nodes.len());
    }

    /// A new session came up under an id.
    pub fn connected_as(&mut self, zid: &str)
        ensures
            final(self)@ == old(self)@.reconnected(zid@),
    {
        self.self_zid = Some(zid.to_owned());
        self.liveliness_tokens = Vec::new();
        self.liveliness_events = VecDeque::new();
        self.liveliness_selected = 0;
        self.liveliness_log_scroll = 0;
        assert(self@.liveliness_tokens =~= Seq::empty());
        assert(self@.liveliness_events =~= Seq::empty());
    }

    /// Drop the sessions.
    pub fn clear_nodes(&mut self)
        ensures
            final(self)@ == old(self)@.emptied(),
    {
        self.admin_nodes = Vec::new();
        self.scout_nodes = Vec::new();
        self.nodes = Vec::new();
        self.node_selected = 0;
        self.node_detail_scroll = 0;
        assert(self@.admin_nodes =~= Seq::empty());
        assert(self@.scout_nodes =~= Seq::empty());
        assert(self@.nodes =~= Seq::empty());
    }
}

/// A copy of an optional text.
pub fn copy_option(s: &Option<String>) -> (r: Option<String>)
    ensures
        string_view(r) == string_view(*s),
{
    match s {
        Some(t) => Some(t.clone()),
        None => None,
    }
}

/// Indices as integers.
pub open spec fn indices(v: Seq<usize>) -> Seq<int> {
    v.map_values(|i: usize| i as int)
}

impl NetworkModel {
    /// Whether a row points into the lists.
    pub open spec fn row_exists(self, row: NetworkRow) -> bool {
        match row {
            NetworkRow::Session(i) => i < self.nodes.len(),
            NetworkRow::Service(i) => i < self.liveliness_tokens.len(),
        }
    }
}

/// Whether a list of token indices stands in display order.
pub open spec fn in_display_order(tokens: Seq<TokenModel>, order: Seq<int>) -> bool {
    forall|a: int, b: int|
        0 <= a < b < order.len() ==> !stands_before(
            tokens[#[trigger] order[b]],
            tokens[#[trigger] order[a]],
        )
}

proof fn lemma_before_passes_on(x: TokenModel, o: TokenModel, l: TokenModel)
    requires
        stands_before(x, o),
        !stands_before(l, o),
    ensures
        stands_before(x, l),
        !stands_before(o, x),
{
    lemma_text_lt_total(l.key_expr, o.key_expr);
    lemma_text_lt_irreflexive(x.key_expr);
    if text_lt(x.key_expr, o.key_expr) && text_lt(o.key_expr, l.key_expr) {
        lemma_text_lt_transitive(x.key_expr, o.key_expr, l.key_expr);
    }
    if text_lt(x.key_expr, o.key_expr) && text_lt(o.key_expr, x.key_expr) {
        lemma_text_lt_transitive(x.key_expr, o.key_expr, x.key_expr);
    }
}

proof fn lemma_not_before_itself(t: TokenModel)
    ensures
        !stands_before(t, t),
{
    lemma_text_lt_irreflexive(t.key_expr);
}

proof fn lemma_placed(tokens: Seq<TokenModel>, order: Seq<int>, x: int)
    requires
        in_display_order(tokens, order),
        !order.contains(x),
        order.no_duplicates(),
    ensures
        in_display_order(tokens, placed(tokens, order, x)),
        forall|i: int|
            #[trigger] placed(tokens, order, x).contains(i) <==> i == x || order.contains(i),
        placed(tokens, order, x).no_duplicates(),
    decreases order.len(),
{
    let p = placed(tokens, order, x);
    if order.len() > 0 && stands_before(tokens[x], tokens[order.last()]) {
        let front = order.drop_last();
        let l = order.last();
        assert(order =~= front.push(l));
        assert(!front.contains(x)) by {
            if front.contains(x) {
                let k = choose|k: int| 0 <= k < front.len() && front[k] == x;
                assert(order[k] == x);
            }
        }
        assert(in_display_order(tokens, front)) by {
            assert forall|a: int, b: int| 0 <= a < b < front.len() implies !stands_before(
                tokens[#[trigger] front[b]],
                tokens[#[trigger] front[a]],
            ) by {
                assert(order[a] == front[a] && order[b] == front[b]);
            }
        }
        lemma_placed(tokens, front, x);
        let q = placed(tokens, front, x);
        assert(p == q.push(l));
        assert forall|a: int, b: int| 0 <= a < b < p.len() implies !stands_before(
            tokens[#[trigger] p[b]],
            tokens[#[trigger] p[a]],
        ) by {
            if b < q.len() {
                assert(p[a] == q[a] && p[b] == q[b]);
            } else {
                assert(q.contains(q[a]));
                if q[a] == x {
                    lemma_not_before_itself(tokens[l]);
                    lemma_before_passes_on(tokens[x], tokens[l], tokens[l]);
                } else {
                    assert(front.contains(q[a]));
                    let k = choose|k: int| 0 <= k < front.len() && front[k] == q[a];
                    assert(order[k] == q[a]);
                    assert(order[order.len() - 1] == l);
                }
            }
        }
        assert forall|i: int| #[trigger] p.contains(i) <==> i == x || order.contains(i) by {
            if p.contains(i) {
                let k = choose|k: int| 0 <= k < p.len() && p[k] == i;
                if k < q.len() {
                    assert(q[k] == i);
                    assert(q.contains(i));
                    if i != x {
                        let j = choose|j: int| 0 <= j < front.len() && front[j] == i;
                        assert(order[j] == i);
                    }
                } else {
                    assert(order[order.len() - 1] == i);
                }
            }
            if i == x || order.contains(i) {
                if i == l {
                    assert(p[q.len() as int] == l);
                } else {
                    if i != x {
                        let j = choose|j: int| 0 <= j < order.len() && order[j] == i;
                        assert(front[j] == i);
                    }
                    assert(q.contains(i));
                    let k = choose|k: int| 0 <= k < q.len() && q[k] == i;
                    assert(p[k] == i);
                }
            }
        }
        assert(!q.contains(l)) by {
            assert(order[order.len() - 1] == l);
            if front.contains(l) {
                let j = choose|j: int| 0 <= j < front.len() && front[j] == l;
                assert(order[j] == l);
            }
            assert(x != l);
        }
        assert(p.no_duplicates()) by {
            assert forall|a: int, b: int| 0 <= a < p.len() && 0 <= b < p.len() && a != b implies p[a]
                != p[b] by {
                if a < q.len() && b < q.len() {
                    assert(p[a] == q[a] && p[b] == q[b]);
                } else if a < q.len() {
                    assert(q.contains(q[a]));
                } else {
                    assert(q.contains(q[b]));
                }
            }
        }
    } else {
        assert forall|a: int, b: int| 0 <= a < b < p.len() implies !stands_before(
            tokens[#[trigger] p[b]],
            tokens[#[trigger] p[a]],
        ) by {
            if b < order.len() {
                assert(p[a] == order[a] && p[b] == order[b]);
            } else {
                assert(p[b] == x && p[a] == order[a]);
                let l = order.last();
                if stands_before(tokens[x], tokens[order[a]]) {
                    if a < order.len() - 1 {
                        assert(!stands_before(tokens[order[order.len() - 1]], tokens[order[a]]));
                        lemma_before_passes_on(tokens[x], tokens[order[a]], tokens[l]);
                    }
                }
            }
        }
        assert forall|i: int| #[trigger] p.contains(i) <==> i == x || order.contains(i) by {
            if order.contains(i) {
                let j = choose|j: int| 0 <= j < order.len() && order[j] == i;
                assert(p[j] == i);
            }
            assert(p[order.len() as int] == x);
            if p.contains(i) {
                let k = choose|k: int| 0 <= k < p.len() && p[k] == i;
                if k < order.len() {
                    assert(order[k] == i);
                }
            }
        }
        assert(p.no_duplicates()) by {
            assert forall|a: int, b: int| 0 <= a < p.len() && 0 <= b < p.len() && a != b implies p[a]
                != p[b] by {
                if a < order.len() {
                    assert(order.contains(order[a]));
                }
                if b < order.len() {
                    assert(order.contains(order[b]));
                }
            }
        }
    }
}

/// The token rows list every token that passes the filters exactly once, and only
/// those: the dead ones first, then by key.
pub proof fn law_token_rows_stand_dead_first_then_by_key(m: NetworkModel, n: nat)
    requires
        n <= m.liveliness_tokens.len(),
    ensures
        in_display_order(m.liveliness_tokens, m.token_order(n)),
        m.token_order(n).no_duplicates(),
        forall|i: int|
            #[trigger] m.token_order(n).contains(i) <==> 0 <= i < n && m.lists_token(i),
    decreases n,
{
    if n > 0 {
        law_token_rows_stand_dead_first_then_by_key(m, (n - 1) as nat);
        let before = m.token_order((n - 1) as nat);
        if m.lists_token(n - 1) {
            assert(!before.contains(n - 1));
            lemma_placed(m.liveliness_tokens, before, n - 1);
            let p = m.token_order(n);
            assert forall|i: int| #[trigger] p.contains(i) <==> 0 <= i < n && m.lists_token(i) by {
                assert(p.contains(i) <==> i == n - 1 || before.contains(i));
            }
        } else {
            assert forall|i: int| #[trigger] m.token_order(n).contains(i) <==> 0 <= i < n
                && m.lists_token(i) by {
                assert(before.contains(i) <==> 0 <= i < n - 1 && m.lists_token(i));
            }
        }
    }
}

/// A token that leaves stays listed as dead, and one that joins again is alive
/// under the same row: no word on a known token adds or removes a row.
pub proof fn law_known_tokens_keep_their_row(m: NetworkModel, token: TokenModel, is_join: bool, now: u64)
    requires
        first_with(m.liveliness_tokens, token.key_expr) is Some,
    ensures
        m.lived(token, is_join, now).liveliness_tokens.len() == m.liveliness_tokens.len(),
        ({
            let at = first_with(m.liveliness_tokens, token.key_expr)->0;
            0 <= at < m.liveliness_tokens.len()
                && m.lived(token, is_join, now).liveliness_tokens[at].alive == is_join
                && m.lived(token, is_join, now).liveliness_tokens[at].key_expr == token.key_expr
        }),
{
    lemma_first_is_within(m.liveliness_tokens, token.key_expr);
}

proof fn lemma_first_is_within(tokens: Seq<TokenModel>, key: Seq<char>)
    ensures
        first_with(tokens, key) matches Some(i) ==> 0 <= i < tokens.len() && tokens[i].key_expr
            == key,
    decreases tokens.len(),
{
    if tokens.len() > 0 {
        lemma_first_is_within(tokens.drop_last(), key);
    }
}

/// The log of joins and leaves never outgrows its cap.
pub proof fn law_the_log_stays_within_its_cap(
    m: NetworkModel,
    token: TokenModel,
    is_join: bool,
    now: u64,
)
    requires
        m.liveliness_events.len() <= LIVELINESS_EVENT_CAP,
    ensures
        m.lived(token, is_join, now).liveliness_events.len() <= LIVELINESS_EVENT_CAP,
        m.lived(token, is_join, now).liveliness_events.len() > 0,
        m.lived(token, is_join, now).liveliness_events[0].key_expr == token.key_expr,
{
}

/// Moving never leaves the rows, and clamping makes the cursor point at one.
pub proof fn law_the_cursor_stays_on_the_rows(m: NetworkModel, down: bool)
    requires
        m.rows().len() > 0,
        m.rows().len() <= usize::MAX,
    ensures
        m.stepped(down).selected_row() is Some,
        m.on_a_row().selected_row() is Some,
{
    assert(m.stepped(down).rows() == m.rows()) by {
        lemma_rows_ignore_the_cursor(m, m.stepped(down));
    }
    assert(m.on_a_row().rows() == m.rows()) by {
        lemma_rows_ignore_the_cursor(m, m.on_a_row());
    }
}

proof fn lemma_rows_ignore_the_cursor(a: NetworkModel, b: NetworkModel)
    requires
        b == (NetworkModel {
            network_selected: b.network_selected,
            node_detail_scroll: b.node_detail_scroll,
            ..a
        }),
    ensures
        a.rows() == b.rows(),
{
    lemma_same_sessions(a, b, a.nodes.len());
    lemma_same_tokens(a, b, a.liveliness_tokens.len());
}

proof fn lemma_same_sessions(a: NetworkModel, b: NetworkModel, n: nat)
    requires
        b == (NetworkModel {
            network_selected: b.network_selected,
            node_detail_scroll: b.node_detail_scroll,
            ..a
        }),
    ensures
        a.session_rows(n) == b.session_rows(n),
    decreases n,
{
    if n > 0 {
        lemma_same_sessions(a, b, (n - 1) as nat);
        assert(a.lists_node(n - 1) == b.lists_node(n - 1));
    }
}

proof fn lemma_same_tokens(a: NetworkModel, b: NetworkModel, n: nat)
    requires
        b == (NetworkModel {
            network_selected: b.network_selected,
            node_detail_scroll: b.node_detail_scroll,
            ..a
        }),
    ensures
        a.token_order(n) == b.token_order(n),
    decreases n,
{
    if n > 0 {
        lemma_same_tokens(a, b, (n - 1) as nat);
        assert(a.lists_token(n - 1) == b.lists_token(n - 1));
    }
}

} // verus!
