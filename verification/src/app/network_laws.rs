//! Who is listed among the participants, in terms of the participants themselves.
use vstd::prelude::*;

use crate::app::network_pane::{
    first_with, law_token_rows_stand_dead_first_then_by_key, passes, NetworkModel, NetworkRow,
    NodeModel, TokenModel,
};
use crate::text::{lowercased, text_lt};
use crate::text_laws::{law_a_text_occurs_where_it_is_a_part, part_of};

verus! {

/// Whether a filter lets a text through: it is empty, or a part of the text, whatever
/// the case.
pub open spec fn let_through(filter: Seq<char>, text: Seq<char>) -> bool {
    filter.len() == 0 || part_of(lowercased(filter), lowercased(text))
}

proof fn lemma_passes(filter: Seq<char>, text: Seq<char>)
    ensures
        passes(filter, text) == let_through(filter, text),
{
    law_a_text_occurs_where_it_is_a_part(lowercased(filter), lowercased(text));
}

proof fn lemma_session_rows(m: NetworkModel, n: nat)
    requires
        n <= m.nodes.len() <= usize::MAX,
    ensures
        forall|k: int|
            0 <= k < m.session_rows(n).len() ==> {
                &&& (#[trigger] m.session_rows(n)[k]) is Session
                &&& m.session_rows(n)[k]->Session_0 < n
                &&& m.lists_node(m.session_rows(n)[k]->Session_0 as int)
            },
        forall|j: int, k: int|
            #![trigger m.session_rows(n)[j], m.session_rows(n)[k]]
            0 <= j < k < m.session_rows(n).len() ==> m.session_rows(n)[j]->Session_0
                < m.session_rows(n)[k]->Session_0,
        forall|i: int|
            0 <= i < n && #[trigger] m.lists_node(i) ==> m.session_rows(n).contains(
                NetworkRow::Session(i as usize),
            ),
    decreases n,
{
    if n > 0 {
        let before = m.session_rows((n - 1) as nat);
        let rows = m.session_rows(n);
        lemma_session_rows(m, (n - 1) as nat);
        assert forall|i: int| 0 <= i < n && #[trigger] m.lists_node(i) implies rows.contains(
            NetworkRow::Session(i as usize),
        ) by {
            if i < n - 1 {
                let k = before.index_of(NetworkRow::Session(i as usize));
                assert(rows[k] == before[k]);
            } else {
                assert(rows[rows.len() - 1] == NetworkRow::Session(i as usize));
            }
        }
    }
}

/// Whether the rows hold exactly who is to be listed.
pub open spec fn lists_who_is_asked_for(rows: Seq<NetworkRow>, m: NetworkModel) -> bool {
    &&& forall|i: int|
        0 <= i < m.nodes.len() ==> (rows.contains(NetworkRow::Session(i as usize)) <==> {
            &&& !m.network_dead_only
            &&& let_through(m.network_filter, (#[trigger] m.nodes[i]).zid) || let_through(
                m.network_filter,
                m.nodes[i].kind,
            )
        })
    &&& forall|i: int|
        0 <= i < m.liveliness_tokens.len() ==> (rows.contains(NetworkRow::Service(i as usize))
            <==> {
            &&& m.network_dead_only ==> !(#[trigger] m.liveliness_tokens[i]).alive
            &&& let_through(m.network_filter, m.liveliness_tokens[i].key_expr)
        })
}

/// The rows are exactly who is to be listed: while only the dead are asked for, the
/// tokens that are not alive and no session; otherwise everybody. A filter lets through
/// the sessions whose id or kind holds it and the tokens whose key does. Nobody is
/// listed twice.
pub proof fn law_the_rows_are_who_is_asked_for(m: NetworkModel)
    requires
        m.nodes.len() <= usize::MAX,
        m.liveliness_tokens.len() <= usize::MAX,
    ensures
        lists_who_is_asked_for(m.rows(), m),
        forall|k: int|
            0 <= k < m.rows().len() ==> match #[trigger] m.rows()[k] {
                NetworkRow::Session(i) => i < m.nodes.len(),
                NetworkRow::Service(i) => i < m.liveliness_tokens.len(),
            },
        m.rows().no_duplicates(),
{
    let rows = m.rows();
    let sessions = m.session_rows(m.nodes.len());
    let order = m.token_order(m.liveliness_tokens.len());
    let services = order.map_values(|i: int| NetworkRow::Service(i as usize));
    lemma_session_rows(m, m.nodes.len());
    law_token_rows_stand_dead_first_then_by_key(m, m.liveliness_tokens.len());
    assert(rows == sessions + services);
    assert forall|k: int| 0 <= k < services.len() implies {
        &&& #[trigger] services[k] == NetworkRow::Service(order[k] as usize)
        &&& 0 <= order[k] < m.liveliness_tokens.len()
        &&& m.lists_token(order[k])
    } by {
        assert(order.contains(order[k]));
    }
    assert forall|i: int| 0 <= i < m.nodes.len() implies (rows.contains(
        NetworkRow::Session(i as usize),
    ) <==> {
        &&& !m.network_dead_only
        &&& let_through(m.network_filter, (#[trigger] m.nodes[i]).zid) || let_through(
            m.network_filter,
            m.nodes[i].kind,
        )
    }) by {
        let row = NetworkRow::Session(i as usize);
        lemma_passes(m.network_filter, m.nodes[i].zid);
        lemma_passes(m.network_filter, m.nodes[i].kind);
        if rows.contains(row) {
            let k = rows.index_of(row);
            if k < sessions.len() {
                assert(sessions[k] == row);
            } else {
                assert(services[k - sessions.len()] == row);
            }
        }
        if m.lists_node(i) {
            let k = sessions.index_of(row);
            assert(rows[k] == row);
        }
    }
    assert forall|i: int| 0 <= i < m.liveliness_tokens.len() implies (rows.contains(
        NetworkRow::Service(i as usize),
    ) <==> {
        &&& m.network_dead_only ==> !(#[trigger] m.liveliness_tokens[i]).alive
        &&& let_through(m.network_filter, m.liveliness_tokens[i].key_expr)
    }) by {
        let row = NetworkRow::Service(i as usize);
        lemma_passes(m.network_filter, m.liveliness_tokens[i].key_expr);
        if rows.contains(row) {
            let k = rows.index_of(row);
            if k < sessions.len() {
                assert(sessions[k] == row);
            } else {
                assert(services[k - sessions.len()] == row);
                assert(order[k - sessions.len()] == i);
            }
        }
        if m.lists_token(i) {
            assert(order.contains(i));
            let k = order.index_of(i);
            assert(services[k] == row);
            assert(rows[sessions.len() + k] == row);
        }
    }
    assert forall|k: int| 0 <= k < rows.len() implies match #[trigger] rows[k] {
        NetworkRow::Session(i) => i < m.nodes.len(),
        NetworkRow::Service(i) => i < m.liveliness_tokens.len(),
    } by {
        if k < sessions.len() {
            assert(rows[k] == sessions[k]);
        } else {
            assert(rows[k] == services[k - sessions.len()]);
        }
    }
    assert forall|j: int, k: int| 0 <= j < rows.len() && 0 <= k < rows.len() && j != k implies rows[j]
        != rows[k] by {
        if j < sessions.len() {
            assert(rows[j] == sessions[j]);
        } else {
            assert(rows[j] == services[j - sessions.len()]);
        }
        if k < sessions.len() {
            assert(rows[k] == sessions[k]);
        } else {
            assert(rows[k] == services[k - sessions.len()]);
        }
        if j >= sessions.len() && k >= sessions.len() {
            assert(order[j - sessions.len()] != order[k - sessions.len()]);
        }
    }
}

/// The sessions stand before the tokens, in the order in which they are known. Among the
/// tokens the dead stand before the living, and those alike by their key.
pub proof fn law_the_rows_stand_in_order(m: NetworkModel, j: int, k: int)
    requires
        m.nodes.len() <= usize::MAX,
        m.liveliness_tokens.len() <= usize::MAX,
        0 <= j < k < m.rows().len(),
    ensures
        match (m.rows()[j], m.rows()[k]) {
            (NetworkRow::Session(a), NetworkRow::Session(b)) => a < b,
            (NetworkRow::Session(_), NetworkRow::Service(_)) => true,
            (NetworkRow::Service(_), NetworkRow::Session(_)) => false,
            (NetworkRow::Service(a), NetworkRow::Service(b)) => {
                let x = m.liveliness_tokens[a as int];
                let y = m.liveliness_tokens[b as int];
                &&& !y.alive ==> !x.alive
                &&& x.alive == y.alive ==> !text_lt(y.key_expr, x.key_expr)
            },
        },
{
    let sessions = m.session_rows(m.nodes.len());
    let order = m.token_order(m.liveliness_tokens.len());
    let services = order.map_values(|i: int| NetworkRow::Service(i as usize));
    lemma_session_rows(m, m.nodes.len());
    law_token_rows_stand_dead_first_then_by_key(m, m.liveliness_tokens.len());
    assert(m.rows() == sessions + services);
    let n = sessions.len();
    if j < n {
        assert(m.rows()[j] == sessions[j]);
    } else {
        assert(order.contains(order[j - n]));
    }
    if k < n {
        assert(m.rows()[k] == sessions[k]);
    } else {
        assert(order.contains(order[k - n]));
    }
    if j >= n {
        assert(!crate::app::network_pane::stands_before(
            m.liveliness_tokens[order[k - n]],
            m.liveliness_tokens[order[j - n]],
        ));
    }
}

/// No two tokens have the same key.
pub open spec fn known_once(tokens: Seq<TokenModel>) -> bool {
    forall|i: int, j: int|
        0 <= i < j < tokens.len() ==> (#[trigger] tokens[i]).key_expr != (
        #[trigger] tokens[j]).key_expr
}

proof fn lemma_first_with(tokens: Seq<TokenModel>, key: Seq<char>)
    ensures
        match first_with(tokens, key) {
            Some(i) => 0 <= i < tokens.len() && tokens[i].key_expr == key,
            None => forall|i: int|
                0 <= i < tokens.len() ==> (#[trigger] tokens[i]).key_expr != key,
        },
    decreases tokens.len(),
{
    if tokens.len() > 0 {
        lemma_first_with(tokens.drop_last(), key);
        if first_with(tokens, key) is None {
            assert forall|i: int| 0 <= i < tokens.len() implies (#[trigger] tokens[i]).key_expr
                != key by {
                if i < tokens.len() - 1 {
                    assert(tokens.drop_last()[i] == tokens[i]);
                }
            }
        }
    }
}

/// A token that leaves is dead from then on and one that joins is alive, and word of one
/// token leaves the others alone. A token that was not known is listed when it joins, and
/// not when it leaves. Every token stays known once, and the log starts with the news.
pub proof fn law_word_of_a_token_concerns_that_token(
    m: NetworkModel,
    token: TokenModel,
    is_join: bool,
    now: u64,
)
    requires
        known_once(m.liveliness_tokens),
    ensures
        ({
            let before = m.liveliness_tokens;
            let after = m.lived(token, is_join, now).liveliness_tokens;
            let known = exists|i: int|
                0 <= i < before.len() && (#[trigger] before[i]).key_expr == token.key_expr;
            &&& known_once(after)
            &&& forall|i: int|
                0 <= i < before.len() ==> {
                    &&& (#[trigger] after[i]).key_expr == before[i].key_expr
                    &&& before[i].key_expr == token.key_expr ==> after[i].alive == is_join
                    &&& before[i].key_expr != token.key_expr ==> after[i] == before[i]
                }
            &&& known || !is_join ==> after.len() == before.len()
            &&& !known && is_join ==> after.len() == before.len() + 1 && after.last() == token
        }),
        m.lived(token, is_join, now).liveliness_events.len() > 0,
        m.lived(token, is_join, now).liveliness_events[0].is_join == is_join,
        m.lived(token, is_join, now).liveliness_events[0].key_expr == token.key_expr,
        m.lived(token, is_join, now).liveliness_events[0].timestamp == now,
{
    lemma_first_with(m.liveliness_tokens, token.key_expr);
}

/// A session that only a scout found is stale half a minute after it last answered, and
/// one that a router reports never is.
pub proof fn law_a_scouted_session_goes_stale(n: NodeModel, now: u64)
    ensures
        n.admin_last_seen is Some ==> !n.stale(now),
        n.admin_last_seen is None && n.scout_last_seen is Some ==> (n.stale(now) <==> now
            > n.scout_last_seen->0 + 30_000_000_000),
        n.admin_last_seen is None && n.scout_last_seen is None ==> !n.stale(now),
{
}

/// A new session forgets who was alive and keeps what the user set; the lists of sessions
/// are those that came last.
pub proof fn law_a_new_session_asks_again_who_is_alive(
    m: NetworkModel,
    zid: Seq<char>,
    nodes: Seq<NodeModel>,
    merged: Seq<NodeModel>,
    now: u64,
)
    ensures
        m.reconnected(zid).liveliness_tokens.len() == 0,
        m.reconnected(zid).liveliness_events.len() == 0,
        m.reconnected(zid).self_zid == Some(zid),
        m.reconnected(zid).network_filter == m.network_filter,
        m.reconnected(zid).network_dead_only == m.network_dead_only,
        m.admin_seen(nodes, merged).admin_nodes == nodes,
        m.admin_seen(nodes, merged).nodes == merged,
        m.admin_seen(nodes, merged).scout_nodes == m.scout_nodes,
        m.admin_seen(nodes, merged).liveliness_tokens == m.liveliness_tokens,
        m.scouted(nodes, merged, now).scout_nodes == nodes,
        m.scouted(nodes, merged, now).nodes == merged,
        m.scouted(nodes, merged, now).admin_nodes == m.admin_nodes,
        !m.scouted(nodes, merged, now).scout_in_progress,
        m.scouted(nodes, merged, now).last_scout_at == Some(now),
{
}

} // verus!
