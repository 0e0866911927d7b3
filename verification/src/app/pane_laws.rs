//! What opening, closing and moving do to what the tree pane shows.
use vstd::prelude::*;

use crate::app::tree_pane::{clamped, moved, shallower_above, PaneModel};
use crate::key_laws::{
    law_branch_paths_are_the_paths_with_children, law_the_stem_is_what_every_key_shares,
    on_one_line, strictly_below,
};
use crate::text::{joined, segments};
use crate::tree::{count_all, lemma_forest_cardinality, stem, RowKind};

verus! {

/// Moving goes to the next row or the one before, and stays where the rows end.
pub proof fn law_a_step_goes_to_the_neighbour(selected: usize, len: nat)
    requires
        0 < len <= usize::MAX,
    ensures
        selected + 1 < len ==> moved(selected, 1, len) == selected + 1,
        selected + 1 >= len ==> moved(selected, 1, len) == len - 1,
        0 < selected < len ==> moved(selected, -1, len) == selected - 1,
        selected == 0 ==> moved(selected, -1, len) == 0,
        selected < len ==> clamped(selected, len) == selected,
        selected >= len ==> clamped(selected, len) == len - 1,
        selected + 1 < len ==> moved(moved(selected, 1, len), -1, len) == selected,
{
}

/// Opening a branch opens that branch and no other, and closing it again leaves what is
/// open as it was. Neither touches the keys, the filter or the threshold.
pub proof fn law_closing_undoes_opening(m: PaneModel, path: Seq<char>)
    ensures
        forall|p: Seq<char>|
            m.opened(path).expanded.contains(p) <==> p == path || m.expanded.contains(p),
        m.opened(path).unfolded == m.unfolded,
        forall|p: Seq<char>|
            m.closed(path).expanded.contains(p) <==> p != path && m.expanded.contains(p),
        forall|p: Seq<char>|
            m.closed(path).unfolded.contains(p) <==> p != path && m.unfolded.contains(p),
        forall|p: Seq<char>|
            m.listed(path).unfolded.contains(p) <==> p == path || m.unfolded.contains(p),
        m.listed(path).expanded == m.expanded,
        !m.expanded.contains(path) ==> m.opened(path).closed(path).expanded == m.expanded,
        m.opened(path).tree == m.tree && m.closed(path).tree == m.tree && m.listed(path).tree
            == m.tree,
        m.opened(path).filter == m.filter && m.closed(path).filter == m.filter,
        m.opened(path).fold_threshold == m.fold_threshold,
{
    if !m.expanded.contains(path) {
        assert(m.opened(path).closed(path).expanded =~= m.expanded);
    }
}

/// Stepping in opens the closed branch under the cursor and lists the folded group, and
/// stepping out closes the open one. A key is left as it is.
pub proof fn law_stepping_in_and_out(m: PaneModel)
    requires
        m.selected_row() is Some,
    ensures
        ({
            let row = m.selected_row()->0;
            &&& row.kind == (RowKind::Branch { expanded: false }) ==> {
                &&& m.descended().expanded.contains(row.path)
                &&& m.toggled().expanded.contains(row.path)
            }
            &&& row.kind == (RowKind::Branch { expanded: true }) ==> {
                &&& !m.ascended().expanded.contains(row.path)
                &&& !m.toggled().expanded.contains(row.path)
                &&& m.descended().expanded == m.expanded
            }
            &&& row.kind is FoldSummary ==> {
                &&& m.descended().unfolded.contains(row.path)
                &&& m.toggled().unfolded.contains(row.path)
            }
            &&& row.kind is Leaf ==> m.descended() == m && m.toggled() == m && m.enters_detail()
                && m.selected_key() == Some(row.path)
            &&& !(row.kind is Leaf) ==> !m.enters_detail() && m.selected_key() is None
        }),
{
}

proof fn lemma_shallower(rows: Seq<crate::tree::RowModel>, at: int, depth: nat)
    requires
        0 <= at <= rows.len(),
    ensures
        match shallower_above(rows, at, depth) {
            Some(i) => {
                &&& 0 <= i < at
                &&& rows[i].depth < depth
                &&& forall|k: int| i < k < at ==> (#[trigger] rows[k]).depth >= depth
            },
            None => forall|k: int| 0 <= k < at ==> (#[trigger] rows[k]).depth >= depth,
        },
    decreases at,
{
    if at > 0 && rows[at - 1].depth >= depth {
        lemma_shallower(rows, at - 1, depth);
    }
}

/// Stepping out of anything but an open branch goes to the nearest row above that is
/// less deep, and leaves what is open alone.
pub proof fn law_climbing_goes_to_the_parent(m: PaneModel)
    requires
        m.selected_row() is Some,
        m.selected_row()->0.depth > 0,
        m.rows.len() <= usize::MAX,
    ensures
        ({
            let at = m.selected as int;
            let to = m.climbed().selected as int;
            let depth = m.rows[at].depth;
            &&& m.climbed() == (PaneModel {
                selected: m.climbed().selected,
                detail_scroll: m.climbed().detail_scroll,
                ..m
            })
            &&& (exists|k: int| 0 <= k < at && (#[trigger] m.rows[k]).depth < depth) ==> {
                &&& 0 <= to < at
                &&& m.rows[to].depth < depth
                &&& forall|k: int| to < k < at ==> (#[trigger] m.rows[k]).depth >= depth
                &&& m.climbed().detail_scroll == 0
            }
        }),
{
    lemma_shallower(m.rows, m.selected as int, m.selected_row()->0.depth);
}

/// Opening everything opens and lists every path that has children and leaves the rest
/// as it was; closing everything leaves nothing open.
pub proof fn law_everything_opens_and_closes(m: PaneModel, path: Seq<char>)
    requires
        m.tree.wf(),
    ensures
        ({
            let branch = path == joined(segments(path)) && path.len() > 0 && m.tree.at(path) is Some
                && m.tree.at(path)->0.children.len() > 0;
            &&& m.all_opened().expanded.contains(path) <==> branch || m.expanded.contains(path)
            &&& m.all_opened().unfolded.contains(path) <==> branch || m.unfolded.contains(path)
            &&& !m.all_closed().expanded.contains(path)
            &&& !m.all_closed().unfolded.contains(path)
            &&& m.all_opened().tree == m.tree && m.all_closed().tree == m.tree
            &&& m.pruned().expanded.contains(path) <==> m.expanded.contains(path)
                && m.tree.at(path) is Some && m.tree.at(path)->0.children.len() > 0
        }),
{
    law_branch_paths_are_the_paths_with_children(m.tree, path);
}

/// A pane that the user has not touched opens by itself: every branch while there are no
/// more keys than the threshold, and past that what every key shares.
pub proof fn law_an_untouched_pane_opens_by_itself(m: PaneModel, path: Seq<char>)
    requires
        m.tree.wf(),
        !m.user_touched,
    ensures
        ({
            let branch = path == joined(segments(path)) && path.len() > 0 && m.tree.at(path) is Some
                && m.tree.at(path)->0.children.len() > 0;
            let shared = {
                &&& path == joined(segments(path))
                &&& segments(path).len() > 0
                &&& exists|key: Seq<Seq<char>>| #[trigger]
                    m.tree.keys().contains(key) && strictly_below(key, segments(path))
                &&& forall|key: Seq<Seq<char>>| #[trigger]
                    m.tree.keys().contains(key) ==> on_one_line(key, segments(path))
            };
            m.auto_expanded().expanded.contains(path) <==> m.expanded.contains(path) || (
            if m.tree.keys().len() <= m.fold_threshold {
                branch
            } else {
                shared
            })
        }),
{
    lemma_forest_cardinality(m.tree.forest);
    law_branch_paths_are_the_paths_with_children(m.tree, path);
    law_the_stem_is_what_every_key_shares(m.tree, path);
}

} // verus!
