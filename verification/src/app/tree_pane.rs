//! The key tree as the Traffic space shows it: what is open, what is filtered,
//! and where the cursor is.
use vstd::prelude::*;

use crate::keyed::KeySet;
use crate::text::{same, texts};
use crate::tree::{
    branches, chain, count_all, forest_rows, row_models, FlattenModel, FlattenOpts, KeyTree,
    RowKind, RowModel, TreeModel, TreeRow,
};

verus! {

/// Children above which an open branch folds to one summary row.
pub const DEFAULT_FOLD_THRESHOLD: usize = 12;

/// The key tree and how it is looked at.
pub struct TreePane {
    pub key_tree: KeyTree,
    /// Branches the user (or the automatic opening) has opened.
    pub expanded: KeySet,
    /// Branches whose over-threshold children are listed in full.
    pub unfolded: KeySet,
    /// Bumped whenever the expansion state changes.
    pub expanded_version: u64,
    /// Set for good at the first manual expand or collapse.
    pub user_touched: bool,
    pub fold_threshold: usize,
    /// Case-insensitive substring filter; empty means no filtering.
    pub filter: String,
    /// The filter is being edited.
    pub filtering: bool,
    /// The cursor, as an index into the visible rows.
    pub selected: usize,
    /// How far the detail of the selection is scrolled.
    pub detail_scroll: u16,
    /// The visible rows as of the last refresh, and what they were built from.
    pub cache: TreeViewCache,
}

/// The flattened rows, and what they were built from.
pub struct TreeViewCache {
    pub rows: Vec<TreeRow>,
    pub tree_version: u64,
    pub expanded_version: u64,
    pub filter: String,
    pub built: bool,
}

/// A pane, as a mathematical value.
pub struct PaneModel {
    pub tree: TreeModel,
    pub expanded: Set<Seq<char>>,
    pub unfolded: Set<Seq<char>>,
    pub expanded_version: u64,
    pub user_touched: bool,
    pub fold_threshold: usize,
    pub filter: Seq<char>,
    pub filtering: bool,
    pub selected: usize,
    pub detail_scroll: u16,
    pub rows: Seq<RowModel>,
    pub rows_tree_version: u64,
    pub rows_expanded_version: u64,
    pub rows_filter: Seq<char>,
    pub built: bool,
}

impl View for TreePane {
    type V = PaneModel;

    open spec fn view(&self) -> PaneModel {
        PaneModel {
            tree: self.key_tree@,
            expanded: self.expanded@,
            unfolded: self.unfolded@,
            expanded_version: self.expanded_version,
            user_touched: self.user_touched,
            fold_threshold: self.fold_threshold,
            filter: self.filter@,
            filtering: self.filtering,
            selected: self.selected,
            detail_scroll: self.detail_scroll,
            rows: row_models(self.cache.rows@),
            rows_tree_version: self.cache.tree_version,
            rows_expanded_version: self.cache.expanded_version,
            rows_filter: self.cache.filter@,
            built: self.cache.built,
        }
    }
}

/// A cursor kept within a list.
pub open spec fn clamped(selected: usize, len: nat) -> usize {
    if len == 0 {
        0
    } else if selected < len {
        selected
    } else {
        (len - 1) as usize
    }
}

/// A cursor moved within a list by `delta`, and kept in it.
pub open spec fn moved(selected: usize, delta: int, len: nat) -> usize {
    let at = clamped(selected, len) + delta;
    if at < 0 {
        0
    } else if at >= len {
        (len - 1) as usize
    } else {
        at as usize
    }
}

/// A cursor kept within a list.
pub fn clamp_selection(selected: usize, len: usize) -> (r: usize)
    ensures
        r == clamped(selected, len as nat),
{
    if len == 0 {
        0
    } else if selected < len {
        selected
    } else {
        len - 1
    }
}

/// A cursor moved by one step down or up within a non-empty list.
pub fn move_selection(selected: usize, down: bool, len: usize) -> (r: usize)
    requires
        len > 0,
    ensures
        r == moved(
            selected,
            if down {
                1
            } else {
                -1
            },
            len as nat,
        ),
        r < len,
{
    let cur: usize = clamp_selection(selected, len);
    if down {
        if cur + 1 < len {
            cur + 1
        } else {
            len - 1
        }
    } else if cur > 0 {
        cur - 1
    } else {
        0
    }
}

impl PaneModel {
    /// A pane over no keys, as it starts out.
    pub open spec fn blank() -> PaneModel {
        PaneModel {
            tree: TreeModel { forest: Seq::empty(), version: 0 },
            expanded: Set::empty(),
            unfolded: Set::empty(),
            expanded_version: 0,
            user_touched: false,
            fold_threshold: DEFAULT_FOLD_THRESHOLD,
            filter: Seq::empty(),
            filtering: false,
            selected: 0,
            detail_scroll: 0,
            rows: Seq::empty(),
            rows_tree_version: 0,
            rows_expanded_version: 0,
            rows_filter: Seq::empty(),
            built: false,
        }
    }

    /// How the rows are flattened right now.
    pub open spec fn options(self) -> FlattenModel {
        FlattenModel {
            expanded: self.expanded,
            unfolded: self.unfolded,
            filter: self.filter,
            fold_threshold: self.fold_threshold as nat,
        }
    }

    /// The rows as they would be built now.
    pub open spec fn current_rows(self) -> Seq<RowModel> {
        forest_rows(self.tree.forest, Seq::empty(), self.options(), 0, false)
    }

    /// Whether the rows are taken to be up to date.
    pub open spec fn fresh(self) -> bool {
        &&& self.built
        &&& self.rows_tree_version == self.tree.version
        &&& self.rows_expanded_version == self.expanded_version
        &&& self.rows_filter == self.filter
    }

    /// After making sure that the rows are up to date.
    pub open spec fn refreshed(self) -> PaneModel {
        if self.fresh() {
            self
        } else {
            PaneModel {
                rows: self.current_rows(),
                rows_tree_version: self.tree.version,
                rows_expanded_version: self.expanded_version,
                rows_filter: self.filter,
                built: true,
                selected: clamped(self.selected, self.current_rows().len()),
                ..self
            }
        }
    }

    /// After the user changed what is open.
    pub open spec fn touched(self) -> PaneModel {
        PaneModel {
            expanded_version: self.expanded_version.wrapping_add(1),
            user_touched: true,
            ..self
        }
    }

    /// The row under the cursor.
    pub open spec fn selected_row(self) -> Option<RowModel> {
        if self.selected < self.rows.len() {
            Some(self.rows[self.selected as int])
        } else {
            None
        }
    }

    /// The key under the cursor. A branch row names a prefix, not a key.
    pub open spec fn selected_key(self) -> Option<Seq<char>> {
        match self.selected_row() {
            Some(row) => if row.kind == RowKind::Leaf {
                Some(row.path)
            } else {
                None
            },
            None => None,
        }
    }

    /// The branches that the automatic opening opens.
    pub open spec fn auto_paths(self) -> Seq<Seq<char>> {
        if count_all(self.tree.forest) <= self.fold_threshold {
            branches(self.tree.forest, Seq::empty())
        } else {
            chain(self.tree.forest, Seq::empty())
        }
    }

    /// After the automatic opening had its go. It stands down for good once the
    /// user has opened or closed anything.
    pub open spec fn auto_expanded(self) -> PaneModel {
        if self.user_touched {
            self
        } else {
            let paths = self.auto_paths().to_set();
            if paths.subset_of(self.expanded) {
                self
            } else {
                PaneModel {
                    expanded: self.expanded.union(paths),
                    expanded_version: self.expanded_version.wrapping_add(1),
                    ..self
                }
            }
        }
    }
}

impl TreePane {
    pub fn new() -> (p: TreePane)
        ensures
            p@ == PaneModel::blank(),
            p@.tree.wf(),
            p@.tree.keys() == Set::<Seq<Seq<char>>>::empty(),
    {
        let p = TreePane {
            key_tree: KeyTree::new(),
            expanded: KeySet::new(),
            unfolded: KeySet::new(),
            expanded_version: 0,
            user_touched: false,
            fold_threshold: DEFAULT_FOLD_THRESHOLD,
            filter: String::new(),
            filtering: false,
            selected: 0,
            detail_scroll: 0,
            cache: TreeViewCache {
                rows: Vec::new(),
                tree_version: 0,
                expanded_version: 0,
                filter: String::new(),
                built: false,
            },
        };
        assert(p@.rows =~= Seq::empty());
        p
    }

    /// Rebuild the flattened rows if the tree, the expansion state or the filter
    /// changed. Cheap and idempotent, so callers that need current rows can just
    /// call it rather than reason about who rendered last.
    pub fn refresh_tree_rows(&mut self)
        ensures
            final(self)@ == old(self)@.refreshed(),
    {
        let tree_version: u64 = self.key_tree.version();
        let expanded_version: u64 = self.expanded_version;
        if self.cache.built && self.cache.tree_version == tree_version && self.cache.expanded_version
            == expanded_version && same(self.cache.filter.as_str(), self.filter.as_str()) {
            return;
        }
        let opts = FlattenOpts {
            expanded: &self.expanded,
            unfolded: &self.unfolded,
            filter: self.filter.as_str(),
            fold_threshold: self.fold_threshold,
        };
        assert(opts@ == self@.options());
        let rows = self.key_tree.flatten(&opts);
        let filter = self.filter.clone();
        self.selected = clamp_selection(self.selected, rows.len());
        self.cache = TreeViewCache { rows, tree_version, expanded_version, filter, built: true };
        assert(self@ == old(self)@.refreshed());
    }

    /// The visible rows as of the last [`TreePane::refresh_tree_rows`].
    pub fn tree_rows(&self) -> (rows: &Vec<TreeRow>)
        ensures
            row_models(rows@) == self@.rows,
    {
        &self.cache.rows
    }

    /// The row under the cursor.
    pub fn selected_row(&self) -> (r: Option<&TreeRow>)
        ensures
            match r {
                Some(row) => self@.selected_row() == Some(row@),
                None => self@.selected_row() is None,
            },
    {
        if self.selected < self.cache.rows.len() {
            Some(&self.cache.rows[self.selected])
        } else {
            None
        }
    }

    /// The key expression currently selected, if the selection is a key.
    ///
    /// A branch row names a prefix, not a key: querying or copying it would act
    /// on something the network never published.
    pub fn selected_topic_key(&self) -> (r: Option<String>)
        ensures
            crate::message::string_view(r) == self@.selected_key(),
    {
        match self.selected_row() {
            Some(row) => if row.kind == RowKind::Leaf {
                Some(row.path.clone())
            } else {
                None
            },
            None => None,
        }
    }

    /// Note that the expansion state changed, so the row cache rebuilds and the
    /// automatic opening stands down.
    pub fn mark_tree_touched(&mut self)
        ensures
            final(self)@ == old(self)@.touched(),
    {
        self.expanded_version = self.expanded_version.wrapping_add(1);
        self.user_touched = true;
    }

    /// Open the tree far enough to be useful on a namespace the user has not
    /// touched yet.
    ///
    /// A tree that opens fully collapsed shows one row and looks broken; one
    /// that opens fully expanded is the flat list this replaced. So: a small
    /// namespace opens completely, and a large one opens through whatever
    /// single-child stem it shares. Stops for good at the first manual
    /// expand or collapse — new keys must never reopen what the user closed.
    pub fn auto_expand(&mut self)
        ensures
            final(self)@ == old(self)@.auto_expanded(),
    {
        if self.user_touched {
            return;
        }
        let paths = if self.key_tree.len() <= self.fold_threshold {
            self.key_tree.branch_paths()
        } else {
            self.key_tree.single_child_chain()
        };
        let ghost all = texts(paths@);
        let ghost before = self@;
        assert(all == before.auto_paths());
        let mut added = false;
        let mut i: usize = 0;
        assert(all.take(0).to_set() =~= Set::empty());
        assert(before.expanded.union(all.take(0).to_set()) =~= before.expanded);
        while i < paths.len()
            invariant
                i <= paths.len(),
                all == texts(paths@),
                before == old(self)@,
                self@ == (PaneModel {
                    expanded: before.expanded.union(all.take(i as int).to_set()),
                    ..before
                }),
                added == !all.take(i as int).to_set().subset_of(before.expanded),
            decreases paths.len() - i,
        {
            let ghost p = paths@[i as int]@;
            let ghost seen = all.take(i as int).to_set();
            proof {
                assert(all.take(i as int + 1) =~= all.take(i as int).push(p));
                assert(all.take(i as int + 1).to_set() =~= seen.insert(p)) by {
                    lemma_push_to_set(all.take(i as int), p);
                }
            }
            if !self.expanded.contains(paths[i].as_str()) {
                added = true;
                self.expanded.insert(paths[i].clone());
                proof {
                    assert(!before.expanded.contains(p));
                    assert(!seen.insert(p).subset_of(before.expanded)) by {
                        assert(seen.insert(p).contains(p));
                    }
                }
            } else {
                proof {
                    if !before.expanded.contains(p) {
                        assert(seen.contains(p));
                    }
                    assert(seen.insert(p).subset_of(before.expanded) == seen.subset_of(
                        before.expanded,
                    )) by {
                        if seen.subset_of(before.expanded) {
                            assert(before.expanded.contains(p));
                        } else {
                            let x = choose|x: Seq<char>|
                                seen.contains(x) && !before.expanded.contains(x);
                            assert(seen.insert(p).contains(x));
                        }
                    }
                }
            }
            i += 1;
            assert(self.expanded@ =~= before.expanded.union(all.take(i as int).to_set()));
        }
        assert(all.take(i as int) =~= all);
        if added {
            // Not `mark_tree_touched`: this is not the user's doing.
            self.expanded_version = self.expanded_version.wrapping_add(1);
        } else {
            assert(before.expanded.union(all.to_set()) =~= before.expanded);
        }
    }
}

/// The members of a list with one more at its end.
pub proof fn lemma_push_to_set(s: Seq<Seq<char>>, x: Seq<char>)
    ensures
        s.push(x).to_set() == s.to_set().insert(x),
{
    assert forall|y: Seq<char>| s.push(x).to_set().contains(y) <==> s.to_set().insert(x).contains(
        y,
    ) by {
        if s.push(x).contains(y) {
            let i = choose|i: int| 0 <= i < s.push(x).len() && s.push(x)[i] == y;
            if i < s.len() {
                assert(s[i] == y);
                assert(s.contains(y));
            }
        }
        if s.contains(y) {
            let i = choose|i: int| 0 <= i < s.len() && s[i] == y;
            assert(s.push(x)[i] == y);
        }
        assert(s.push(x)[s.len() as int] == x);
    }
    assert(s.push(x).to_set() =~= s.to_set().insert(x));
}

// ---------------------------------------------------------------------------
// Moving and opening
// ---------------------------------------------------------------------------

/// The last position before `at` whose row is shallower than `depth`.
pub open spec fn shallower_above(rows: Seq<RowModel>, at: int, depth: nat) -> Option<int>
    decreases at,
{
    if at <= 0 {
        None
    } else if rows[at - 1].depth < depth {
        Some(at - 1)
    } else {
        shallower_above(rows, at - 1, depth)
    }
}

impl PaneModel {
    /// After the cursor moved one row down or up.
    pub open spec fn stepped(self, down: bool) -> PaneModel {
        let r = self.refreshed();
        if r.rows.len() == 0 {
            r
        } else {
            PaneModel {
                selected: moved(
                    r.selected,
                    if down {
                        1
                    } else {
                        -1
                    },
                    r.rows.len(),
                ),
                detail_scroll: 0,
                ..r
            }
        }
    }

    /// After `path` was opened.
    pub open spec fn opened(self, path: Seq<char>) -> PaneModel {
        PaneModel { expanded: self.expanded.insert(path), ..self }.touched().refreshed()
    }

    /// After everything under `path` was listed.
    pub open spec fn listed(self, path: Seq<char>) -> PaneModel {
        PaneModel { unfolded: self.unfolded.insert(path), ..self }.touched().refreshed()
    }

    /// After `path` was closed. It folds again too.
    pub open spec fn closed(self, path: Seq<char>) -> PaneModel {
        PaneModel {
            expanded: self.expanded.remove(path),
            unfolded: self.unfolded.remove(path),
            ..self
        }.touched().refreshed()
    }

    /// Whether stepping in hands the focus to the detail: on a key there is
    /// nothing left to open.
    pub open spec fn enters_detail(self) -> bool {
        match self.selected_row() {
            Some(row) => row.kind == RowKind::Leaf,
            None => false,
        }
    }

    /// After stepping in: a closed branch opens, an open one is entered, and a
    /// folded group is listed.
    pub open spec fn descended(self) -> PaneModel {
        match self.selected_row() {
            Some(row) => match row.kind {
                RowKind::Branch { expanded } => if expanded {
                    self.stepped(true)
                } else {
                    self.opened(row.path)
                },
                RowKind::FoldSummary { hidden } => self.listed(row.path),
                RowKind::Leaf => self,
            },
            None => self,
        }
    }

    /// After the cursor climbed to the parent row.
    pub open spec fn climbed(self) -> PaneModel {
        match self.selected_row() {
            Some(row) => if row.depth == 0 {
                self
            } else {
                match shallower_above(self.rows, self.selected as int, row.depth) {
                    Some(i) => PaneModel { selected: i as usize, detail_scroll: 0, ..self },
                    None => self,
                }
            },
            None => self,
        }
    }

    /// After stepping out: an open branch closes, anything else climbs.
    pub open spec fn ascended(self) -> PaneModel {
        match self.selected_row() {
            Some(row) => if row.kind == (RowKind::Branch { expanded: true }) {
                self.closed(row.path)
            } else {
                self.climbed()
            },
            None => self,
        }
    }

    /// After the branch under the cursor was toggled.
    pub open spec fn toggled(self) -> PaneModel {
        match self.selected_row() {
            Some(row) => match row.kind {
                RowKind::Branch { expanded } => if expanded {
                    self.ascended()
                } else {
                    self.descended()
                },
                RowKind::FoldSummary { hidden } => self.descended(),
                RowKind::Leaf => self,
            },
            None => self,
        }
    }

    /// After everything was opened, folded groups included.
    pub open spec fn all_opened(self) -> PaneModel {
        let paths = branches(self.tree.forest, Seq::empty()).to_set();
        PaneModel {
            expanded: self.expanded.union(paths),
            unfolded: self.unfolded.union(paths),
            ..self
        }.touched().refreshed()
    }

    /// After everything was closed.
    pub open spec fn all_closed(self) -> PaneModel {
        PaneModel {
            expanded: Set::empty(),
            unfolded: Set::empty(),
            selected: 0,
            ..self
        }.touched().refreshed()
    }

    /// Whether a path names a branch of the tree.
    pub open spec fn is_branch(self, path: Seq<char>) -> bool {
        match self.tree.at(path) {
            Some(node) => node.children.len() > 0,
            None => false,
        }
    }

    /// After the expansion state forgot the branches that are gone.
    pub open spec fn pruned(self) -> PaneModel {
        PaneModel {
            expanded: self.expanded.filter(|p: Seq<char>| self.is_branch(p)),
            unfolded: self.unfolded.filter(|p: Seq<char>| self.is_branch(p)),
            expanded_version: self.expanded_version.wrapping_add(1),
            ..self
        }
    }

    /// After the tree was emptied for a new session. The filter stays.
    pub open spec fn emptied(self, tree: TreeModel) -> PaneModel {
        PaneModel {
            tree,
            expanded: Set::empty(),
            unfolded: Set::empty(),
            expanded_version: self.expanded_version.wrapping_add(1),
            user_touched: false,
            selected: 0,
            detail_scroll: 0,
            ..self
        }
    }
}

impl TreePane {
    /// Move the master cursor over the visible rows, clamped, resetting the
    /// detail scroll so the new selection starts at the top.
    pub fn move_tree_selection(&mut self, down: bool)
        ensures
            final(self)@ == old(self)@.stepped(down),
    {
        self.refresh_tree_rows();
        let len: usize = self.cache.rows.len();
        if len == 0 {
            return;
        }
        self.selected = move_selection(self.selected, down, len);
        self.detail_scroll = 0;
    }

    /// `l` / `→`: open a closed branch, step into an open one, list a folded
    /// group, or — on a key, where there is nothing left to open — hand focus
    /// to the detail pane.
    pub fn tree_expand_or_descend(&mut self) -> (enters_detail: bool)
        ensures
            final(self)@ == old(self)@.descended(),
            enters_detail == old(self)@.enters_detail(),
    {
        let (kind, path) = match self.selected_row() {
            Some(row) => (row.kind, row.path.clone()),
            None => {
                return false;
            },
        };
        match kind {
            RowKind::Branch { expanded } => {
                if expanded {
                    self.move_tree_selection(true);
                } else {
                    self.expanded.insert(path);
                    self.mark_tree_touched();
                    self.refresh_tree_rows();
                }
                false
            },
            RowKind::FoldSummary { .. } => {
                self.unfolded.insert(path);
                self.mark_tree_touched();
                self.refresh_tree_rows();
                false
            },
            RowKind::Leaf => true,
        }
    }

    /// Move the cursor to the nearest row above that is shallower than this one.
    fn select_parent_row(&mut self)
        ensures
            final(self)@ == old(self)@.climbed(),
    {
        let depth: usize = match self.selected_row() {
            Some(row) => row.depth,
            None => {
                return;
            },
        };
        if depth == 0 {
            return;
        }
        let mut i: usize = self.selected;
        let ghost rows = self@.rows;
        while i > 0
            invariant
                rows == self@.rows,
                self@ == old(self)@,
                i <= self.selected < self.cache.rows@.len(),
                shallower_above(rows, self.selected as int, depth as nat) == shallower_above(
                    rows,
                    i as int,
                    depth as nat,
                ),
                old(self)@.selected_row() is Some,
                old(self)@.selected_row()->0.depth == depth,
                depth > 0,
            decreases i,
        {
            assert(rows[i - 1] == self.cache.rows@[i - 1]@);
            if self.cache.rows[i - 1].depth < depth {
                self.selected = i - 1;
                self.detail_scroll = 0;
                return;
            }
            i -= 1;
        }
    }

    /// `h` / `←`: close an open branch, else climb to the parent row.
    pub fn tree_collapse_or_ascend(&mut self)
        ensures
            final(self)@ == old(self)@.ascended(),
    {
        let (kind, path) = match self.selected_row() {
            Some(row) => (row.kind, row.path.clone()),
            None => {
                return;
            },
        };
        if let RowKind::Branch { expanded: true } = kind {
            let _ = self.expanded.remove(path.as_str());
            // Re-folding on collapse means reopening a huge branch does not dump
            // every child back on screen because it was unfolded once before.
            let _ = self.unfolded.remove(path.as_str());
            self.mark_tree_touched();
            self.refresh_tree_rows();
            return;
        }
        self.select_parent_row();
    }

    /// `z`: open or close what the cursor is on.
    pub fn tree_toggle_at_cursor(&mut self)
        ensures
            final(self)@ == old(self)@.toggled(),
    {
        let kind = match self.selected_row() {
            Some(row) => row.kind,
            None => {
                return;
            },
        };
        match kind {
            RowKind::Branch { expanded } => {
                if expanded {
                    self.tree_collapse_or_ascend();
                } else {
                    let _ = self.tree_expand_or_descend();
                }
            },
            RowKind::FoldSummary { .. } => {
                let _ = self.tree_expand_or_descend();
            },
            RowKind::Leaf => {},
        }
    }

    /// `E`: open everything, folded groups included.
    ///
    /// Leaving the fold in place would make "expand all" stop at a summary row
    /// saying there is more — which is not what the key says it does.
    pub fn tree_expand_all(&mut self)
        ensures
            final(self)@ == old(self)@.all_opened(),
    {
        let paths = self.key_tree.branch_paths();
        let ghost all = texts(paths@);
        let ghost before = self@;
        let mut i: usize = 0;
        assert(all.take(0).to_set() =~= Set::empty());
        assert(before.expanded.union(all.take(0).to_set()) =~= before.expanded);
        assert(before.unfolded.union(all.take(0).to_set()) =~= before.unfolded);
        while i < paths.len()
            invariant
                i <= paths.len(),
                all == texts(paths@),
                before == old(self)@,
                self@ == (PaneModel {
                    expanded: before.expanded.union(all.take(i as int).to_set()),
                    unfolded: before.unfolded.union(all.take(i as int).to_set()),
                    ..before
                }),
            decreases paths.len() - i,
        {
            let ghost p = paths@[i as int]@;
            proof {
                assert(all.take(i as int + 1) =~= all.take(i as int).push(p));
                lemma_push_to_set(all.take(i as int), p);
            }
            self.expanded.insert(paths[i].clone());
            self.unfolded.insert(paths[i].clone());
            i += 1;
            assert(self.expanded@ =~= before.expanded.union(all.take(i as int).to_set()));
            assert(self.unfolded@ =~= before.unfolded.union(all.take(i as int).to_set()));
        }
        assert(all.take(i as int) =~= all);
        self.mark_tree_touched();
        self.refresh_tree_rows();
    }

    /// `C`: close everything.
    pub fn tree_collapse_all(&mut self)
        ensures
            final(self)@ == old(self)@.all_closed(),
    {
        self.expanded.clear();
        self.unfolded.clear();
        self.selected = 0;
        self.mark_tree_touched();
        self.refresh_tree_rows();
    }

    /// Forget the expansion state of branches that no longer exist. It is keyed
    /// by path, so pruned branches would otherwise leave entries behind that
    /// nothing can ever reach again.
    pub fn prune_expansion(&mut self)
        ensures
            final(self)@ == old(self)@.pruned(),
    {
        let ghost before = self@;
        let tree = &self.key_tree;
        Self::retain_branches(tree, &mut self.expanded);
        Self::retain_branches(tree, &mut self.unfolded);
        self.expanded_version = self.expanded_version.wrapping_add(1);
        assert(self@.expanded =~= before.pruned().expanded);
        assert(self@.unfolded =~= before.pruned().unfolded);
    }

    fn retain_branches(tree: &KeyTree, set: &mut KeySet)
        ensures
            final(set)@ == old(set)@.filter(
                |p: Seq<char>|
                    match tree@.at(p) {
                        Some(node) => node.children.len() > 0,
                        None => false,
                    },
            ),
    {
        let keys = set.keys();
        let ghost names = texts(keys@);
        let ghost before = set@;
        let ghost keep = |p: Seq<char>|
            match tree@.at(p) {
                Some(node) => node.children.len() > 0,
                None => false,
            };
        let mut i: usize = 0;
        while i < keys.len()
            invariant
                i <= keys.len(),
                names == texts(keys@),
                forall|x: Seq<char>| #[trigger]
                    set@.contains(x) <==> before.contains(x) && (keep(x) || !names.take(
                        i as int,
                    ).contains(x)),
                keep == (|p: Seq<char>|
                    match tree@.at(p) {
                        Some(node) => node.children.len() > 0,
                        None => false,
                    }),
            decreases keys.len() - i,
        {
            let ghost k = keys@[i as int]@;
            let ghost taken = names.take(i as int);
            proof {
                assert(names.take(i as int + 1) =~= taken.push(k));
                lemma_push_to_set(taken, k);
                assert forall|x: Seq<char>| names.take(i as int + 1).contains(x) <==> taken.contains(
                    x,
                ) || x == k by {
                    assert(names.take(i as int + 1).to_set().contains(x) <==> taken.to_set().insert(
                        k,
                    ).contains(x));
                }
            }
            if !tree.has_children(keys[i].as_str()) {
                let _ = set.remove(keys[i].as_str());
            }
            i += 1;
        }
        proof {
            assert(names.take(i as int) =~= names);
            assert(set@ =~= before.filter(keep));
        }
    }

    /// Empty the tree for a new session. A reconnect rebuilds the namespace from
    /// scratch, so the automatic opening gets another go at it. The filter is the
    /// user's, and stays.
    pub fn reset(&mut self)
        ensures
            final(self)@ == old(self)@.emptied(final(self)@.tree),
            final(self)@.tree.keys() == Set::<Seq<Seq<char>>>::empty(),
            final(self)@.tree.wf(),
            final(self)@.tree.version == 0,
    {
        self.key_tree = KeyTree::new();
        self.expanded.clear();
        self.unfolded.clear();
        self.expanded_version = self.expanded_version.wrapping_add(1);
        self.user_touched = false;
        self.selected = 0;
        self.detail_scroll = 0;
    }
}

// ---------------------------------------------------------------------------
// Laws
// ---------------------------------------------------------------------------

/// The rows on hand are right whenever they count as up to date, and were never
/// built from a version that is still to come.
pub open spec fn coherent(m: PaneModel) -> bool {
    &&& m.fresh() ==> m.rows == m.current_rows()
    &&& m.built ==> m.rows_tree_version <= m.tree.version
    &&& m.built ==> m.rows_expanded_version <= m.expanded_version
}

/// After a refresh the rows are what the tree, the expansion state and the
/// filter say, and the cursor is on one of them if there is one.
pub proof fn law_refreshed_rows_are_current(m: PaneModel)
    requires
        coherent(m),
    ensures
        m.refreshed().rows == m.refreshed().current_rows(),
        coherent(m.refreshed()),
        !m.fresh() && m.refreshed().rows.len() > 0 ==> m.refreshed().selected_row() is Some,
{
    let r = m.refreshed();
    assert(r.options() == m.options());
}

/// Refreshing twice is refreshing once.
pub proof fn law_refresh_is_idempotent(m: PaneModel)
    ensures
        m.refreshed().refreshed() == m.refreshed(),
{
}

/// Opening and closing by hand, and the automatic opening, never leave rows that
/// count as up to date and are not. The version is a counter of changes and is
/// taken not to have run out.
pub proof fn law_expansion_changes_keep_rows_coherent(
    m: PaneModel,
    expanded: Set<Seq<char>>,
    unfolded: Set<Seq<char>>,
)
    requires
        coherent(m),
        m.expanded_version < u64::MAX,
    ensures
        coherent((PaneModel { expanded, unfolded, ..m }).touched()),
        coherent(m.auto_expanded()),
        coherent(m.pruned()),
{
    let a = m.auto_expanded();
    if a == m {
    } else {
        assert(!a.fresh());
    }
    let t = PaneModel { expanded, unfolded, ..m }.touched();
    assert(!t.fresh());
    assert(!m.pruned().fresh());
}

/// A new key never reopens what the user closed: once anything was opened or
/// closed by hand, the automatic opening leaves the expansion state alone.
pub proof fn law_new_keys_never_reopen_what_the_user_closed(m: PaneModel, tree: TreeModel)
    requires
        m.user_touched,
    ensures
        (PaneModel { tree, ..m }).auto_expanded() == (PaneModel { tree, ..m }),
        m.descended().user_touched,
        m.ascended().user_touched,
        m.all_opened().user_touched,
        m.all_closed().user_touched,
{
}

/// The automatic opening only ever opens.
pub proof fn law_auto_expand_only_opens(m: PaneModel)
    ensures
        m.expanded.subset_of(m.auto_expanded().expanded),
        m.auto_expanded().unfolded == m.unfolded,
        m.auto_expanded().user_touched == m.user_touched,
{
}

/// Closing a branch folds it again: reopening a huge branch does not dump every
/// child back on screen because it was listed once before.
pub proof fn law_collapsing_also_refolds(m: PaneModel)
    requires
        m.selected_row() is Some,
        m.selected_row()->0.kind == (RowKind::Branch { expanded: true }),
    ensures
        !m.ascended().expanded.contains(m.selected_row()->0.path),
        !m.ascended().unfolded.contains(m.selected_row()->0.path),
{
}

/// Moving the cursor leaves it on a row, and changes nothing but the cursor and
/// the detail scroll once the rows are up to date.
pub proof fn law_moves_stay_on_the_rows(m: PaneModel, down: bool)
    requires
        m.fresh(),
        m.rows.len() > 0,
        m.rows.len() <= usize::MAX,
    ensures
        m.stepped(down).selected < m.rows.len(),
        m.stepped(down) == (PaneModel {
            selected: m.stepped(down).selected,
            detail_scroll: 0,
            ..m
        }),
{
}

} // verus!
