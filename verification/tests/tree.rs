//! The key tree: what is inserted, counted, pruned and listed.

use zenmon::keyed::KeySet;
use zenmon::tree::{FlattenOpts, KeyTree, RowKind, TreeRow};

fn tree(keys: &[&str]) -> KeyTree {
    let mut t = KeyTree::new();
    for k in keys {
        t.insert(k);
    }
    t
}

fn opts<'a>(expanded: &'a KeySet, unfolded: &'a KeySet, filter: &'a str) -> FlattenOpts<'a> {
    FlattenOpts { expanded, unfolded, filter, fold_threshold: 12 }
}

fn set(paths: &[&str]) -> KeySet {
    let mut s = KeySet::new();
    for p in paths {
        s.insert(p.to_string());
    }
    s
}

fn paths(rows: &[TreeRow]) -> Vec<&str> {
    rows.iter().map(|r| r.path.as_str()).collect()
}

#[test]
fn insert_builds_branches_and_marks_only_the_leaf_as_a_key() {
    let t = tree(&["a/b/c"]);
    assert!(t.contains("a/b/c"));
    // Intermediate segments exist as structure but are not keys themselves.
    assert!(!t.contains("a"));
    assert!(!t.contains("a/b"));
    assert!(t.has_children("a"));
    assert_eq!(t.len(), 1);
}

#[test]
fn reinserting_a_known_key_does_not_bump_the_version() {
    // The whole point of the version: a stream on known keys must not force
    // the flatten cache to rebuild on every message.
    let mut t = tree(&["a/b"]);
    let v = t.version();
    assert!(!t.insert("a/b"));
    assert_eq!(t.version(), v);
    assert_eq!(t.len(), 1);
}

#[test]
fn key_count_accumulates_up_the_path() {
    let t = tree(&["agv/f1/pose", "agv/f1/battery", "agv/f2/pose"]);
    assert_eq!(t.key_count_at("agv"), 3);
    assert_eq!(t.key_count_at("agv/f1"), 2);
    assert_eq!(t.key_count_at("agv/f2"), 1);
    assert_eq!(t.key_count_at("nope"), 0);
}

#[test]
fn a_node_can_be_both_a_key_and_a_branch() {
    // `a/b` receives messages *and* has `a/b/c` under it: it counts itself.
    let t = tree(&["a/b", "a/b/c"]);
    assert!(t.contains("a/b"));
    assert!(t.has_children("a/b"));
    assert_eq!(t.key_count_at("a/b"), 2);
}

#[test]
fn remove_prunes_ancestors_that_held_nothing_else() {
    let mut t = tree(&["a/b/c", "a/x"]);
    assert!(t.remove("a/b/c"));
    assert_eq!(t.len(), 1);
    // `a/b` existed only to reach `a/b/c`, so it goes too; `a` still holds `a/x`.
    assert!(!t.has_children("a/b"));
    assert_eq!(t.key_count_at("a"), 1);
    assert!(!t.remove("a/b/c"));
}

#[test]
fn removing_a_key_that_is_also_a_branch_keeps_the_branch() {
    let mut t = tree(&["a/b", "a/b/c"]);
    assert!(t.remove("a/b"));
    assert!(!t.contains("a/b"));
    // `a/b/c` still needs `a/b` as a path segment.
    assert!(t.has_children("a/b"));
    assert_eq!(t.key_count_at("a/b"), 1);
}

#[test]
fn collapsed_branches_hide_their_descendants() {
    let t = tree(&["a/b/c", "a/b/d"]);
    let (e, u) = (set(&[]), set(&[]));
    assert_eq!(paths(&t.flatten(&opts(&e, &u, ""))), vec!["a"]);

    let e = set(&["a"]);
    assert_eq!(paths(&t.flatten(&opts(&e, &u, ""))), vec!["a", "a/b"]);

    let e = set(&["a", "a/b"]);
    assert_eq!(
        paths(&t.flatten(&opts(&e, &u, ""))),
        vec!["a", "a/b", "a/b/c", "a/b/d"]
    );
}

#[test]
fn rows_carry_depth_and_kind() {
    let t = tree(&["a/b"]);
    let (e, u) = (set(&["a"]), set(&[]));
    let rows = t.flatten(&opts(&e, &u, ""));
    assert_eq!(rows[0].depth, 0);
    assert_eq!(rows[0].kind, RowKind::Branch { expanded: true });
    assert_eq!(rows[0].segment, "a");
    assert_eq!(rows[1].depth, 1);
    assert_eq!(rows[1].kind, RowKind::Leaf);
    assert_eq!(rows[1].segment, "b");
}

#[test]
fn a_matching_branch_keeps_its_whole_subtree() {
    let t = tree(&["agv/f1/pose", "agv/f1/battery", "srv/health"]);
    let (e, u) = (set(&[]), set(&[]));
    // "agv" matches, so everything under it shows without matching itself.
    assert_eq!(
        paths(&t.flatten(&opts(&e, &u, "agv"))),
        vec!["agv", "agv/f1", "agv/f1/battery", "agv/f1/pose"]
    );
}

#[test]
fn a_deep_match_pulls_its_ancestors_along() {
    let t = tree(&["agv/f1/pose", "agv/f2/battery", "srv/health"]);
    let (e, u) = (set(&[]), set(&[]));
    // Only `battery` matches, but its path to the root has to be walkable.
    assert_eq!(
        paths(&t.flatten(&opts(&e, &u, "battery"))),
        vec!["agv", "agv/f2", "agv/f2/battery"]
    );
}

#[test]
fn filtering_expands_without_touching_the_users_expansion_state() {
    let t = tree(&["agv/f1/pose"]);
    let (e, u) = (set(&[]), set(&[]));
    // Nothing is expanded, yet the match is reachable...
    let rows = t.flatten(&opts(&e, &u, "pose"));
    assert_eq!(paths(&rows), vec!["agv", "agv/f1", "agv/f1/pose"]);
    assert_eq!(rows[0].kind, RowKind::Branch { expanded: true });
    // ...and clearing the filter returns the collapsed tree unchanged.
    assert_eq!(paths(&t.flatten(&opts(&e, &u, ""))), vec!["agv"]);
}

#[test]
fn a_filter_matching_nothing_yields_no_rows() {
    let t = tree(&["agv/f1/pose"]);
    let (e, u) = (set(&[]), set(&[]));
    assert!(t.flatten(&opts(&e, &u, "zzz")).is_empty());
}

#[test]
fn filtering_is_case_insensitive() {
    let t = tree(&["AGV/F1/Pose"]);
    let (e, u) = (set(&[]), set(&[]));
    assert_eq!(t.flatten(&opts(&e, &u, "pose")).len(), 3);
}

#[test]
fn an_expanded_branch_over_the_threshold_folds_to_one_row() {
    let mut t = KeyTree::new();
    for i in 0..200 {
        t.insert(&format!("agv/f{i:03}/pose"));
    }
    let (e, u) = (set(&["agv"]), set(&[]));
    let rows = t.flatten(&opts(&e, &u, ""));
    assert_eq!(rows.len(), 2, "expected the branch plus one summary");
    assert_eq!(rows[0].kind, RowKind::Branch { expanded: true });
    assert_eq!(rows[1].kind, RowKind::FoldSummary { hidden: 200 });
    // The summary carries its parent's path so unfolding is a set insert.
    assert_eq!(rows[1].path, "agv");
    assert_eq!(rows[1].depth, 1);
}

#[test]
fn unfolding_lists_the_children_after_all() {
    let mut t = KeyTree::new();
    for i in 0..20 {
        t.insert(&format!("agv/f{i:02}/pose"));
    }
    let (e, u) = (set(&["agv"]), set(&["agv"]));
    let rows = t.flatten(&opts(&e, &u, ""));
    // The branch plus its 20 children (each still collapsed).
    assert_eq!(rows.len(), 21);
    assert!(rows
        .iter()
        .all(|r| !matches!(r.kind, RowKind::FoldSummary { .. })));
}

#[test]
fn a_branch_at_the_threshold_is_not_folded() {
    let mut t = KeyTree::new();
    for i in 0..12 {
        t.insert(&format!("agv/f{i:02}"));
    }
    let (e, u) = (set(&["agv"]), set(&[]));
    let rows = t.flatten(&opts(&e, &u, ""));
    assert_eq!(rows.len(), 13, "12 is the threshold, not over it");
}

#[test]
fn filtering_overrides_folding() {
    // Filtering is the documented way to find one id inside a folded group,
    // so folding the filtered results back up would defeat it.
    let mut t = KeyTree::new();
    for i in 0..200 {
        t.insert(&format!("agv/f{i:03}/pose"));
    }
    let (e, u) = (set(&[]), set(&[]));
    let rows = t.flatten(&opts(&e, &u, "f017"));
    assert_eq!(paths(&rows), vec!["agv", "agv/f017", "agv/f017/pose"]);
}

#[test]
fn siblings_come_out_sorted() {
    let t = tree(&["b/x", "a/x", "c/x"]);
    let (e, u) = (set(&[]), set(&[]));
    assert_eq!(paths(&t.flatten(&opts(&e, &u, ""))), vec!["a", "b", "c"]);
}

#[test]
fn leading_and_repeated_slashes_do_not_create_empty_segments() {
    let mut t = KeyTree::new();
    assert!(t.insert("/a//b/"));
    assert!(t.contains("a/b"));
    assert_eq!(t.len(), 1);
    let (e, u) = (set(&["a"]), set(&[]));
    assert_eq!(paths(&t.flatten(&opts(&e, &u, ""))), vec!["a", "a/b"]);
}

#[test]
fn branch_paths_lists_every_node_with_children() {
    let t = tree(&["agv/f1/pose", "agv/f2/pose", "srv/health"]);
    let mut got = t.branch_paths();
    got.sort();
    assert_eq!(got, vec!["agv", "agv/f1", "agv/f2", "srv"]);
}

#[test]
fn single_child_chain_stops_at_the_first_real_choice() {
    let t = tree(&["agv/f1/pose", "agv/f2/pose"]);
    // `agv` is the only root child, but under it there are two vehicles, so
    // opening past `agv` would be a guess.
    assert_eq!(t.single_child_chain(), vec!["agv"]);
}

#[test]
fn single_child_chain_walks_a_long_stem() {
    let t = tree(&["a/b/c/d"]);
    assert_eq!(t.single_child_chain(), vec!["a", "a/b", "a/b/c"]);
}

#[test]
fn single_child_chain_is_empty_when_the_root_branches() {
    let t = tree(&["a/x", "b/x"]);
    assert!(t.single_child_chain().is_empty());
}

#[test]
fn an_empty_key_is_ignored() {
    let mut t = KeyTree::new();
    assert!(!t.insert(""));
    assert!(!t.insert("///"));
    assert!(t.is_empty());
    assert_eq!(t.version(), 0);
}

#[test]
fn every_row_stands_below_the_branch_it_belongs_to() {
    let t = tree(&["a/b/c", "a/d", "e/f/g/h", "i"]);
    let (e, u) = (set(&[]), set(&[]));
    for filter in ["", "c", "g", "a"] {
        let rows = t.flatten(&opts(&e, &u, filter));
        for (i, row) in rows.iter().enumerate() {
            let parent = row.path.rsplit_once('/').map(|p| p.0);
            match parent {
                None => assert_eq!(row.depth, 0),
                Some(p) => assert!(rows[..i].iter().any(|r| r.path == p && r.depth + 1 == row.depth)),
            }
        }
    }
}

#[test]
fn removing_what_was_inserted_gives_the_tree_back() {
    let mut t = tree(&["a/b", "c"]);
    let (e, u) = (set(&["a", "a/b"]), set(&[]));
    let before = t.flatten(&opts(&e, &u, ""));
    assert!(t.insert("a/b/c"));
    assert!(t.remove("a/b/c"));
    assert_eq!(t.flatten(&opts(&e, &u, "")), before);
}

#[test]
fn a_path_and_its_normal_form_are_one() {
    let t = tree(&["a/b", "a/b/c"]);
    assert!(t.contains("/a//b/"));
    assert_eq!(t.key_count_at("//a"), t.key_count_at("a"));
    assert!(!t.contains("//"));
    assert_eq!(t.key_count_at(""), t.len());
    // A mere prefix has children without being a key.
    assert!(!t.contains("a") && t.has_children("a"));
    assert!(!t.has_children("a/b/c"));
}

#[test]
fn branch_paths_are_the_paths_with_children() {
    let t = tree(&["a/b/c", "a/d", "e"]);
    assert_eq!(t.branch_paths(), vec!["a", "a/b"]);
    for p in ["a", "a/b", "a/b/c", "a/d", "e"] {
        assert_eq!(t.branch_paths().iter().any(|b| b == p), t.has_children(p));
    }
}

#[test]
fn the_stem_is_what_every_key_shares() {
    assert_eq!(tree(&["a", "a/b/c", "a/b/d"]).single_child_chain(), vec!["a", "a/b"]);
    assert_eq!(tree(&["a/b", "c/d"]).single_child_chain(), Vec::<String>::new());
    assert_eq!(tree(&["a"]).single_child_chain(), Vec::<String>::new());
}

#[test]
fn the_version_counts_the_changes() {
    let mut t = KeyTree::new();
    assert_eq!(t.version(), 0);
    assert!(t.insert("a") && t.insert("b"));
    assert!(!t.insert("a") && !t.insert("/"));
    assert!(t.remove("a") && !t.remove("a"));
    assert_eq!(t.version(), 3);
}

#[test]
fn rows_say_what_the_tree_answers() {
    let t = tree(&["b/x", "a/y/z", "a/k", "a"]);
    let open = set(&["a", "a/y", "b"]);
    let none = KeySet::new();
    let rows = t.flatten(&opts(&open, &none, ""));
    assert_eq!(paths(&rows), vec!["a", "a/k", "a/y", "a/y/z", "b", "b/x"]);
    for r in &rows {
        assert_eq!(r.depth, r.path.matches('/').count());
        assert_eq!(r.segment, r.path.rsplit('/').next().unwrap());
        assert_eq!(r.key_count, t.key_count_at(&r.path));
        match r.kind {
            RowKind::Branch { expanded } => assert!(expanded && t.has_children(&r.path)),
            RowKind::Leaf => assert!(t.contains(&r.path) && !t.has_children(&r.path)),
            RowKind::FoldSummary { .. } => panic!("nothing to fold"),
        }
    }
}

#[test]
fn a_filter_shows_what_leads_to_a_match() {
    let t = tree(&["a/Hit/below", "a/other", "b/c"]);
    let none = KeySet::new();
    let rows = t.flatten(&opts(&none, &none, "hIT"));
    assert_eq!(paths(&rows), vec!["a", "a/Hit", "a/Hit/below"]);
    for r in &rows {
        assert!(!matches!(r.kind, RowKind::FoldSummary { .. } | RowKind::Branch { expanded: false }));
    }
    // An empty filter filters nothing.
    assert_eq!(paths(&t.flatten(&opts(&none, &none, ""))), vec!["a", "b"]);
}

#[test]
fn a_copied_tree_goes_its_own_way() {
    let mut t = tree(&["a/b", "a/c"]);
    let copy = t.clone();
    assert!(t.remove("a/b"));
    assert!(copy.contains("a/b") && copy.contains("a/c"));
    assert_eq!(copy.len(), 2);
    assert_eq!(copy.version() + 1, t.version());
    assert_eq!(format!("{:?}", KeyTree::default()), format!("{:?}", tree(&[])));
}
