use mcp_core::tree::{build_element_tree, compute_parents, make_full_id, sort_records, InsRecord,
    UiNode};

fn rec(gid: &str, inst: u64) -> InsRecord {
    InsRecord {
        global_id: gid.to_string(),
        instance_id: inst,
        source_location: None,
        payload: serde_json::Value::Null,
    }
}

fn rec_src(gid: &str, inst: u64, src: &str) -> InsRecord {
    InsRecord {
        global_id: gid.to_string(),
        instance_id: inst,
        source_location: Some(src.to_string()),
        payload: serde_json::Value::Null,
    }
}

/// Collects (parent id, child id) edges of a forest.
fn edges_of(roots: &[UiNode]) -> Vec<(String, String)> {
    fn walk(n: &UiNode, out: &mut Vec<(String, String)>) {
        for c in n.children.iter() {
            out.push((n.id.clone(), c.id.clone()));
            walk(c, out);
        }
    }
    let mut out = Vec::new();
    for r in roots.iter() {
        walk(r, &mut out);
    }
    out.sort();
    out
}

fn root_ids(roots: &[UiNode]) -> Vec<String> {
    roots.iter().map(|n| n.id.clone()).collect()
}

#[test]
fn full_id_format() {
    let r = rec("view.panel", 7);
    let s = make_full_id("w1", &r);
    assert_eq!(s, "w1/view.panel[7]");
}

#[test]
fn sort_orders_by_depth_then_lexicographic() {
    let sorted = sort_records(vec![rec("b.c", 0), rec("z", 0), rec("a", 0), rec("a.a", 0)]);
    let gids: Vec<String> = sorted.iter().map(|r| r.global_id.clone()).collect();
    assert_eq!(gids, vec!["a", "z", "a.a", "b.c"]);
}

#[test]
fn sort_is_stable_for_equal_keys() {
    let sorted = sort_records(vec![rec("a", 2), rec("a", 0), rec("a", 1)]);
    let insts: Vec<u64> = sorted.iter().map(|r| r.instance_id).collect();
    assert_eq!(insts, vec![2, 0, 1]);
}

#[test]
fn parents_pick_longest_dotted_prefix() {
    // sorted order: a, a.b, a.b.c, and a record that skips a level
    let recs = sort_records(vec![rec("a", 0), rec("a.b", 0), rec("a.b.c", 0), rec("a.b.c.d.e", 0)]);
    let ps = compute_parents(&recs);
    assert_eq!(ps, vec![None, Some(0), Some(1), Some(2)]);
}

#[test]
fn parents_skip_non_dot_bounded_prefixes() {
    // "ab" starts with "a" but has no dot after it: not an ancestor
    let recs = sort_records(vec![rec("a", 0), rec("ab", 0), rec("ab.c", 0)]);
    let ps = compute_parents(&recs);
    assert_eq!(ps, vec![None, None, Some(1)]);
}

#[test]
fn basic_hierarchy() {
    let roots = build_element_tree(
        "w",
        vec![rec("a", 0), rec("a.b", 0), rec("a.b.c", 0), rec("x", 0)],
    );
    assert_eq!(root_ids(&roots), vec!["w/a[0]", "w/x[0]"]);
    let a = &roots[0];
    assert_eq!(a.children.len(), 1);
    assert_eq!(a.children[0].id, "w/a.b[0]");
    assert_eq!(a.children[0].children.len(), 1);
    assert_eq!(a.children[0].children[0].id, "w/a.b.c[0]");
    let x = &roots[1];
    assert!(x.children.is_empty());
}

#[test]
fn duplicate_global_ids_never_promote_child_to_root() {
    let roots = build_element_tree("w", vec![rec("a", 0), rec("a", 1), rec("a.b", 0)]);
    assert_eq!(root_ids(&roots), vec!["w/a[0]", "w/a[1]"]);
    let total_children: usize = roots.iter().map(|r| r.children.len()).sum();
    assert_eq!(total_children, 1);
    let with_child = roots.iter().find(|r| !r.children.is_empty()).unwrap();
    assert_eq!(with_child.children[0].id, "w/a.b[0]");
}

#[test]
fn input_order_does_not_change_edges() {
    let order1 = vec![rec("a.b.c", 0), rec("x", 0), rec("a.b", 0), rec("a", 0)];
    let order2 = vec![rec("a", 0), rec("a.b", 0), rec("a.b.c", 0), rec("x", 0)];
    let order3 = vec![rec("x", 0), rec("a.b", 0), rec("a", 0), rec("a.b.c", 0)];
    let roots1 = build_element_tree("w", order1);
    let roots2 = build_element_tree("w", order2);
    let roots3 = build_element_tree("w", order3);
    assert_eq!(edges_of(&roots1), edges_of(&roots2));
    assert_eq!(edges_of(&roots2), edges_of(&roots3));
    let mut ids1 = root_ids(&roots1);
    let mut ids2 = root_ids(&roots2);
    ids1.sort();
    ids2.sort();
    assert_eq!(ids1, ids2);
}

#[test]
fn element_type_from_source_location() {
    let roots = build_element_tree(
        "w",
        vec![
            rec_src("a", 0, "crates/ui/src/button.rs"),
            rec_src("b", 0, "panel.rs"),
            rec("c", 0),
        ],
    );
    let mut types: Vec<(String, String)> = roots
        .iter()
        .map(|n| (n.id.clone(), n.element_type.clone()))
        .collect();
    types.sort();
    assert_eq!(
        types,
        vec![
            ("w/a[0]".to_string(), "button".to_string()),
            ("w/b[0]".to_string(), "panel".to_string()),
            ("w/c[0]".to_string(), "Element".to_string()),
        ]
    );
}

#[test]
fn children_attach_deepest_first() {
    // children of one parent are attached deepest-processed-first:
    // the pass runs from the deepest end of the sorted order upward
    let roots = build_element_tree("w", vec![rec("a", 0), rec("a.b", 0), rec("a.c", 0)]);
    assert_eq!(root_ids(&roots), vec!["w/a[0]"]);
    let kids: Vec<String> = roots[0].children.iter().map(|c| c.id.clone()).collect();
    assert_eq!(kids, vec!["w/a.c[0]", "w/a.b[0]"]);
}

#[test]
fn empty_record_list_gives_empty_forest() {
    let roots = build_element_tree("w", Vec::new());
    assert!(roots.is_empty());
}

#[test]
fn instance_id_renders_in_full_decimal() {
    let r = rec("a", u64::MAX);
    assert_eq!(make_full_id("w", &r), "w/a[18446744073709551615]");
    let r0 = rec("a", 0);
    assert_eq!(make_full_id("w", &r0), "w/a[0]");
}

#[test]
fn trailing_slash_source_gives_empty_label() {
    let roots = build_element_tree("w", vec![rec_src("a", 0, "dir/")]);
    assert_eq!(roots[0].element_type, "");
}

#[test]
fn source_without_slash_or_dot_is_whole_label() {
    let roots = build_element_tree("w", vec![rec_src("a", 0, "widget")]);
    assert_eq!(roots[0].element_type, "widget");
}
