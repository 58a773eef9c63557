//! The observe layout: roles, subsets and parent trees.

use arte::assemble::assemble_board;
use arte::observe::{observe_layout, trace_lines, ObserveLine, TraceStep};
use arte::read_conf;

fn files(v: &[(&str, &str)]) -> Vec<(String, String)> {
    v.iter().map(|(a, b)| (a.to_string(), b.to_string())).collect()
}

#[test]
fn roles_subsets_and_trees_in_order() {
    let board = assemble_board(&files(&[
        ("i2", "role: intent\nsubset: core\nparent: i1\ntitle: I2"),
        ("c1", "role: control\nsubset: core\ntitle: C1"),
        ("x1", "role: zeta\ntitle: Z"),
        ("i1", "role: intent\nsubset: core\ntitle: I1"),
        ("q1", "title: no role"),
    ]));
    let ids: Vec<&str> = board.iter().map(|(id, _)| id.as_str()).collect();
    assert_eq!(ids, vec!["c1", "i1", "i2", "q1", "x1"]);
    let conf = read_conf("chain = [\"intent\", \"control\"]\n[subsets]\nintent = [\"ui\", \"core\"]\n[subset_axis]\nintent = area\n");
    let rows = observe_layout(&conf, &board);
    let s = |x: &str| x.to_string();
    assert_eq!(
        rows,
        vec![
            ObserveLine::Role(s("intent"), Some(s("area"))),
            ObserveLine::Subset(s("core")),
            ObserveLine::Item(2, 1),
            ObserveLine::Item(3, 2),
            ObserveLine::Role(s("control"), None),
            ObserveLine::Subset(s("core")),
            ObserveLine::Item(2, 0),
            ObserveLine::Role(s("?"), None),
            ObserveLine::Subset(s("general")),
            ObserveLine::Item(2, 3),
            ObserveLine::Role(s("zeta"), None),
            ObserveLine::Subset(s("general")),
            ObserveLine::Item(2, 4),
        ]
    );
}

#[test]
fn a_parent_outside_the_subset_makes_a_root() {
    let board = assemble_board(&files(&[
        ("a", "role: intent\nsubset: s1\ntitle: A"),
        ("b", "role: intent\nsubset: s2\nparent: a\ntitle: B"),
        ("c", "role: intent\nsubset: s2\nparent: c\ntitle: self-parented"),
    ]));
    let conf = read_conf("chain = [\"intent\"]\n");
    let rows = observe_layout(&conf, &board);
    let s = |x: &str| x.to_string();
    assert_eq!(
        rows,
        vec![
            ObserveLine::Role(s("intent"), None),
            ObserveLine::Subset(s("s1")),
            ObserveLine::Item(2, 0),
            ObserveLine::Subset(s("s2")),
            ObserveLine::Item(2, 1),
        ]
    );
}

#[test]
fn trace_walks_up_depth_first() {
    let board = assemble_board(&files(&[
        ("a", "role: impl\ntitle: A\nserves: b"),
        ("b", "role: control\nserves: c\nserves: x"),
        ("c", "role: intent"),
    ]));
    let step = |depth: usize, id: &str, node: Option<usize>| TraceStep { depth, id: id.to_string(), node };
    assert_eq!(
        trace_lines(&board, "a"),
        vec![step(0, "a", Some(0)), step(1, "b", Some(1)), step(2, "c", Some(2)), step(2, "x", None)]
    );
    assert_eq!(trace_lines(&board, "zz"), vec![step(0, "zz", None)]);
}

#[test]
fn trace_points_at_each_found_node() {
    let board = assemble_board(&files(&[("b", "serves: a"), ("a", "role: intent")]));
    for step in trace_lines(&board, "b") {
        if let Some(i) = step.node {
            assert_eq!(board[i].0, step.id);
        }
    }
    assert_eq!(trace_lines(&board, "b")[1].node, Some(0));
}
