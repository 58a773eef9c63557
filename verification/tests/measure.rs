//! The measuring side: run order, the verify tally, leaks, promotion, the
//! status gate, contract sources, and how the board is assembled.

use arte::agent::{item_suffix, SHA_DISPLAY_LEN};
use arte::assemble::{assemble_board, node_stem, stray_id};
use arte::audit_report::pct;
use arte::cycle::promote_now;
use arte::grade::{grade_targets, leak_count, runs_needed};
use arte::mutators::{contract_sources, new_node, status_gate, StatusGate};
use arte::protocol::{BoardStyle, Item};
use arte::runs::{seq_less, sort_newest_first};
use arte::verify::{record_test_sha, test_artifact, ValTarget};
use arte::lint::{loose_notes, proven_count};
use arte::wire::Doc;
use arte::{next_run_seq, Node, RunRec};

fn rec(seq: &str, result: &str) -> RunRec {
    RunRec {
        seq: seq.to_string(),
        result: result.to_string(),
        sha: String::new(),
        timestamp: String::new(),
        note: String::new(),
    }
}

fn target(id: &str, path: &str, anchor: &str) -> ValTarget {
    ValTarget {
        id: id.to_string(),
        path: path.to_string(),
        anchor: anchor.to_string(),
        subset: String::new(),
        at: path.to_string(),
    }
}

fn strings(v: &[&str]) -> Vec<String> {
    v.iter().map(|s| s.to_string()).collect()
}

#[test]
fn runs_sort_by_number_newest_first() {
    let sorted = sort_newest_first(vec![rec("998", "pass"), rec("1000", "fail"), rec("999", "pass")]);
    let seqs: Vec<&str> = sorted.iter().map(|r| r.seq.as_str()).collect();
    assert_eq!(seqs, vec!["1000", "999", "998"]);
}

#[test]
fn the_next_run_sorts_first() {
    let names = strings(&["v.998.run", "v.999.run", "w.005.run", "notes.txt"]);
    let next = next_run_seq(&names, "v");
    assert_eq!(next, "1000");
    let sorted = sort_newest_first(vec![rec("998", "pass"), rec(&next, "pass"), rec("999", "fail")]);
    assert_eq!(sorted[0].seq, "1000");
    assert_eq!(next_run_seq(&strings(&["w.005.run"]), "v"), "001");
}

#[test]
fn run_numbers_compare_by_value() {
    assert!(seq_less(&"999".to_string(), &"1000".to_string()));
    assert!(!seq_less(&"1000".to_string(), &"999".to_string()));
    assert!(!seq_less(&"007".to_string(), &"7".to_string()));
    assert!(seq_less(&"2".to_string(), &"10".to_string()));
}

#[test]
fn item_suffix_shows_seven_sha_characters() {
    assert_eq!(SHA_DISPLAY_LEN, 7);
    let mut it = Item::new("t");
    it.sha = Some("5c2826e8b360b0366d28d8d0bb3d48c09b9f61de".to_string());
    assert_eq!(item_suffix(&it), "  @5c2826e");
    it.sha = Some("abc".to_string());
    assert_eq!(item_suffix(&it), "  @abc");
}

#[test]
fn contract_sources_are_file_paths() {
    let n = Node::parse("role: impl\nat: src/x.rs#f\nat: src/y.rs:12\nat: tests/x.test.ts#case\nat: src/z.rs");
    assert_eq!(contract_sources(&n), strings(&["src/x.rs", "src/y.rs", "src/z.rs"]));
}

#[test]
fn grade_counts_skip_holes_and_outcomes() {
    let ts = vec![target("v1", "a.test.ts", ""), target("v2", "b.test.ts", ""), target("v3", "c.test.ts", ""), target("v4", "d.test.ts", "")];
    let cmds = strings(&["npm test", "skip", "npm test", "npm test"]);
    let outs = vec![Some(true), None, None, Some(false)];
    let t = grade_targets(&ts, &cmds, &outs, 0);
    assert_eq!((t.ok, t.ko, t.holes, t.skipped), (1, 1, 1, 1));
    assert_eq!(t.writes, vec![(0, true), (3, false)]);
}

#[test]
fn a_missing_test_is_a_hole_never_blessed() {
    let ts = vec![target("v1", "gone.test.ts", "")];
    let cmds = strings(&["npm test"]);
    let t = grade_targets(&ts, &cmds, &vec![None], 0);
    assert_eq!((t.ok, t.ko, t.holes), (0, 0, 1));
    assert!(t.writes.is_empty());
}

#[test]
fn targets_sharing_a_lane_share_its_outcome() {
    let ts = vec![target("v1", "a.test.ts", "one"), target("v2", "a.test.ts", "two"), target("v3", "a.test.ts", "one")];
    // without a name filter all three run the same file once
    let cmds = strings(&["npm test", "npm test", "npm test"]);
    assert_eq!(runs_needed(&ts, &cmds), vec![true, false, false]);
    let t = grade_targets(&ts, &cmds, &vec![Some(false), Some(true), Some(true)], 0);
    assert_eq!((t.ok, t.ko), (0, 3));
    // a name-filtering runner keys by unit: v3 shares v1's run
    let vit = strings(&["vitest run", "vitest run", "vitest run"]);
    assert_eq!(runs_needed(&ts, &vit), vec![true, true, false]);
    let t = grade_targets(&ts, &vit, &vec![Some(true), Some(false), Some(false)], 0);
    assert_eq!((t.ok, t.ko), (2, 1));
    assert_eq!(t.writes, vec![(0, true), (1, false), (2, true)]);
}

#[test]
fn leaks_count_as_red() {
    let ts = vec![target("v1", "a.test.ts", "")];
    let t = grade_targets(&ts, &strings(&["npm test"]), &vec![Some(true)], 2);
    assert_eq!((t.ok, t.ko), (1, 2));
}

#[test]
fn leak_count_is_changed_plus_removed() {
    let s = |v: &[(&str, u64)]| -> Vec<(String, u64)> { v.iter().map(|(p, h)| (p.to_string(), *h)).collect() };
    let before = s(&[("a", 1), ("b", 2), ("c", 3)]);
    assert_eq!(leak_count(&before, &before.clone()), 0);
    // b changed, d appeared, c vanished
    let after = s(&[("a", 1), ("b", 5), ("d", 4)]);
    assert_eq!(leak_count(&before, &after), 3);
    assert_eq!(leak_count(&before, &s(&[])), 3);
}

#[test]
fn promotion_waits_for_a_green_verify() {
    let eligible = strings(&["v1", "v2"]);
    assert_eq!(promote_now(true, &eligible), eligible);
    assert!(promote_now(false, &eligible).is_empty());
}

#[test]
fn status_gate_refuses_green_without_stable_pass() {
    let runs = vec![rec("3", "pass"), rec("2", "fail"), rec("1", "fail")];
    assert!(matches!(status_gate("ok", true, false, &runs), StatusGate::Refused(1)));
    assert!(matches!(status_gate("ok", true, true, &runs), StatusGate::Allowed));
    assert!(matches!(status_gate("ok", false, false, &runs), StatusGate::Allowed));
    assert!(matches!(status_gate("ko", true, false, &runs), StatusGate::Allowed));
    assert!(matches!(status_gate("green", false, false, &runs), StatusGate::Invalid));
    let stable = vec![rec("2", "pass"), rec("1", "pass")];
    assert!(matches!(status_gate("ok", true, false, &stable), StatusGate::Allowed));
}

#[test]
fn new_node_fields_in_order() {
    let n = new_node("in_x", "intent", "core", &Some("in_p".to_string()), "X", &Some("in_q".to_string()));
    assert_eq!(n.to_text(), "id: in_x\nrole: intent\nsubset: core\nparent: in_p\ntitle: X\nserves: in_q\n");
    let m = new_node("in_y", "intent", "core", &None, "Y", &None);
    assert_eq!(m.to_text(), "id: in_y\nrole: intent\nsubset: core\ntitle: Y\n");
}

#[test]
fn node_stems() {
    assert_eq!(node_stem("a.node"), Some("a".to_string()));
    assert_eq!(node_stem("a..node"), Some("a.".to_string()));
    assert_eq!(node_stem(".node"), None);
    assert_eq!(node_stem("a.txt"), None);
    assert_eq!(node_stem("node"), None);
}

#[test]
fn board_sorted_by_file_name_and_file_name_wins() {
    let files = vec![
        ("b".to_string(), "id: b\ntitle: B".to_string()),
        ("a".to_string(), "id: zz\ntitle: A".to_string()),
    ];
    let board = assemble_board(&files);
    let ids: Vec<&str> = board.iter().map(|(id, _)| id.as_str()).collect();
    assert_eq!(ids, vec!["a", "b"]);
    assert_eq!(board[0].1.get("title"), Some("A"));
    assert_eq!(stray_id(&board[0].0, &board[0].1), Some("zz".to_string()));
    assert_eq!(stray_id(&board[1].0, &board[1].1), None);
}

#[test]
fn dashboard_percentages() {
    assert_eq!(pct(3, 0), 0);
    assert_eq!(pct(1, 3), 33);
    assert_eq!(pct(4, 4), 100);
}

#[test]
fn delete_then_undo_restores_the_page() {
    let mut d = Doc::new();
    d.act_addpage("intent", "intent", BoardStyle::List).unwrap();
    d.act_addcol("intent", "WHO", None).unwrap();
    d.act_add("intent", 0, "a").unwrap();
    let before: Vec<String> = d.pages[0].1[0].items.iter().map(|i| i.text.clone()).collect();
    d.act_del("intent", 0, 0).unwrap();
    assert!(d.pages[0].1[0].items.is_empty());
    d.dirty = false;
    assert!(d.undo());
    assert!(d.dirty);
    let after: Vec<String> = d.pages[0].1[0].items.iter().map(|i| i.text.clone()).collect();
    assert_eq!(after, before);
    assert!(d.undo());
    assert!(d.undo());
    assert!(!d.undo());
}

#[test]
fn test_author_may_not_write_code_board_or_qa_tests() {
    for role in ["test-author", "tester", "adversary"] {
        let d = arte::role_deny_dirs(role);
        for must in ["src", ".truth", "qa/tests"] {
            assert!(d.contains(&must), "{role} deny-list lacks {must}: {d:?}");
        }
    }
}

#[test]
fn test_sha_names_the_measured_artifact() {
    let mut n = Node::parse("id: v1\nat: tests/a.test.ts#case one\nat: tests/b.test.ts");
    assert_eq!(test_artifact(&n), Some("tests/a.test.ts".to_string()));
    record_test_sha(&mut n, Some("abc123"));
    assert_eq!(n.get("test_sha"), Some("abc123"));
    record_test_sha(&mut n, None);
    assert_eq!(n.get("test_sha"), Some("abc123"));
    let mut bare = Node::parse("id: v2");
    assert_eq!(test_artifact(&bare), None);
    record_test_sha(&mut bare, Some("abc123"));
    assert_eq!(bare.get("test_sha"), None);
}

#[test]
fn proven_counts_greens_observed_red() {
    let board = vec![
        ("v1".to_string(), Node::parse("role: validation\nstatus: ok\nproven: observed-red")),
        ("v2".to_string(), Node::parse("role: validation\nstatus: ok")),
        ("v3".to_string(), Node::parse("role: validation\nstatus: ok")),
        ("v4".to_string(), Node::parse("role: validation\nstatus: ko")),
        ("c1".to_string(), Node::parse("role: control\nstatus: ok")),
    ];
    let runs = vec![
        ("v2".to_string(), vec![rec("002", "pass"), rec("001", "fail")]),
        ("v3".to_string(), vec![rec("001", "pass")]),
        ("v4".to_string(), vec![rec("001", "fail")]),
    ];
    assert_eq!(proven_count(&board, &runs), (2, 3));
}

#[test]
fn binding_notes_without_a_matching_control_are_loose() {
    let board = vec![
        ("c1".to_string(), Node::parse("role: control\ntitle: Tokens expire after fifteen minutes\nserves: i1")),
        ("i1".to_string(), Node::parse("role: intent\ntitle: Login\nnote: tokens MUST expire within fifteen minutes\nnote: passwords must never be logged\nnote: nice to have")),
        ("m1".to_string(), Node::parse("role: impl\ntitle: Auth\nnote: always hash")),
    ];
    let chain: Vec<String> = ["intent", "impl", "control", "validation"].iter().map(|s| s.to_string()).collect();
    let loose = loose_notes(&board, &chain);
    assert_eq!(
        loose,
        vec![
            ("i1".to_string(), "passwords must never be logged".to_string()),
            ("m1".to_string(), "always hash".to_string()),
        ]
    );
}
