//! Round trips of the canonical node model, flags, and the stable-pass rule.

use arte::query::stale_sha;
use arte::{flag_value, has_flag, stable_pass, Node, RunRec};

#[test]
fn parse_to_text_is_stable() {
    let raw = "id: v1\nrole: validation\nserves: c1\nserves: c2\nweird: keep-me\n";
    let n = Node::parse(raw);
    assert_eq!(n.get("role"), Some("validation"));
    assert_eq!(n.all("serves"), vec!["c1", "c2"]);
    assert_eq!(n.get("weird"), Some("keep-me"));
    let again = Node::parse(&n.to_text());
    assert_eq!(again.to_text(), n.to_text());
}

#[test]
fn field_mutators_replace_and_append() {
    let mut n = Node::parse("role: impl\nserves: a\nserves: b");
    n.set_field("role", "control");
    assert_eq!(n.get("role"), Some("control"));
    n.push_field("serves", "a");
    assert_eq!(n.all("serves").len(), 2);
    assert!(n.remove_value("serves", "a"));
    assert_eq!(n.all("serves"), vec!["b"]);
    assert!(n.unset_field("serves"));
    assert!(n.all("serves").is_empty());
    assert!(!n.unset_field("serves"));
}

#[test]
fn parse_ignores_blank_and_comment_lines() {
    let raw = "# a comment\n\nid: c1\n# another\nrole: control\n\ntitle: t\n";
    let n = Node::parse(raw);
    assert_eq!(n.get("id"), Some("c1"));
    assert_eq!(n.get("role"), Some("control"));
    assert_eq!(n.get("title"), Some("t"));
}

#[test]
fn parse_keeps_first_value_after_first_colon() {
    let n = Node::parse("at: src/auth.rs#hash_password");
    assert_eq!(n.get("at"), Some("src/auth.rs#hash_password"));
}

#[test]
fn flag_value_returns_arg_after_dashdash_name() {
    let args: Vec<String> = ["arte", "status", "v1", "ok", "--requires-stable-pass", "--force"]
        .iter()
        .map(|s| s.to_string())
        .collect();
    assert_eq!(flag_value(&args, "--requires-stable-pass"), Some("--force".to_string()));
    assert_eq!(flag_value(&args, "--missing"), None);
    let last: Vec<String> = ["a", "--end"].iter().map(|s| s.to_string()).collect();
    assert_eq!(flag_value(&last, "--end"), None);
}

#[test]
fn has_flag_detects_boolean_flags() {
    let args: Vec<String> = ["arte", "cycle", "--once", "--forever"].iter().map(|s| s.to_string()).collect();
    assert!(has_flag(&args, "--once"));
    assert!(has_flag(&args, "--forever"));
    assert!(!has_flag(&args, "--missing"));
}

fn mk(result: &str, seq: &str) -> RunRec {
    RunRec {
        seq: seq.to_string(),
        result: result.to_string(),
        sha: String::new(),
        timestamp: String::new(),
        note: String::new(),
    }
}

#[test]
fn stable_pass_thresholds() {
    let empty: Vec<RunRec> = vec![];
    let (p, s) = stable_pass(&empty);
    assert_eq!(p, 0);
    assert!(!s);

    let one = vec![mk("pass", "001")];
    assert_eq!(stable_pass(&one), (1, false));

    let mut five = vec![mk("pass", "005"), mk("pass", "004"), mk("fail", "003"), mk("fail", "002"), mk("fail", "001")];
    assert_eq!(stable_pass(&five), (2, true));
    five.reverse();
    assert_eq!(stable_pass(&five), (2, true));

    let low: Vec<RunRec> = vec![mk("fail", "005"), mk("fail", "004"), mk("fail", "003"), mk("fail", "002"), mk("pass", "001")];
    assert_eq!(stable_pass(&low), (1, false));

    let long = vec![
        mk("pass", "006"),
        mk("pass", "005"),
        mk("pass", "004"),
        mk("fail", "003"),
        mk("fail", "002"),
        mk("fail", "001"),
    ];
    assert_eq!(stable_pass(&long), (3, true));
}

#[test]
fn no_recorded_sha_is_never_stale() {
    let n = Node::parse("id: v1\nrole: validation");
    assert_eq!(stale_sha(&n, Some("abc1234")), None);
    assert_eq!(stale_sha(&n, None), None);
}

#[test]
fn a_sha_other_than_head_is_stale_and_head_is_not() {
    let n = Node::parse("id: v1\nsha: 1111111");
    assert_eq!(stale_sha(&n, Some("2222222")), Some("1111111".to_string()));
    assert_eq!(stale_sha(&n, Some("1111111")), None);
    assert_eq!(stale_sha(&n, None), None);
}

#[test]
fn test_round_trip_with_unknown_keys() {
    let raw = "\
id: v3\n\
role: validation\n\
subset: proof\n\
title: round-trip me\n\
future-key: keep-me\n\
future-key: and-me-too\n\
weird: colon:here:stays\n\
";
    let n1 = Node::parse(raw);
    let s1 = n1.to_text();
    let n2 = Node::parse(&s1);
    let s2 = n2.to_text();
    assert_eq!(s1, s2);
    assert_eq!(n2.get("future-key"), Some("keep-me"));
    assert_eq!(n2.all("future-key"), vec!["keep-me", "and-me-too"]);
    assert_eq!(n2.get("weird"), Some("colon:here:stays"));
    let anchor_raw = "at: src/foo.rs#hash_password\n";
    let a = Node::parse(anchor_raw);
    assert_eq!(a.get("at"), Some("src/foo.rs#hash_password"));
    let again = Node::parse(&a.to_text());
    assert_eq!(again.get("at"), Some("src/foo.rs#hash_password"));
}
