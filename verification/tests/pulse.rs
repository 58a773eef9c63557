//! What the viewer pulses as being worked on.

use arte::arte_view::{arte_working, ArteNode};

fn dummy() -> ArteNode {
    ArteNode {
        id: String::new(),
        role: "control".into(),
        frame: None,
        title: String::new(),
        serves: vec![],
        status: None,
        category: None,
        note: vec![],
        at: vec![],
        sha: None,
        modified: None,
    }
}

fn now() -> u64 {
    std::time::SystemTime::now().duration_since(std::time::UNIX_EPOCH).unwrap().as_secs()
}

#[test]
fn recent_write_pulses_without_focus() {
    let now = now();
    let n = ArteNode {
        id: "c-x".into(),
        role: "control".into(),
        frame: None,
        title: "fresh work".into(),
        serves: vec![],
        status: None,
        category: None,
        note: vec![],
        at: vec![],
        sha: None,
        modified: Some(now - 5),
    };
    let old = ArteNode { modified: Some(now - 300), id: "c-old".into(), title: "stale".into(), ..dummy() };
    let w = arte_working(&vec![], now, &vec![n, old]);
    assert!(w.contains(&"fresh work".to_string()), "recently-written node must pulse");
    assert!(!w.contains(&"stale".to_string()), "old node must not pulse");
}

#[test]
fn focus_pulses_up_the_serves_chain_until_green() {
    let intent = ArteNode { id: "i-a".into(), role: "intent".into(), title: "the why".into(), ..dummy() };
    let imp = ArteNode { id: "m-a".into(), role: "impl".into(), title: "the how".into(), serves: vec!["i-a".into()], ..dummy() };
    let ctl = ArteNode {
        id: "c-a".into(),
        title: "the rule".into(),
        serves: vec!["m-a".into(), "missing".into()],
        ..dummy()
    };
    let other = ArteNode { id: "c-b".into(), title: "unrelated".into(), ..dummy() };
    let nodes = vec![intent, imp, ctl, other];
    let mut w = arte_working(&vec!["c-a".to_string()], 1_000_000, &nodes);
    w.sort();
    assert_eq!(w, vec!["the how".to_string(), "the rule".to_string(), "the why".to_string()]);
    let mut done = nodes;
    done[2].status = Some("ok".into());
    assert!(arte_working(&vec!["c-a".to_string()], 1_000_000, &done).is_empty(), "a green focus stops pulsing");
}
