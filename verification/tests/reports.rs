//! Coverage, audit, reconcile and the edit gate over board pages.

use arte::audit::coverage;
use arte::audit_report::{audit, coverage_counts, gate, reconcile};
use arte::board::{edit_selected, ItemEdit};
use arte::merge_gate::{gate_failures, GateCounts};
use arte::nav::Cursor;
use arte::protocol::{BoardColumn, Item, Status};

type Pages = Vec<(String, Vec<BoardColumn>)>;

fn item(text: &str, serves: &[&str], status: Option<Status>) -> Item {
    let mut it = Item::new(text);
    it.serves = serves.iter().map(|s| s.to_string()).collect();
    it.status = status;
    it
}

fn page(id: &str, items: Vec<Item>) -> (String, Vec<BoardColumn>) {
    (id.to_string(), vec![BoardColumn { header: "H".into(), key: None, items }])
}

#[test]
fn coverage_reports_per_intent_layer_gaps() {
    let mut pages: Pages = vec![
        page("intent", vec![Item::new("A"), Item::new("B")]),
        page("impl", vec![item("build A", &["A"], Some(Status::Pending))]),
        page("control", vec![item("guard A", &["build A"], None)]),
    ];
    let cov = coverage(&pages);
    let a = cov.iter().find(|c| c.title == "A").unwrap();
    assert!(a.whole, "A served down the chain (impl←control)");
    assert_eq!(a.status, Some(Status::Pending), "status rolls up");
    let b = cov.iter().find(|c| c.title == "B").unwrap();
    assert!(!b.whole && b.layers.iter().all(|l| !l.served), "B has gaps");

    let counts = coverage_counts(&pages);
    assert_eq!(counts.total, 2);
    assert_eq!(counts.covered, 1);
    assert_eq!(counts.gaps, vec!["B — impl✗ control✗".to_string()]);

    // a val item links straight to the intent (skipping control) → not a chain link
    pages.push(page("val", vec![item("X", &["A"], None)]));
    let cov = coverage(&pages);
    let a_val = cov.iter().find(|c| c.title == "A").unwrap().layers.iter().find(|l| l.layer == "val").unwrap();
    assert!(!a_val.served, "a direct-to-intent skip is not a valid chain link");
}

#[test]
fn justified_test_is_accepted_not_a_failure() {
    let pages: Pages = vec![
        page("intent", vec![Item::new("I")]),
        page("impl", vec![item("Comp", &["I"], Some(Status::Okay))]),
        page("control", vec![item("rule", &["Comp"], Some(Status::Okay))]),
        page("validation", vec![item("flaky test", &["rule"], Some(Status::Justified))]),
    ];
    let cov = coverage(&pages).into_iter().find(|c| c.title == "I").unwrap();
    assert!(cov.whole, "chain complete through the justified test");
    assert_eq!(cov.status, Some(Status::Justified));
    assert_ne!(cov.status, Some(Status::Fail));
}

#[test]
fn audit_validated_and_orphaned_stale_link() {
    let stamped = |text: &str, serves: &[&str], m: u64| {
        let mut it = item(text, serves, Some(Status::Okay));
        it.modified = Some(m);
        it
    };
    let pages: Pages = vec![
        page("intent", vec![Item::new("I")]),
        page("impl", vec![stamped("Comp", &["I"], 100)]),
        page("validation", vec![stamped("Test", &["Comp"], 50)]),
    ];
    let au = audit(&pages);
    assert_eq!(au.validated, 1, "I rolls up green (impl ok, test ok)");
    assert!(au.orphans.iter().any(|o| o.contains("Test")), "stale link orphaned: {:?}", au.orphans);
}

#[test]
fn derived_clears_an_orphan() {
    let mut pages: Pages = vec![page("intent", vec![Item::new("I")]), page("control", vec![Item::new("a rule")])];
    assert!(audit(&pages).orphans.iter().any(|o| o.contains("a rule")), "orphan before");
    assert_eq!(audit(&pages).derived, 0);
    edit_selected(&mut pages[1].1, Cursor { col: 0, row: 1 }, ItemEdit::ToggleDerived);
    let au = audit(&pages);
    assert!(!au.orphans.iter().any(|o| o.contains("a rule")), "no longer orphan: {:?}", au.orphans);
    assert_eq!(au.derived, 1, "counted as derived");
    edit_selected(&mut pages[1].1, Cursor { col: 0, row: 1 }, ItemEdit::ToggleDerived);
    assert!(audit(&pages).orphans.iter().any(|o| o.contains("a rule")));
}

#[test]
fn audit_flags_gaps_orphans_and_deviations() {
    let pages: Pages = vec![
        page("intent", vec![Item::new("I1"), Item::new("I2")]),
        page("impl", vec![item("Comp", &["I1"], None)]),
        page("validation", vec![item("t1", &["Comp"], Some(Status::Justified)), Item::new("floating")]),
    ];
    let au = audit(&pages);
    assert_eq!(au.total, 2);
    assert!(au.gaps.iter().any(|g| g.contains("I2")), "I2 uncovered: {:?}", au.gaps);
    assert!(au.orphans.iter().any(|o| o.contains("floating")), "orphan: {:?}", au.orphans);
    assert!(au.deviations.iter().any(|d| d.contains("t1")), "deviation: {:?}", au.deviations);
    assert_eq!(au.justified, 1);
}

#[test]
fn gate_requires_backed_focus() {
    let mut pages: Pages = vec![page("intent", vec![Item::new("I")])];
    assert!(!gate(&pages, &vec![]).0, "empty focus is blocked");
    let f = vec!["I".to_string()];
    assert!(!gate(&pages, &f).0, "intent with no impl/control is blocked");
    pages.push(page("impl", vec![item("Comp", &["I"], None)]));
    pages.push(page("control", vec![item("rule", &["Comp"], None)]));
    let (ok, msg) = gate(&pages, &f);
    assert!(ok, "intent backed by impl + control is allowed");
    assert_eq!(msg, "ok — change answers to: I");
    assert!(!gate(&pages, &vec!["Nope".to_string()]).0, "unknown intent is blocked");
}

#[test]
fn reconcile_matches_dangling_unrealized() {
    let mut one = item("one vote", &["Polls"], None);
    one.id = Some("ctrl_pol_001".into());
    let mut two = item("untagged rule", &["Polls"], None);
    two.id = Some("ctrl_pol_002".into());
    let pages: Pages = vec![page("intent", vec![Item::new("Polls")]), page("control", vec![one, two])];
    let tags = vec![
        ("ctrl_pol_001".to_string(), "src/x.rs#L5".to_string()),
        ("ctrl_zzz_999".to_string(), "y.rs#L1".to_string()),
    ];
    let rep = reconcile(&pages, &tags);
    assert_eq!(rep.matched.len(), 1, "ctrl_pol_001 matched");
    assert_eq!((rep.matched[0].page.as_str(), rep.matched[0].col, rep.matched[0].item), ("control", 0, 0));
    assert_eq!(rep.dangling, vec![("ctrl_zzz_999".to_string(), "y.rs#L1".to_string())]);
    assert_eq!(rep.unrealized.len(), 1, "the untagged control is unrealized");
    assert!(rep.unrealized[0].contains("ctrl_pol_002"));
}

#[test]
fn merge_gate_names_each_failure() {
    let green = GateCounts {
        intents: 1,
        gaps: 0,
        control_holes: 0,
        green: 1,
        red: 0,
        validation_holes: 0,
        violations: 0,
        dangling: 0,
        orphans: 0,
    };
    assert!(gate_failures(green).is_empty());
    let red = GateCounts { red: 2, orphans: 1, ..green };
    let f = gate_failures(red);
    assert_eq!(f.len(), 2);
    assert_eq!(f[0], "2 validation(s) red");
    assert_eq!(f[1], "1 orphan src file(s) — code no node claims (unspecced work)");
}
