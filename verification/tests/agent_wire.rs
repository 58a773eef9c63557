//! The agent's wire: command lines run against the document and read back.

use arte::audit::coverage;
use arte::audit_report::{audit, gate};
use arte::digest::{observe, reply_text};
use arte::drive::DispatchError;
use arte::protocol::Status;
use arte::wire::Doc;

const NOW: u64 = 1_700_000_000;

fn run(d: &mut Doc, line: &str) -> Result<String, DispatchError> {
    let r = d.dispatch(line)?;
    Ok(reply_text(d, &r, NOW, ""))
}

fn ok(d: &mut Doc, line: &str) -> String {
    run(d, line).unwrap_or_else(|e| panic!("{line}: {e:?}"))
}

fn obs(d: &Doc, addr: Option<&str>) -> String {
    observe(d, addr, NOW, "")
}

/// One intent page: WHO [a] · JOBS [x, y].
fn app() -> Doc {
    let mut d = Doc::new();
    for line in [
        "addpage intent \"intent\"",
        "addcol intent/who \"WHO\"",
        "add intent/who \"a\"",
        "addcol intent/jobs \"JOBS\"",
        "add intent/jobs \"x\"",
        "add intent/jobs \"y\"",
    ] {
        ok(&mut d, line);
    }
    d
}

fn ncols(d: &Doc, page: usize) -> usize {
    d.pages[page].1.len()
}

#[test]
fn observe_is_compact() {
    let a = app();
    let d = obs(&a, None);
    assert!(d.contains("intent board[list] 2c 3i"), "{d}");
    assert!(d.lines().any(|l| l.starts_with('#') && l.contains("usage")), "points to the protocol");
    let body: String = d.lines().filter(|l| !l.starts_with('#')).collect::<Vec<_>>().join("\n");
    assert!(body.len() < 60, "terse: {body:?}");
}

#[test]
fn act_add_then_observe_roundtrip() {
    let mut a = app();
    a.dirty = false;
    ok(&mut a, "add intent/0 \"New\"");
    assert!(a.dirty);
    assert!(obs(&a, Some("intent/0")).contains("New"));
}

#[test]
fn act_set_and_del() {
    let mut a = app();
    ok(&mut a, "set intent/1/0 \"zz\"");
    assert!(obs(&a, Some("intent/1")).contains("zz"));
    ok(&mut a, "del intent/1/0");
    assert!(!obs(&a, Some("intent/1")).contains("zz"));
}

#[test]
fn direct_act_call_is_undoable() {
    let mut a = app();
    a.act_status("intent", 1, 0, Some(Status::Okay)).unwrap();
    assert!(obs(&a, Some("intent/1")).contains("[ok]"));
    assert!(a.undo(), "act_status registered an undo snapshot");
    assert!(!obs(&a, Some("intent/1")).contains("[ok]"), "status reverted");
}

#[test]
fn address_by_key() {
    let mut a = app();
    ok(&mut a, "add intent/jobs \"by-key\"");
    assert!(obs(&a, Some("intent/jobs")).contains("by-key"));
}

#[test]
fn reorder_item() {
    let mut a = app();
    ok(&mut a, "mv intent/jobs/0 1");
    let j = obs(&a, Some("intent/jobs"));
    let item0 = j.lines().find(|l| l.trim_start().starts_with("0 ")).unwrap_or("");
    assert!(item0.contains("y"), "{j}");
}

#[test]
fn work_sets_and_clears_intent_titles() {
    let mut a = app();
    ok(&mut a, "work \"Build the radar\" \"Norms editor\"");
    assert_eq!(a.working.len(), 2);
    assert!(a.working.iter().any(|w| w == "Build the radar"));
    assert!(obs(&a, None).contains("~work"), "observe surfaces the working set");
    assert!(obs(&a, None).contains("Build the radar"));
    ok(&mut a, "work");
    assert!(a.working.is_empty());
    assert!(!obs(&a, None).contains("~work"));
}

#[test]
fn coverage_digest_lines_per_intent() {
    let mut a = Doc::new();
    for line in [
        "addpage intent \"intent\"",
        "addcol intent/why \"WHY\"",
        "add intent/why \"A\"",
        "add intent/why \"B\"",
        "addpage impl \"impl\"",
        "addcol impl \"HOW\"",
        "add impl/0 \"build A\" \"A\" status pending",
        "addpage control \"control\"",
        "addcol control \"RULES\"",
        "add control/0 \"guard A\" \"build A\"",
    ] {
        ok(&mut a, line);
    }
    let cov = coverage(&a.pages);
    assert!(cov.iter().find(|c| c.title == "A").unwrap().whole);
    let dg = ok(&mut a, "coverage");
    assert!(dg.contains("A — impl✓ control✓"), "{dg}");
    assert!(dg.contains("B — impl✗ control✗"), "{dg}");
    assert!(dg.starts_with("coverage: 2 intents · 1 impl · 1 control"), "{dg}");
}

#[test]
fn compound_add_links_and_stamps_in_one() {
    let mut a = app();
    ok(&mut a, "add intent/who \"Clinicians\" \"5-axis eval\" status pending");
    let out = obs(&a, Some("intent/who"));
    assert!(out.contains("Clinicians"), "{out}");
    assert!(out.contains("⇒ 5-axis eval"), "serves set: {out}");
    assert!(out.contains("[pending]"), "status set: {out}");
    ok(&mut a, "add intent/who \"Multi\" \"A\" \"B\"");
    assert!(obs(&a, Some("intent/who")).contains("⇒ A, B"));
}

#[test]
fn compound_set_updates_text_serves_status_and_header() {
    let mut a = app();
    ok(&mut a, "set intent/jobs/0 \"Do Y\" \"5-axis eval\" status ok");
    let out = obs(&a, Some("intent/jobs/0"));
    assert!(out.contains("Do Y") && out.contains("⇒ 5-axis eval") && out.contains("[ok]"), "{out}");
    ok(&mut a, "set intent/jobs/0 \"Do Z\"");
    let out = obs(&a, Some("intent/jobs/0"));
    assert!(out.contains("Do Z") && out.contains("⇒ 5-axis eval") && out.contains("[ok]"), "kept: {out}");
    ok(&mut a, "set intent/who/h \"USERS\"");
    assert!(obs(&a, Some("intent")).contains("USERS"));
}

#[test]
fn compound_add_works_on_a_cards_board() {
    let mut a = Doc::new();
    ok(&mut a, "addpage impl \"impl\" cards");
    ok(&mut a, "addcol impl/fe \"Frontend\"");
    ok(&mut a, "add impl/fe \"App shell\" \"5-axis eval\" status ok");
    let out = obs(&a, Some("impl/fe"));
    assert!(out.contains("App shell") && out.contains("⇒ 5-axis eval") && out.contains("[ok]"), "{out}");
}

#[test]
fn agent_fills_and_edits_a_whole_design_via_the_wire() {
    let mut a = Doc::new();
    ok(&mut a, "addpage intent \"intent.map\"");
    ok(&mut a, "addpage impl \"impl.arch\" cards");
    ok(&mut a, "addpage control \"control.spec\" panel");
    ok(&mut a, "addpage validation \"validation.rep\"");
    for s in ["addcol intent/jobs \"JOBS\"", "addcol impl/be \"Backend\"", "addcol control/rules \"RULES\"", "addcol validation/proof \"PROOF\""] {
        ok(&mut a, s);
    }
    ok(&mut a, "add intent/jobs \"Do X\"");
    ok(&mut a, "add impl/be \"Engine\" \"Do X\" status ok");
    ok(&mut a, "add control/rules \"axis 0-4\" \"Engine\" status pending");
    ok(&mut a, "cat control/rules/0 \"guards\"");
    ok(&mut a, "note control/rules/0 \"clamp inputs\"");
    ok(&mut a, "attach control/rules/0 \"spec.pdf\"");
    ok(&mut a, "add validation/proof \"mean(4,4,4)=100\" \"axis 0-4\" status ok");
    let o = obs(&a, Some("control/rules/0"));
    for s in ["axis 0-4", "·guards", "⇒ Engine", "[pending]", "note: clamp inputs", "@ spec.pdf"] {
        assert!(o.contains(s), "observe missing {s:?}:\n{o}");
    }
    assert!(coverage(&a.pages).into_iter().find(|c| c.title == "Do X").unwrap().whole, "Do X fully covered");
    ok(&mut a, "set control/rules/0 \"axis 0-4 scaled\"");
    ok(&mut a, "status control/rules/0 ok");
    ok(&mut a, "cat control/rules/0 \"validation\"");
    ok(&mut a, "note control/rules/0");
    ok(&mut a, "setstyle impl list");
    ok(&mut a, "renamepage control \"rules.spec\"");
    let o2 = obs(&a, Some("control/rules/0"));
    assert!(
        o2.contains("axis 0-4 scaled") && o2.contains("[ok]") && o2.contains("·validation") && !o2.contains("note:"),
        "edits:\n{o2}"
    );
    assert!(coverage(&a.pages).into_iter().find(|c| c.title == "Do X").unwrap().whole, "rename cascaded → chain intact");
    ok(&mut a, "del validation/proof/0");
    ok(&mut a, "del validation/proof/h");
    ok(&mut a, "delpage validation");
    assert!(!obs(&a, None).contains("validation board"), "page deleted");
    ok(&mut a, "undo");
}

fn chain(extra: &[&str]) -> Doc {
    let mut a = Doc::new();
    for s in [
        "addpage intent \"i\"",
        "addcol intent/g \"G\"",
        "add intent/g \"I\"",
        "addpage impl \"m\" cards",
        "addcol impl/c \"C\"",
        "add impl/c \"Comp\" \"I\"",
        "addpage control \"ctl\" panel",
        "addcol control/r \"R\"",
        "add control/r \"rule\" \"Comp\"",
        "addpage validation \"val\" sheet",
        "addcol validation/p \"P\"",
    ]
    .iter()
    .chain(extra)
    {
        ok(&mut a, s);
    }
    a
}

#[test]
fn justified_test_via_the_wire_is_not_a_failure() {
    let mut a = chain(&["add validation/p \"flaky test\" \"rule\" status justified"]);
    ok(&mut a, "status impl/c/0 ok");
    ok(&mut a, "status control/r/0 ok");
    ok(&mut a, "note validation/p/0 \"intermittent in CI; accepted\"");
    let cov = coverage(&a.pages).into_iter().find(|c| c.title == "I").unwrap();
    assert!(cov.whole);
    assert_eq!(cov.status, Some(Status::Justified));
}

#[test]
fn finished_work_stops_pulsing() {
    let mut a = chain(&["add validation/p \"test\" \"rule\""]);
    ok(&mut a, "work \"I\"");
    assert!(a.working.iter().any(|w| w == "I"), "focused → pulsing");
    ok(&mut a, "status impl/c/0 ok");
    assert!(a.working.iter().any(|w| w == "I"), "not yet whole+green → still pulsing");
    ok(&mut a, "status control/r/0 ok");
    ok(&mut a, "status validation/p/0 ok");
    assert!(!a.working.iter().any(|w| w == "I"), "finished task stops pulsing on its own");
}

#[test]
fn focused_done_item_survives_unrelated_edits() {
    let mut a = chain(&["add validation/p \"test\" \"rule\""]);
    ok(&mut a, "status impl/c/0 ok");
    ok(&mut a, "status control/r/0 ok");
    ok(&mut a, "status validation/p/0 ok");
    ok(&mut a, "work \"I\"");
    assert!(a.working.iter().any(|w| w == "I"), "focusing a done item still pulses");
    ok(&mut a, "note validation/p/0 \"ran again\"");
    assert!(a.working.iter().any(|w| w == "I"), "stays pulsing — only a task you just FINISH retires");
}

#[test]
fn gate_on_a_board_built_by_the_wire() {
    let mut a = Doc::new();
    ok(&mut a, "addpage intent \"i\"");
    ok(&mut a, "addcol intent/g \"G\"");
    ok(&mut a, "add intent/g \"I\"");
    let f = vec!["I".to_string()];
    assert!(!gate(&a.pages, &f).0, "intent with no impl/control is blocked");
    let a = chain(&[]);
    assert!(gate(&a.pages, &f).0, "intent backed by impl + control is allowed");
}

#[test]
fn derived_via_the_wire_clears_an_orphan() {
    let mut a = Doc::new();
    ok(&mut a, "addpage intent \"i\"");
    ok(&mut a, "addcol intent/g \"G\"");
    ok(&mut a, "add intent/g \"I\"");
    ok(&mut a, "addpage control \"ctl\" panel");
    ok(&mut a, "addcol control/r \"R\"");
    ok(&mut a, "add control/r \"a rule\"");
    assert!(audit(&a.pages).orphans.iter().any(|o| o.contains("a rule")));
    ok(&mut a, "derive control/r/0");
    assert_eq!(audit(&a.pages).derived, 1);
    ok(&mut a, "derive control/r/0 off");
    assert!(audit(&a.pages).orphans.iter().any(|o| o.contains("a rule")));
}

#[test]
fn edit_by_bare_id_and_title() {
    let mut a = Doc::new();
    ok(&mut a, "addpage val \"v\" sheet");
    ok(&mut a, "addcol val/proof \"P\"");
    ok(&mut a, "add val/proof \"unit test\"");
    ok(&mut a, "id val/proof/0 \"tsts_abc_001\"");
    ok(&mut a, "status tsts_abc_001 ok");
    ok(&mut a, "add val/proof \"smoke\"");
    ok(&mut a, "status smoke pending");
    let cols = &a.pages[0].1;
    assert_eq!(cols[0].items[0].status, Some(Status::Okay), "id addressing hit the right item");
    assert_eq!(cols[0].items[1].status, Some(Status::Pending), "title addressing works");
}

#[test]
fn trace_walks_the_chain_upward() {
    let mut a = chain(&["add validation/p \"the test\" \"rule\"", "id validation/p/0 \"tsts_top_001\""]);
    let d = ok(&mut a, "trace tsts_top_001");
    for s in ["the test", "⇒ rule", "⇒ Comp", "⇒ I"] {
        assert!(d.contains(s), "trace missing {s:?}:\n{d}");
    }
    assert!(run(&mut a, "depends tsts_top_001").is_ok(), "depends still works as an alias");
    ok(&mut a, "add validation/p \"floating\"");
    assert!(ok(&mut a, "trace validation/p/1").contains("orphan"));
}

#[test]
fn validation_case_fields_and_id_uniqueness() {
    let mut a = Doc::new();
    ok(&mut a, "addpage validation \"validation.rep\"");
    ok(&mut a, "addcol validation/proof \"PROOF\"");
    ok(&mut a, "add validation/proof \"Scoring self-check\" status ok");
    ok(&mut a, "id validation/proof/0 \"tsts_sco_001\"");
    ok(&mut a, "note validation/proof/0 \"feed 4,4,4 expect 100\"");
    ok(&mut a, "comment validation/proof/0 \"green since v2\"");
    ok(&mut a, "attach validation/proof/0 \"core/src/agent.rs:1100\"");
    let o = obs(&a, Some("validation/proof/0"));
    for s in ["#tsts_sco_001", "[ok]", "~green since v2", "note: feed 4,4,4", "@ core/src/agent.rs:1100"] {
        assert!(o.contains(s), "observe missing {s:?}:\n{o}");
    }
    ok(&mut a, "add validation/proof \"Another\"");
    assert!(run(&mut a, "id validation/proof/1 \"TC-9\"").is_err(), "bad shape rejected");
    assert!(run(&mut a, "id validation/proof/1 \"tsts_sco_001\"").is_err(), "duplicate rejected");
    ok(&mut a, "id validation/proof/1 \"tsts_sco_002\"");
}

#[test]
fn note_and_attach_ride_on_item() {
    let mut a = app();
    ok(&mut a, "note intent/jobs/0 \"use radix sort\"");
    ok(&mut a, "attach intent/jobs/0 \"spec.pdf\" \"diagram.png\"");
    let out = obs(&a, Some("intent/jobs/0"));
    assert!(out.contains("note: use radix sort"), "{out}");
    assert!(out.contains("@ spec.pdf") && out.contains("@ diagram.png"), "{out}");
    let list = obs(&a, Some("intent/jobs"));
    assert!(list.contains(" *") && list.contains("@2"), "{list}");
    ok(&mut a, "note intent/jobs/0");
    assert!(!obs(&a, Some("intent/jobs/0")).contains("note:"));
}

#[test]
fn status_sets_and_clears() {
    let mut a = app();
    ok(&mut a, "status intent/jobs/0 pending");
    assert!(obs(&a, Some("intent/jobs/0")).contains("[pending]"));
    ok(&mut a, "status intent/jobs/0 ok");
    assert!(obs(&a, Some("intent/jobs/0")).contains("[ok]"));
    ok(&mut a, "status intent/jobs/0 na");
    assert!(!obs(&a, Some("intent/jobs/0")).contains("["));
    assert!(run(&mut a, "status intent/jobs/0 bogus").is_err());
}

#[test]
fn link_sets_serves_on_item() {
    let mut a = app();
    ok(&mut a, "link intent/jobs/0 \"WHO IT'S FOR\"");
    let out = obs(&a, Some("intent/jobs/0"));
    assert!(out.contains("⇒") && out.contains("WHO IT'S FOR"), "serves shown: {out}");
    ok(&mut a, "link intent/jobs/0");
    assert!(!obs(&a, Some("intent/jobs/0")).contains("⇒"));
}

#[test]
fn header_addressable_as_row_h() {
    let mut a = app();
    assert!(obs(&a, Some("intent/who")).contains("h  WHO"));
    ok(&mut a, "set intent/who/h \"WHO NOW\"");
    assert!(obs(&a, Some("intent/who/h")).contains("WHO NOW"));
    ok(&mut a, "del intent/who/h");
    assert!(!obs(&a, Some("intent")).contains("who"));
}

#[test]
fn pillar_add_delete_undo_redo_via_chat() {
    let mut a = app();
    let c0 = ncols(&a, 0);
    ok(&mut a, "addcol intent \"RISKS\"");
    assert_eq!(ncols(&a, 0), c0 + 1);
    ok(&mut a, "undo");
    assert_eq!(ncols(&a, 0), c0);
    ok(&mut a, "redo");
    assert_eq!(ncols(&a, 0), c0 + 1);
    ok(&mut a, "delcol intent/0");
    assert_eq!(ncols(&a, 0), c0);
    ok(&mut a, "undo");
    assert_eq!(ncols(&a, 0), c0 + 1);
}

#[test]
fn columns_are_modular() {
    let mut a = app();
    ok(&mut a, "addcol intent/risks \"RISKS — what could go wrong\"");
    assert!(obs(&a, Some("intent")).contains("risks"));
    ok(&mut a, "setcol intent/risks \"RISKS & MITIGATIONS\"");
    assert!(obs(&a, Some("intent/risks")).contains("MITIGATIONS"));
    ok(&mut a, "delcol intent/risks");
    assert!(!obs(&a, Some("intent")).contains("risks"));
}

#[test]
fn undo_redo_roundtrip() {
    let mut a = app();
    ok(&mut a, "add intent/who \"temp\"");
    assert!(obs(&a, Some("intent/who")).contains("temp"));
    assert!(a.undo());
    assert!(!obs(&a, Some("intent/who")).contains("temp"));
    assert!(a.redo());
    assert!(obs(&a, Some("intent/who")).contains("temp"));
}

#[test]
fn unknown_verbs_and_missing_pages_are_errors() {
    let mut a = app();
    assert!(matches!(run(&mut a, "frobnicate x"), Err(DispatchError::Parse(_))));
    assert!(matches!(run(&mut a, "add nowhere/0 \"x\""), Err(DispatchError::Act(_))));
    assert!(matches!(run(&mut a, "add intent \"x\""), Err(DispatchError::NeedColumn)));
    assert!(matches!(run(&mut a, "status nothing-by-that-name ok"), Err(DispatchError::NoSuchItem(_))));
    assert_eq!(ok(&mut a, "redo"), "nothing to redo");
}
