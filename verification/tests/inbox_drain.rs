//! Draining the live inbox into a document.

use arte::wire::Doc;

#[test]
fn drain_runs_each_line_and_skips_bad_ones() {
    let mut d = Doc::new();
    let changed = d.drain("addpage intent \"intent\"\r\nnot a command\naddcol intent/who \"WHO\"\n");
    assert!(changed);
    assert_eq!(d.pages.len(), 1);
    assert_eq!(d.pages[0].0, "intent");
    assert_eq!(d.pages[0].1.len(), 1);
    assert_eq!(d.pages[0].1[0].header, "WHO");
}

#[test]
fn empty_inbox_changes_nothing() {
    let mut d = Doc::new();
    assert!(!d.drain(""));
    assert!(d.pages.is_empty());
    assert!(!d.drain("\n"), "an empty line applies nothing");
    assert!(d.pages.is_empty());
}

#[test]
fn a_batch_of_failing_commands_applies_nothing() {
    let mut d = Doc::new();
    assert!(!d.drain("bogus\nnot a command\n"));
    assert!(d.pages.is_empty());
}
