//! The viewer's agent manual and its date rendering.

use arte::agent::USAGE;
use arte::display::ymd_iso;

#[test]
fn usage_documents_the_drive_verbs() {
    for v in [
        "observe", "coverage", "trace", "snapshot", "add", "set", "link", "status", "note", "attach", "at", "cat",
        "id", "comment", "derive", "sha", "work", "mv", "del", "addcol", "setcol", "delcol", "addpage",
        "setstyle", "renamepage", "delpage", "sel", "page", "undo", "redo",
    ] {
        assert!(USAGE.contains(v), "usage omits the verb: {v}");
    }
}

#[test]
fn iso_date_from_unix_secs() {
    assert_eq!(ymd_iso(0), "1970-01-01");
    assert_eq!(ymd_iso(1_700_000_000), "2023-11-14");
}

#[test]
fn iso_date_handles_leap_days_and_year_ends() {
    assert_eq!(ymd_iso(951_782_400), "2000-02-29");
    assert_eq!(ymd_iso(946_684_799), "1999-12-31");
    assert_eq!(ymd_iso(946_684_800), "2000-01-01");
}
