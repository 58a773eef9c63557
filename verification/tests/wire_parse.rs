//! The agent's command line, the export to node files, commit hygiene and the
//! node-file importer.

use arte::arte_bridge::{arte_chain, arte_frames, parse_arte_node, parse_list};
use arte::command::{parse_command, parse_isize, Command, CommandError};
use arte::export::{export_arte, short_slug};
use arte::hygiene::{commit_refs, parse_commits, COMMIT_END};
use arte::protocol::{BoardColumn, BoardStyle, Item, Status};

#[test]
fn compound_add_parses_serves_and_status() {
    match parse_command("add intent/who \"Clinicians\" \"5-axis eval\" status pending").unwrap() {
        Command::Add { addr, text, serves, status } => {
            assert_eq!(addr, "intent/who");
            assert_eq!(text, "Clinicians");
            assert_eq!(serves, vec!["5-axis eval".to_string()]);
            assert_eq!(status, Some(Status::Pending));
        }
        other => panic!("not an add: {other:?}"),
    }
}

#[test]
fn plain_set_leaves_serves_and_status_alone() {
    match parse_command("set intent/jobs/0 \"Do Z\"").unwrap() {
        Command::SetItem { addr, text, serves, status } => {
            assert_eq!(addr, "intent/jobs/0");
            assert_eq!(text, "Do Z");
            assert!(serves.is_none() && status.is_none());
        }
        other => panic!("not a set: {other:?}"),
    }
}

#[test]
fn addpage_takes_a_style_word() {
    match parse_command("addpage impl \"impl.arch\" cards").unwrap() {
        Command::AddPage { id, title, style } => {
            assert_eq!((id.as_str(), title.as_str(), style), ("impl", "impl.arch", BoardStyle::Cards));
        }
        other => panic!("not an addpage: {other:?}"),
    }
}

#[test]
fn each_command_error_has_its_input() {
    assert_eq!(parse_command("addpage x \"t\" bogus").unwrap_err(), CommandError::BadStyle("bogus".into()));
    assert_eq!(parse_command("renamepage x").unwrap_err(), CommandError::RenamePageNeedsTitle);
    assert_eq!(parse_command("addcol intent").unwrap_err(), CommandError::AddColNeedsHeader);
    assert_eq!(parse_command("status intent/0/0").unwrap_err(), CommandError::StatusNeedsValue);
    assert_eq!(parse_command("status intent/0/0 bogus").unwrap_err(), CommandError::BadStatus("bogus".into()));
    assert_eq!(parse_command("add intent/0").unwrap_err(), CommandError::NeedsText("add".into()));
    assert_eq!(parse_command("frobnicate").unwrap_err(), CommandError::Unknown("frobnicate".into()));
}

#[test]
fn status_na_clears_and_ok_sets() {
    match parse_command("status intent/jobs/0 na").unwrap() {
        Command::SetStatus { status, .. } => assert_eq!(status, None),
        other => panic!("{other:?}"),
    }
    match parse_command("status intent/jobs/0 ok").unwrap() {
        Command::SetStatus { status, .. } => assert_eq!(status, Some(Status::Okay)),
        other => panic!("{other:?}"),
    }
}

#[test]
fn isize_parse_takes_a_sign() {
    assert_eq!(parse_isize("-3"), Some(-3));
    assert_eq!(parse_isize("12"), Some(12));
    assert_eq!(parse_isize("1x"), None);
    assert_eq!(parse_isize(""), None);
}

fn col(header: &str, items: Vec<Item>) -> BoardColumn {
    BoardColumn { header: header.into(), key: None, items }
}

#[test]
fn export_gives_each_item_a_node_and_suffixes_twins() {
    let mut comp = Item::new("Engine");
    comp.serves = vec!["Do X".into()];
    let pages = vec![
        ("intent".to_string(), vec![col("JOBS", vec![Item::new("Do X")])]),
        ("impl".to_string(), vec![col("Backend", vec![comp.clone(), comp])]),
    ];
    let (nodes, toml) = export_arte(&pages);
    assert_eq!(nodes.len(), 3);
    let ids: Vec<&str> = nodes.iter().map(|n| n.0.as_str()).collect();
    assert_eq!(ids.iter().filter(|i| i.ends_with("-2")).count(), 1, "a twin title gets a -2 suffix: {ids:?}");
    assert!(nodes.iter().any(|n| n.1.contains("title: Do X")));
    assert!(!toml.is_empty());
}

#[test]
fn short_slug_keeps_words() {
    assert_eq!(short_slug("Do X now"), "do-x-now");
}

#[test]
fn commit_log_splits_on_the_marker_and_refs_need_known_ids() {
    let log = format!("abc123\nfeat: thing\n\nintent: i-one\n{COMMIT_END}def456\nchore\n{COMMIT_END}");
    let commits = parse_commits(&log);
    assert_eq!(commits.len(), 2);
    assert_eq!(commits[0].0, "abc123");
    let known = vec!["i-one".to_string()];
    assert_eq!(commit_refs(&commits[0].1, &known), Some(vec!["i-one".to_string()]));
}

#[test]
fn importer_carries_sha_from_node_files() {
    let text = "id: v-probe\nrole: validation\nsubset: proof\ntitle: probe\nstatus: ok\nsha: 5c2826e8b360b0366d28d8d0bb3d48c09b9f61de\nat: tests/probe.rs\n";
    let probe = parse_arte_node(text, None).expect("node loaded");
    assert_eq!(probe.id, "v-probe");
    assert_eq!(probe.sha.as_deref(), Some("5c2826e8b360b0366d28d8d0bb3d48c09b9f61de"));
}

#[test]
fn chain_and_frames_come_from_the_toml() {
    assert_eq!(arte_chain(None), vec!["intent", "impl", "control", "validation"]);
    assert_eq!(parse_list("[\"a\", \"b\"]"), vec!["a", "b"]);
    let frames = arte_frames("[subsets]\ncontrol = [\"ux\", \"api\"]\n");
    assert!(frames.iter().any(|(role, fs)| role == "control" && fs == &vec!["ux".to_string(), "api".to_string()]), "{frames:?}");
}
