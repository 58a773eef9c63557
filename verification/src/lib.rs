//! arte — a design-truth board: software specified and traced as a graph of
//! nodes (intents, impls, controls, validations) linked up by `serves`, with
//! the derivations that judge it (coverage, verification, the work loop) and
//! the viewer's board model.
use vstd::prelude::*;

pub mod text;
pub mod node;
pub mod ident;
pub mod display;
pub mod conf;
pub mod runs;
pub mod roles;
pub mod paths;
pub mod args;
pub mod graph;
pub mod query;
pub mod verify;
pub mod cycle;
pub mod protocol;
pub mod agent;
pub mod audit;
pub mod arte_view;
pub mod state;
pub mod merge;
pub mod mutators;
pub mod nav;
pub mod edit;
pub mod sorted;
pub mod board;
pub mod command;
pub mod export;
pub mod history;
pub mod hygiene;
pub mod audit_report;
pub mod keys;
pub mod arte_bridge;
pub mod merge_gate;
pub mod wire;
pub mod drive;
pub mod digest;
pub mod trace;
pub mod grade;
pub mod assemble;
pub mod inbox;
pub mod observe;
pub mod lint;

pub use args::{flag_value, has_flag};
pub use conf::{default_subset, impl_conf, parse_arr, read_conf, verify_conf, Conf, VerifyConf};
pub use display::{now_rfc3339, trunc};
pub use ident::{gen_id, slugify};
pub use node::Node;
pub use paths::{
    dispatch_path, node_path, runs_dir, truth_dir, DEFAULT_DISPATCH_PATH, DEFAULT_RUNS_DIR,
    DEFAULT_TRUTH_DIR,
};
pub use roles::{
    resolve_template, role_deny_dirs, role_lane, template_toml, AGENT_GUIDE, ARTE_TOML,
    IMPLEMENTER_HEADLESS, SOFTWARE_GUIDE, SOFTWARE_TOML,
};
pub use runs::{
    next_run_seq, proven_detector, prune_runs, stable_pass, RunRec, STABLE_PASS_REQUIRED,
    STABLE_PASS_WINDOW,
};

verus! {

} // verus!
