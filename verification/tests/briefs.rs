//! The embedded briefs carry the workflow's doctrine.

use arte::{role_lane, AGENT_GUIDE};

fn states_commit_protocol(text: &str) -> bool {
    let t = text.to_lowercase();
    t.contains("never commit") && t.contains("intent id")
}

fn states_doctrine(text: &str) -> bool {
    let t = text.to_lowercase();
    t.contains("initial condition") && (t.contains("fixture") || t.contains("setup"))
}

#[test]
fn worker_lanes_state_the_commit_protocol() {
    for role in ["specifier", "test-author", "implementer"] {
        assert!(states_commit_protocol(role_lane(role)), "role_lane({role:?}) is missing the commit protocol");
    }
}

#[test]
fn meta_planner_lane_owns_the_commit() {
    let lane = role_lane("meta-planner").to_lowercase();
    assert!(lane.contains("never commit") && lane.contains("intent id"));
    assert!(lane.contains("audit"));
}

#[test]
fn agent_guide_states_the_commit_protocol() {
    assert!(states_commit_protocol(AGENT_GUIDE));
}

#[test]
fn guide_states_serialization() {
    let t = AGENT_GUIDE.to_lowercase();
    assert!(t.contains("one verify") || t.contains("serialize"));
}

#[test]
fn guide_states_gate_vs_verify() {
    let t = AGENT_GUIDE.to_lowercase();
    assert!(t.contains("verify-green is not gate-green") || (t.contains("gate") && t.contains("completeness")));
}

#[test]
fn test_author_lane_states_falsifiability_and_cleanup() {
    let t = role_lane("test-author").to_lowercase();
    assert!(t.contains("vacuous"));
    assert!(t.contains("self-clean") || t.contains("clean up"));
}

#[test]
fn meta_planner_lane_states_serialization_and_final_gate() {
    let t = role_lane("meta-planner").to_lowercase();
    assert!(t.contains("serial") || t.contains("one verify"));
    assert!(t.contains("gate") && (t.contains("foreground") || t.contains("orphan")));
}

#[test]
fn test_author_lane_states_initial_condition_doctrine() {
    assert!(states_doctrine(role_lane("test-author")));
}

#[test]
fn agent_guide_states_initial_condition_doctrine() {
    assert!(states_doctrine(AGENT_GUIDE));
}
