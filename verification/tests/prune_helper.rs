//! A passing test target for a validation seeded in the pruning scenario.

#[test]
fn noop_target_for_prune_test() {
    // Intentionally empty: it is the graded target.
}
