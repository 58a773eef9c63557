//! The test-backed heuristic: which `at:` values count as tests.

use arte::query::is_test_backed_path;
use arte::verify::is_test_at;

#[test]
fn verified_heuristic_rejects_non_test_paths() {
    let should_reject = [
        "src/main.rs",
        "src/lib.rs",
        "src/cli/query.rs",
        "Cargo.toml",
        "README.md",
        "docs/architecture.md",
        "examples/demo.rs",
        "src/cli/cycle.rs#cmd_cycle",
    ];
    for path in should_reject {
        assert!(!is_test_backed_path(path), "heuristic must NOT accept non-test path {path}");
    }
}

#[test]
fn heuristic_accepts_every_test_layout() {
    for path in ["tests/foo.rs", "tests/x.test.rs", "test/x.test.js", "qa/tests/a.yaml", "__tests__/x.js", "src/a.test.ts"] {
        assert!(is_test_backed_path(path), "heuristic should accept {path}");
    }
}

#[test]
fn verify_ignores_leading_dot_slash() {
    assert!(is_test_at("./tests/foo.rs"));
    assert!(is_test_at("././test/x.js"));
    assert!(!is_test_backed_path("./tests/foo.rs"));
    assert!(!is_test_at("./src/main.rs"));
}
