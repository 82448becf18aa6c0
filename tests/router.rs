use process_guard::router::{detect_task_type, detect_task_type_lowered};
use process_guard::safety::{airbag_limits, yolt_limits, Limits};

#[test]
fn routes_by_keyword_ignoring_case() {
    assert_eq!(detect_task_type("Please LINT this file"), "lint");
    assert_eq!(detect_task_type("Format my code"), "lint");
    assert_eq!(detect_task_type("WHAT does this do"), "explain");
    assert_eq!(detect_task_type("Build a parser"), "create");
    assert_eq!(detect_task_type("DESIGN the system"), "architect");
    assert_eq!(detect_task_type("the test crashes"), "debug");
    assert_eq!(detect_task_type(""), "debug");
}

#[test]
fn earlier_category_wins() {
    assert_eq!(detect_task_type("explain how to lint"), "lint");
    assert_eq!(detect_task_type_lowered("create a design"), "create");
    assert_eq!(detect_task_type_lowered("LINT"), "debug");
}

#[test]
fn limit_profiles() {
    assert_eq!(yolt_limits(), Limits { max_mem_mb: 4096, max_procs: 50, cpu_limit: 1800, nice: 10 });
    assert_eq!(airbag_limits(), Limits { max_mem_mb: 2048, max_procs: 20, cpu_limit: 300, nice: 15 });
}
