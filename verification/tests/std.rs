use bare_err_tree::ErrTree;
use bare_err_tree::print_tree;

fn leaf(msg: &str) -> ErrTree {
    ErrTree { msg: msg.to_string(), location: None, trace: Vec::new(), sources: Vec::new() }
}

fn node(msg: &str, location: Option<&str>, sources: Vec<ErrTree>) -> ErrTree {
    ErrTree {
        msg: msg.to_string(),
        location: location.map(|s| s.to_string()),
        trace: Vec::new(),
        sources,
    }
}

#[test]
fn std_readme_example() {
    let expected_lines = "missed class
├─ at bare_err_tree/tests/../test_cases/std/src/bin/example.rs:27:6
│
╰─▶ stayed in bed too long
    ├─ at bare_err_tree/tests/../test_cases/std/src/bin/example.rs:19:57
    │
    ├─▶ bed is comfortable
    │
    ╰─▶ went to sleep at 2 A.M.
        ├─ at bare_err_tree/tests/../test_cases/std/src/bin/example.rs:19:72
        │
        ├─▶ finishing a project
        │   │
        │   ╰─▶ proving 1 == 2
        │
        ├─▶ stressed about exams
        │
        ╰─▶ playing video games";

    let bed_time = node(
        "went to sleep at 2 A.M.",
        Some("bare_err_tree/tests/../test_cases/std/src/bin/example.rs:19:72"),
        vec![
            node("finishing a project", None, vec![leaf("proving 1 == 2")]),
            leaf("stressed about exams"),
            leaf("playing video games"),
        ],
    );
    let overslept = node(
        "stayed in bed too long",
        Some("bare_err_tree/tests/../test_cases/std/src/bin/example.rs:19:57"),
        vec![leaf("bed is comfortable"), bed_time],
    );
    let fatal = node(
        "missed class",
        Some("bare_err_tree/tests/../test_cases/std/src/bin/example.rs:27:6"),
        vec![overslept],
    );

    assert_eq!(print_tree(&fatal, 60), expected_lines);
}

#[test]
fn std_near_empty() {
    let expected_lines = "EMPTY
╰─ at bare_err_tree/tests/../test_cases/std/src/bin/near-empty.rs:18:17";

    let fatal = node(
        "EMPTY",
        Some("bare_err_tree/tests/../test_cases/std/src/bin/near-empty.rs:18:17"),
        Vec::new(),
    );
    assert_eq!(print_tree(&fatal, 60), expected_lines);
}
