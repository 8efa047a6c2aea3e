use bare_err_tree::ErrTree;
use bare_err_tree::SpanLocation;
use bare_err_tree::TraceFrame;
use bare_err_tree::print_tree;

fn leaf(msg: &str) -> ErrTree {
    ErrTree { msg: msg.to_string(), location: None, trace: Vec::new(), sources: Vec::new() }
}

fn node(msg: &str, location: Option<&str>, trace: Vec<TraceFrame>, sources: Vec<ErrTree>) -> ErrTree {
    ErrTree {
        msg: msg.to_string(),
        location: location.map(|s| s.to_string()),
        trace,
        sources,
    }
}

fn frame(identifier: &str, name: &str, fields: &str, file: &str, line: u64) -> TraceFrame {
    TraceFrame {
        identifier: identifier.to_string(),
        target: "tracing::example".to_string(),
        name: name.to_string(),
        fields: fields.to_string(),
        location: Some(SpanLocation { file: file.to_string(), line }),
    }
}

const TRACE_FILE: &str = "bare_err_tree/tests/../test_cases/trace/src/bin/trace_example.rs";

#[test]
fn tracing_readme_example() {
    let expected_lines = r#"missed class
├─ at bare_err_tree/tests/../test_cases/trace/src/bin/trace_example.rs:51:6
│
├─ tracing frame 0 => tracing::example::gen_print_inner
│        at bare_err_tree/tests/../test_cases/trace/src/bin/trace_example.rs:38
│
╰─▶ stayed in bed too long
    ├─ at bare_err_tree/tests/../test_cases/trace/src/bin/trace_example.rs:40:57
    │
    ├─ tracing frame 1 => tracing::example::new with
    │    bed_time=BedTime {
    │      hour: 2,
    │      reasons: [
    │        FinishingProject(
    │          ClassProject {
    │            desc: "proving 1 == 2"
    │          }
    │        ),
    │        ExamStressed,
    │        PlayingGames
    │      ]
    │    }
    │    _garbage=5
    │        at bare_err_tree/tests/../test_cases/trace/src/bin/trace_example.rs:124
    ├─ 1 duplicate tracing frame(s): [0]
    │
    ├─▶ bed is comfortable
    │
    ╰─▶ went to sleep at 2 A.M.
        ├─ at bare_err_tree/tests/../test_cases/trace/src/bin/trace_example.rs:41:9
        │
        ├─ 1 duplicate tracing frame(s): [0]
        │
        ├─▶ finishing a project
        │   │
        │   ╰─▶ proving 1 == 2
        │
        ├─▶ stressed about exams
        │
        ╰─▶ playing video games"#;

    let outer = || frame("site-outer", "gen_print_inner", "", TRACE_FILE, 38);
    let new_fields = "bed_time=BedTime { hour: 2, reasons: [FinishingProject(ClassProject { desc: \"proving 1 == 2\" }), ExamStressed, PlayingGames] } _garbage=5";

    let bed_time = node(
        "went to sleep at 2 A.M.",
        Some("bare_err_tree/tests/../test_cases/trace/src/bin/trace_example.rs:41:9"),
        vec![outer()],
        vec![
            node("finishing a project", None, Vec::new(), vec![leaf("proving 1 == 2")]),
            leaf("stressed about exams"),
            leaf("playing video games"),
        ],
    );
    let overslept = node(
        "stayed in bed too long",
        Some("bare_err_tree/tests/../test_cases/trace/src/bin/trace_example.rs:40:57"),
        vec![frame("site-new", "new", new_fields, TRACE_FILE, 124), outer()],
        vec![leaf("bed is comfortable"), bed_time],
    );
    let fatal = node(
        "missed class",
        Some("bare_err_tree/tests/../test_cases/trace/src/bin/trace_example.rs:51:6"),
        vec![outer()],
        vec![overslept],
    );

    assert_eq!(print_tree(&fatal, 60), expected_lines);
}

#[test]
fn tracing_near_empty() {
    let expected_lines = "EMPTY
╰─ at bare_err_tree/tests/../test_cases/trace/src/bin/near-empty.rs:34:17";

    let fatal = node(
        "EMPTY",
        Some("bare_err_tree/tests/../test_cases/trace/src/bin/near-empty.rs:34:17"),
        Vec::new(),
        Vec::new(),
    );
    assert_eq!(print_tree(&fatal, 60), expected_lines);
}
