use bare_err_tree::ErrTree;
use bare_err_tree::SpanLocation;
use bare_err_tree::TraceFrame;
use bare_err_tree::reconstruct_output;
use bare_err_tree::tree_to_json;

fn leaf(msg: &str) -> ErrTree {
    ErrTree { msg: msg.to_string(), location: None, trace: Vec::new(), sources: Vec::new() }
}

fn node(msg: &str, location: Option<&str>, trace: Vec<TraceFrame>, sources: Vec<ErrTree>) -> ErrTree {
    ErrTree {
        msg: msg.to_string(),
        location: location.map(|s| s.to_string()),
        trace,
        sources,
    }
}

fn frame(identifier: &str, name: &str, fields: &str, file: &str, line: u64) -> TraceFrame {
    TraceFrame {
        identifier: identifier.to_string(),
        target: "json::example".to_string(),
        name: name.to_string(),
        fields: fields.to_string(),
        location: Some(SpanLocation { file: file.to_string(), line }),
    }
}

const JSON_FILE: &str = "bare_err_tree/tests/../test_cases/json/src/bin/reconstruct.rs";

fn gen_print() -> String {
    let outer = || frame("site-outer", "gen_print_inner", "", JSON_FILE, 38);
    let new_fields = "bed_time=BedTime { hour: 2, reasons: [FinishingProject(ClassProject { desc: \"proving 1 == 2\" }), ExamStressed, PlayingGames] } _garbage=5";

    let bed_time = node(
        "went to sleep at 2 A.M.",
        Some("bare_err_tree/tests/../test_cases/json/src/bin/reconstruct.rs:41:9"),
        vec![outer()],
        vec![
            node("finishing a project", None, Vec::new(), vec![leaf("proving 1 == 2")]),
            leaf("stressed about exams"),
            leaf("playing video games"),
        ],
    );
    let overslept = node(
        "stayed in bed too long",
        Some("bare_err_tree/tests/../test_cases/json/src/bin/reconstruct.rs:40:57"),
        vec![frame("site-new", "new", new_fields, JSON_FILE, 130), outer()],
        vec![leaf("bed is comfortable"), bed_time],
    );
    let fatal = node(
        "missed class",
        Some("bare_err_tree/tests/../test_cases/json/src/bin/reconstruct.rs:51:6"),
        vec![outer()],
        vec![overslept],
    );

    tree_to_json(&fatal)
}

fn reconstruct(json: &str) -> String {
    reconstruct_output(json, 60)
}

#[test]
fn json_readme_example() {
    let expected_json = r#"{"msg":"missed class","location":"bare_err_tree/tests/../test_cases/json/src/bin/reconstruct.rs:51:6","trace":[{"target":"json::example","name":"gen_print_inner","fields":"","source_loc":{"file":"bare_err_tree/tests/../test_cases/json/src/bin/reconstruct.rs","line":38}}],"sources":[{"msg":"stayed in bed too long","location":"bare_err_tree/tests/../test_cases/json/src/bin/reconstruct.rs:40:57","trace":[{"target":"json::example","name":"new","fields":"bed_time=BedTime { hour: 2, reasons: [FinishingProject(ClassProject { desc: \"proving 1 == 2\" }), ExamStressed, PlayingGames] } _garbage=5","source_loc":{"file":"bare_err_tree/tests/../test_cases/json/src/bin/reconstruct.rs","line":130}},{"target":"json::example","name":"gen_print_inner","fields":"","source_loc":{"file":"bare_err_tree/tests/../test_cases/json/src/bin/reconstruct.rs","line":38}}],"sources":[{"msg":"bed is comfortable"},{"msg":"went to sleep at 2 A.M.","location":"bare_err_tree/tests/../test_cases/json/src/bin/reconstruct.rs:41:9","trace":[{"target":"json::example","name":"gen_print_inner","fields":"","source_loc":{"file":"bare_err_tree/tests/../test_cases/json/src/bin/reconstruct.rs","line":38}}],"sources":[{"msg":"finishing a project","sources":[{"msg":"proving 1 == 2"}]},{"msg":"stressed about exams"},{"msg":"playing video games"}]}]}]}"#;

    let expected_lines = r#"missed class
├─ at bare_err_tree/tests/../test_cases/json/src/bin/reconstruct.rs:51:6
│
├─ tracing frame 0 => json::example::gen_print_inner
│        at bare_err_tree/tests/../test_cases/json/src/bin/reconstruct.rs:38
│
╰─▶ stayed in bed too long
    ├─ at bare_err_tree/tests/../test_cases/json/src/bin/reconstruct.rs:40:57
    │
    ├─ tracing frame 1 => json::example::new with
    │    bed_time=BedTime {
    │      hour: 2,
    │      reasons: [
    │        FinishingProject(
    │          ClassProject {
    │            desc: "proving 1 == 2"
    │          }
    │        ),
    │        ExamStressed,
    │        PlayingGames
    │      ]
    │    }
    │    _garbage=5
    │        at bare_err_tree/tests/../test_cases/json/src/bin/reconstruct.rs:130
    ├─ 1 duplicate tracing frame(s): [0]
    │
    ├─▶ bed is comfortable
    │
    ╰─▶ went to sleep at 2 A.M.
        ├─ at bare_err_tree/tests/../test_cases/json/src/bin/reconstruct.rs:41:9
        │
        ├─ 1 duplicate tracing frame(s): [0]
        │
        ├─▶ finishing a project
        │   │
        │   ╰─▶ proving 1 == 2
        │
        ├─▶ stressed about exams
        │
        ╰─▶ playing video games"#;

    assert_eq!(gen_print(), expected_json);

    assert_eq!(reconstruct(&gen_print()), expected_lines);
}

#[test]
fn handles_escapes() {
    let weird = leaf(
        "foo\n \\ \\n \t/
bar",
    );
    let out = tree_to_json(&weird);

    let expected_json = r#"{"msg":"foo\n \\ \\n \t/\nbar"}"#;
    let expected_reconstruct = "foo\n│  \\ \\n \t/\n│ bar";

    assert_eq!(out, expected_json);

    let mut reconstructed = String::new();
    reconstructed.push_str(&reconstruct_output(&out, 60));
    assert_eq!(reconstructed, expected_reconstruct);
}
