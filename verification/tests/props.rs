use bare_err_tree::ErrTree;
use bare_err_tree::SpanLocation;
use bare_err_tree::TraceFrame;
use bare_err_tree::print_tree;
use bare_err_tree::reconstruct_output;
use bare_err_tree::tree_to_json;

fn leaf(msg: &str) -> ErrTree {
    ErrTree { msg: msg.to_string(), location: None, trace: Vec::new(), sources: Vec::new() }
}

fn node(msg: &str, location: Option<&str>, trace: Vec<TraceFrame>, sources: Vec<ErrTree>) -> ErrTree {
    ErrTree {
        msg: msg.to_string(),
        location: location.map(|s| s.to_string()),
        trace,
        sources,
    }
}

fn frame(identifier: &str, target: &str, name: &str, fields: &str) -> TraceFrame {
    TraceFrame {
        identifier: identifier.to_string(),
        target: target.to_string(),
        name: name.to_string(),
        fields: fields.to_string(),
        location: None,
    }
}

#[test]
fn readme_tree_shape() {
    let expected_lines = "missed class
│
╰─▶ stayed in bed too long
    │
    ├─▶ bed is comfortable
    │
    ╰─▶ went to sleep at 2 A.M.";

    let fatal = node(
        "missed class",
        None,
        Vec::new(),
        vec![node(
            "stayed in bed too long",
            None,
            Vec::new(),
            vec![leaf("bed is comfortable"), leaf("went to sleep at 2 A.M.")],
        )],
    );
    assert_eq!(print_tree(&fatal, 60), expected_lines);
}

#[test]
fn depth_cap_truncates() {
    let expected_lines = "a
│
╰─▶ b
    │
    ╰─▶ c
        ......";

    let deep = node(
        "a",
        None,
        Vec::new(),
        vec![node("b", None, Vec::new(), vec![node("c", None, Vec::new(), vec![leaf("d")])])],
    );
    assert_eq!(print_tree(&deep, 8), expected_lines);
}

#[test]
fn depth_cap_leaf_needs_no_marker() {
    let shallow = node("a", None, Vec::new(), vec![node("b", None, Vec::new(), vec![leaf("c")])]);
    assert_eq!(print_tree(&shallow, 8), "a\n│\n╰─▶ b\n    │\n    ╰─▶ c");
}

#[test]
fn location_glyph_terminal_only_when_nothing_follows() {
    let alone = node("broke", Some("here.rs:1:1"), Vec::new(), Vec::new());
    assert_eq!(print_tree(&alone, 60), "broke\n╰─ at here.rs:1:1");

    let with_child = node("broke", Some("here.rs:1:1"), Vec::new(), vec![leaf("why")]);
    assert_eq!(print_tree(&with_child, 60), "broke\n├─ at here.rs:1:1\n│\n╰─▶ why");

    let with_frame = node(
        "broke",
        Some("here.rs:1:1"),
        vec![frame("s", "t", "op", "")],
        Vec::new(),
    );
    assert_eq!(print_tree(&with_frame, 60), "broke\n├─ at here.rs:1:1\n│\n├─ tracing frame 0 => t::op");
}

#[test]
fn duplicate_frame_renders_as_back_reference() {
    let out = print_tree(
        &node(
            "top",
            None,
            vec![frame("a", "t", "one", ""), frame("b", "t", "two", ""), frame("a", "t", "one", "")],
            Vec::new(),
        ),
        60,
    );
    assert_eq!(
        out,
        "top\n│\n├─ tracing frame 0 => t::one\n├─ tracing frame 1 => t::two\n╰─ 1 duplicate tracing frame(s): [0]"
    );
}

#[test]
fn duplicate_frame_across_nodes() {
    let out = print_tree(
        &node(
            "top",
            None,
            vec![frame("a", "t", "one", "")],
            vec![node("sub", None, vec![frame("a", "t", "one", "")], Vec::new())],
        ),
        60,
    );
    assert_eq!(
        out,
        "top\n│\n├─ tracing frame 0 => t::one\n│\n╰─▶ sub\n    │\n    ╰─ 1 duplicate tracing frame(s): [0]"
    );
}

#[test]
fn dedup_table_full_degrades_gracefully() {
    // Capacity 0: nothing is recorded, so a repeat is printed in full
    // again instead of as a back-reference.
    let out = print_tree(
        &node(
            "top",
            None,
            vec![frame("a", "t", "one", ""), frame("a", "t", "one", "")],
            Vec::new(),
        ),
        0,
    );
    assert_eq!(out, "top\n│\n├─ tracing frame 0 => t::one\n├─ tracing frame 0 => t::one");
}

#[test]
fn escape_sensitive_round_trip() {
    let all_seven = "q:\" b:\\ bs:\u{8} ff:\u{c} nl:\n cr:\r tab:\t plain:é";
    let tree = node(
        "m",
        Some(all_seven),
        vec![TraceFrame {
            identifier: "i".to_string(),
            target: all_seven.to_string(),
            name: all_seven.to_string(),
            fields: String::new(),
            location: Some(SpanLocation { file: all_seven.to_string(), line: 7 }),
        }],
        Vec::new(),
    );
    let rendered = print_tree(&tree, 60);
    let round_tripped = reconstruct_output(&tree_to_json(&tree), 60);
    assert_eq!(round_tripped, rendered);
}

#[test]
fn encode_decode_renders_identically() {
    let tree = node(
        "root",
        Some("lib.rs:3:14"),
        vec![frame("a", "app::io", "read", "path=\"a,b\" n=[1, 2]")],
        vec![
            node("mid", None, vec![frame("a", "app::io", "read", "path=\"a,b\" n=[1, 2]")], vec![
                leaf("deep, with comma"),
            ]),
            leaf("other {brace} [bracket]"),
        ],
    );
    let rendered = print_tree(&tree, 60);
    let round_tripped = reconstruct_output(&tree_to_json(&tree), 60);
    assert_eq!(round_tripped, rendered);
}

#[test]
fn minimal_encode_forms() {
    assert_eq!(tree_to_json(&leaf("m")), r#"{"msg":"m"}"#);
    assert_eq!(
        tree_to_json(&node("m", Some("l"), Vec::new(), vec![leaf("c1"), leaf("c2")])),
        r#"{"msg":"m","location":"l","sources":[{"msg":"c1"},{"msg":"c2"}]}"#
    );
    assert_eq!(
        tree_to_json(&node("m", None, vec![frame("x", "t", "n", "f")], Vec::new())),
        r#"{"msg":"m","trace":[{"target":"t","name":"n","fields":"f"}]}"#
    );
}

#[test]
fn lenient_decode_of_malformed_input() {
    assert_eq!(reconstruct_output("", 60), "");
    assert_eq!(reconstruct_output("not a blob", 60), "");
    assert_eq!(reconstruct_output(r#"{"msg":"ok"#, 60), "");
    assert_eq!(reconstruct_output(r#"{"msg":"ok"}"#, 60), "ok");
    // A truncated sources list degrades to no children.
    assert_eq!(reconstruct_output(r#"{"msg":"ok","sources":[{"msg":"child"}"#, 60), "ok");
}

#[test]
fn decoded_frame_without_site() {
    let json = r#"{"msg":"m","trace":[{"target":"t","name":"n","fields":""}]}"#;
    assert_eq!(reconstruct_output(json, 60), "m\n│\n├─ tracing frame 0 => t::n");
}

#[test]
fn decoded_frame_with_unreadable_line_number() {
    // A line that is not a number costs the frame its site, nothing more.
    let json = r#"{"msg":"m","trace":[{"target":"t","name":"n","fields":"","source_loc":{"file":"f.rs","line":xx}}]}"#;
    assert_eq!(reconstruct_output(json, 60), "m\n│\n├─ tracing frame 0 => t::n");
    let good = r#"{"msg":"m","trace":[{"target":"t","name":"n","fields":"","source_loc":{"file":"f.rs","line":12}}]}"#;
    assert_eq!(
        reconstruct_output(good, 60),
        "m\n│\n├─ tracing frame 0 => t::n\n│        at f.rs:12"
    );
}

#[test]
fn frame_numbers_reach_two_digits() {
    let mut frames = Vec::new();
    for i in 0..11 {
        frames.push(frame(&format!("site-{i}"), "t", &format!("op{i}"), ""));
    }
    let out = print_tree(&node("top", None, frames, Vec::new()), 60);
    assert!(out.contains("├─ tracing frame 9 => t::op9"));
    assert!(out.ends_with("├─ tracing frame 10 => t::op10"));
}
