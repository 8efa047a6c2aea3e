use bare_err_tree::ErrTree;
use bare_err_tree::ErrTreeDisplay;

fn leaf(msg: &str) -> ErrTree {
    ErrTree { msg: msg.to_string(), location: None, trace: Vec::new(), sources: Vec::new() }
}

fn node(msg: &str, location: Option<&str>, sources: Vec<ErrTree>) -> ErrTree {
    ErrTree {
        msg: msg.to_string(),
        location: location.map(|s| s.to_string()),
        trace: Vec::new(),
        sources,
    }
}

#[test]
fn empty() {
    let expected_lines = "EMPTY";
    let fatal = leaf("EMPTY");
    assert_eq!(ErrTreeDisplay::new(fatal, 60).to_display_string(), expected_lines);
}

#[test]
fn shared_near_empty() {
    let expected_lines = "EMPTY
╰─ at bare_err_tree/tests/../test_cases/std/src/bin/near-empty.rs:18:17";

    let fatal = node(
        "EMPTY",
        Some("bare_err_tree/tests/../test_cases/std/src/bin/near-empty.rs:18:17"),
        Vec::new(),
    );
    assert_eq!(ErrTreeDisplay::new(fatal, 60).to_display_string(), expected_lines);
}

#[test]
fn multiline() {
    let expected_lines = "This error spans
│ multiple
│ lines
│
╰─▶ And is
    │ nested";

    let err = node("This error spans\nmultiple\nlines", None, vec![leaf("And is\nnested")]);
    let out = ErrTreeDisplay::new(err, 60).to_display_string();
    assert_eq!(out, expected_lines);
}
