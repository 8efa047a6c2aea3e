use bare_err_tree::ErrTree;
use bare_err_tree::ErrTreePkg;
use bare_err_tree::IterBuffer;
use bare_err_tree::JsonReconstruct;
use bare_err_tree::JsonStrChars;
use bare_err_tree::LeadingLineFormatter;
use bare_err_tree::OneOrTwo;
use bare_err_tree::SourcesIter;

#[test]
fn iter_buffer_stores_most_recent() {
    let mut it: IterBuffer<u32> = IterBuffer::from_vec(vec![10, 20, 30]);
    assert_eq!(it.next(), Some(10));
    assert_eq!(it.next(), Some(20));
    assert_eq!(it.take_stored(), Some(20));
    assert_eq!(it.take_stored(), None);
    assert_eq!(it.next(), Some(30));
    assert_eq!(it.next(), None);
    assert_eq!(it.take_stored(), Some(30));
}

#[test]
fn iter_buffer_is_empty_pulls_ahead() {
    let mut it: IterBuffer<u32> = IterBuffer::from_vec(vec![1]);
    assert!(!it.is_empty());
    assert_eq!(it.take_stored(), Some(1));
    assert!(it.is_empty());

    let mut none: IterBuffer<u32> = IterBuffer::from_vec(Vec::new());
    assert!(none.is_empty());
}

#[test]
fn iter_buffer_take_stored_and_next() {
    let mut it: IterBuffer<u32> = IterBuffer::from_vec(vec![1, 2]);
    match it.take_stored_and_next() {
        Some(OneOrTwo::One(a)) => assert_eq!(a, [1]),
        _ => panic!("expected one item"),
    }
    match it.take_stored_and_next() {
        Some(OneOrTwo::Two(a)) => assert_eq!(a, [1, 2]),
        _ => panic!("expected two items"),
    }
    assert!(it.take_stored_and_next().is_none());
    assert_eq!(it.take_stored(), Some(2));
}

#[test]
fn one_or_two_as_slice() {
    let one: OneOrTwo<u8> = OneOrTwo::One([7]);
    assert_eq!(one.as_slice(), &[7]);
    let two: OneOrTwo<u8> = OneOrTwo::Two([7, 8]);
    assert_eq!(two.as_slice(), &[7, 8]);
}

#[test]
fn json_str_chars_unescapes() {
    let mut it = JsonStrChars::new(vec!['a', '\\', 'n', 'b', '\\', 't']);
    assert_eq!(it.next(), Some('a'));
    assert_eq!(it.next(), Some('\n'));
    assert_eq!(it.next(), Some('b'));
    assert_eq!(it.next(), Some('\t'));
    assert_eq!(it.next(), None);
}

#[test]
fn json_str_chars_stops_on_invalid_escape() {
    let mut it = JsonStrChars::new(vec!['a', '\\', 'x', 'b']);
    assert_eq!(it.next(), Some('a'));
    assert_eq!(it.next(), None);
    assert_eq!(it.next(), None);
}

#[test]
fn sources_iter_splits_on_top_level_commas() {
    let body: Vec<char> = "{\"a\":[1,2]},{\"b\":\"x,y\"},last".chars().collect();
    let mut it = SourcesIter::new(body);
    let first: String = it.next().unwrap().into_iter().collect();
    assert_eq!(first, "{\"a\":[1,2]}");
    let second: String = it.next().unwrap().into_iter().collect();
    assert_eq!(second, "{\"b\":\"x,y\"}");
    let third: String = it.next().unwrap().into_iter().collect();
    assert_eq!(third, "last");
    assert!(it.next().is_none());
}

#[test]
fn json_reconstruct_cuts_top_level_parts() {
    let body: Vec<char> =
        r#"{"msg":"m","location":"l","trace":[{"target":"t"}],"sources":[{"msg":"c"}]}"#
        .chars()
        .collect();
    let parts = JsonReconstruct::new(&body);
    let msg: String = parts.msg.iter().collect();
    let location: String = parts.source_line.iter().collect();
    let trace: String = parts.trace.iter().collect();
    let sources: String = parts.sources.iter().collect();
    assert_eq!(msg, "m");
    assert_eq!(location, "l");
    assert_eq!(trace, r#"{"target":"t"}"#);
    assert_eq!(sources, r#"{"msg":"c"}"#);
}

#[test]
fn leading_line_formatter_injects_leader() {
    let mut f = LeadingLineFormatter::new(vec![' ', ' ']);
    f.write_str("one\ntwo");
    let written: String = f.out.iter().collect();
    assert_eq!(written, "one\n  │ two");
}

#[test]
fn pkg_constructors() {
    let pkg = ErrTreePkg::new(Some("site.rs:1:2".to_string()), Vec::new());
    let with = ErrTree::with_pkg("m".to_string(), Vec::new(), pkg);
    assert_eq!(with.location.as_deref(), Some("site.rs:1:2"));
    let without = ErrTree::no_pkg("m".to_string(), Vec::new());
    assert!(without.location.is_none());
    assert!(without.trace.is_empty());
}
