use miful::parsing::utils::{
    segment_text, Error, MifulError, ParseError, RuntimeError, SemanticError,
};

fn strings(v: &[&str]) -> Vec<String> {
    v.iter().map(|s| s.to_string()).collect()
}

#[test]
fn segments_are_graphemes() {
    assert_eq!(segment_text("ab"), vec!["a", "b"]);
    assert_eq!(segment_text("e\u{301}x"), vec!["e\u{301}", "x"]);
    assert_eq!(segment_text("a\r\nb"), vec!["a", "\r\n", "b"]);
    assert_eq!(segment_text(""), Vec::<&str>::new());
}

#[test]
fn new_errors_split_their_message_into_lines() {
    let e = ParseError::new("first\nsecond", strings(&["a", "b"]), 1, (1, 2));
    assert_eq!(e.get_message(), "first\nsecond");
    assert_eq!(e.get_kind(), "Parse");
    assert_eq!(e.get_index(), 1);
    assert_eq!(e.get_position(), (1, 2));
    assert_eq!(e.get_source(), &strings(&["a", "b"]));

    let e = SemanticError::new("oops", 7, (2, 3));
    assert_eq!(e.get_kind(), "Semantic");
    assert_eq!(e.get_message(), "oops");
    assert!(e.get_source().is_empty());

    let e = RuntimeError::new("bad", strings(&["x"]), 0, (1, 1));
    assert_eq!(e.get_kind(), "Runtime");
    assert_eq!(e.get_message(), "bad");
}

#[test]
fn layers_stack_on_top() {
    let mut e = MifulError::semantic_error("Unterminated list!", 3, (1, 4));
    e.add_layer_top("..while parsing list");
    assert_eq!(e.get_message(), "..while parsing list\n| Unterminated list!");
    e.add_layer_top("outer\nmore");
    assert_eq!(
        e.get_message(),
        "outer\nmore\n| ..while parsing list\n| | Unterminated list!"
    );
    assert_eq!(e.get_kind(), "Semantic");
    assert_eq!(e.get_index(), 3);
    assert_eq!(e.get_position(), (1, 4));
}

#[test]
fn layers_stack_through_the_trait_too() {
    let mut e = RuntimeError::new("inner", strings(&[]), 0, (0, 0));
    Error::add_layer_top(&mut e, "outer");
    assert_eq!(e.get_message(), "outer\n| inner");
    let mut e = MifulError::from_runtime_error(e);
    Error::add_layer_top(&mut e, "top");
    assert_eq!(e.get_message(), "top\n| outer\n| | inner");
}

#[test]
fn only_semantic_errors_take_a_source() {
    let src = strings(&["a", "b", "c"]);
    let mut e = MifulError::semantic_error("m", 1, (1, 2));
    assert!(e.get_source().is_empty());
    e.supply_source(&src);
    assert_eq!(e.get_source(), &src);

    let mut p = MifulError::parse_error("m", &strings(&["z"]), 0, (1, 1));
    p.supply_source(&src);
    assert_eq!(p.get_source(), &strings(&["z"]));

    let mut r = MifulError::runtime_error("m", &strings(&["y"]), 0, (1, 1));
    r.supply_source(&src);
    assert_eq!(r.get_source(), &strings(&["y"]));
    assert_eq!(r.get_kind(), "Runtime");
}

#[test]
fn wrapping_keeps_the_kind() {
    let p = MifulError::from_parse_error(ParseError::new("m", vec![], 0, (1, 1)));
    assert!(matches!(p, MifulError::Parsing(_)));
    assert_eq!(p.get_kind(), "Parse");
    let s = MifulError::from_semantic_error(SemanticError::new("m", 0, (1, 1)));
    assert!(matches!(s, MifulError::Semantics(_)));
    let r = MifulError::from_runtime_error(RuntimeError::new("m", vec![], 0, (1, 1)));
    assert!(matches!(r, MifulError::Runtime(_)));
}

#[test]
fn rendering_shows_the_window_and_the_marker() {
    let src: Vec<String> = "abc\ndef".chars().map(|c| c.to_string()).collect();
    let e = MifulError::runtime_error("Boom!", &src, 4, (2, 1));
    let text = e.render();
    assert_eq!(
        text,
        "Runtime error occurred at 2:1\n\n[source-string]:\n... abc\\ndef ...\n    ~~~~^ -- here\n\nBoom!\n"
    );
}

#[test]
fn rendering_clips_the_window_to_ten_graphemes_each_way() {
    let src: Vec<String> = "0123456789abcdefghijklmnopqrstuvwxyz"
        .chars()
        .map(|c| c.to_string())
        .collect();
    let e = MifulError::parse_error("m", &src, 15, (1, 16));
    let text = e.render();
    assert!(text.contains("... 56789abcdefghijklmno ...\n"));
    assert!(text.contains("    ~~~~~~~~~~^ -- here\n"));
}

#[test]
fn rendering_without_source_is_empty_window() {
    let e = MifulError::semantic_error("m", 25, (1, 26));
    let text = e.render();
    assert_eq!(
        text,
        "Semantic error occurred at 1:26\n\n[source-string]:\n...  ...\n    ^ -- here\n\nm\n"
    );
}
