use miful::parsing::ast::{MifulType, NodeKind, NodeWrapper};
use miful::parsing::lexer::Lexer;
use miful::parsing::parser::Parser;
use miful::parsing::token::Token;
use miful::parsing::utils::{segment_text, Error, MifulError};

fn tokens(source: &str) -> Vec<Token> {
    Lexer::new(segment_text(source), vec![":", "@", "&", "|", "#", "~", "?", "\\"])
        .tokens()
        .unwrap()
}

fn parse(source: &str) -> Result<Vec<NodeWrapper>, MifulError> {
    Parser::new(tokens(source)).nodes()
}

fn one(source: &str) -> NodeWrapper {
    let mut nodes = parse(source).unwrap();
    assert_eq!(nodes.len(), 1);
    nodes.remove(0)
}

fn message(source: &str) -> String {
    let e = parse(source).unwrap_err();
    assert!(matches!(e, MifulError::Semantics(_)));
    e.get_message()
}

#[test]
fn atoms_parse_to_themselves() {
    assert!(matches!(one("abc").node, NodeKind::Word(ref s) if s == "abc"));
    assert!(matches!(one("`sym`").node, NodeKind::Symbol(ref s) if s == "sym"));
    assert!(matches!(one("42").node, NodeKind::Int(42)));
    assert!(matches!(one("1.5").node, NodeKind::Float(ref s) if s == "1.5"));
    let n = one("  abc");
    assert_eq!((n.index, n.position), (2, (1, 3)));
    assert!(n.hooks.is_empty());
}

#[test]
fn atoms_print_as_they_were_written() {
    for source in ["abc", "42", "0", "1.5", "mk-sym", "+"] {
        let node = one(source);
        assert_eq!(node.to_string(), source);
        let again = one(&node.to_string());
        assert_eq!(again.to_string(), node.to_string());
        assert_eq!(again.node.to_string(), node.node.to_string());
    }
    assert_eq!(one("`sym`").to_string(), "sym");
    assert_eq!(one("007").to_string(), "7");
}

#[test]
fn the_text_of_an_atom_lexes_back_to_its_token() {
    let atoms = vec![
        Token::new_word("abc", (1, 1), 0, 3),
        Token::new_word("mk-sym", (1, 1), 0, 6),
        Token::new_int(0, (1, 1), 0, 1),
        Token::new_int(42, (1, 1), 0, 2),
        Token::new_int(9223372036854775807, (1, 1), 0, 19),
        Token::new_symbol(":", (1, 1), 0, 1),
        Token::new_symbol("\\", (1, 1), 0, 1),
    ];
    for token in atoms {
        let node = Parser::new(vec![token.clone()]).next().unwrap().unwrap();
        let text = node.to_string();
        let back = tokens(&text);
        assert_eq!(back.len(), 1);
        assert_eq!(back[0].kind, token.kind);
        assert_eq!((back[0].index, back[0].position), (0, (1, 1)));
    }
}

#[test]
fn lists_hold_their_elements_in_order() {
    let n = one("(a (b 2) c)");
    assert_eq!(n.to_string(), "(a (b 2) c)");
    match &n.node {
        NodeKind::List(items) => {
            assert_eq!(items.len(), 3);
            assert!(matches!(items[1].node, NodeKind::List(ref inner) if inner.len() == 2));
        }
        _ => panic!("not a list"),
    }
    assert_eq!(one("()").to_string(), "()");
    assert_eq!((n.index, n.position), (0, (1, 1)));
}

#[test]
fn invoke_and_quote_take_a_target() {
    let n = one("[+ 2 3]");
    match &n.node {
        NodeKind::Invoke { target, with } => {
            assert_eq!(target, "+");
            assert_eq!(with.len(), 2);
        }
        _ => panic!("not an invoke"),
    }
    assert_eq!(n.index, 1);
    assert_eq!(n.to_string(), "[+\n   2\n   3\n]");
    let q = one("{return 10}");
    match &q.node {
        NodeKind::Quote { target, with } => {
            assert_eq!(target, "return");
            assert_eq!(with.len(), 1);
        }
        _ => panic!("not a quote"),
    }
    assert_eq!(q.index, 0);
    assert_eq!(q.to_string(), "{return\n   10\n}");
    assert!(matches!(one("[: n]").node, NodeKind::Invoke { ref target, .. } if target == ":"));
}

#[test]
fn several_top_level_values() {
    let nodes = parse("a (b) [c] {d}").unwrap();
    let names: Vec<String> = nodes.iter().map(|n| n.node.to_string()).collect();
    assert_eq!(names, vec!["Word", "List", "Invoke", "Quote"]);
    assert!(parse("").unwrap().is_empty());
}

#[test]
fn next_steps_through_the_values() {
    let mut p = Parser::new(tokens("a 1"));
    assert!(matches!(p.next().unwrap().unwrap().node, NodeKind::Word(_)));
    assert!(matches!(p.next().unwrap().unwrap().node, NodeKind::Int(1)));
    assert!(p.next().is_none());
}

#[test]
fn hooks_are_numbered_and_collected() {
    let n = one("{f a {? x ?} (b {? (y z) ?}) {? 3 ?}}");
    assert_eq!(n.hooks.len(), 3);
    assert_eq!(n.hooks[0].to_string(), "x");
    assert_eq!(n.hooks[1].to_string(), "(y z)");
    assert_eq!(n.hooks[2].to_string(), "3");
    match &n.node {
        NodeKind::Quote { with, .. } => {
            assert!(matches!(with[1].node, NodeKind::LambdaHook(0)));
            assert_eq!(with[1].hooks.len(), 1);
            assert_eq!(with[1].hooks[0].to_string(), "x");
            assert!(matches!(with[3].node, NodeKind::LambdaHook(2)));
            match &with[2].node {
                NodeKind::List(items) => {
                    assert!(matches!(items[1].node, NodeKind::LambdaHook(1)));
                }
                _ => panic!("not a list"),
            }
            assert_eq!(with[2].hooks.len(), 1);
        }
        _ => panic!("not a quote"),
    }
    assert_eq!(
        n.to_string(),
        "{f\n   a\n   {? x ?}\n   (b {? (y z) ?})\n   {? 3 ?}\n}"
    );
}

#[test]
fn every_top_level_value_numbers_its_holes_from_zero() {
    let nodes = parse("({? a ?}) ({? b ?})").unwrap();
    match (&nodes[0].node, &nodes[1].node) {
        (NodeKind::List(first), NodeKind::List(second)) => {
            assert!(matches!(first[0].node, NodeKind::LambdaHook(0)));
            assert!(matches!(second[0].node, NodeKind::LambdaHook(0)));
        }
        _ => panic!("not lists"),
    }
    let mut p = Parser::new(tokens("{f {? a ?}} {g {? b ?}}"));
    assert!(p.next().unwrap().is_ok());
    let q = p.next().unwrap().unwrap();
    match &q.node {
        NodeKind::Quote { target, with } => {
            assert_eq!(target, "g");
            assert_eq!(with.len(), 1);
            assert!(matches!(with[0].node, NodeKind::LambdaHook(0)));
        }
        _ => panic!("not a quote"),
    }
    assert_eq!(q.hooks.len(), 1);
    assert!(matches!(q.hooks[0].node, NodeKind::Word(ref s) if s == "b"));
    assert_eq!(q.to_string(), "{g\n   {? b ?}\n}");
}

#[test]
fn a_quote_numbers_its_holes_against_its_own_hooks() {
    let n = one("{f {? a ?} {g {? b ?} {? c ?}} ({? d ?})}");
    let texts: Vec<String> = n.hooks.iter().map(|h| h.to_string()).collect();
    assert_eq!(texts, vec!["a", "b", "c", "d"]);
    match &n.node {
        NodeKind::Quote { with, .. } => {
            assert!(matches!(with[0].node, NodeKind::LambdaHook(0)));
            let inner = &with[1];
            let inner_texts: Vec<String> = inner.hooks.iter().map(|h| h.to_string()).collect();
            assert_eq!(inner_texts, vec!["b", "c"]);
            match &inner.node {
                NodeKind::Quote { with: inner_with, .. } => {
                    assert!(matches!(inner_with[0].node, NodeKind::LambdaHook(0)));
                    assert!(matches!(inner_with[1].node, NodeKind::LambdaHook(1)));
                }
                _ => panic!("not a quote"),
            }
            match &with[2].node {
                NodeKind::List(items) => {
                    assert!(matches!(items[0].node, NodeKind::LambdaHook(3)));
                    assert_eq!(n.hooks[3].to_string(), items[0].hooks[0].to_string());
                }
                _ => panic!("not a list"),
            }
        }
        _ => panic!("not a quote"),
    }
    assert_eq!(
        n.to_string(),
        "{f\n   {? a ?}\n   {g\n      {? b ?}\n      {? c ?}\n   }\n   ({? d ?})\n}"
    );
}

#[test]
fn the_subtree_of_a_hook_numbers_its_holes_from_zero() {
    let n = one("(x {? y ?} {? ({? a ?} {? b ?}) ?})");
    assert_eq!(n.hooks.len(), 2);
    match &n.node {
        NodeKind::List(items) => {
            assert!(matches!(items[1].node, NodeKind::LambdaHook(0)));
            assert!(matches!(items[2].node, NodeKind::LambdaHook(1)));
        }
        _ => panic!("not a list"),
    }
    let sub = &n.hooks[1];
    assert_eq!(sub.hooks.len(), 2);
    match &sub.node {
        NodeKind::List(items) => {
            assert!(matches!(items[0].node, NodeKind::LambdaHook(0)));
            assert!(matches!(items[1].node, NodeKind::LambdaHook(1)));
        }
        _ => panic!("not a list"),
    }
    assert_eq!(n.to_string(), "(x {? y ?} {? ({? a ?} {? b ?}) ?})");
}

#[test]
fn unterminated_brackets_are_errors() {
    assert_eq!(message("(a b"), "Unterminated list!");
    assert_eq!(message("[f a"), "Unterminated invoke!");
    assert_eq!(message("{f a"), "Unterminated quote!");
    assert_eq!(message("{? a"), "Unterminated unquote!");
    assert_eq!(message("{?"), "Unterminated unquote!");
    assert_eq!(message("{? a b ?}"), "Unterminated unquote!");
}

#[test]
fn errors_carry_the_place_of_what_was_consumed_last() {
    let e = parse("(a b").unwrap_err();
    assert_eq!((e.get_index(), e.get_position()), (3, (1, 4)));
    let e = parse("  (").unwrap_err();
    assert_eq!((e.get_index(), e.get_position()), (2, (1, 3)));
}

#[test]
fn invokes_need_a_name() {
    assert_eq!(message("["), "Incomplete invoke!");
    assert_eq!(message("{"), "Incomplete invoke!");
    assert_eq!(message("[1 2]"), "Invalid function name type!");
    assert_eq!(message("{(a) 2}"), "Invalid function name type!");
}

#[test]
fn stray_closers_are_errors() {
    assert_eq!(message(")"), "Unexpected control token: `)`!");
    assert_eq!(message("]"), "Unexpected control token: `]`!");
    assert_eq!(message("}"), "Unexpected control token: `}`!");
    assert_eq!(message("?}"), "Unexpected control token: `?}`!");
}

#[test]
fn errors_gain_a_layer_per_bracket() {
    assert_eq!(
        message("(a [f {g )}])"),
        "..while parsing list\n| ..while parsing invoke\n| | ..while parsing quote\n| | | Unexpected control token: `)`!"
    );
    assert_eq!(
        message("{? ) ?}"),
        "..while parsing unquote\n| Unexpected control token: `)`!"
    );
}

#[test]
fn node_constructors_fill_every_field() {
    let e = NodeWrapper::empty();
    assert!(matches!(e.node, NodeKind::List(ref v) if v.is_empty()));
    assert_eq!((e.index, e.position), (0, (0, 0)));
    let w = NodeWrapper::new_word("w".to_string(), 1, (2, 3));
    assert_eq!((w.index, w.position), (1, (2, 3)));
    let s = NodeWrapper::new_symbol("s".to_string(), 0, (0, 0));
    let i = NodeWrapper::new_int(-5, 0, (0, 0));
    let f = NodeWrapper::new_float("2.5".to_string(), 0, (0, 0));
    assert_eq!(i.to_string(), "-5");
    assert_eq!(f.to_string(), "2.5");
    let l = NodeWrapper::new_list(vec![w.clone(), s.clone()], vec![], 4, (1, 5));
    assert_eq!(l.to_string(), "(w s)");
    let h = NodeWrapper::new_hook(0, vec![i.clone()], 0, (0, 0));
    assert_eq!(h.to_string(), "{? -5 ?}");
    let q = NodeWrapper::new_quote("f".to_string(), vec![h.clone()], vec![i], 0, (0, 0));
    assert_eq!(q.to_string(), "{f\n   {? -5 ?}\n}");
    let v = NodeWrapper::new_invoke("g".to_string(), vec![l, q], vec![], 0, (0, 0));
    assert_eq!(v.to_string(), "[g\n   (w s)\n   {f\n      {? -5 ?}\n   }\n]");
    assert_eq!(v.node.to_string(), "Invoke");
    assert_eq!(h.node.to_string(), "LambdaHook");
    assert_eq!(f.node.to_string(), "Float");
    assert_eq!(s.node.to_string(), "Symbol");
}

#[test]
fn a_hole_without_its_subtree_prints_empty() {
    let h = NodeWrapper::new_hook(3, vec![], 0, (0, 0));
    assert_eq!(h.to_string(), "{? ?}");
}

#[test]
fn type_descriptors_print_like_signatures() {
    let int = MifulType::Simple("int".to_string());
    let float = MifulType::Simple("float".to_string());
    assert_eq!(int.to_string(), "int");
    assert_eq!(MifulType::Object("string".to_string()).to_string(), "(obj string)");
    assert_eq!(
        MifulType::Tuple(vec![int.clone(), float.clone()]).to_string(),
        "(tuple (int float))"
    );
    assert_eq!(MifulType::List(vec![int.clone()]).to_string(), "(list (int))");
    assert_eq!(
        MifulType::AnyOf(vec![int.clone(), float.clone()]).to_string(),
        "(int | float)"
    );
    assert_eq!(MifulType::Tuple(vec![]).to_string(), "(tuple ))");
    assert_eq!(MifulType::AnyOf(vec![]).to_string(), ")");
    assert_eq!(int, int.clone());
    assert!(int.same(&int.clone()));
    assert!(!int.same(&float));
    assert!(MifulType::Tuple(vec![int.clone()]).same(&MifulType::Tuple(vec![int.clone()])));
    assert!(!MifulType::Tuple(vec![int.clone()]).same(&MifulType::List(vec![int])));
}
