use miful::parsing::lexer::Lexer;
use miful::parsing::token::{Token, TokenType};
use miful::parsing::utils::{segment_text, Error, MifulError};

fn symbols() -> Vec<&'static str> {
    vec![":", "@", "&", "|", "#", "~", "?", "\\"]
}

fn lex(source: &str) -> Vec<Token> {
    Lexer::new(segment_text(source), symbols()).tokens().unwrap()
}

fn kinds(source: &str) -> Vec<TokenType> {
    lex(source).into_iter().map(|t| t.kind).collect()
}

fn control(s: &str) -> TokenType {
    TokenType::Control(s.to_string())
}

fn word(s: &str) -> TokenType {
    TokenType::Word(s.to_string())
}

fn symbol(s: &str) -> TokenType {
    TokenType::Symbol(s.to_string())
}

#[test]
fn lexes_an_invoke() {
    assert_eq!(
        kinds("[+ 2 3]"),
        vec![control("["), word("+"), TokenType::Int(2), TokenType::Int(3), control("]")]
    );
}

#[test]
fn lexes_every_bracket() {
    assert_eq!(
        kinds("( ) [ ] { } {? ?}"),
        vec![
            control("("),
            control(")"),
            control("["),
            control("]"),
            control("{"),
            control("}"),
            control("{?"),
            control("?}")
        ]
    );
}

#[test]
fn two_grapheme_controls_win_over_single_braces() {
    assert_eq!(kinds("{?a?}"), vec![control("{?"), word("a"), control("?}")]);
    assert_eq!(kinds("{a}"), vec![control("{"), word("a"), control("}")]);
    assert_eq!(kinds("{"), vec![control("{")]);
    assert_eq!(kinds("{{?"), vec![control("{"), control("{?")]);
}

#[test]
fn lexes_literals() {
    assert_eq!(kinds("12"), vec![TokenType::Int(12)]);
    assert_eq!(kinds("007"), vec![TokenType::Int(7)]);
    assert_eq!(kinds("1.5"), vec![TokenType::Float("1.5".to_string())]);
    assert_eq!(kinds("1."), vec![TokenType::Float("1.".to_string())]);
    assert_eq!(kinds(".5"), vec![TokenType::Float(".5".to_string())]);
    assert_eq!(kinds("."), vec![word(".")]);
    assert_eq!(kinds("1.2.3"), vec![word("1.2.3")]);
    assert_eq!(kinds("abc"), vec![word("abc")]);
    assert_eq!(kinds("a1"), vec![word("a1")]);
    assert_eq!(kinds("mk-sym"), vec![word("mk-sym")]);
    assert_eq!(kinds("`hello`"), vec![symbol("hello")]);
    assert_eq!(kinds("`_obj`"), vec![symbol("_obj")]);
}

#[test]
fn symbol_characters_stand_alone() {
    assert_eq!(kinds(":n"), vec![symbol(":"), word("n")]);
    assert_eq!(kinds("a|b"), vec![word("a"), symbol("|"), word("b")]);
    assert_eq!(kinds("@"), vec![symbol("@")]);
    assert_eq!(kinds("? x"), vec![symbol("?"), word("x")]);
    assert_eq!(kinds("\\"), vec![symbol("\\")]);
}

#[test]
fn tokens_carry_index_position_and_span() {
    let tokens = lex("ab (12\n  c)");
    let places: Vec<(usize, (usize, usize), usize)> =
        tokens.iter().map(|t| (t.index, t.position, t.span)).collect();
    assert_eq!(
        places,
        vec![
            (0, (1, 1), 2),
            (3, (1, 4), 1),
            (4, (1, 5), 2),
            (9, (2, 3), 1),
            (10, (2, 4), 1)
        ]
    );
}

#[test]
fn token_indices_increase() {
    let tokens = lex("[define sq ((n int)) {* [:n] [:n]}] [sq 7]");
    for pair in tokens.windows(2) {
        assert!(pair[0].index < pair[1].index);
        assert!(pair[0].index + pair[0].span <= pair[1].index);
    }
}

#[test]
fn next_yields_tokens_one_by_one() {
    let mut lexer = Lexer::new(segment_text("a 1"), symbols());
    assert_eq!(lexer.next().unwrap().unwrap().kind, word("a"));
    assert_eq!(lexer.next().unwrap().unwrap().kind, TokenType::Int(1));
    assert!(lexer.next().is_none());
    assert!(lexer.next().is_none());
}

#[test]
fn empty_and_blank_inputs_have_no_tokens() {
    assert!(lex("").is_empty());
    assert!(lex("  \n\t\r ").is_empty());
}

#[test]
fn an_integer_that_does_not_fit_is_an_invalid_literal() {
    let source = "(1 99999999999999999999)";
    let result = Lexer::new(segment_text(source), symbols()).tokens();
    let e = result.unwrap_err();
    assert!(matches!(e, MifulError::Parsing(_)));
    assert_eq!(e.get_message(), "Invalid literal!");
    assert_eq!(e.get_index(), 3);
    assert_eq!(e.get_position(), (1, 4));
    assert_eq!(e.get_source().len(), source.len());
    assert_eq!(
        kinds("9223372036854775807"),
        vec![TokenType::Int(9223372036854775807)]
    );
    assert!(Lexer::new(segment_text("9223372036854775808"), symbols()).tokens().is_err());
}

#[test]
fn preserved_whitespace_is_a_symbol() {
    let tokens = Lexer::new_ws_preserving(segment_text("ab cd\n"), symbols()).tokens().unwrap();
    let kinds: Vec<TokenType> = tokens.into_iter().map(|t| t.kind).collect();
    assert_eq!(kinds, vec![symbol("ab"), symbol(" "), symbol("cd"), symbol("\n")]);
}

#[test]
fn preserved_whitespace_keeps_brackets_and_ends_without_newline() {
    let tokens = Lexer::new_ws_preserving(segment_text("[x] y"), symbols()).tokens().unwrap();
    let kinds: Vec<TokenType> = tokens.into_iter().map(|t| t.kind).collect();
    assert_eq!(
        kinds,
        vec![symbol("["), symbol("x"), symbol("]"), symbol(" "), symbol("y")]
    );
}

#[test]
fn custom_symbols_are_honoured() {
    let tokens = Lexer::new(segment_text("a.b"), vec!["."]).tokens().unwrap();
    let kinds: Vec<TokenType> = tokens.into_iter().map(|t| t.kind).collect();
    assert_eq!(kinds, vec![word("a"), symbol("."), word("b")]);
}

#[test]
fn token_constructors_fill_every_field() {
    let t = Token::new_control("(", (1, 2), 3, 1);
    assert_eq!(t.kind, control("("));
    assert_eq!((t.position, t.index, t.span), ((1, 2), 3, 1));
    assert_eq!(Token::new_word("w", (1, 1), 0, 1).kind, word("w"));
    assert_eq!(Token::new_symbol("s", (1, 1), 0, 1).kind, symbol("s"));
    assert_eq!(Token::new_int(-4, (1, 1), 0, 2).kind, TokenType::Int(-4));
    assert_eq!(
        Token::new_float("2.5", (1, 1), 0, 3).kind,
        TokenType::Float("2.5".to_string())
    );
    let c = t.clone();
    assert_eq!(c.kind, t.kind);
}
