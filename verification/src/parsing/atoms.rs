//! Round trip of atoms: the text that an atom is written as is lexed back to
//! the token that the atom was parsed from.
//!
//! [`crate::parsing::parser::lemma_atom_round_trip`] gives the first half:
//! an atom token is parsed to its node, and the node is written as the
//! payload of the token.  The lemmas here give the second half for words,
//! integers that are not negative, and symbol characters: whatever way that
//! text is cut into graphemes, as long as no grapheme is empty, the lexer
//! finds exactly one token in it, of the same kind and with the same
//! payload.

use crate::parsing::lexer::{
    classify, is_digit_grapheme, is_float, is_int, is_literal, is_plain_control, is_special,
    is_symbol, is_word, is_word_symbol, is_ws, lex, lex_all, lex_step, literal, scan, skip_ws,
    LexemeView, LexerView,
};
use crate::parsing::text::{concat, digit_char, digit_value, digits_number, is_digit_char, nat_text};
use crate::parsing::token::{TokenTypeView, TokenView};
use vstd::prelude::*;

verus! {

/// One of the six characters that brackets are made of.
pub open spec fn is_bracket_char(c: char) -> bool {
    c == '[' || c == ']' || c == '{' || c == '}' || c == '(' || c == ')'
}

/// Whether a text holds no bracket character.
pub open spec fn no_brackets(t: Seq<char>) -> bool {
    forall|j: int| 0 <= j < t.len() ==> !is_bracket_char(#[trigger] t[j])
}

/// The one token that a whole input is.
pub open spec fn single_token(kind: TokenTypeView, source: Seq<Seq<char>>) -> Seq<TokenView> {
    seq![TokenView { kind, position: (1, 1), index: 0, span: source.len() as usize }]
}

/// Texts without brackets give a text without brackets.
proof fn lemma_concat_no_brackets(w: Seq<Seq<char>>)
    requires
        forall|i: int| 0 <= i < w.len() ==> no_brackets(#[trigger] w[i]),
    ensures
        no_brackets(concat(w)),
    decreases w.len(),
{
    if w.len() > 0 {
        lemma_concat_no_brackets(w.drop_last());
        let before = concat(w.drop_last());
        assert forall|j: int| 0 <= j < concat(w).len() implies !is_bracket_char(
            #[trigger] concat(w)[j],
        ) by {
            if j < before.len() {
                assert(concat(w)[j] == before[j]);
            } else {
                assert(concat(w)[j] == w.last()[j - before.len()]);
            }
        }
    }
}

/// A text without brackets is no bracket token and does not start with a
/// brace.
proof fn lemma_no_control(t: Seq<char>)
    requires
        no_brackets(t),
    ensures
        !is_plain_control(t),
        t != "{"@,
        !(t.len() > 0 && t[0] == '{'),
{
    reveal_strlit("[");
    reveal_strlit("]");
    reveal_strlit("}");
    reveal_strlit("{?");
    reveal_strlit("?}");
    reveal_strlit("(");
    reveal_strlit(")");
    reveal_strlit("{");
    if t.len() > 0 {
        assert(!is_bracket_char(t[0]));
    }
    if t.len() > 1 {
        assert(!is_bracket_char(t[1]));
    }
}

/// Whether the lexer lets the first `k` graphemes of the input grow on: they
/// are no bracket token, start with no brace, and are a literal.
pub open spec fn grows(symbols: Seq<Seq<char>>, source: Seq<Seq<char>>, k: int) -> bool {
    let w = source.subrange(0, k);
    &&& !is_plain_control(concat(w))
    &&& concat(w) != "{"@
    &&& !(concat(w).len() > 0 && concat(w)[0] == '{')
    &&& is_literal(symbols, false, w)
}

/// Where every window from `span` graphemes on grows, the lexer reads the
/// whole input as one literal.
proof fn lemma_scan_runs_to_end(symbols: Seq<Seq<char>>, source: Seq<Seq<char>>, span: nat)
    requires
        1 <= span <= source.len(),
        forall|k: int| span <= k <= source.len() ==> grows(symbols, source, k),
    ensures
        scan(symbols, false, source, 0, span) == literal(symbols, false, source),
    decreases source.len() - span,
{
    assert(grows(symbols, source, span as int));
    if span < source.len() {
        lemma_scan_runs_to_end(symbols, source, span + 1);
    } else {
        assert(source.subrange(0, span as int) =~= source);
    }
}

/// An input that the lexer reads as one literal, and that does not start
/// with whitespace, gives exactly that token.
proof fn lemma_one_token(symbols: Seq<Seq<char>>, source: Seq<Seq<char>>, kind: TokenTypeView)
    requires
        1 <= source.len() <= usize::MAX,
        !is_ws(source[0]),
        scan(symbols, false, source, 0, 1) == LexemeView::Found(kind, source.len() as usize),
    ensures
        lex(source, symbols, false) == Ok::<_, crate::parsing::utils::MifulErrorView>(
            single_token(kind, source),
        ),
{
    let start = LexerView { source, symbols, keep_ws: false, index: 0, position: (1, 1) };
    assert(skip_ws(source, 0, (1, 1)) == (0nat, (1usize, 1usize)));
    let (item, next) = lex_step(start);
    let t = TokenView { kind, position: (1, 1), index: 0, span: source.len() as usize };
    assert(item == Some(Ok::<_, crate::parsing::utils::MifulErrorView>(t)));
    assert(next.index == source.len());
    assert(skip_ws(source, next.index as nat, next.position) == (
        next.index as nat,
        next.position,
    ));
    assert(lex_step(next).0 is None);
    let done = Seq::<TokenView>::empty().push(t);
    assert(done =~= single_token(kind, source));
    assert(lex_all(next, done) == Ok::<_, crate::parsing::utils::MifulErrorView>(done));
}

/// A word is lexed back as that word.
///
/// `source` is the text of the word, cut into graphemes in any way that
/// leaves none empty.  The word holds no bracket, no whitespace and no
/// symbol character, and no backtick at both ends; it is no symbol of the
/// lexer and has the shape of no number.
pub proof fn lemma_word_lexes_back(symbols: Seq<Seq<char>>, source: Seq<Seq<char>>)
    requires
        1 <= source.len() <= usize::MAX,
        forall|i: int| 0 <= i < source.len() ==> (#[trigger] source[i]).len() > 0,
        forall|i: int| 0 <= i < source.len() ==> no_brackets(#[trigger] source[i]),
        is_word(symbols, source),
        !is_int(source),
        !is_float(source),
        !is_word_symbol(source),
        !symbols.contains(concat(source)),
    ensures
        lex(source, symbols, false) == Ok::<_, crate::parsing::utils::MifulErrorView>(
            single_token(TokenTypeView::Word(concat(source)), source),
        ),
{
    assert forall|k: int| 1 <= k <= source.len() implies grows(symbols, source, k) by {
        let w = source.subrange(0, k);
        assert forall|i: int| 0 <= i < w.len() implies no_brackets(#[trigger] w[i]) by {
            assert(w[i] == source[i]);
        }
        lemma_concat_no_brackets(w);
        lemma_no_control(concat(w));
        assert forall|i: int| 0 <= i < w.len() implies !is_special(symbols, #[trigger] w[i]) by {
            assert(w[i] == source[i]);
        }
    }
    lemma_scan_runs_to_end(symbols, source, 1);
    assert(!is_special(symbols, source[0]));
    lemma_one_token(symbols, source, TokenTypeView::Word(concat(source)));
}

/// The digits of a number denote that number.
pub proof fn lemma_digits_of_number(n: nat)
    ensures
        digits_number(nat_text(n)) == n,
        nat_text(n).len() >= 1,
        forall|j: int| 0 <= j < nat_text(n).len() ==> is_digit_char(#[trigger] nat_text(n)[j]),
    decreases n,
{
    if n < 10 {
        let t = nat_text(n);
        assert(t.drop_last() =~= Seq::<char>::empty());
        assert(digits_number(t.drop_last()) == 0);
        assert(t.last() == digit_char(n));
        assert(digit_value(digit_char(n)) == n);
    } else {
        lemma_digits_of_number(n / 10);
        let t = nat_text(n);
        assert(t.drop_last() =~= nat_text(n / 10));
        assert(t.last() == digit_char(n % 10));
        assert(digit_value(digit_char(n % 10)) == n % 10);
        assert forall|j: int| 0 <= j < t.len() implies is_digit_char(#[trigger] t[j]) by {
            if j < t.len() - 1 {
                assert(t[j] == nat_text(n / 10)[j]);
            }
        }
    }
}

/// A digit is no bracket and no whitespace.
proof fn lemma_digit_grapheme(g: Seq<char>)
    requires
        is_digit_grapheme(g),
    ensures
        no_brackets(g),
        !is_ws(g),
{
    reveal_strlit(" ");
    reveal_strlit("\n");
    reveal_strlit("\t");
    reveal_strlit("\r");
    let d = choose|d: nat| d < 10 && g[0] == #[trigger] digit_char(d);
    assert(!is_bracket_char(g[0]));
    assert(" "@[0] == ' ' && "\n"@[0] == '\n' && "\t"@[0] == '\t' && "\r"@[0] == '\r');
}

/// An integer that is not negative is lexed back as that integer.
///
/// `source` holds the decimal digits of the integer, one digit a grapheme.
pub proof fn lemma_integer_lexes_back(symbols: Seq<Seq<char>>, source: Seq<Seq<char>>, value: i64)
    requires
        0 <= value,
        1 <= source.len() <= usize::MAX,
        is_int(source),
        concat(source) == nat_text(value as nat),
        !symbols.contains(concat(source)),
    ensures
        lex(source, symbols, false) == Ok::<_, crate::parsing::utils::MifulErrorView>(
            single_token(TokenTypeView::Int(value), source),
        ),
{
    lemma_digits_of_number(value as nat);
    assert forall|k: int| 1 <= k <= source.len() implies grows(symbols, source, k) by {
        let w = source.subrange(0, k);
        assert forall|i: int| 0 <= i < w.len() implies no_brackets(#[trigger] w[i]) by {
            assert(w[i] == source[i]);
            lemma_digit_grapheme(source[i]);
        }
        lemma_concat_no_brackets(w);
        lemma_no_control(concat(w));
        assert forall|i: int| 0 <= i < w.len() implies is_digit_grapheme(#[trigger] w[i]) by {
            assert(w[i] == source[i]);
        }
        assert(is_int(w));
    }
    lemma_scan_runs_to_end(symbols, source, 1);
    lemma_digit_grapheme(source[0]);
    assert(classify(symbols, false, source) == Some(TokenTypeView::Int(value)));
    lemma_one_token(symbols, source, TokenTypeView::Int(value));
}

/// A symbol character is lexed back as that symbol.
///
/// The input is the one grapheme of the symbol; it is one of the symbols of
/// the lexer, and neither whitespace nor a bracket.
pub proof fn lemma_symbol_lexes_back(symbols: Seq<Seq<char>>, c: Seq<char>)
    requires
        symbols.contains(c),
        !is_ws(c),
        !is_plain_control(c),
        no_brackets(c),
    ensures
        lex(seq![c], symbols, false) == Ok::<_, crate::parsing::utils::MifulErrorView>(
            single_token(TokenTypeView::Symbol(c), seq![c]),
        ),
{
    let source = seq![c];
    assert(source.subrange(0, 1) =~= source);
    assert(source.drop_last() =~= Seq::<Seq<char>>::empty());
    assert(concat(source.drop_last()) =~= Seq::<char>::empty());
    assert(concat(source) =~= c);
    lemma_no_control(c);
    assert(is_symbol(symbols, false, concat(source)));
    assert(grows(symbols, source, 1));
    lemma_scan_runs_to_end(symbols, source, 1);
    lemma_one_token(symbols, source, TokenTypeView::Symbol(c));
}

} // verus!
