//! The lexer: from grapheme clusters to tokens.
//!
//! The lexer looks at a window of graphemes that starts at the current
//! index and grows one grapheme at a time for as long as the window is still
//! a literal.  What it emits for a window is given by [`scan`]; one step of
//! the lexer is [`lex_step`], and the whole token stream is [`lex_all`].

use crate::parsing::text::{
    concat, concat_range, digits_number, is_digit, is_digit_char, own_texts, parse_digits,
    same_text, slice_texts, texts,
};
use crate::parsing::token::{Token, TokenType, TokenTypeView, TokenView, token_views};
use crate::parsing::utils::{fresh_error, MifulError, MifulErrorView};
use vstd::prelude::*;
use vstd::string::*;

verus! {

/// Space, newline, tab or carriage return.
pub open spec fn is_ws(g: Seq<char>) -> bool {
    g == " "@ || g == "\n"@ || g == "\t"@ || g == "\r"@
}

/// One of the bracket tokens that are emitted as soon as they are seen.
pub open spec fn is_plain_control(t: Seq<char>) -> bool {
    t == "["@ || t == "]"@ || t == "}"@ || t == "{?"@ || t == "?}"@ || t == "("@ || t == ")"@
}

/// A grapheme that cannot be part of a word: a bracket, whitespace, or one of
/// the symbol characters.
pub open spec fn is_special(symbols: Seq<Seq<char>>, g: Seq<char>) -> bool {
    is_plain_control(g) || g == "{"@ || is_ws(g) || symbols.contains(g)
}

/// A single decimal digit.
pub open spec fn is_digit_grapheme(g: Seq<char>) -> bool {
    g.len() == 1 && is_digit_char(g[0])
}

/// A run of graphemes none of which is special.
pub open spec fn is_word(symbols: Seq<Seq<char>>, w: Seq<Seq<char>>) -> bool {
    forall|i: int| 0 <= i < w.len() ==> !is_special(symbols, #[trigger] w[i])
}

/// A run of digits.
pub open spec fn is_int(w: Seq<Seq<char>>) -> bool {
    forall|i: int| 0 <= i < w.len() ==> is_digit_grapheme(#[trigger] w[i])
}

/// Digits around exactly one dot, with at least one digit.
pub open spec fn is_float(w: Seq<Seq<char>>) -> bool {
    w.len() >= 2 && exists|d: int| dot_among_digits(w, d)
}

/// The grapheme at `d` is a dot and all the others are digits.
pub open spec fn dot_among_digits(w: Seq<Seq<char>>, d: int) -> bool {
    &&& 0 <= d < w.len()
    &&& w[d] == "."@
    &&& forall|i: int| 0 <= i < w.len() && i != d ==> is_digit_grapheme(#[trigger] w[i])
}

/// Digits and at most one dot, with at least one of either: what may still
/// grow into a number.
pub open spec fn is_number_prefix(w: Seq<Seq<char>>) -> bool {
    is_int(w) || exists|d: int| dot_among_digits(w, d)
}

/// A run between two backticks.
pub open spec fn is_word_symbol(w: Seq<Seq<char>>) -> bool {
    w.len() >= 2 && w.first() == "`"@ && w.last() == "`"@
}

/// The window is one of the symbols of this lexer.  When whitespace is
/// preserved, the whitespace graphemes are symbols as well.
pub open spec fn is_symbol(symbols: Seq<Seq<char>>, keep_ws: bool, t: Seq<char>) -> bool {
    symbols.contains(t) || (keep_ws && is_ws(t))
}

/// A window that may be emitted as a literal, or still grow into one.
pub open spec fn is_literal(symbols: Seq<Seq<char>>, keep_ws: bool, w: Seq<Seq<char>>) -> bool {
    is_word(symbols, w) || is_number_prefix(w) || is_symbol(symbols, keep_ws, concat(w))
}

/// What the lexer found in a window: a token kind and how many graphemes it
/// covers, or nothing that it knows.
pub enum LexemeView {
    Found(TokenTypeView, usize),
    Invalid,
}

/// The literal that a finished window is, in order of precedence: a symbol
/// character, an integer, a float, a backticked symbol, a word.  An integer
/// that does not fit in 64 bits, and a window that is none of these, is
/// invalid.
pub open spec fn classify(symbols: Seq<Seq<char>>, keep_ws: bool, w: Seq<Seq<char>>) -> Option<
    TokenTypeView,
> {
    let joint = concat(w);
    if w.len() == 0 {
        None
    } else if is_symbol(symbols, keep_ws, joint) {
        Some(TokenTypeView::Symbol(joint))
    } else if is_int(w) {
        if digits_number(joint) <= i64::MAX {
            Some(TokenTypeView::Int(digits_number(joint) as i64))
        } else {
            None
        }
    } else if is_float(w) {
        Some(TokenTypeView::Float(joint))
    } else if is_word_symbol(w) {
        Some(TokenTypeView::Symbol(concat(w.subrange(1, w.len() - 1))))
    } else if is_word(symbols, w) {
        Some(TokenTypeView::Word(joint))
    } else {
        None
    }
}

/// The literal of a finished window together with its length.
pub open spec fn literal(symbols: Seq<Seq<char>>, keep_ws: bool, w: Seq<Seq<char>>) -> LexemeView {
    match classify(symbols, keep_ws, w) {
        Some(kind) => LexemeView::Found(kind, w.len() as usize),
        None => LexemeView::Invalid,
    }
}

/// What the lexer emits for the window of `span` graphemes at `start`,
/// letting the window grow while it may.
///
/// With whitespace skipped: a bracket is emitted at once, except that `{`
/// waits for one more grapheme to see whether it is `{?`; a literal grows
/// until the input ends or one more grapheme would spoil it, and then the
/// last good window is emitted.  With whitespace preserved, words grow in the
/// same way and everything is emitted as a symbol.
pub open spec fn scan(
    symbols: Seq<Seq<char>>,
    keep_ws: bool,
    source: Seq<Seq<char>>,
    start: nat,
    span: nat,
) -> LexemeView
    decreases source.len() - start - span,
{
    if span < 1 || start + span > source.len() {
        LexemeView::Invalid
    } else {
        let w = source.subrange(start as int, (start + span) as int);
        let joint = concat(w);
        let at_end = start + span >= source.len();
        if keep_ws {
            if is_word(symbols, w) {
                if at_end {
                    LexemeView::Found(TokenTypeView::Symbol(joint), span as usize)
                } else {
                    scan(symbols, keep_ws, source, start, span + 1)
                }
            } else if span > 1 && is_word(symbols, w.drop_last()) {
                LexemeView::Found(TokenTypeView::Symbol(concat(w.drop_last())), (span - 1) as usize)
            } else {
                LexemeView::Found(TokenTypeView::Symbol(joint), span as usize)
            }
        } else if is_plain_control(joint) {
            LexemeView::Found(TokenTypeView::Control(joint), span as usize)
        } else if joint == "{"@ {
            if at_end {
                LexemeView::Found(TokenTypeView::Control(joint), span as usize)
            } else {
                scan(symbols, keep_ws, source, start, span + 1)
            }
        } else if span > 1 && joint.len() > 0 && joint[0] == '{' {
            LexemeView::Found(TokenTypeView::Control("{"@), (span - 1) as usize)
        } else if is_literal(symbols, keep_ws, w) {
            if at_end {
                literal(symbols, keep_ws, w)
            } else {
                scan(symbols, keep_ws, source, start, span + 1)
            }
        } else if span > 1 {
            literal(symbols, keep_ws, w.drop_last())
        } else {
            LexemeView::Invalid
        }
    }
}

/// `x` moved on by `by`, as far as the machine can count.
pub open spec fn moved(x: usize, by: usize) -> usize {
    if x <= usize::MAX - by {
        (x + by) as usize
    } else {
        usize::MAX
    }
}

/// Where the lexer stands after the whitespace that starts at `index`: each
/// newline starts a new line at column 1, every other grapheme moves one
/// column on.
pub open spec fn skip_ws(source: Seq<Seq<char>>, index: nat, position: (usize, usize)) -> (
    nat,
    (usize, usize),
)
    decreases source.len() - index,
{
    if index < source.len() && is_ws(source[index as int]) {
        skip_ws(
            source,
            index + 1,
            if source[index as int] == "\n"@ {
                (moved(position.0, 1), 1)
            } else {
                (position.0, moved(position.1, 1))
            },
        )
    } else {
        (index, position)
    }
}

/// The lexer as plain mathematical data.
pub struct LexerView {
    pub source: Seq<Seq<char>>,
    pub symbols: Seq<Seq<char>>,
    pub keep_ws: bool,
    pub index: usize,
    pub position: (usize, usize),
}

/// One step of the lexer: the next token, an error, or nothing when the
/// input is used up; and the lexer afterwards.  After an error the lexer is
/// at the end of its input.
pub open spec fn lex_step(l: LexerView) -> (Option<Result<TokenView, MifulErrorView>>, LexerView) {
    let (index, position) = if l.keep_ws {
        (l.index as nat, l.position)
    } else {
        skip_ws(l.source, l.index as nat, l.position)
    };
    if index >= l.source.len() {
        (None, LexerView { index: index as usize, position, ..l })
    } else {
        match scan(l.symbols, l.keep_ws, l.source, index, 1) {
            LexemeView::Found(kind, span) => (
                Some(Ok(TokenView { kind, position, index: index as usize, span })),
                LexerView {
                    index: (index + span) as usize,
                    position: (position.0, moved(position.1, span)),
                    ..l
                },
            ),
            LexemeView::Invalid => (
                Some(
                    Err(
                        MifulErrorView::Parsing(
                            fresh_error("Invalid literal!"@, l.source, index as usize, position),
                        ),
                    ),
                ),
                LexerView { index: l.source.len() as usize, position, ..l },
            ),
        }
    }
}

/// All the tokens from `l` on, behind those of `done`; or the first error.
pub open spec fn lex_all(l: LexerView, done: Seq<TokenView>) -> Result<Seq<TokenView>, MifulErrorView>
    decreases l.source.len() - l.index,
{
    let (item, next) = lex_step(l);
    match item {
        None => Ok(done),
        Some(Err(e)) => Err(e),
        Some(Ok(t)) => {
            if l.index < next.index <= next.source.len() && next.source.len() == l.source.len() {
                lex_all(next, done.push(t))
            } else {
                Ok(done.push(t))
            }
        },
    }
}

/// What a lexer gives for a whole input: its tokens, or the first error.
pub open spec fn lex(source: Seq<Seq<char>>, symbols: Seq<Seq<char>>, keep_ws: bool) -> Result<
    Seq<TokenView>,
    MifulErrorView,
> {
    lex_all(LexerView { source, symbols, keep_ws, index: 0, position: (1, 1) }, Seq::empty())
}

/// A window that was found is never empty and lies within the input.
pub proof fn lemma_scan_span(
    symbols: Seq<Seq<char>>,
    keep_ws: bool,
    source: Seq<Seq<char>>,
    start: nat,
    span: nat,
)
    requires
        1 <= span,
        start + span <= source.len() <= usize::MAX,
    ensures
        scan(symbols, keep_ws, source, start, span) matches LexemeView::Found(_, n) ==> 1 <= n
            && start + n <= source.len(),
    decreases source.len() - start - span,
{
    if start + span < source.len() {
        lemma_scan_span(symbols, keep_ws, source, start, span + 1);
    }
}

pub struct Lexer {
    position: (usize, usize),
    index: usize,
    string: Vec<String>,
    symbols: Vec<String>,
    keep_ws: bool,
}

enum Lexeme {
    Found(TokenType, usize),
    Invalid,
}

impl View for Lexeme {
    type V = LexemeView;

    closed spec fn view(&self) -> LexemeView {
        match self {
            Lexeme::Found(kind, span) => LexemeView::Found(kind@, *span),
            Lexeme::Invalid => LexemeView::Invalid,
        }
    }
}

impl View for Lexer {
    type V = LexerView;

    closed spec fn view(&self) -> LexerView {
        LexerView {
            source: texts(self.string@),
            symbols: texts(self.symbols@),
            keep_ws: self.keep_ws,
            index: self.index,
            position: self.position,
        }
    }
}

/// Whether `list` holds the text `t`.
fn holds_text(list: &Vec<String>, t: &str) -> (b: bool)
    ensures
        b == texts(list@).contains(t@),
{
    let mut i: usize = 0;
    while i < list.len()
        invariant
            i <= list.len(),
            forall|k: int| 0 <= k < i ==> texts(list@)[k] != t@,
        decreases list.len() - i,
    {
        if same_text(list[i].as_str(), t) {
            assert(texts(list@)[i as int] == t@);
            return true;
        }
        i += 1;
    }
    false
}

fn move_on(x: usize, by: usize) -> (r: usize)
    ensures
        r == moved(x, by),
{
    if x <= usize::MAX - by {
        x + by
    } else {
        usize::MAX
    }
}

fn check_ws(g: &str) -> (b: bool)
    ensures
        b == is_ws(g@),
{
    same_text(g, " ") || same_text(g, "\n") || same_text(g, "\t") || same_text(g, "\r")
}

fn check_plain_control(t: &str) -> (b: bool)
    ensures
        b == is_plain_control(t@),
{
    same_text(t, "[") || same_text(t, "]") || same_text(t, "}") || same_text(t, "{?") || same_text(
        t,
        "?}",
    ) || same_text(t, "(") || same_text(t, ")")
}

impl Lexer {
    #[verifier::type_invariant]
    spec fn within_input(self) -> bool {
        self.index <= self.string.len()
    }

    /// A lexer at the start of `input` that skips whitespace.
    pub fn new(input: Vec<&str>, symbols: Vec<&str>) -> (r: Lexer)
        ensures
            r@ == (LexerView {
                source: slice_texts(input@),
                symbols: slice_texts(symbols@),
                keep_ws: false,
                index: 0,
                position: (1, 1),
            }),
    {
        Lexer {
            position: (1, 1),
            index: 0,
            string: own_texts(&input),
            symbols: own_texts(&symbols),
            keep_ws: false,
        }
    }

    /// A lexer at the start of `input` for which whitespace graphemes are
    /// symbols like any other.
    pub fn new_ws_preserving(input: Vec<&str>, symbols: Vec<&str>) -> (r: Lexer)
        ensures
            r@ == (LexerView {
                source: slice_texts(input@),
                symbols: slice_texts(symbols@),
                keep_ws: true,
                index: 0,
                position: (1, 1),
            }),
    {
        Lexer {
            position: (1, 1),
            index: 0,
            string: own_texts(&input),
            symbols: own_texts(&symbols),
            keep_ws: true,
        }
    }

    fn is_special(&self, g: &str) -> (b: bool)
        ensures
            b == is_special(self@.symbols, g@),
    {
        check_plain_control(g) || same_text(g, "{") || check_ws(g) || holds_text(&self.symbols, g)
    }

    fn is_symbol(&self, t: &str) -> (b: bool)
        ensures
            b == is_symbol(self@.symbols, self@.keep_ws, t@),
    {
        holds_text(&self.symbols, t) || (self.keep_ws && check_ws(t))
    }

    fn is_word(&self, from: usize, to: usize) -> (b: bool)
        requires
            from <= to <= self@.source.len(),
        ensures
            b == is_word(self@.symbols, self@.source.subrange(from as int, to as int)),
    {
        let ghost w = self@.source.subrange(from as int, to as int);
        let mut i: usize = from;
        while i < to
            invariant
                from <= i <= to <= self.string.len(),
                w == self@.source.subrange(from as int, to as int),
                forall|k: int| 0 <= k < i - from ==> !is_special(self@.symbols, #[trigger] w[k]),
            decreases to - i,
        {
            if self.is_special(self.string[i].as_str()) {
                assert(w[i - from] == self.string@[i as int]@);
                return false;
            }
            assert(w[i - from] == self.string@[i as int]@);
            i += 1;
        }
        true
    }

    fn is_int(&self, from: usize, to: usize) -> (b: bool)
        requires
            from <= to <= self@.source.len(),
        ensures
            b == is_int(self@.source.subrange(from as int, to as int)),
    {
        let ghost w = self@.source.subrange(from as int, to as int);
        let mut i: usize = from;
        while i < to
            invariant
                from <= i <= to <= self.string.len(),
                w == self@.source.subrange(from as int, to as int),
                forall|k: int| 0 <= k < i - from ==> is_digit_grapheme(#[trigger] w[k]),
            decreases to - i,
        {
            assert(w[i - from] == self.string@[i as int]@);
            if !is_digit(self.string[i].as_str()) {
                return false;
            }
            i += 1;
        }
        true
    }

    /// Whether the window holds one dot and otherwise digits.
    fn has_dot_among_digits(&self, from: usize, to: usize) -> (b: bool)
        requires
            from <= to <= self@.source.len(),
        ensures
            b == exists|d: int| dot_among_digits(self@.source.subrange(from as int, to as int), d),
    {
        let ghost w = self@.source.subrange(from as int, to as int);
        proof {
            reveal_strlit(".");
            assert(!is_digit_grapheme("."@));
        }
        let mut dot: usize = to;
        let mut i: usize = from;
        while i < to
            invariant
                from <= i <= to <= self.string.len(),
                w == self@.source.subrange(from as int, to as int),
                dot == to || (from <= dot < i && w[dot - from] == "."@),
                !is_digit_grapheme("."@),
                forall|k: int|
                    0 <= k < i - from && k != dot - from ==> is_digit_grapheme(#[trigger] w[k]),
            decreases to - i,
        {
            let g = self.string[i].as_str();
            assert(w[i - from] == g@);
            if same_text(g, ".") {
                if dot != to {
                    assert forall|d: int| !dot_among_digits(w, d) by {
                        if dot_among_digits(w, d) {
                            if d == dot - from {
                                assert(is_digit_grapheme(w[i - from]));
                            } else {
                                assert(is_digit_grapheme(w[dot - from]));
                            }
                        }
                    }
                    return false;
                }
                dot = i;
            } else if !is_digit(g) {
                assert forall|d: int| !dot_among_digits(w, d) by {
                    if dot_among_digits(w, d) {
                        if d != i - from {
                            assert(is_digit_grapheme(w[i - from]));
                        }
                    }
                }
                return false;
            }
            i += 1;
        }
        if dot == to {
            assert forall|d: int| !dot_among_digits(w, d) by {
                if dot_among_digits(w, d) {
                    assert(is_digit_grapheme(w[d]));
                }
            }
            false
        } else {
            assert(dot_among_digits(w, dot - from));
            true
        }
    }

    fn is_literal(&self, from: usize, to: usize) -> (b: bool)
        requires
            from <= to <= self@.source.len(),
        ensures
            b == is_literal(
                self@.symbols,
                self@.keep_ws,
                self@.source.subrange(from as int, to as int),
            ),
    {
        if self.is_word(from, to) || self.is_int(from, to) || self.has_dot_among_digits(from, to) {
            return true;
        }
        let joint = concat_range(&self.string, from, to);
        self.is_symbol(joint.as_str())
    }

    /// The literal in `string[from..to]`.
    fn process_literal(&self, from: usize, to: usize) -> (r: Lexeme)
        requires
            from <= to <= self@.source.len(),
        ensures
            r@ == literal(
                self@.symbols,
                self@.keep_ws,
                self@.source.subrange(from as int, to as int),
            ),
    {
        let ghost w = self@.source.subrange(from as int, to as int);
        let joint = concat_range(&self.string, from, to);
        let span = to - from;
        if span == 0 {
            Lexeme::Invalid
        } else if self.is_symbol(joint.as_str()) {
            Lexeme::Found(TokenType::Symbol(joint), span)
        } else if self.is_int(from, to) {
            match parse_digits(joint.as_str()) {
                Some(v) => Lexeme::Found(TokenType::Int(v), span),
                None => Lexeme::Invalid,
            }
        } else if span >= 2 && self.has_dot_among_digits(from, to) {
            Lexeme::Found(TokenType::Float(joint), span)
        } else if span >= 2 && same_text(self.string[from].as_str(), "`") && same_text(
            self.string[to - 1].as_str(),
            "`",
        ) {
            assert(w.first() == self.string@[from as int]@);
            assert(w.last() == self.string@[to - 1]@);
            let inner = concat_range(&self.string, from + 1, to - 1);
            assert(w.subrange(1, w.len() - 1) =~= self@.source.subrange(from + 1, to - 1));
            Lexeme::Found(TokenType::Symbol(inner), span)
        } else if self.is_word(from, to) {
            assert(span >= 2 ==> w.first() == self.string@[from as int]@);
            assert(span >= 2 ==> w.last() == self.string@[to - 1]@);
            Lexeme::Found(TokenType::Word(joint), span)
        } else {
            assert(span >= 2 ==> w.first() == self.string@[from as int]@);
            assert(span >= 2 ==> w.last() == self.string@[to - 1]@);
            Lexeme::Invalid
        }
    }

    /// What is emitted for the window of `span` graphemes at `start`.
    fn scan(&self, start: usize, span: usize) -> (r: Lexeme)
        requires
            1 <= span,
            start + span <= self@.source.len(),
        ensures
            r@ == scan(self@.symbols, self@.keep_ws, self@.source, start as nat, span as nat),
        decreases self@.source.len() - start - span,
    {
        let ghost w = self@.source.subrange(start as int, start + span);
        let to = start + span;
        let at_end = to >= self.string.len();
        let joint = concat_range(&self.string, start, to);
        assert(w.drop_last() =~= self@.source.subrange(start as int, to - 1));
        if self.keep_ws {
            if self.is_word(start, to) {
                if at_end {
                    Lexeme::Found(TokenType::Symbol(joint), span)
                } else {
                    self.scan(start, span + 1)
                }
            } else if span > 1 && self.is_word(start, to - 1) {
                let less = concat_range(&self.string, start, to - 1);
                Lexeme::Found(TokenType::Symbol(less), span - 1)
            } else {
                Lexeme::Found(TokenType::Symbol(joint), span)
            }
        } else if check_plain_control(joint.as_str()) {
            Lexeme::Found(TokenType::Control(joint), span)
        } else if same_text(joint.as_str(), "{") {
            if at_end {
                Lexeme::Found(TokenType::Control(joint), span)
            } else {
                self.scan(start, span + 1)
            }
        } else if span > 1 && joint.as_str().unicode_len() > 0 && joint.as_str().get_char(0)
            == '{' {
            Lexeme::Found(TokenType::Control(String::from_str("{")), span - 1)
        } else if self.is_literal(start, to) {
            if at_end {
                self.process_literal(start, to)
            } else {
                self.scan(start, span + 1)
            }
        } else if span > 1 {
            self.process_literal(start, to - 1)
        } else {
            Lexeme::Invalid
        }
    }

    /// The next token, an error, or `None` when the input is used up.
    pub fn next(&mut self) -> (r: Option<Result<Token, MifulError>>)
        ensures
            (match r {
                None => None,
                Some(Ok(t)) => Some(Ok(t@)),
                Some(Err(e)) => Some(Err(e@)),
            }, final(self)@) == lex_step(old(self)@),
    {
        proof {
            use_type_invariant(&*self);
        }
        let len = self.string.len();
        let mut index = self.index;
        let mut position = self.position;
        if !self.keep_ws {
            while index < len && check_ws(self.string[index].as_str())
                invariant
                    self.index <= index <= len,
                    len == self.string.len(),
                    skip_ws(self@.source, index as nat, position) == skip_ws(
                        self@.source,
                        self.index as nat,
                        self.position,
                    ),
                decreases len - index,
            {
                if same_text(self.string[index].as_str(), "\n") {
                    position = (move_on(position.0, 1), 1);
                } else {
                    position = (position.0, move_on(position.1, 1));
                }
                index += 1;
            }
        }
        if index >= len {
            self.index = index;
            self.position = position;
            return None;
        }
        let found = self.scan(index, 1);
        proof {
            lemma_scan_span(self@.symbols, self@.keep_ws, self@.source, index as nat, 1);
        }
        match found {
            Lexeme::Found(kind, span) => {
                self.index = index + span;
                self.position = (position.0, move_on(position.1, span));
                Some(Ok(Token { kind, position, index, span }))
            },
            Lexeme::Invalid => {
                self.index = len;
                self.position = position;
                Some(Err(MifulError::parse_error("Invalid literal!", &self.string, index, position)))
            },
        }
    }

    /// All the remaining tokens, or the first error.
    pub fn tokens(self) -> (r: Result<Vec<Token>, MifulError>)
        ensures
            (match r {
                Ok(ts) => Ok(token_views(ts@)),
                Err(e) => Err(e@),
            }) == lex_all(self@, Seq::empty()),
    {
        let mut lexer = self;
        let mut done: Vec<Token> = Vec::new();
        assert(token_views(done@) =~= Seq::empty());
        loop
            invariant
                lex_all(lexer@, token_views(done@)) == lex_all(self@, Seq::empty()),
            decreases lexer@.source.len() - lexer@.index,
        {
            let ghost before = lexer@;
            let ghost seen = token_views(done@);
            proof {
                use_type_invariant(&lexer);
            }
            match lexer.next() {
                None => {
                    return Ok(done);
                },
                Some(Err(e)) => {
                    return Err(e);
                },
                Some(Ok(t)) => {
                    proof {
                        use_type_invariant(&lexer);
                        lemma_step_advances(before);
                    }
                    done.push(t);
                    assert(token_views(done@) =~= seen.push(t@));
                },
            }
        }
    }
}

/// A step that yields a token moves the lexer forward within the same input.
pub proof fn lemma_step_advances(l: LexerView)
    requires
        l.index <= l.source.len() <= usize::MAX,
    ensures
        lex_step(l).0 matches Some(Ok(_)) ==> l.index < lex_step(l).1.index
            <= l.source.len() && lex_step(l).1.source == l.source,
{
    if !l.keep_ws {
        lemma_skip_ws_bounds(l.source, l.index as nat, l.position);
    }
    let (index, position) = if l.keep_ws {
        (l.index as nat, l.position)
    } else {
        skip_ws(l.source, l.index as nat, l.position)
    };
    if index < l.source.len() {
        lemma_scan_span(l.symbols, l.keep_ws, l.source, index, 1);
    }
}

pub proof fn lemma_skip_ws_bounds(source: Seq<Seq<char>>, index: nat, position: (usize, usize))
    requires
        index <= source.len(),
    ensures
        index <= skip_ws(source, index, position).0 <= source.len(),
    decreases source.len() - index,
{
    if index < source.len() && is_ws(source[index as int]) {
        lemma_skip_ws_bounds(
            source,
            index + 1,
            if source[index as int] == "\n"@ {
                (moved(position.0, 1), 1)
            } else {
                (position.0, moved(position.1, 1))
            },
        );
    }
}


/// Whether the tokens follow one another in the source: each covers at
/// least one grapheme, none starts before the one before it has ended, and
/// all end at or before `bound`.
pub open spec fn in_order(tokens: Seq<TokenView>, bound: nat) -> bool {
    &&& forall|i: int|
        0 <= i < tokens.len() ==> 1 <= (#[trigger] tokens[i]).span && tokens[i].index
            + tokens[i].span <= bound
    &&& forall|i: int, j: int|
        0 <= i < j < tokens.len() ==> (#[trigger] tokens[i]).index + tokens[i].span <= (
        #[trigger] tokens[j]).index
}

/// The tokens of a lexer come in the order of the source: where those found
/// so far are in order and end before the lexer's index, so are all.
pub proof fn lemma_tokens_in_order(l: LexerView, done: Seq<TokenView>)
    requires
        l.index <= l.source.len() <= usize::MAX,
        in_order(done, l.index as nat),
    ensures
        lex_all(l, done) matches Ok(tokens) ==> in_order(tokens, l.source.len()),
    decreases l.source.len() - l.index,
{
    let (item, next) = lex_step(l);
    if !l.keep_ws {
        lemma_skip_ws_bounds(l.source, l.index as nat, l.position);
    }
    lemma_step_advances(l);
    if item is Some && item->Some_0 is Ok {
        let t = item->Some_0->Ok_0;
        let start = if l.keep_ws {
            l.index as nat
        } else {
            skip_ws(l.source, l.index as nat, l.position).0
        };
        lemma_scan_span(l.symbols, l.keep_ws, l.source, start, 1);
        assert(t.index == start);
        assert(in_order(done.push(t), next.index as nat));
        lemma_tokens_in_order(next, done.push(t));
    }
}

/// Positions are monotonic: the tokens of an input are in the order of the
/// source.
pub proof fn lemma_lex_in_order(source: Seq<Seq<char>>, symbols: Seq<Seq<char>>, keep_ws: bool)
    requires
        source.len() <= usize::MAX,
    ensures
        lex(source, symbols, keep_ws) matches Ok(tokens) ==> in_order(tokens, source.len()),
{
    lemma_tokens_in_order(
        LexerView { source, symbols, keep_ws, index: 0, position: (1, 1) },
        Seq::empty(),
    );
}

} // verus!
