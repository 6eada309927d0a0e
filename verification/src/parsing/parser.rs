//! The parser: from tokens to trees.
//!
//! ```text
//! value  ::= atom | list | invoke | quote | hook
//! atom   ::= Word | Symbol | Int | Float
//! list   ::= '(' value* ')'
//! invoke ::= '[' (Word | Symbol) value* ']'
//! quote  ::= '{' (Word | Symbol) value* '}'
//! hook   ::= '{?' value '?}'
//! ```
//!
//! Every hook is replaced by a numbered hole; the subtree it held is kept in
//! the hole's hook list, and every enclosing list, invoke and quote collects
//! the hook lists of its elements in order.  The number of a hole is its
//! place in the hook list of the quote that it stands in, or, outside any
//! quote, of the top-level value: numbering starts at 0 with every
//! top-level value, with the arguments of every quote and with the subtree
//! of every hook.  [`parse_value`] says what is parsed from a position in
//! the token sequence.

use crate::parsing::ast::{plain_node, KindView, NodeView, NodeWrapper, node_views};
use crate::parsing::lexer::moved;
use crate::parsing::text::{int_text, same_text};
use crate::parsing::token::{Token, TokenType, TokenTypeView, TokenView, token_views};
use crate::parsing::utils::{fresh_error, MifulError, MifulErrorView};
use vstd::prelude::*;
use vstd::string::*;

verus! {

/// A semantic error with one message, at the place of the token or node that
/// was consumed last.
pub open spec fn semantic(message: Seq<char>, index: usize, position: (usize, usize)) -> MifulErrorView {
    MifulErrorView::Semantics(fresh_error(message, Seq::empty(), index, position))
}

/// What parsing one value gave, where the parser stands afterwards, and the
/// number that the next hole gets.
pub struct Parsed {
    pub result: Result<NodeView, MifulErrorView>,
    pub index: nat,
    pub hook_count: usize,
}

/// What parsing the elements of a bracket gave: the elements and their
/// collected hooks, or an error.
pub struct ParsedItems {
    pub result: Result<(Seq<NodeView>, Seq<NodeView>), MifulErrorView>,
    pub index: nat,
    pub hook_count: usize,
}

/// The words that differ between the three kinds of bracket.
pub struct Bracket {
    pub closer: Seq<char>,
    pub unterminated: Seq<char>,
    pub layer: Seq<char>,
}

pub open spec fn list_bracket() -> Bracket {
    Bracket { closer: ")"@, unterminated: "Unterminated list!"@, layer: "..while parsing list"@ }
}

pub open spec fn invoke_bracket() -> Bracket {
    Bracket {
        closer: "]"@,
        unterminated: "Unterminated invoke!"@,
        layer: "..while parsing invoke"@,
    }
}

pub open spec fn quote_bracket() -> Bracket {
    Bracket { closer: "}"@, unterminated: "Unterminated quote!"@, layer: "..while parsing quote"@ }
}

/// The payload of a word or symbol token.
pub open spec fn name_of(kind: TokenTypeView) -> Option<Seq<char>> {
    match kind {
        TokenTypeView::Word(s) => Some(s),
        TokenTypeView::Symbol(s) => Some(s),
        _ => None,
    }
}

/// The value that starts at `tokens[index]`.
///
/// An atom is itself.  A list runs to its `)`, an invoke and a quote start
/// with a word or symbol and run to `]` and `}`.  A hook holds one value and
/// becomes the hole numbered `hook_count`; `hook_count` is how many hooks the
/// enclosing quote or top-level value has collected before this value.  The
/// arguments of a quote and the subtree of a hook are numbered from 0 again;
/// behind a value, the count has grown by the hooks of that value.  Errors
/// carry the place of what was consumed last, and every bracket that an
/// error passes on its way out adds a layer to it.
pub open spec fn parse_value(tokens: Seq<TokenView>, index: nat, hook_count: usize) -> Parsed
    decreases tokens.len() - index, 0nat,
{
    if index >= tokens.len() {
        Parsed {
            result: Err(semantic("Unexpected end of input!"@, 0, (0, 0))),
            index,
            hook_count,
        }
    } else {
        let token = tokens[index as int];
        match token.kind {
            TokenTypeView::Word(v) => Parsed {
                result: Ok(plain_node(KindView::Word(v), token.index, token.position)),
                index: index + 1,
                hook_count,
            },
            TokenTypeView::Symbol(v) => Parsed {
                result: Ok(plain_node(KindView::Symbol(v), token.index, token.position)),
                index: index + 1,
                hook_count,
            },
            TokenTypeView::Int(v) => Parsed {
                result: Ok(plain_node(KindView::Int(v), token.index, token.position)),
                index: index + 1,
                hook_count,
            },
            TokenTypeView::Float(v) => Parsed {
                result: Ok(plain_node(KindView::Float(v), token.index, token.position)),
                index: index + 1,
                hook_count,
            },
            TokenTypeView::Control(s) => {
                if s == "("@ {
                    let items = parse_items(
                        tokens,
                        index + 1,
                        hook_count,
                        list_bracket(),
                        Seq::empty(),
                        Seq::empty(),
                        token.index,
                        token.position,
                    );
                    Parsed {
                        result: match items.result {
                            Ok((values, hooks)) => Ok(
                                NodeView {
                                    node: KindView::List(values),
                                    hooks,
                                    position: token.position,
                                    index: token.index,
                                },
                            ),
                            Err(e) => Err(e),
                        },
                        index: items.index,
                        hook_count: items.hook_count,
                    }
                } else if s == "["@ || s == "{"@ {
                    if index + 1 >= tokens.len() {
                        Parsed {
                            result: Err(semantic("Incomplete invoke!"@, token.index, token.position)),
                            index: index + 1,
                            hook_count,
                        }
                    } else {
                        let name = tokens[(index + 1) as int];
                        match name_of(name.kind) {
                            None => Parsed {
                                result: Err(
                                    semantic(
                                        "Invalid function name type!"@,
                                        token.index,
                                        token.position,
                                    ),
                                ),
                                index: index + 1,
                                hook_count,
                            },
                            Some(target) => {
                                let items = parse_items(
                                    tokens,
                                    index + 2,
                                    if s == "["@ {
                                        hook_count
                                    } else {
                                        0
                                    },
                                    if s == "["@ {
                                        invoke_bracket()
                                    } else {
                                        quote_bracket()
                                    },
                                    Seq::empty(),
                                    Seq::empty(),
                                    token.index,
                                    token.position,
                                );
                                Parsed {
                                    result: match items.result {
                                        Ok((with, hooks)) => Ok(
                                            if s == "["@ {
                                                NodeView {
                                                    node: KindView::Invoke { target, with },
                                                    hooks,
                                                    position: name.position,
                                                    index: name.index,
                                                }
                                            } else {
                                                NodeView {
                                                    node: KindView::Quote { target, with },
                                                    hooks,
                                                    position: token.position,
                                                    index: token.index,
                                                }
                                            },
                                        ),
                                        Err(e) => Err(e),
                                    },
                                    index: items.index,
                                    hook_count: match items.result {
                                        Ok((with, hooks)) => if s == "["@ {
                                            items.hook_count
                                        } else {
                                            moved(hook_count, hooks.len() as usize)
                                        },
                                        Err(_) => items.hook_count,
                                    },
                                }
                            },
                        }
                    }
                } else if s == "{?"@ {
                    if index + 1 >= tokens.len() {
                        Parsed {
                            result: Err(
                                semantic("Unterminated unquote!"@, token.index, token.position),
                            ),
                            index: index + 1,
                            hook_count,
                        }
                    } else {
                        let inner = parse_value(tokens, index + 1, 0);
                        match inner.result {
                            Err(e) => Parsed {
                                result: Err(e.layered("..while parsing unquote"@)),
                                index: inner.index,
                                hook_count: inner.hook_count,
                            },
                            Ok(node) => {
                                if inner.index < tokens.len() && tokens[inner.index as int].kind
                                    == TokenTypeView::Control("?}"@) {
                                    Parsed {
                                        result: Ok(
                                            NodeView {
                                                node: KindView::LambdaHook(hook_count),
                                                hooks: seq![node],
                                                position: node.position,
                                                index: node.index,
                                            },
                                        ),
                                        index: inner.index + 1,
                                        hook_count: moved(hook_count, 1),
                                    }
                                } else {
                                    Parsed {
                                        result: Err(
                                            semantic(
                                                "Unterminated unquote!"@,
                                                node.index,
                                                node.position,
                                            ),
                                        ),
                                        index: inner.index,
                                        hook_count: inner.hook_count,
                                    }
                                }
                            },
                        }
                    }
                } else {
                    Parsed {
                        result: Err(
                            semantic(
                                "Unexpected control token: `"@ + s + "`!"@,
                                token.index,
                                token.position,
                            ),
                        ),
                        index: index + 1,
                        hook_count,
                    }
                }
            },
        }
    }
}

/// The elements from `tokens[index]` up to the closing bracket, behind the
/// `values` and `hooks` that were parsed before.  `last_index` and
/// `last_position` are the place of what was consumed last.
pub open spec fn parse_items(
    tokens: Seq<TokenView>,
    index: nat,
    hook_count: usize,
    bracket: Bracket,
    values: Seq<NodeView>,
    hooks: Seq<NodeView>,
    last_index: usize,
    last_position: (usize, usize),
) -> ParsedItems
    decreases tokens.len() - index, 1nat,
{
    if index >= tokens.len() {
        ParsedItems {
            result: Err(semantic(bracket.unterminated, last_index, last_position)),
            index,
            hook_count,
        }
    } else if tokens[index as int].kind == TokenTypeView::Control(bracket.closer) {
        ParsedItems { result: Ok((values, hooks)), index: index + 1, hook_count }
    } else {
        let next = parse_value(tokens, index, hook_count);
        match next.result {
            Err(e) => ParsedItems {
                result: Err(e.layered(bracket.layer)),
                index: next.index,
                hook_count: next.hook_count,
            },
            Ok(node) => {
                if index < next.index <= tokens.len() {
                    parse_items(
                        tokens,
                        next.index,
                        next.hook_count,
                        bracket,
                        values.push(node),
                        hooks + node.hooks,
                        node.index,
                        node.position,
                    )
                } else {
                    ParsedItems {
                        result: Err(semantic(bracket.unterminated, last_index, last_position)),
                        index: next.index,
                        hook_count: next.hook_count,
                    }
                }
            },
        }
    }
}

/// Parsing a value consumes at least one token and stays within the tokens.
pub proof fn lemma_parse_value_advances(tokens: Seq<TokenView>, index: nat, hook_count: usize)
    requires
        index < tokens.len(),
    ensures
        index < parse_value(tokens, index, hook_count).index <= tokens.len(),
    decreases tokens.len() - index, 0nat,
{
    let token = tokens[index as int];
    if token.kind is Control {
        let s = token.kind->Control_0;
        if s == "("@ {
            lemma_parse_items_advances(
                tokens,
                index + 1,
                hook_count,
                list_bracket(),
                Seq::empty(),
                Seq::empty(),
                token.index,
                token.position,
            );
        } else if s == "["@ || s == "{"@ {
            if index + 1 < tokens.len() && name_of(tokens[(index + 1) as int].kind) is Some {
                lemma_parse_items_advances(
                    tokens,
                    index + 2,
                    if s == "["@ {
                        hook_count
                    } else {
                        0
                    },
                    if s == "["@ {
                        invoke_bracket()
                    } else {
                        quote_bracket()
                    },
                    Seq::empty(),
                    Seq::empty(),
                    token.index,
                    token.position,
                );
            }
        } else if s == "{?"@ {
            if index + 1 < tokens.len() {
                lemma_parse_value_advances(tokens, index + 1, 0);
            }
        }
    }
}

/// Parsing elements never moves backwards and stays within the tokens.
pub proof fn lemma_parse_items_advances(
    tokens: Seq<TokenView>,
    index: nat,
    hook_count: usize,
    bracket: Bracket,
    values: Seq<NodeView>,
    hooks: Seq<NodeView>,
    last_index: usize,
    last_position: (usize, usize),
)
    requires
        index <= tokens.len(),
    ensures
        index <= parse_items(
            tokens,
            index,
            hook_count,
            bracket,
            values,
            hooks,
            last_index,
            last_position,
        ).index <= tokens.len(),
    decreases tokens.len() - index, 1nat,
{
    if index < tokens.len() && tokens[index as int].kind != TokenTypeView::Control(bracket.closer) {
        lemma_parse_value_advances(tokens, index, hook_count);
        let next = parse_value(tokens, index, hook_count);
        if next.result is Ok {
            let node = next.result->Ok_0;
            lemma_parse_items_advances(
                tokens,
                next.index,
                next.hook_count,
                bracket,
                values.push(node),
                hooks + node.hooks,
                node.index,
                node.position,
            );
        }
    }
}

/// The node that an atom token stands for.
pub open spec fn atom_kind(kind: TokenTypeView) -> KindView {
    match kind {
        TokenTypeView::Word(s) => KindView::Word(s),
        TokenTypeView::Symbol(s) => KindView::Symbol(s),
        TokenTypeView::Float(s) => KindView::Float(s),
        TokenTypeView::Int(i) => KindView::Int(i),
        TokenTypeView::Control(s) => KindView::Word(s),
    }
}

/// The text that an atom token stands for: its payload, a number in decimal.
pub open spec fn atom_text(kind: TokenTypeView) -> Seq<char> {
    match kind {
        TokenTypeView::Word(s) => s,
        TokenTypeView::Symbol(s) => s,
        TokenTypeView::Float(s) => s,
        TokenTypeView::Int(i) => int_text(i as int),
        TokenTypeView::Control(s) => s,
    }
}

/// Round trip of atoms: an atom token is parsed to the node of its kind with
/// its payload, at its place and without hooks, and that node is written as
/// the text of the payload.
pub proof fn lemma_atom_round_trip(token: TokenView, hook_count: usize)
    requires
        !(token.kind is Control),
    ensures
        parse_value(seq![token], 0, hook_count) == (Parsed {
            result: Ok(plain_node(atom_kind(token.kind), token.index, token.position)),
            index: 1,
            hook_count,
        }),
        crate::parsing::ast::node_text(atom_kind(token.kind), Seq::empty(), 0, false) == atom_text(
            token.kind,
        ),
{
    assert(seq![token][0] == token);
    assert(crate::parsing::ast::node_text(atom_kind(token.kind), Seq::empty(), 0, false)
        =~= atom_text(token.kind));
}

/// The parser as plain mathematical data.
pub struct ParserView {
    pub tokens: Seq<TokenView>,
    pub index: usize,
    pub hook_count: usize,
}

/// One step of the parser: the next top-level value or an error, or nothing
/// when the tokens are used up; and the parser afterwards.  The holes of
/// every top-level value are numbered from 0.
pub open spec fn parse_step(p: ParserView) -> (Option<Result<NodeView, MifulErrorView>>, ParserView) {
    if p.index >= p.tokens.len() {
        (None, p)
    } else {
        let parsed = parse_value(p.tokens, p.index as nat, 0);
        (
            Some(parsed.result),
            ParserView { index: parsed.index as usize, hook_count: parsed.hook_count, ..p },
        )
    }
}

/// All the top-level values from `p` on, behind those of `done`; or the
/// first error.
pub open spec fn parse_all(p: ParserView, done: Seq<NodeView>) -> Result<Seq<NodeView>, MifulErrorView>
    decreases p.tokens.len() - p.index,
{
    let (item, next) = parse_step(p);
    match item {
        None => Ok(done),
        Some(Err(e)) => Err(e),
        Some(Ok(node)) => {
            if p.index < next.index <= next.tokens.len() && next.tokens.len() == p.tokens.len() {
                parse_all(next, done.push(node))
            } else {
                Ok(done.push(node))
            }
        },
    }
}

/// The top-level values of a token sequence, or the first error.
pub open spec fn parse(tokens: Seq<TokenView>) -> Result<Seq<NodeView>, MifulErrorView> {
    parse_all(ParserView { tokens, index: 0, hook_count: 0 }, Seq::empty())
}

pub struct Parser {
    index: usize,
    hook_count: usize,
    tokens: Vec<Token>,
}

impl View for Parser {
    type V = ParserView;

    closed spec fn view(&self) -> ParserView {
        ParserView {
            tokens: token_views(self.tokens@),
            index: self.index,
            hook_count: self.hook_count,
        }
    }
}

fn move_by(x: usize, by: usize) -> (r: usize)
    ensures
        r == moved(x, by),
{
    if x <= usize::MAX - by {
        x + by
    } else {
        usize::MAX
    }
}

impl Parser {
    #[verifier::type_invariant]
    spec fn within_tokens(self) -> bool {
        self.index <= self.tokens.len()
    }

    pub fn new(tokens: Vec<Token>) -> (r: Parser)
        ensures
            r@ == (ParserView { tokens: token_views(tokens@), index: 0, hook_count: 0 }),
    {
        Parser { index: 0, hook_count: 0, tokens }
    }

    fn eof(&self) -> (r: bool)
        ensures
            r == (self@.index >= self@.tokens.len()),
    {
        self.index >= self.tokens.len()
    }

    /// Whether the current token is the control token `s`.
    fn at_control(&self, s: &str) -> (r: bool)
        requires
            self@.index < self@.tokens.len(),
        ensures
            r == (self@.tokens[self@.index as int].kind == TokenTypeView::Control(s@)),
    {
        match &self.tokens[self.index].kind {
            TokenType::Control(c) => same_text(c.as_str(), s),
            _ => false,
        }
    }

    /// The elements up to the closing bracket; see [`parse_items`].
    fn items(
        &mut self,
        closer: &str,
        unterminated: &str,
        layer: &str,
        first_index: usize,
        first_position: (usize, usize),
    ) -> (r: Result<(Vec<NodeWrapper>, Vec<NodeWrapper>), MifulError>)
        ensures
            ({
                let spec_items = parse_items(
                    old(self)@.tokens,
                    old(self)@.index as nat,
                    old(self)@.hook_count,
                    Bracket { closer: closer@, unterminated: unterminated@, layer: layer@ },
                    Seq::empty(),
                    Seq::empty(),
                    first_index,
                    first_position,
                );
                &&& final(self)@.tokens == old(self)@.tokens
                &&& final(self)@.index == spec_items.index
                &&& final(self)@.hook_count == spec_items.hook_count
                &&& old(self)@.index <= final(self)@.index
                &&& match r {
                    Ok((values, hooks)) => spec_items.result == Ok::<_, MifulErrorView>(
                        (node_views(values@), node_views(hooks@)),
                    ),
                    Err(e) => spec_items.result == Err::<(Seq<NodeView>, Seq<NodeView>), _>(e@),
                }
            }),
        decreases old(self)@.tokens.len() - old(self)@.index, 1nat,
    {
        let ghost bracket = Bracket { closer: closer@, unterminated: unterminated@, layer: layer@ };
        let ghost tokens = self@.tokens;
        let ghost start = self@;
        let mut values: Vec<NodeWrapper> = Vec::new();
        let mut hooks: Vec<NodeWrapper> = Vec::new();
        let mut last_index = first_index;
        let mut last_position = first_position;
        assert(node_views(values@) =~= Seq::empty());
        assert(node_views(hooks@) =~= Seq::empty());
        loop
            invariant
                self@.tokens == tokens,
                start == old(self)@,
                start.tokens == tokens,
                start.index <= self@.index,
                parse_items(
                    tokens,
                    self@.index as nat,
                    self@.hook_count,
                    bracket,
                    node_views(values@),
                    node_views(hooks@),
                    last_index,
                    last_position,
                ) == parse_items(
                    tokens,
                    start.index as nat,
                    start.hook_count,
                    bracket,
                    Seq::empty(),
                    Seq::empty(),
                    first_index,
                    first_position,
                ),
                bracket == (Bracket { closer: closer@, unterminated: unterminated@, layer: layer@ }),
            decreases tokens.len() - self@.index,
        {
            proof {
                use_type_invariant(&*self);
            }
            if self.eof() {
                return Err(MifulError::semantic_error(unterminated, last_index, last_position));
            }
            if self.at_control(closer) {
                self.index = self.index + 1;
                return Ok((values, hooks));
            }
            let ghost before_values = node_views(values@);
            let ghost before_hooks = node_views(hooks@);
            match self.value() {
                Ok(node) => {
                    proof {
                        use_type_invariant(&*self);
                    }
                    last_index = node.index;
                    last_position = node.position;
                    let mut i: usize = 0;
                    while i < node.hooks.len()
                        invariant
                            i <= node.hooks.len(),
                            node_views(hooks@) == before_hooks + node@.hooks.take(i as int),
                        decreases node.hooks.len() - i,
                    {
                        let ghost h = node_views(hooks@);
                        let c = node.hooks[i].clone();
                        hooks.push(c);
                        assert(node_views(hooks@) =~= h.push(c@));
                        assert(node_views(hooks@) =~= before_hooks + node@.hooks.take(i + 1));
                        i += 1;
                    }
                    assert(node@.hooks.take(node.hooks.len() as int) =~= node@.hooks);
                    let ghost n = node@;
                    values.push(node);
                    assert(node_views(values@) =~= before_values.push(n));
                },
                Err(e) => {
                    let mut e = e;
                    e.add_layer_top(layer);
                    return Err(e);
                },
            }
        }
    }

    /// The value at the current token; see [`parse_value`].
    fn value(&mut self) -> (r: Result<NodeWrapper, MifulError>)
        requires
            old(self)@.index < old(self)@.tokens.len(),
        ensures
            ({
                let parsed = parse_value(
                    old(self)@.tokens,
                    old(self)@.index as nat,
                    old(self)@.hook_count,
                );
                &&& final(self)@.tokens == old(self)@.tokens
                &&& final(self)@.index == parsed.index
                &&& final(self)@.hook_count == parsed.hook_count
                &&& old(self)@.index < final(self)@.index
                &&& match r {
                    Ok(node) => parsed.result == Ok::<_, MifulErrorView>(node@),
                    Err(e) => parsed.result == Err::<NodeView, _>(e@),
                }
            }),
        decreases old(self)@.tokens.len() - old(self)@.index, 0nat,
    {
        proof {
            use_type_invariant(&*self);
        }
        let token = self.tokens[self.index].clone();
        let at = token.index;
        let position = token.position;
        match token.kind {
            TokenType::Word(v) => {
                self.index = self.index + 1;
                Ok(NodeWrapper::new_word(v, at, position))
            },
            TokenType::Symbol(v) => {
                self.index = self.index + 1;
                Ok(NodeWrapper::new_symbol(v, at, position))
            },
            TokenType::Int(v) => {
                self.index = self.index + 1;
                Ok(NodeWrapper::new_int(v, at, position))
            },
            TokenType::Float(v) => {
                self.index = self.index + 1;
                Ok(NodeWrapper::new_float(v, at, position))
            },
            TokenType::Control(s) => {
                if same_text(s.as_str(), "(") {
                    self.index = self.index + 1;
                    match self.items(
                        ")",
                        "Unterminated list!",
                        "..while parsing list",
                        at,
                        position,
                    ) {
                        Ok((values, hooks)) => Ok(
                            NodeWrapper::new_list(values, hooks, at, position),
                        ),
                        Err(e) => Err(e),
                    }
                } else if same_text(s.as_str(), "[") || same_text(s.as_str(), "{") {
                    let invoke = same_text(s.as_str(), "[");
                    self.index = self.index + 1;
                    if self.eof() {
                        return Err(MifulError::semantic_error("Incomplete invoke!", at, position));
                    }
                    let name = self.tokens[self.index].clone();
                    let target = match name.kind {
                        TokenType::Word(f) => f,
                        TokenType::Symbol(f) => f,
                        _ => {
                            return Err(
                                MifulError::semantic_error(
                                    "Invalid function name type!",
                                    at,
                                    position,
                                ),
                            );
                        },
                    };
                    self.index = self.index + 1;
                    let outer = self.hook_count;
                    if invoke {
                        match self.items(
                            "]",
                            "Unterminated invoke!",
                            "..while parsing invoke",
                            at,
                            position,
                        ) {
                            Ok((with, hooks)) => Ok(
                                NodeWrapper::new_invoke(
                                    target,
                                    with,
                                    hooks,
                                    name.index,
                                    name.position,
                                ),
                            ),
                            Err(e) => Err(e),
                        }
                    } else {
                        self.hook_count = 0;
                        match self.items(
                            "}",
                            "Unterminated quote!",
                            "..while parsing quote",
                            at,
                            position,
                        ) {
                            Ok((with, hooks)) => {
                                proof {
                                    use_type_invariant(&*self);
                                }
                                assert(node_views(hooks@).len() == hooks.len());
                                self.hook_count = move_by(outer, hooks.len());
                                Ok(NodeWrapper::new_quote(target, with, hooks, at, position))
                            },
                            Err(e) => Err(e),
                        }
                    }
                } else if same_text(s.as_str(), "{?") {
                    self.index = self.index + 1;
                    if self.eof() {
                        return Err(
                            MifulError::semantic_error("Unterminated unquote!", at, position),
                        );
                    }
                    let outer = self.hook_count;
                    self.hook_count = 0;
                    match self.value() {
                        Err(e) => {
                            let mut e = e;
                            e.add_layer_top("..while parsing unquote");
                            Err(e)
                        },
                        Ok(node) => {
                            proof {
                                use_type_invariant(&*self);
                            }
                            if !self.eof() && self.at_control("?}") {
                                let number = outer;
                                self.index = self.index + 1;
                                self.hook_count = move_by(outer, 1);
                                let inner_index = node.index;
                                let inner_position = node.position;
                                let ghost n = node@;
                                let mut held: Vec<NodeWrapper> = Vec::new();
                                held.push(node);
                                assert(node_views(held@) =~= seq![n]);
                                Ok(NodeWrapper::new_hook(number, held, inner_index, inner_position))
                            } else {
                                Err(
                                    MifulError::semantic_error(
                                        "Unterminated unquote!",
                                        node.index,
                                        node.position,
                                    ),
                                )
                            }
                        },
                    }
                } else {
                    self.index = self.index + 1;
                    let mut message = String::from_str("Unexpected control token: `");
                    message.append(s.as_str());
                    message.append("`!");
                    Err(MifulError::semantic_error(message.as_str(), at, position))
                }
            },
        }
    }

    /// The next top-level value, an error, or `None` when the tokens are
    /// used up.
    pub fn next(&mut self) -> (r: Option<Result<NodeWrapper, MifulError>>)
        ensures
            (match r {
                None => None,
                Some(Ok(node)) => Some(Ok(node@)),
                Some(Err(e)) => Some(Err(e@)),
            }, final(self)@) == parse_step(old(self)@),
    {
        if self.eof() {
            None
        } else {
            self.hook_count = 0;
            Some(self.value())
        }
    }

    /// All the remaining top-level values, or the first error.
    pub fn nodes(self) -> (r: Result<Vec<NodeWrapper>, MifulError>)
        ensures
            (match r {
                Ok(nodes) => Ok(node_views(nodes@)),
                Err(e) => Err(e@),
            }) == parse_all(self@, Seq::empty()),
    {
        let mut parser = self;
        let mut done: Vec<NodeWrapper> = Vec::new();
        assert(node_views(done@) =~= Seq::empty());
        loop
            invariant
                parse_all(parser@, node_views(done@)) == parse_all(self@, Seq::empty()),
            decreases parser@.tokens.len() - parser@.index,
        {
            let ghost before = parser@;
            let ghost seen = node_views(done@);
            proof {
                use_type_invariant(&parser);
            }
            if parser.eof() {
                return Ok(done);
            }
            parser.hook_count = 0;
            match parser.value() {
                Err(e) => {
                    return Err(e);
                },
                Ok(node) => {
                    proof {
                        use_type_invariant(&parser);
                    }
                    let ghost n = node@;
                    done.push(node);
                    assert(node_views(done@) =~= seen.push(n));
                },
            }
        }
    }
}

} // verus!
