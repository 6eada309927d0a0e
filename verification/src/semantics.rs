//! What evaluation means.
//!
//! Everything here is a mathematical function on trees.  Evaluation takes a
//! node, the scope and function table it is evaluated in, the replies that
//! the host has given so far, and a bound on the depth of calls; it gives a
//! value, an error, or the next request to the host.  The driver computes
//! exactly these functions.

use crate::functions::{
    inserted, lookup, selected, BindingView, FunctionView,
};
use crate::host::{FloatOp, ReplyView, RequestView};
use crate::parsing::ast::{plain_node, KindView, NodeView};
use crate::parsing::lexer::lex;
use crate::parsing::parser::parse;
use crate::parsing::text::int_text;
use crate::parsing::token::TokenView;
use crate::parsing::utils::{graphemes, MifulErrorView};
use crate::typing::{
    appended_object, has_object_shape, invalid_param_count, is_object, items_of,
    name_of, nil, object_class, object_of, object_payload, param_type, runtime,
    truth, type_signature, types_of,
};
use vstd::prelude::*;

verus! {

/// What stays the same while a node is evaluated: the source that errors
/// refer to, the scope, and the replies of the host.
pub struct Context {
    pub source: Seq<Seq<char>>,
    pub scope: Seq<BindingView>,
    pub replies: Seq<ReplyView>,
}

/// How a computation that may need the host ends: with a result and the
/// number of replies it has used, with an error, or with a request for the
/// reply that is still missing.
pub enum Effect<T> {
    Done(T, nat),
    Failure(MifulErrorView),
    Ask(RequestView),
}

/// The graphemes that are symbols of their own.
pub open spec fn symbols() -> Seq<Seq<char>> {
    seq![":"@, "@"@, "&"@, "|"@, "#"@, "~"@, "?"@, "\\"@]
}

/// The names that are built in and cannot be defined anew.
pub open spec fn is_builtin(name: Seq<char>) -> bool {
    name == "print"@ || name == "input"@ || name == "mk-sym"@ || name == ":"@ || name == "return"@
        || name == "define"@ || name == "obj-append"@ || name == "length"@ || name == "head"@
        || name == "tail"@ || name == "reverse"@ || name == "="@ || name == "+"@ || name == "-"@
        || name == "*"@ || name == "if"@
}

/// The error for a reply that does not answer the request.
pub open spec fn bad_reply(ctx: Context, n: NodeView) -> MifulErrorView {
    runtime(ctx.source, "Unexpected reply from the host!"@, n.index, n.position)
}

/// The result of a computation that needs no host.
pub open spec fn settled<T>(r: Result<T, MifulErrorView>, used: nat) -> Effect<T> {
    match r {
        Ok(v) => Effect::Done(v, used),
        Err(e) => Effect::Failure(e),
    }
}

/// Writing `text`: asks the host unless it has answered already.
pub open spec fn printed(ctx: Context, text: Seq<char>, at: NodeView, used: nat) -> Effect<()> {
    if used >= ctx.replies.len() {
        Effect::Ask(RequestView::Print(text))
    } else {
        match ctx.replies[used as int] {
            ReplyView::Done => Effect::Done((), used + 1),
            _ => Effect::Failure(bad_reply(ctx, at)),
        }
    }
}

/// Printing a value: a word or symbol is written as it is, an object of
/// class `string` element by element.
pub open spec fn print_value(ctx: Context, v: NodeView, used: nat) -> Effect<()>
    decreases v, 0nat,
{
    match name_of(v.node) {
        Some(s) => printed(ctx, s, v, used),
        None => {
            if is_object(v.node, "string"@) {
                print_items(ctx, v.node->List_0[2], 0, used)
            } else {
                Effect::Failure(param_type(ctx.source, "(obj string)"@, v.index, v.position))
            }
        },
    }
}

/// Printing the elements of the list `holder` from `from` on.
pub open spec fn print_items(ctx: Context, holder: NodeView, from: nat, used: nat) -> Effect<()>
    decreases holder, 1 + items_len(holder) - from,
{
    match holder.node {
        KindView::List(items) => {
            if from >= items.len() {
                Effect::Done((), used)
            } else {
                match print_value(ctx, items[from as int], used) {
                    Effect::Done(_, next) => print_items(ctx, holder, from + 1, next),
                    Effect::Failure(e) => Effect::Failure(
                        e.layered("..while evaluating invoke parameters"@),
                    ),
                    Effect::Ask(r) => Effect::Ask(r),
                }
            }
        },
        _ => Effect::Done((), used),
    }
}

/// How many elements a list node has; 0 for other nodes.
pub open spec fn items_len(n: NodeView) -> nat {
    match n.node {
        KindView::List(items) => items.len(),
        _ => 0,
    }
}

/// An operation on two numbers: asks the host unless it has answered.
pub open spec fn float_reply(
    ctx: Context,
    op: FloatOp,
    left: Seq<char>,
    right: Seq<char>,
    used: nat,
) -> Effect<ReplyView> {
    if used >= ctx.replies.len() {
        Effect::Ask(RequestView::Float { op, left, right })
    } else {
        Effect::Done(ctx.replies[used as int], used + 1)
    }
}

/// Whether two values are equal.  Atoms are equal if they are of one kind
/// and hold the same; lists if they are equally long and equal element by
/// element.  Numbers with a fraction are compared by the host.  Quotes and
/// invokes cannot be compared.  `at` is the invoke that asks.
pub open spec fn values_equal(ctx: Context, a: NodeView, b: NodeView, at: NodeView, used: nat) -> Effect<
    bool,
>
    decreases a, items_len(a) + 2,
{
    match (a.node, b.node) {
        (KindView::Int(x), KindView::Int(y)) => Effect::Done(x == y, used),
        (KindView::Float(x), KindView::Float(y)) => match float_reply(
            ctx,
            FloatOp::Eq,
            x,
            y,
            used,
        ) {
            Effect::Done(ReplyView::Truth(b), next) => Effect::Done(b, next),
            Effect::Done(_, _) => Effect::Failure(bad_reply(ctx, at)),
            Effect::Failure(e) => Effect::Failure(e),
            Effect::Ask(r) => Effect::Ask(r),
        },
        (KindView::Word(x), KindView::Word(y)) => Effect::Done(x == y, used),
        (KindView::Symbol(x), KindView::Symbol(y)) => Effect::Done(x == y, used),
        (KindView::List(x), KindView::List(y)) => {
            if x.len() == y.len() {
                lists_equal(ctx, a, y, 0, at, used)
            } else {
                Effect::Done(false, used)
            }
        },
        (KindView::LambdaHook(x), KindView::LambdaHook(y)) => Effect::Done(x == y, used),
        _ => {
            if a.node is Invoke || b.node is Invoke {
                Effect::Failure(
                    runtime(ctx.source, "Can't check equality of invoke!"@, at.index, at.position),
                )
            } else if a.node is Quote || b.node is Quote {
                Effect::Failure(
                    runtime(ctx.source, "Can't check equality of quote!"@, at.index, at.position),
                )
            } else {
                Effect::Done(false, used)
            }
        },
    }
}

/// Whether the elements of the list `a` from `from` on equal those of
/// `others` at the same places.
pub open spec fn lists_equal(
    ctx: Context,
    a: NodeView,
    others: Seq<NodeView>,
    from: nat,
    at: NodeView,
    used: nat,
) -> Effect<bool>
    decreases a, 1 + items_len(a) - from,
{
    match a.node {
        KindView::List(items) => {
            if from >= items.len() || from >= others.len() {
                Effect::Done(true, used)
            } else {
                match values_equal(ctx, items[from as int], others[from as int], at, used) {
                    Effect::Done(true, next) => lists_equal(ctx, a, others, from + 1, at, next),
                    Effect::Done(false, next) => Effect::Done(false, next),
                    Effect::Failure(e) => Effect::Failure(
                        e.layered("..while checking list equality"@),
                    ),
                    Effect::Ask(r) => Effect::Ask(r),
                }
            }
        },
        _ => Effect::Done(true, used),
    }
}

/// The tree with every hole replaced by the subtree that `hooks` holds for
/// it.  Lists and invokes are searched; quotes inside are left as they are.
/// A hole that `hooks` has nothing for is an error.
pub open spec fn resolve_hooks(source: Seq<Seq<char>>, tree: NodeView, hooks: Seq<NodeView>) -> Result<
    NodeView,
    MifulErrorView,
>
    decreases tree, children(tree).len() + 2,
{
    match tree.node {
        KindView::List(items) => match resolve_all(source, tree, hooks, 0, Seq::empty()) {
            Ok(resolved) => Ok(
                plain_node(KindView::List(resolved), tree.index, tree.position),
            ),
            Err(e) => Err(e),
        },
        KindView::Invoke { target, with } => match resolve_all(
            source,
            tree,
            hooks,
            0,
            Seq::empty(),
        ) {
            Ok(resolved) => Ok(
                plain_node(
                    KindView::Invoke { target, with: resolved },
                    tree.index,
                    tree.position,
                ),
            ),
            Err(e) => Err(e),
        },
        KindView::LambdaHook(idx) => {
            if idx < hooks.len() {
                Ok(hooks[idx as int])
            } else {
                Err(runtime(source, "Unresolved hook!"@, tree.index, tree.position))
            }
        },
        _ => Ok(tree),
    }
}

/// The elements or arguments of a node.
pub open spec fn children(n: NodeView) -> Seq<NodeView> {
    match n.node {
        KindView::List(items) => items,
        KindView::Quote { target, with } => with,
        KindView::Invoke { target, with } => with,
        _ => Seq::empty(),
    }
}

/// The children of `holder` from `from` on with their holes resolved,
/// behind `done`.
pub open spec fn resolve_all(
    source: Seq<Seq<char>>,
    holder: NodeView,
    hooks: Seq<NodeView>,
    from: nat,
    done: Seq<NodeView>,
) -> Result<Seq<NodeView>, MifulErrorView>
    decreases holder, 1 + children(holder).len() - from,
{
    if from >= children(holder).len() {
        Ok(done)
    } else {
        match resolve_hooks(source, children(holder)[from as int], hooks) {
            Ok(node) => resolve_all(source, holder, hooks, from + 1, done.push(node)),
            Err(e) => Err(e),
        }
    }
}

/// The node that each token of a line of input stands for, behind `done`.
/// Every token is parsed on its own.
pub open spec fn line_atoms(
    source: Seq<Seq<char>>,
    tokens: Seq<TokenView>,
    from: nat,
    done: Seq<NodeView>,
) -> Result<Seq<NodeView>, MifulErrorView>
    decreases tokens.len() - from,
{
    if from >= tokens.len() {
        Ok(done)
    } else {
        match parse(seq![tokens[from as int]]) {
            Ok(nodes) => line_atoms(
                source,
                tokens,
                from + 1,
                if nodes.len() > 0 {
                    done.push(nodes[0])
                } else {
                    done
                },
            ),
            Err(e) => Err(e.layered("..while interpreting input line"@).sourced(source)),
        }
    }
}

/// The nodes that a line of input stands for: its graphemes are lexed with
/// whitespace preserved, the last token (the end of the line) is dropped,
/// and every other token becomes a node.
pub open spec fn line_nodes(line: Seq<char>) -> Result<Seq<NodeView>, MifulErrorView> {
    let source = graphemes(line);
    match lex(source, symbols(), true) {
        Ok(tokens) => line_atoms(
            source,
            if tokens.len() > 0 {
                tokens.drop_last()
            } else {
                tokens
            },
            0,
            Seq::empty(),
        ),
        Err(e) => Err(e),
    }
}

/// `input`: prints the prompt, asks the host for a line, and gives the line
/// as an object of class `string`.
pub open spec fn read_input(ctx: Context, n: NodeView, prompt: NodeView, used: nat) -> Effect<
    NodeView,
> {
    match print_value(ctx, prompt, used) {
        Effect::Failure(e) => Effect::Failure(e),
        Effect::Ask(r) => Effect::Ask(r),
        Effect::Done(_, next) => {
            if next >= ctx.replies.len() {
                Effect::Ask(RequestView::ReadLine)
            } else {
                match ctx.replies[next as int] {
                    ReplyView::Line(line) => match line_nodes(line) {
                        Ok(nodes) => Effect::Done(
                            object_of("string"@, nodes, n.index, n.position),
                            next + 1,
                        ),
                        Err(e) => Effect::Failure(e),
                    },
                    _ => Effect::Failure(bad_reply(ctx, n)),
                }
            }
        },
    }
}

/// `mk-sym`: the symbol that reads like the word or number.
pub open spec fn made_symbol(ctx: Context, n: NodeView, v: NodeView) -> Result<
    NodeView,
    MifulErrorView,
> {
    match v.node {
        KindView::Word(w) => Ok(plain_node(KindView::Symbol(w), n.index, n.position)),
        KindView::Int(i) => Ok(plain_node(KindView::Symbol(int_text(i as int)), n.index, n.position)),
        KindView::Float(f) => Ok(plain_node(KindView::Symbol(f), n.index, n.position)),
        _ => Err(param_type(ctx.source, "word"@, v.index, v.position)),
    }
}

/// `:`: what a name stands for in the scope.
pub open spec fn constant(ctx: Context, n: NodeView, v: NodeView) -> Result<NodeView, MifulErrorView> {
    match name_of(v.node) {
        Some(name) => match lookup(ctx.scope, name) {
            Some(value) => Ok(value),
            None => Err(runtime(ctx.source, "Undefined constant!"@, n.index, n.position)),
        },
        None => Err(param_type(ctx.source, "(word | symbol)"@, n.index, n.position)),
    }
}

/// The integer `r` as the result of the invoke `n`, if it fits in 64 bits.
pub open spec fn integer(ctx: Context, n: NodeView, r: int) -> Result<NodeView, MifulErrorView> {
    if i64::MIN <= r <= i64::MAX {
        Ok(plain_node(KindView::Int(r as i64), n.index, n.position))
    } else {
        Err(runtime(ctx.source, "Integer overflow!"@, n.index, n.position))
    }
}

/// What the integer operation of the invoke `target` gives.
pub open spec fn int_result(target: Seq<char>, x: int, y: int) -> int {
    if target == "+"@ {
        x + y
    } else if target == "-"@ {
        x - y
    } else {
        x * y
    }
}

/// The operation on numbers that the invoke `target` asks of the host.
pub open spec fn float_op(target: Seq<char>) -> FloatOp {
    if target == "+"@ {
        FloatOp::Add
    } else if target == "-"@ {
        FloatOp::Sub
    } else {
        FloatOp::Mul
    }
}

/// The types that `+`, `-` and `*` name in their error.
pub open spec fn operand_types(target: Seq<char>) -> Seq<char> {
    if target == "+"@ {
        "(int | float | (obj any) | list)"@
    } else {
        "(int | float)"@
    }
}

/// `+`, `-` and `*` on two numbers; `+` also joins two lists, and two
/// objects of one class.
pub open spec fn arithmetic(
    ctx: Context,
    n: NodeView,
    target: Seq<char>,
    a: NodeView,
    b: NodeView,
    used: nat,
) -> Effect<NodeView> {
    match (a.node, b.node) {
        (KindView::Int(x), KindView::Int(y)) => settled(
            integer(ctx, n, int_result(target, x as int, y as int)),
            used,
        ),
        (KindView::Float(x), KindView::Float(y)) => match float_reply(
            ctx,
            float_op(target),
            x,
            y,
            used,
        ) {
            Effect::Done(ReplyView::Float(r), next) => Effect::Done(
                plain_node(KindView::Float(r), n.index, n.position),
                next,
            ),
            Effect::Done(_, _) => Effect::Failure(bad_reply(ctx, n)),
            Effect::Failure(e) => Effect::Failure(e),
            Effect::Ask(r) => Effect::Ask(r),
        },
        (KindView::List(x), KindView::List(y)) => {
            if target != "+"@ {
                Effect::Failure(param_type(ctx.source, operand_types(target), b.index, b.position))
            } else if has_object_shape(a.node) && has_object_shape(b.node) {
                if object_class(a.node) == object_class(b.node) {
                    settled(appended_object(ctx.source, a, object_payload(b.node)), used)
                } else {
                    Effect::Failure(
                        runtime(
                            ctx.source,
                            "Can't concat two different objects!"@,
                            n.index,
                            n.position,
                        ),
                    )
                }
            } else {
                Effect::Done(
                    NodeView {
                        node: KindView::List(x + y),
                        hooks: a.hooks + b.hooks,
                        position: n.position,
                        index: n.index,
                    },
                    used,
                )
            }
        },
        _ => Effect::Failure(param_type(ctx.source, operand_types(target), b.index, b.position)),
    }
}

/// `length`, `head`, `tail` and `reverse` of a list.
pub open spec fn list_operation(ctx: Context, n: NodeView, target: Seq<char>, v: NodeView) -> Result<
    NodeView,
    MifulErrorView,
> {
    match v.node {
        KindView::List(items) => {
            if target == "length"@ {
                Ok(
                    plain_node(
                        KindView::Int(
                            if items.len() <= i64::MAX {
                                items.len() as i64
                            } else {
                                i64::MAX
                            },
                        ),
                        n.index,
                        n.position,
                    ),
                )
            } else if target == "head"@ {
                if items.len() > 0 {
                    Ok(items[0])
                } else {
                    Err(
                        runtime(
                            ctx.source,
                            "Cannot get head of empty tuple!"@,
                            v.index,
                            v.position,
                        ),
                    )
                }
            } else if target == "tail"@ {
                if items.len() > 0 {
                    Ok(
                        NodeView {
                            node: KindView::List(items.subrange(1, items.len() as int)),
                            hooks: v.hooks,
                            position: n.position,
                            index: n.index,
                        },
                    )
                } else {
                    Err(
                        runtime(
                            ctx.source,
                            "Cannot get tail of empty tuple!"@,
                            v.index,
                            v.position,
                        ),
                    )
                }
            } else {
                Ok(
                    NodeView {
                        node: KindView::List(items.reverse()),
                        hooks: v.hooks,
                        position: n.position,
                        index: n.index,
                    },
                )
            }
        },
        _ => Err(param_type(ctx.source, "(list (any))"@, v.index, v.position)),
    }
}

/// The invoke that a quote stands for: the same target and arguments.
pub open spec fn as_invoke(quote: NodeView) -> NodeView {
    NodeView {
        node: KindView::Invoke { target: quote.node->Quote_target, with: quote.node->Quote_with },
        ..quote
    }
}

/// The names and the type expressions of the parameters `pairs[from..]`,
/// behind those that were read before.
pub open spec fn parameters(
    source: Seq<Seq<char>>,
    pairs: Seq<NodeView>,
    from: nat,
    names: Seq<Seq<char>>,
    raw_types: Seq<NodeView>,
) -> Result<(Seq<Seq<char>>, Seq<NodeView>), MifulErrorView>
    decreases pairs.len() - from,
{
    if from >= pairs.len() {
        Ok((names, raw_types))
    } else {
        let raw_arg = pairs[from as int];
        match raw_arg.node {
            KindView::List(pair) => {
                if pair.len() == 2 {
                    match name_of(pair[0].node) {
                        Some(name) => parameters(
                            source,
                            pairs,
                            from + 1,
                            names.push(name),
                            raw_types.push(pair[1]),
                        ),
                        None => Err(type_signature(source, pair[0])),
                    }
                } else {
                    Err(type_signature(source, raw_arg))
                }
            },
            _ => Err(type_signature(source, raw_arg)),
        }
    }
}

/// The table after the function `name` with the given parameters and body
/// was defined; or why it cannot be defined.
pub open spec fn defined(
    ctx: Context,
    table: Seq<FunctionView>,
    n: NodeView,
    name: Seq<char>,
    raw_signature: Seq<NodeView>,
    body: NodeView,
) -> Result<Seq<FunctionView>, MifulErrorView> {
    if is_builtin(name) {
        Err(runtime(ctx.source, "Cannot override built-in function!"@, n.index, n.position))
    } else {
        match parameters(ctx.source, raw_signature, 0, Seq::empty(), Seq::empty()) {
            Err(e) => Err(e),
            Ok((names, raw_types)) => match types_of(
                ctx.source,
                raw_types,
                0,
                Seq::empty(),
                false,
            ) {
                Ok(signature) => Ok(
                    inserted(table, FunctionView { name, signature, parameters: names, body }),
                ),
                Err(e) => Err(e.layered("..while defining function"@)),
            },
        }
    }
}

/// `define`: checks its three arguments and defines the function.
pub open spec fn definition(
    ctx: Context,
    table: Seq<FunctionView>,
    n: NodeView,
    args: Seq<NodeView>,
) -> Result<Seq<FunctionView>, MifulErrorView> {
    match name_of(args[0].node) {
        None => Err(param_type(ctx.source, "(word | symbol)"@, args[0].index, args[0].position)),
        Some(name) => match items_of(args[1].node) {
            None => Err(
                param_type(
                    ctx.source,
                    "(list *(list (word type)))"@,
                    args[1].index,
                    args[1].position,
                ),
            ),
            Some(raw_signature) => {
                if args[2].node is Quote {
                    defined(ctx, table, n, name, raw_signature, as_invoke(args[2]))
                } else {
                    Err(param_type(ctx.source, "quote"@, args[2].index, args[2].position))
                }
            },
        },
    }
}

/// What is left to do after a built-in was applied.
pub enum Applied {
    /// The invoke is evaluated: its value and the function table afterwards.
    Finished(Effect<(NodeView, Seq<FunctionView>)>),
    /// The value of the invoke is the value of `node` in `scope`, one call
    /// deeper; an error from there gets `layer` on top.
    Enter { node: NodeView, scope: Seq<BindingView>, layer: Seq<char>, used: nat },
}

/// An effect on values together with the unchanged table.
pub open spec fn keeping(e: Effect<NodeView>, table: Seq<FunctionView>) -> Applied {
    Applied::Finished(
        match e {
            Effect::Done(v, used) => Effect::Done((v, table), used),
            Effect::Failure(e) => Effect::Failure(e),
            Effect::Ask(r) => Effect::Ask(r),
        },
    )
}

/// How many arguments a built-in takes, as a count and as the number that
/// its error names when it gets another number of them.
pub open spec fn arity(target: Seq<char>) -> Option<(nat, usize)> {
    if target == "print"@ || target == "input"@ || target == "mk-sym"@ || target == ":"@ || target
        == "return"@ || target == "length"@ || target == "head"@ || target == "tail"@ || target
        == "reverse"@ {
        Some((1, 1))
    } else if target == "="@ || target == "+"@ || target == "-"@ || target == "*"@ || target
        == "obj-append"@ {
        Some((2, 2))
    } else if target == "if"@ || target == "define"@ {
        Some((3, 3))
    } else {
        None
    }
}

/// The number of arguments of each built-in.
pub proof fn lemma_arities()
    ensures
        arity("print"@) == Some((1nat, 1usize)),
        arity("input"@) == Some((1nat, 1usize)),
        arity("mk-sym"@) == Some((1nat, 1usize)),
        arity(":"@) == Some((1nat, 1usize)),
        arity("return"@) == Some((1nat, 1usize)),
        arity("length"@) == Some((1nat, 1usize)),
        arity("head"@) == Some((1nat, 1usize)),
        arity("tail"@) == Some((1nat, 1usize)),
        arity("reverse"@) == Some((1nat, 1usize)),
        arity("="@) == Some((2nat, 2usize)),
        arity("+"@) == Some((2nat, 2usize)),
        arity("-"@) == Some((2nat, 2usize)),
        arity("*"@) == Some((2nat, 2usize)),
        arity("obj-append"@) == Some((2nat, 2usize)),
        arity("if"@) == Some((3nat, 3usize)),
        arity("define"@) == Some((3nat, 3usize)),
{
    reveal_strlit("print");
    reveal_strlit("input");
    reveal_strlit("mk-sym");
    reveal_strlit(":");
    reveal_strlit("return");
    reveal_strlit("length");
    reveal_strlit("head");
    reveal_strlit("tail");
    reveal_strlit("reverse");
    reveal_strlit("=");
    reveal_strlit("+");
    reveal_strlit("-");
    reveal_strlit("*");
    reveal_strlit("obj-append");
    reveal_strlit("if");
    reveal_strlit("define");
    assert("print"@.len() == 5 && "input"@.len() == 5 && "mk-sym"@.len() == 6 && ":"@.len() == 1
        && "return"@.len() == 6 && "length"@.len() == 6 && "head"@.len() == 4 && "tail"@.len()
        == 4 && "reverse"@.len() == 7);
    assert("="@.len() == 1 && "+"@.len() == 1 && "-"@.len() == 1 && "*"@.len() == 1
        && "obj-append"@.len() == 10 && "if"@.len() == 2 && "define"@.len() == 6);
    assert(":"@[0] == ':' && "="@[0] == '=' && "+"@[0] == '+' && "-"@[0] == '-' && "*"@[0] == '*');
    assert("define"@[0] == 'd' && "mk-sym"@[0] == 'm' && "return"@[0] == 'r' && "length"@[0]
        == 'l');
}

/// The invoke `n` of `target` applied to its evaluated arguments.
///
/// The built-ins are found by name; every other name is a call of a function
/// of the table.  `if` and a call do not end here: they go on with another
/// node, one call deeper.
pub open spec fn dispatch(
    ctx: Context,
    table: Seq<FunctionView>,
    n: NodeView,
    target: Seq<char>,
    args: Seq<NodeView>,
    used: nat,
) -> Applied {
    match arity(target) {
        None => match selected(ctx.source, table, target, args, n) {
            Ok((bindings, body)) => Applied::Enter {
                node: body,
                scope: ctx.scope + bindings,
                layer: "..while calling function "@ + target,
                used,
            },
            Err(e) => Applied::Finished(Effect::Failure(e)),
        },
        Some((count, named)) => {
            if args.len() != count {
                Applied::Finished(
                    Effect::Failure(
                        invalid_param_count(ctx.source, named, args.len() as usize, n),
                    ),
                )
            } else if target == "print"@ {
                keeping(
                    match print_value(ctx, args[0], used) {
                        Effect::Done(_, next) => Effect::Done(nil(), next),
                        Effect::Failure(e) => Effect::Failure(e),
                        Effect::Ask(r) => Effect::Ask(r),
                    },
                    table,
                )
            } else if target == "input"@ {
                keeping(read_input(ctx, n, args[0], used), table)
            } else if target == "mk-sym"@ {
                keeping(settled(made_symbol(ctx, n, args[0]), used), table)
            } else if target == ":"@ {
                keeping(settled(constant(ctx, n, args[0]), used), table)
            } else if target == "return"@ {
                keeping(Effect::Done(args[0], used), table)
            } else if target == "="@ {
                keeping(
                    match values_equal(ctx, args[0], args[1], n, used) {
                        Effect::Done(b, next) => Effect::Done(truth(b), next),
                        Effect::Failure(e) => Effect::Failure(e),
                        Effect::Ask(r) => Effect::Ask(r),
                    },
                    table,
                )
            } else if target == "+"@ || target == "-"@ || target == "*"@ {
                keeping(arithmetic(ctx, n, target, args[0], args[1], used), table)
            } else if target == "obj-append"@ {
                keeping(
                    match items_of(args[1].node) {
                        Some(items) => settled(appended_object(ctx.source, args[0], items), used),
                        None => Effect::Failure(
                            param_type(ctx.source, "list"@, args[1].index, args[1].position),
                        ),
                    },
                    table,
                )
            } else if target == "if"@ {
                if !(args[1].node is Quote) {
                    Applied::Finished(
                        Effect::Failure(
                            param_type(ctx.source, "quote"@, args[1].index, args[1].position),
                        ),
                    )
                } else if !(args[2].node is Quote) {
                    Applied::Finished(
                        Effect::Failure(
                            param_type(ctx.source, "quote"@, args[2].index, args[2].position),
                        ),
                    )
                } else {
                    Applied::Enter {
                        node: as_invoke(
                            if args[0].node == KindView::Symbol("true"@) {
                                args[1]
                            } else {
                                args[2]
                            },
                        ),
                        scope: ctx.scope,
                        layer: "..while evaluating parameters"@,
                        used,
                    }
                }
            } else if target == "define"@ {
                Applied::Finished(
                    match definition(ctx, table, n, args) {
                        Ok(after) => Effect::Done((nil(), after), used),
                        Err(e) => Effect::Failure(e),
                    },
                )
            } else {
                keeping(settled(list_operation(ctx, n, target, args[0]), used), table)
            }
        },
    }
}

/// The value of a node.
///
/// An atom is its own value.  The value of a list is the list of the values
/// of its elements.  The value of a quote is the quote with its holes
/// resolved.  An invoke is applied to the values of its arguments.  A hole
/// has no value.  `fuel` bounds how deep calls may nest.
pub open spec fn eval_node(
    ctx: Context,
    table: Seq<FunctionView>,
    n: NodeView,
    fuel: nat,
    used: nat,
) -> Effect<(NodeView, Seq<FunctionView>)>
    decreases fuel, n, children(n).len() + 2,
{
    match n.node {
        KindView::List(items) => match eval_seq(ctx, table, n, fuel, used, 0, Seq::empty()) {
            Effect::Done(values, next) => Effect::Done(
                (plain_node(KindView::List(values), n.index, n.position), table),
                next,
            ),
            Effect::Failure(e) => Effect::Failure(e.layered("..while evaluating list elements"@)),
            Effect::Ask(r) => Effect::Ask(r),
        },
        KindView::Invoke { target, with } => match eval_seq(
            ctx,
            table,
            n,
            fuel,
            used,
            0,
            Seq::empty(),
        ) {
            Effect::Failure(e) => Effect::Failure(
                e.layered("..while evaluating invoke parameters"@),
            ),
            Effect::Ask(r) => Effect::Ask(r),
            Effect::Done(args, next) => match dispatch(ctx, table, n, target, args, next) {
                Applied::Finished(effect) => effect,
                Applied::Enter { node, scope, layer, used } => {
                    if fuel == 0 {
                        Effect::Failure(
                            runtime(ctx.source, "Recursion limit reached!"@, n.index, n.position),
                        )
                    } else {
                        match eval_node(
                            Context { scope, ..ctx },
                            table,
                            node,
                            (fuel - 1) as nat,
                            used,
                        ) {
                            Effect::Done((value, _), after) => Effect::Done((value, table), after),
                            Effect::Failure(e) => Effect::Failure(e.layered(layer)),
                            Effect::Ask(r) => Effect::Ask(r),
                        }
                    }
                },
            },
        },
        KindView::Quote { target, with } => match resolve_all(
            ctx.source,
            n,
            n.hooks,
            0,
            Seq::empty(),
        ) {
            Ok(resolved) => Effect::Done(
                (
                    plain_node(
                        KindView::Quote { target, with: resolved },
                        n.index,
                        n.position,
                    ),
                    table,
                ),
                used,
            ),
            Err(e) => Effect::Failure(e),
        },
        KindView::LambdaHook(_) => Effect::Failure(
            runtime(ctx.source, "Unresolved hook!"@, n.index, n.position),
        ),
        _ => Effect::Done((n, table), used),
    }
}

/// The values of the children of `holder` from `from` on, behind `done`.
/// They are evaluated from left to right; a function that one of them
/// defines is known to those that follow, and to nothing else.
pub open spec fn eval_seq(
    ctx: Context,
    table: Seq<FunctionView>,
    holder: NodeView,
    fuel: nat,
    used: nat,
    from: nat,
    done: Seq<NodeView>,
) -> Effect<Seq<NodeView>>
    decreases fuel, holder, 1 + children(holder).len() - from,
{
    if from >= children(holder).len() {
        Effect::Done(done, used)
    } else {
        match eval_node(ctx, table, children(holder)[from as int], fuel, used) {
            Effect::Done((value, after), next) => eval_seq(
                ctx,
                after,
                holder,
                fuel,
                next,
                from + 1,
                done.push(value),
            ),
            Effect::Failure(e) => Effect::Failure(e),
            Effect::Ask(r) => Effect::Ask(r),
        }
    }
}

} // verus!
