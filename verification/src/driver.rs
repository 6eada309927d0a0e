//! The driver: evaluates the nodes of a program one after another.
//!
//! What a node evaluates to is defined in [`crate::semantics`]; the
//! functions here compute it.  [`Driver::next`] evaluates the next top-level
//! node.  Where evaluation needs the host, it stops with a request, and
//! evaluates the node again once [`Driver::answer`] was given the reply.

use crate::functions::{
    binding_views, choose_function, clone_bindings, clone_functions, extend_scope, find_binding,
    function_views, insert_function, Binding, BindingView, Function, FunctionView,
};
use crate::host::{reply_views, FloatOp, Reply, ReplyView, Request, RequestView};
use crate::parsing::ast::{
    clone_nodes, concat_nodes, plain_node, KindView, NodeKind, NodeView, NodeWrapper,
    node_views,
};
use crate::parsing::lexer::{lex, Lexer};
use crate::parsing::parser::{parse, Parser};
use crate::parsing::text::{integer_text, own_texts, same_text, slice_texts, texts};
use crate::parsing::token::{Token, token_views};
use crate::parsing::utils::{graphemes, segment_text, MifulError, MifulErrorView};
use crate::semantics;
use crate::semantics::{Applied, Context, Effect};
use crate::typing::{
    check_obj_type, get_obj_type, get_obj_val, invalid_param_count_error, list_items,
    list_to_types, make_false, make_nil, make_object, make_true, name_text, obj_append,
    param_type_error, type_signature_error,
};
use vstd::prelude::*;
use vstd::string::*;

verus! {

/// How deep calls may nest in a new driver: as deep as the machine can
/// count.  [`Driver::limit_depth`] sets a lower bound.
pub const MAX_DEPTH: usize = usize::MAX;

/// How a computation that may need the host ends.
#[derive(Debug)]
pub enum Outcome<T> {
    /// With a result.
    Done(T),
    /// With an error.
    Failure(MifulError),
    /// With a request: the host has not given the reply it needs yet.
    Ask(Request),
}

/// How the evaluation of a top-level node ends, as plain mathematical data.
pub enum Step {
    Value(NodeView),
    Failure(MifulErrorView),
    Ask(RequestView),
}

impl View for Outcome<NodeWrapper> {
    type V = Step;

    open spec fn view(&self) -> Step {
        match self {
            Outcome::Done(v) => Step::Value(v@),
            Outcome::Failure(e) => Step::Failure(e@),
            Outcome::Ask(r) => Step::Ask(r@),
        }
    }
}

/// How a computation without a result ended, with the number of replies it
/// has used.
pub open spec fn unit_effect(r: Outcome<()>, used: usize) -> Effect<()> {
    match r {
        Outcome::Done(_) => Effect::Done((), used as nat),
        Outcome::Failure(e) => Effect::Failure(e@),
        Outcome::Ask(q) => Effect::Ask(q@),
    }
}

/// How a computation of a truth value ended.
pub open spec fn flag_effect(r: Outcome<bool>, used: usize) -> Effect<bool> {
    match r {
        Outcome::Done(b) => Effect::Done(b, used as nat),
        Outcome::Failure(e) => Effect::Failure(e@),
        Outcome::Ask(q) => Effect::Ask(q@),
    }
}

/// How a computation of a node ended.
pub open spec fn node_effect(r: Outcome<NodeWrapper>, used: usize) -> Effect<NodeView> {
    match r {
        Outcome::Done(v) => Effect::Done(v@, used as nat),
        Outcome::Failure(e) => Effect::Failure(e@),
        Outcome::Ask(q) => Effect::Ask(q@),
    }
}

/// How a computation of several nodes ended.
pub open spec fn nodes_effect(r: Outcome<Vec<NodeWrapper>>, used: usize) -> Effect<Seq<NodeView>> {
    match r {
        Outcome::Done(v) => Effect::Done(node_views(v@), used as nat),
        Outcome::Failure(e) => Effect::Failure(e@),
        Outcome::Ask(q) => Effect::Ask(q@),
    }
}

/// How the evaluation of a node ended, with the function table afterwards.
pub open spec fn value_effect(r: Outcome<NodeWrapper>, table: Seq<FunctionView>, used: usize) -> Effect<
    (NodeView, Seq<FunctionView>),
> {
    match r {
        Outcome::Done(v) => Effect::Done((v@, table), used as nat),
        Outcome::Failure(e) => Effect::Failure(e@),
        Outcome::Ask(q) => Effect::Ask(q@),
    }
}

/// What stays the same while a node is evaluated.
pub struct Frame<'a> {
    pub source: &'a Vec<String>,
    pub scope: &'a Vec<Binding>,
    pub replies: &'a Vec<Reply>,
}

impl<'a> View for Frame<'a> {
    type V = Context;

    open spec fn view(&self) -> Context {
        Context {
            source: texts(self.source@),
            scope: binding_views(self.scope@),
            replies: reply_views(self.replies@),
        }
    }
}

/// The error for a reply that does not answer the request.
fn bad_reply_error(ctx: &Frame, n: &NodeWrapper) -> (r: MifulError)
    ensures
        r@ == semantics::bad_reply(ctx@, n@),
{
    MifulError::runtime_error("Unexpected reply from the host!", ctx.source, n.index, n.position)
}

/// Writes `text`; see [`semantics::printed`].
fn printed(ctx: &Frame, text: &str, at: &NodeWrapper, cursor: &mut usize) -> (r: Outcome<()>)
    ensures
        unit_effect(r, *final(cursor)) == semantics::printed(ctx@, text@, at@, *old(cursor) as nat),
{
    if *cursor >= ctx.replies.len() {
        return Outcome::Ask(Request::Print(String::from_str(text)));
    }
    match &ctx.replies[*cursor] {
        Reply::Done => {
            *cursor = *cursor + 1;
            Outcome::Done(())
        },
        _ => Outcome::Failure(bad_reply_error(ctx, at)),
    }
}

/// Prints a value; see [`semantics::print_value`].
fn print_fn(ctx: &Frame, val: &NodeWrapper, cursor: &mut usize) -> (r: Outcome<()>)
    ensures
        unit_effect(r, *final(cursor)) == semantics::print_value(ctx@, val@, *old(cursor) as nat),
    decreases val, 0nat,
{
    match name_text(&val.node) {
        Some(s) => printed(ctx, s.as_str(), val, cursor),
        None => {
            if check_obj_type(&val.node, "string") {
                match &val.node {
                    NodeKind::List(st) => {
                        assert(node_views(st@)[2] == st@[2]@);
                        print_items(ctx, &st[2], cursor)
                    },
                    _ => Outcome::Done(()),
                }
            } else {
                Outcome::Failure(
                    param_type_error(ctx.source, "(obj string)", val.index, val.position),
                )
            }
        },
    }
}

/// Prints the elements of a list; see [`semantics::print_items`].
fn print_items(ctx: &Frame, holder: &NodeWrapper, cursor: &mut usize) -> (r: Outcome<()>)
    ensures
        unit_effect(r, *final(cursor)) == semantics::print_items(
            ctx@,
            holder@,
            0,
            *old(cursor) as nat,
        ),
    decreases holder, 1nat,
{
    match &holder.node {
        NodeKind::List(items) => {
            let mut i: usize = 0;
            while i < items.len()
                invariant
                    i <= items.len(),
                    holder.node is List,
                    holder.node->List_0 == *items,
                    holder@.node == KindView::List(node_views(items@)),
                    semantics::print_items(ctx@, holder@, i as nat, *cursor as nat)
                        == semantics::print_items(ctx@, holder@, 0, *old(cursor) as nat),
                decreases items.len() - i,
            {
                assert(node_views(items@)[i as int] == items@[i as int]@);
                match print_fn(ctx, &items[i], cursor) {
                    Outcome::Done(_) => {},
                    Outcome::Failure(e) => {
                        let mut e = e;
                        e.add_layer_top("..while evaluating invoke parameters");
                        return Outcome::Failure(e);
                    },
                    Outcome::Ask(q) => {
                        return Outcome::Ask(q);
                    },
                }
                i += 1;
            }
            Outcome::Done(())
        },
        _ => Outcome::Done(()),
    }
}

/// Whether two values are equal; see [`semantics::values_equal`].
fn values_equal(
    ctx: &Frame,
    v1: &NodeWrapper,
    v2: &NodeWrapper,
    at: &NodeWrapper,
    cursor: &mut usize,
) -> (r: Outcome<bool>)
    ensures
        flag_effect(r, *final(cursor)) == semantics::values_equal(
            ctx@,
            v1@,
            v2@,
            at@,
            *old(cursor) as nat,
        ),
    decreases v1, 1nat,
{
    match (&v1.node, &v2.node) {
        (NodeKind::Int(i1), NodeKind::Int(i2)) => {
            Outcome::Done(*i1 == *i2)
        },
        (NodeKind::Float(f1), NodeKind::Float(f2)) => {
            if *cursor >= ctx.replies.len() {
                return Outcome::Ask(
                    Request::Float { op: FloatOp::Eq, left: f1.clone(), right: f2.clone() },
                );
            }
            match &ctx.replies[*cursor] {
                Reply::Truth(b) => {
                    *cursor = *cursor + 1;
                    Outcome::Done(*b)
                },
                _ => Outcome::Failure(bad_reply_error(ctx, at)),
            }
        },
        (NodeKind::Word(w1), NodeKind::Word(w2)) => {
            Outcome::Done(*w1 == *w2)
        },
        (NodeKind::Symbol(s1), NodeKind::Symbol(s2)) => {
            Outcome::Done(*s1 == *s2)
        },
        (NodeKind::List(l1), NodeKind::List(l2)) => {
            assert(node_views(l1@).len() == l1.len());
            assert(node_views(l2@).len() == l2.len());
            if l1.len() == l2.len() {
                lists_equal(ctx, v1, l2, at, cursor)
            } else {
                Outcome::Done(false)
            }
        },
        (NodeKind::LambdaHook(i1), NodeKind::LambdaHook(i2)) => {
            Outcome::Done(*i1 == *i2)
        },
        (NodeKind::Invoke { .. }, _) => Outcome::Failure(
            MifulError::runtime_error(
                "Can't check equality of invoke!",
                ctx.source,
                at.index,
                at.position,
            ),
        ),
        (_, NodeKind::Invoke { .. }) => Outcome::Failure(
            MifulError::runtime_error(
                "Can't check equality of invoke!",
                ctx.source,
                at.index,
                at.position,
            ),
        ),
        (NodeKind::Quote { .. }, _) => Outcome::Failure(
            MifulError::runtime_error(
                "Can't check equality of quote!",
                ctx.source,
                at.index,
                at.position,
            ),
        ),
        (_, NodeKind::Quote { .. }) => Outcome::Failure(
            MifulError::runtime_error(
                "Can't check equality of quote!",
                ctx.source,
                at.index,
                at.position,
            ),
        ),
        _ => {
            Outcome::Done(false)
        },
    }
}

/// Whether the elements of two lists are equal; see
/// [`semantics::lists_equal`].
fn lists_equal(
    ctx: &Frame,
    a: &NodeWrapper,
    others: &Vec<NodeWrapper>,
    at: &NodeWrapper,
    cursor: &mut usize,
) -> (r: Outcome<bool>)
    ensures
        flag_effect(r, *final(cursor)) == semantics::lists_equal(
            ctx@,
            a@,
            node_views(others@),
            0,
            at@,
            *old(cursor) as nat,
        ),
    decreases a, 0nat,
{
    match &a.node {
        NodeKind::List(items) => {
            let mut i: usize = 0;
            while i < items.len() && i < others.len()
                invariant
                    i <= items.len(),
                    a.node is List,
                    a.node->List_0 == *items,
                    a@.node == KindView::List(node_views(items@)),
                    semantics::lists_equal(
                        ctx@,
                        a@,
                        node_views(others@),
                        i as nat,
                        at@,
                        *cursor as nat,
                    ) == semantics::lists_equal(
                        ctx@,
                        a@,
                        node_views(others@),
                        0,
                        at@,
                        *old(cursor) as nat,
                    ),
                decreases items.len() - i,
            {
                assert(node_views(items@)[i as int] == items@[i as int]@);
                assert(node_views(others@)[i as int] == others@[i as int]@);
                match values_equal(ctx, &items[i], &others[i], at, cursor) {
                    Outcome::Done(same) => {
                        if !same {
                            return Outcome::Done(false);
                        }
                    },
                    Outcome::Failure(e) => {
                        let mut e = e;
                        e.add_layer_top("..while checking list equality");
                        return Outcome::Failure(e);
                    },
                    Outcome::Ask(q) => {
                        return Outcome::Ask(q);
                    },
                }
                i += 1;
            }
            Outcome::Done(true)
        },
        _ => Outcome::Done(true),
    }
}

/// No nodes at all.
fn no_nodes() -> (r: Vec<NodeWrapper>)
    ensures
        node_views(r@) == Seq::<NodeView>::empty(),
{
    let r: Vec<NodeWrapper> = Vec::new();
    assert(node_views(r@) =~= Seq::empty());
    r
}

/// The children of a node, if it has any.
fn children_of(n: &NodeWrapper) -> (r: Option<&Vec<NodeWrapper>>)
    ensures
        match r {
            Some(v) => node_views(v@) == semantics::children(n@) && (n.node is List || n.node
                is Quote || n.node is Invoke) && (n.node is List ==> n.node->List_0 == *v) && (
            n.node is Quote ==> n.node->Quote_with == *v) && (n.node is Invoke
                ==> n.node->Invoke_with == *v),
            None => semantics::children(n@).len() == 0 && !(n.node is List || n.node is Quote
                || n.node is Invoke),
        },
{
    match &n.node {
        NodeKind::List(v) => Some(v),
        NodeKind::Quote { with, .. } => Some(with),
        NodeKind::Invoke { with, .. } => Some(with),
        _ => None,
    }
}

/// The tree with its holes resolved; see [`semantics::resolve_hooks`].
fn resolve_hooks(source: &Vec<String>, tree: &NodeWrapper, hooks: &Vec<NodeWrapper>) -> (r: Result<
    NodeWrapper,
    MifulError,
>)
    ensures
        match r {
            Ok(v) => semantics::resolve_hooks(texts(source@), tree@, node_views(hooks@)) == Ok::<
                _,
                MifulErrorView,
            >(v@),
            Err(e) => semantics::resolve_hooks(texts(source@), tree@, node_views(hooks@)) == Err::<
                NodeView,
                _,
            >(e@),
        },
    decreases tree, 1nat,
{
    match &tree.node {
        NodeKind::List(_) => {
            match resolve_all(source, tree, hooks) {
                Ok(new_lst) => Ok(
                    NodeWrapper::new_list(new_lst, no_nodes(), tree.index, tree.position),
                ),
                Err(e) => Err(e),
            }
        },
        NodeKind::Invoke { target, .. } => {
            match resolve_all(source, tree, hooks) {
                Ok(new_with) => Ok(
                    NodeWrapper::new_invoke(
                        target.clone(),
                        new_with,
                        no_nodes(),
                        tree.index,
                        tree.position,
                    ),
                ),
                Err(e) => Err(e),
            }
        },
        NodeKind::LambdaHook(idx) => {
            if *idx < hooks.len() {
                assert(node_views(hooks@)[*idx as int] == hooks@[*idx as int]@);
                Ok(hooks[*idx].clone())
            } else {
                Err(
                    MifulError::runtime_error(
                        "Unresolved hook!",
                        source,
                        tree.index,
                        tree.position,
                    ),
                )
            }
        },
        _ => Ok(tree.clone()),
    }
}

/// The children of a node with their holes resolved; see
/// [`semantics::resolve_all`].
fn resolve_all(source: &Vec<String>, holder: &NodeWrapper, hooks: &Vec<NodeWrapper>) -> (r: Result<
    Vec<NodeWrapper>,
    MifulError,
>)
    ensures
        match r {
            Ok(v) => semantics::resolve_all(
                texts(source@),
                holder@,
                node_views(hooks@),
                0,
                Seq::empty(),
            ) == Ok::<_, MifulErrorView>(node_views(v@)),
            Err(e) => semantics::resolve_all(
                texts(source@),
                holder@,
                node_views(hooks@),
                0,
                Seq::empty(),
            ) == Err::<Seq<NodeView>, _>(e@),
        },
    decreases holder, 0nat,
{
    let mut done: Vec<NodeWrapper> = Vec::new();
    assert(node_views(done@) =~= Seq::empty());
    match children_of(holder) {
        None => Ok(done),
        Some(items) => {
            let mut i: usize = 0;
            while i < items.len()
                invariant
                    i <= items.len(),
                    node_views(items@) == semantics::children(holder@),
                    holder.node is List || holder.node is Quote || holder.node is Invoke,
                    holder.node is List ==> holder.node->List_0 == *items,
                    holder.node is Quote ==> holder.node->Quote_with == *items,
                    holder.node is Invoke ==> holder.node->Invoke_with == *items,
                    semantics::resolve_all(
                        texts(source@),
                        holder@,
                        node_views(hooks@),
                        i as nat,
                        node_views(done@),
                    ) == semantics::resolve_all(
                        texts(source@),
                        holder@,
                        node_views(hooks@),
                        0,
                        Seq::empty(),
                    ),
                decreases items.len() - i,
            {
                assert(node_views(items@)[i as int] == items@[i as int]@);
                match resolve_hooks(source, &items[i], hooks) {
                    Ok(node) => {
                        let ghost before = node_views(done@);
                        let ghost n = node@;
                        done.push(node);
                        assert(node_views(done@) =~= before.push(n));
                    },
                    Err(e) => {
                        return Err(e);
                    },
                }
                i += 1;
            }
            Ok(done)
        },
    }
}

/// The graphemes that are symbols of their own.
pub fn default_symbols() -> (r: Vec<&'static str>)
    ensures
        slice_texts(r@) == semantics::symbols(),
{
    let mut v: Vec<&'static str> = Vec::new();
    v.push(":");
    v.push("@");
    v.push("&");
    v.push("|");
    v.push("#");
    v.push("~");
    v.push("?");
    v.push("\\");
    assert(slice_texts(v@) =~= semantics::symbols());
    v
}

/// The nodes that a line of input stands for; see [`semantics::line_nodes`].
pub fn line_nodes(line: &str) -> (r: Result<Vec<NodeWrapper>, MifulError>)
    ensures
        match r {
            Ok(v) => semantics::line_nodes(line@) == Ok::<_, MifulErrorView>(node_views(v@)),
            Err(e) => semantics::line_nodes(line@) == Err::<Seq<NodeView>, _>(e@),
        },
{
    let pieces = segment_text(line);
    let source = own_texts(&pieces);
    let lexer = Lexer::new_ws_preserving(pieces, default_symbols());
    let mut tokens = match lexer.tokens() {
        Ok(tokens) => tokens,
        Err(e) => {
            return Err(e);
        },
    };
    let ghost all = token_views(tokens@);
    tokens.pop();
    let ghost kept = token_views(tokens@);
    assert(kept =~= if all.len() > 0 {
        all.drop_last()
    } else {
        all
    });
    let mut nodes: Vec<NodeWrapper> = Vec::new();
    assert(node_views(nodes@) =~= Seq::empty());
    let mut i: usize = 0;
    while i < tokens.len()
        invariant
            i <= tokens.len(),
            kept == token_views(tokens@),
            semantics::line_nodes(line@) == semantics::line_atoms(
                texts(source@),
                kept,
                0,
                Seq::empty(),
            ),
            semantics::line_atoms(texts(source@), kept, i as nat, node_views(nodes@))
                == semantics::line_atoms(texts(source@), kept, 0, Seq::empty()),
        decreases tokens.len() - i,
    {
        let mut single: Vec<Token> = Vec::new();
        let t = tokens[i].clone();
        single.push(t);
        assert(token_views(single@) =~= seq![kept[i as int]]);
        match Parser::new(single).nodes() {
            Ok(lst) => {
                if lst.len() > 0 {
                    let ghost before = node_views(nodes@);
                    let c = lst[0].clone();
                    assert(node_views(lst@)[0] == lst@[0]@);
                    nodes.push(c);
                    assert(node_views(nodes@) =~= before.push(c@));
                }
            },
            Err(e) => {
                let mut e = e;
                e.add_layer_top("..while interpreting input line");
                e.supply_source(&source);
                return Err(e);
            },
        }
        i += 1;
    }
    Ok(nodes)
}


/// How many arguments a built-in takes; see [`semantics::arity`].
fn arity(target: &str) -> (r: Option<(usize, usize)>)
    ensures
        match r {
            Some((count, named)) => semantics::arity(target@) == Some((count as nat, named)),
            None => semantics::arity(target@) is None,
        },
{
    if same_text(target, "print") || same_text(target, "input") || same_text(target, "mk-sym")
        || same_text(target, ":") || same_text(target, "return") || same_text(target, "length")
        || same_text(target, "head") || same_text(target, "tail") || same_text(
        target,
        "reverse",
    ) {
        Some((1, 1))
    } else if same_text(target, "=") || same_text(target, "+") || same_text(target, "-")
        || same_text(target, "*") || same_text(target, "obj-append") {
        Some((2, 2))
    } else if same_text(target, "if") || same_text(target, "define") {
        Some((3, 3))
    } else {
        None
    }
}

/// Whether a name is built in.
fn is_builtin(name: &str) -> (r: bool)
    ensures
        r == semantics::is_builtin(name@),
{
    same_text(name, "print") || same_text(name, "input") || same_text(name, "mk-sym") || same_text(
        name,
        ":",
    ) || same_text(name, "return") || same_text(name, "define") || same_text(name, "obj-append")
        || same_text(name, "length") || same_text(name, "head") || same_text(name, "tail")
        || same_text(name, "reverse") || same_text(name, "=") || same_text(name, "+") || same_text(
        name,
        "-",
    ) || same_text(name, "*") || same_text(name, "if")
}

/// `input`; see [`semantics::read_input`].
fn read_input(ctx: &Frame, n: &NodeWrapper, prompt: &NodeWrapper, cursor: &mut usize) -> (r: Outcome<
    NodeWrapper,
>)
    ensures
        node_effect(r, *final(cursor)) == semantics::read_input(
            ctx@,
            n@,
            prompt@,
            *old(cursor) as nat,
        ),
{
    match print_fn(ctx, prompt, cursor) {
        Outcome::Failure(e) => Outcome::Failure(e),
        Outcome::Ask(q) => Outcome::Ask(q),
        Outcome::Done(_) => {
            if *cursor >= ctx.replies.len() {
                return Outcome::Ask(Request::ReadLine);
            }
            match &ctx.replies[*cursor] {
                Reply::Line(line) => {
                    match line_nodes(line.as_str()) {
                        Ok(node_lst) => {
                            *cursor = *cursor + 1;
                            Outcome::Done(
                                make_object(
                                    String::from_str("string"),
                                    node_lst,
                                    n.index,
                                    n.position,
                                ),
                            )
                        },
                        Err(e) => Outcome::Failure(e),
                    }
                },
                _ => Outcome::Failure(bad_reply_error(ctx, n)),
            }
        },
    }
}

/// `mk-sym`; see [`semantics::made_symbol`].
fn made_symbol(ctx: &Frame, n: &NodeWrapper, v: &NodeWrapper) -> (r: Result<NodeWrapper, MifulError>)
    ensures
        match r {
            Ok(x) => semantics::made_symbol(ctx@, n@, v@) == Ok::<_, MifulErrorView>(x@),
            Err(e) => semantics::made_symbol(ctx@, n@, v@) == Err::<NodeView, _>(e@),
        },
{
    match &v.node {
        NodeKind::Word(w) => Ok(NodeWrapper::new_symbol(w.clone(), n.index, n.position)),
        NodeKind::Int(i) => Ok(NodeWrapper::new_symbol(integer_text(*i), n.index, n.position)),
        NodeKind::Float(f) => Ok(NodeWrapper::new_symbol(f.clone(), n.index, n.position)),
        _ => Err(param_type_error(ctx.source, "word", v.index, v.position)),
    }
}

/// `:`; see [`semantics::constant`].
fn constant(ctx: &Frame, n: &NodeWrapper, v: &NodeWrapper) -> (r: Result<NodeWrapper, MifulError>)
    ensures
        match r {
            Ok(x) => semantics::constant(ctx@, n@, v@) == Ok::<_, MifulErrorView>(x@),
            Err(e) => semantics::constant(ctx@, n@, v@) == Err::<NodeView, _>(e@),
        },
{
    match name_text(&v.node) {
        Some(name) => {
            match find_binding(ctx.scope, name.as_str()) {
                Some(val) => Ok(val),
                None => Err(
                    MifulError::runtime_error(
                        "Undefined constant!",
                        ctx.source,
                        n.index,
                        n.position,
                    ),
                ),
            }
        },
        None => Err(param_type_error(ctx.source, "(word | symbol)", n.index, n.position)),
    }
}

/// `+`, `-` and `*`; see [`semantics::arithmetic`].
fn arithmetic(
    ctx: &Frame,
    n: &NodeWrapper,
    target: &str,
    a: &NodeWrapper,
    b: &NodeWrapper,
    cursor: &mut usize,
) -> (r: Outcome<NodeWrapper>)
    ensures
        node_effect(r, *final(cursor)) == semantics::arithmetic(
            ctx@,
            n@,
            target@,
            a@,
            b@,
            *old(cursor) as nat,
        ),
{
    let plus = same_text(target, "+");
    let minus = same_text(target, "-");
    match (&a.node, &b.node) {
        (NodeKind::Int(i1), NodeKind::Int(i2)) => {
            let result = if plus {
                i1.checked_add(*i2)
            } else if minus {
                i1.checked_sub(*i2)
            } else {
                i1.checked_mul(*i2)
            };
            match result {
                Some(v) => Outcome::Done(NodeWrapper::new_int(v, n.index, n.position)),
                None => Outcome::Failure(
                    MifulError::runtime_error(
                        "Integer overflow!",
                        ctx.source,
                        n.index,
                        n.position,
                    ),
                ),
            }
        },
        (NodeKind::Float(f1), NodeKind::Float(f2)) => {
            if *cursor >= ctx.replies.len() {
                let op = if plus {
                    FloatOp::Add
                } else if minus {
                    FloatOp::Sub
                } else {
                    FloatOp::Mul
                };
                return Outcome::Ask(Request::Float { op, left: f1.clone(), right: f2.clone() });
            }
            match &ctx.replies[*cursor] {
                Reply::Float(v) => {
                    *cursor = *cursor + 1;
                    Outcome::Done(NodeWrapper::new_float(v.clone(), n.index, n.position))
                },
                _ => Outcome::Failure(bad_reply_error(ctx, n)),
            }
        },
        (NodeKind::List(l1), NodeKind::List(l2)) => {
            if !plus {
                Outcome::Failure(param_type_error(ctx.source, "(int | float)", b.index, b.position))
            } else if check_obj_type(&a.node, "any") && check_obj_type(&b.node, "any") {
                let t1 = match get_obj_type(ctx.source, a) {
                    Ok(t) => t,
                    Err(e) => {
                        return Outcome::Failure(e);
                    },
                };
                let t2 = match get_obj_type(ctx.source, b) {
                    Ok(t) => t,
                    Err(e) => {
                        return Outcome::Failure(e);
                    },
                };
                let payload = match get_obj_val(ctx.source, b) {
                    Ok(items) => items,
                    Err(e) => {
                        return Outcome::Failure(e);
                    },
                };
                if t1 == t2 {
                    match obj_append(ctx.source, a, &payload) {
                        Ok(v) => Outcome::Done(v),
                        Err(e) => Outcome::Failure(e),
                    }
                } else {
                    Outcome::Failure(
                        MifulError::runtime_error(
                            "Can't concat two different objects!",
                            ctx.source,
                            n.index,
                            n.position,
                        ),
                    )
                }
            } else {
                let new_l = concat_nodes(l1, l2);
                let new_hooks = concat_nodes(&a.hooks, &b.hooks);
                Outcome::Done(NodeWrapper::new_list(new_l, new_hooks, n.index, n.position))
            }
        },
        _ => {
            if plus {
                Outcome::Failure(
                    param_type_error(
                        ctx.source,
                        "(int | float | (obj any) | list)",
                        b.index,
                        b.position,
                    ),
                )
            } else {
                Outcome::Failure(param_type_error(ctx.source, "(int | float)", b.index, b.position))
            }
        },
    }
}

/// `length`, `head`, `tail` and `reverse`; see [`semantics::list_operation`].
fn list_operation(ctx: &Frame, n: &NodeWrapper, target: &str, v: &NodeWrapper) -> (r: Result<
    NodeWrapper,
    MifulError,
>)
    ensures
        match r {
            Ok(x) => semantics::list_operation(ctx@, n@, target@, v@) == Ok::<_, MifulErrorView>(
                x@,
            ),
            Err(e) => semantics::list_operation(ctx@, n@, target@, v@) == Err::<NodeView, _>(e@),
        },
{
    match &v.node {
        NodeKind::List(lst) => {
            let ghost items = node_views(lst@);
            assert(items.len() == lst.len());
            if same_text(target, "length") {
                let wide: u64 = lst.len() as u64;
                let count: i64 = if wide <= 0x7fff_ffff_ffff_ffffu64 {
                    wide as i64
                } else {
                    0x7fff_ffff_ffff_ffffi64
                };
                Ok(NodeWrapper::new_int(count, n.index, n.position))
            } else if same_text(target, "head") {
                if lst.len() > 0 {
                    assert(items[0] == lst@[0]@);
                    Ok(lst[0].clone())
                } else {
                    Err(
                        MifulError::runtime_error(
                            "Cannot get head of empty tuple!",
                            ctx.source,
                            v.index,
                            v.position,
                        ),
                    )
                }
            } else if same_text(target, "tail") {
                if lst.len() > 0 {
                    let mut rest: Vec<NodeWrapper> = Vec::new();
                    let mut i: usize = 1;
                    while i < lst.len()
                        invariant
                            1 <= i <= lst.len(),
                            items == node_views(lst@),
                            node_views(rest@) == items.subrange(1, i as int),
                        decreases lst.len() - i,
                    {
                        let ghost before = node_views(rest@);
                        let c = lst[i].clone();
                        assert(items[i as int] == lst@[i as int]@);
                        rest.push(c);
                        assert(node_views(rest@) =~= before.push(c@));
                        assert(node_views(rest@) =~= items.subrange(1, i + 1));
                        i += 1;
                    }
                    Ok(NodeWrapper::new_list(rest, clone_nodes(&v.hooks), n.index, n.position))
                } else {
                    Err(
                        MifulError::runtime_error(
                            "Cannot get tail of empty tuple!",
                            ctx.source,
                            v.index,
                            v.position,
                        ),
                    )
                }
            } else {
                let mut turned: Vec<NodeWrapper> = Vec::new();
                let mut i: usize = lst.len();
                while i > 0
                    invariant
                        i <= lst.len(),
                        items == node_views(lst@),
                        node_views(turned@) == items.reverse().take(lst.len() - i),
                    decreases i,
                {
                    let ghost before = node_views(turned@);
                    let c = lst[i - 1].clone();
                    assert(items[i - 1] == lst@[i - 1]@);
                    turned.push(c);
                    assert(node_views(turned@) =~= before.push(c@));
                    assert(node_views(turned@) =~= items.reverse().take(lst.len() - i + 1));
                    i -= 1;
                }
                assert(items.reverse().take(lst.len() as int) =~= items.reverse());
                Ok(NodeWrapper::new_list(turned, clone_nodes(&v.hooks), n.index, n.position))
            }
        },
        _ => Err(param_type_error(ctx.source, "(list (any))", v.index, v.position)),
    }
}

/// The invoke that a quote stands for.
fn as_invoke(quote: &NodeWrapper) -> (r: NodeWrapper)
    requires
        quote.node is Quote,
    ensures
        r@ == semantics::as_invoke(quote@),
{
    match &quote.node {
        NodeKind::Quote { target, with } => NodeWrapper::new_invoke(
            target.clone(),
            clone_nodes(with),
            clone_nodes(&quote.hooks),
            quote.index,
            quote.position,
        ),
        _ => quote.clone(),
    }
}

/// The names and type expressions of a parameter list; see
/// [`semantics::parameters`].
fn parameters(source: &Vec<String>, pairs: &Vec<NodeWrapper>) -> (r: Result<
    (Vec<String>, Vec<NodeWrapper>),
    MifulError,
>)
    ensures
        match r {
            Ok((names, raw_types)) => semantics::parameters(
                texts(source@),
                node_views(pairs@),
                0,
                Seq::empty(),
                Seq::empty(),
            ) == Ok::<_, MifulErrorView>((texts(names@), node_views(raw_types@))),
            Err(e) => semantics::parameters(
                texts(source@),
                node_views(pairs@),
                0,
                Seq::empty(),
                Seq::empty(),
            ) == Err::<(Seq<Seq<char>>, Seq<NodeView>), _>(e@),
        },
{
    let ghost src = texts(source@);
    let ghost ps = node_views(pairs@);
    let mut names: Vec<String> = Vec::new();
    let mut raw_types: Vec<NodeWrapper> = Vec::new();
    assert(texts(names@) =~= Seq::empty());
    assert(node_views(raw_types@) =~= Seq::empty());
    let mut i: usize = 0;
    while i < pairs.len()
        invariant
            i <= pairs.len(),
            src == texts(source@),
            ps == node_views(pairs@),
            semantics::parameters(src, ps, i as nat, texts(names@), node_views(raw_types@))
                == semantics::parameters(src, ps, 0, Seq::empty(), Seq::empty()),
        decreases pairs.len() - i,
    {
        let raw_arg = &pairs[i];
        assert(ps[i as int] == raw_arg@);
        match &raw_arg.node {
            NodeKind::List(raw_pair) => {
                assert(node_views(raw_pair@).len() == raw_pair.len());
                if raw_pair.len() == 2 {
                    assert(node_views(raw_pair@)[0] == raw_pair@[0]@);
                    assert(node_views(raw_pair@)[1] == raw_pair@[1]@);
                    match name_text(&raw_pair[0].node) {
                        Some(name) => {
                            let ghost before_names = texts(names@);
                            let ghost before_types = node_views(raw_types@);
                            let c = name.clone();
                            names.push(c);
                            let t = raw_pair[1].clone();
                            raw_types.push(t);
                            assert(texts(names@) =~= before_names.push(c@));
                            assert(node_views(raw_types@) =~= before_types.push(t@));
                        },
                        None => {
                            return Err(type_signature_error(source, &raw_pair[0]));
                        },
                    }
                } else {
                    return Err(type_signature_error(source, raw_arg));
                }
            },
            _ => {
                return Err(type_signature_error(source, raw_arg));
            },
        }
        i += 1;
    }
    Ok((names, raw_types))
}

/// Defines a function; see [`semantics::defined`].
fn define_function(
    ctx: &Frame,
    table: &mut Vec<Function>,
    n: &NodeWrapper,
    name: &str,
    raw_signature: &Vec<NodeWrapper>,
    body: NodeWrapper,
) -> (r: Result<NodeWrapper, MifulError>)
    ensures
        match r {
            Ok(v) => v@ == crate::typing::nil() && semantics::defined(
                ctx@,
                function_views(old(table)@),
                n@,
                name@,
                node_views(raw_signature@),
                body@,
            ) == Ok::<_, MifulErrorView>(function_views(final(table)@)),
            Err(e) => semantics::defined(
                ctx@,
                function_views(old(table)@),
                n@,
                name@,
                node_views(raw_signature@),
                body@,
            ) == Err::<Seq<FunctionView>, _>(e@),
        },
{
    if is_builtin(name) {
        return Err(
            MifulError::runtime_error(
                "Cannot override built-in function!",
                ctx.source,
                n.index,
                n.position,
            ),
        );
    }
    match parameters(ctx.source, raw_signature) {
        Err(e) => Err(e),
        Ok((names, raw_types)) => {
            match list_to_types(ctx.source, &raw_types) {
                Ok(types) => {
                    insert_function(
                        table,
                        Function {
                            name: String::from_str(name),
                            signature: types,
                            parameters: names,
                            body,
                        },
                    );
                    Ok(make_nil())
                },
                Err(e) => {
                    let mut e = e;
                    e.add_layer_top("..while defining function");
                    Err(e)
                },
            }
        },
    }
}

/// `define`; see [`semantics::definition`].
fn definition(ctx: &Frame, table: &mut Vec<Function>, n: &NodeWrapper, args: &Vec<NodeWrapper>) -> (r:
    Result<NodeWrapper, MifulError>)
    requires
        args.len() == 3,
    ensures
        match r {
            Ok(v) => v@ == crate::typing::nil() && semantics::definition(
                ctx@,
                function_views(old(table)@),
                n@,
                node_views(args@),
            ) == Ok::<_, MifulErrorView>(function_views(final(table)@)),
            Err(e) => semantics::definition(
                ctx@,
                function_views(old(table)@),
                n@,
                node_views(args@),
            ) == Err::<Seq<FunctionView>, _>(e@),
        },
{
    let raw_1 = &args[0];
    let raw_2 = &args[1];
    let raw_3 = &args[2];
    assert(node_views(args@)[0] == raw_1@);
    assert(node_views(args@)[1] == raw_2@);
    assert(node_views(args@)[2] == raw_3@);
    match name_text(&raw_1.node) {
        None => Err(param_type_error(ctx.source, "(word | symbol)", raw_1.index, raw_1.position)),
        Some(def_name) => {
            match list_items(&raw_2.node) {
                None => Err(
                    param_type_error(
                        ctx.source,
                        "(list *(list (word type)))",
                        raw_2.index,
                        raw_2.position,
                    ),
                ),
                Some(raw_lst) => {
                    match &raw_3.node {
                        NodeKind::Quote { .. } => {
                            let body_invoke = as_invoke(raw_3);
                            define_function(
                                ctx,
                                table,
                                n,
                                def_name.as_str(),
                                raw_lst,
                                body_invoke,
                            )
                        },
                        _ => Err(
                            param_type_error(ctx.source, "quote", raw_3.index, raw_3.position),
                        ),
                    }
                },
            }
        },
    }
}

/// What is left to do after a built-in was applied.
enum Next {
    Finished(Outcome<NodeWrapper>),
    Enter { node: NodeWrapper, scope: Vec<Binding>, layer: String },
}

/// What is left to do, as plain mathematical data.
spec fn applied(r: Next, table: Seq<FunctionView>, used: usize) -> Applied {
    match r {
        Next::Finished(o) => Applied::Finished(value_effect(o, table, used)),
        Next::Enter { node, scope, layer } => Applied::Enter {
            node: node@,
            scope: binding_views(scope@),
            layer: layer@,
            used: used as nat,
        },
    }
}

/// The end of an invoke that needed no host.
fn finished(r: Result<NodeWrapper, MifulError>) -> (out: Next)
    ensures
        match r {
            Ok(v) => out == Next::Finished(Outcome::Done(v)),
            Err(e) => out == Next::Finished(Outcome::Failure(e)),
        },
{
    match r {
        Ok(v) => Next::Finished(Outcome::Done(v)),
        Err(e) => Next::Finished(Outcome::Failure(e)),
    }
}

/// An invoke applied to its evaluated arguments; see
/// [`semantics::dispatch`].
fn dispatch(
    ctx: &Frame,
    table: &mut Vec<Function>,
    n: &NodeWrapper,
    target: &str,
    args: &Vec<NodeWrapper>,
    cursor: &mut usize,
) -> (r: Next)
    ensures
        applied(r, function_views(final(table)@), *final(cursor)) == semantics::dispatch(
            ctx@,
            function_views(old(table)@),
            n@,
            target@,
            node_views(args@),
            *old(cursor) as nat,
        ),
        r is Enter ==> function_views(final(table)@) == function_views(old(table)@),
{
    let ghost values = node_views(args@);
    assert(values.len() == args.len());
    proof {
        semantics::lemma_arities();
    }
    match arity(target) {
        None => {
            match choose_function(ctx.source, table, target, args, n) {
                Ok((names, body)) => {
                    let scope = extend_scope(ctx.scope, &names, args);
                    let mut layer = String::from_str("..while calling function ");
                    layer.append(target);
                    Next::Enter { node: body, scope, layer }
                },
                Err(e) => Next::Finished(Outcome::Failure(e)),
            }
        },
        Some((count, named)) => {
            if args.len() != count {
                return Next::Finished(
                    Outcome::Failure(
                        invalid_param_count_error(ctx.source, named, args.len(), n),
                    ),
                );
            }
            assert(values[0] == args@[0]@);
            assert(count >= 2 ==> values[1] == args@[1]@);
            assert(count >= 3 ==> values[2] == args@[2]@);
            if same_text(target, "print") {
                match print_fn(ctx, &args[0], cursor) {
                    Outcome::Done(_) => Next::Finished(Outcome::Done(make_nil())),
                    Outcome::Failure(e) => Next::Finished(Outcome::Failure(e)),
                    Outcome::Ask(q) => Next::Finished(Outcome::Ask(q)),
                }
            } else if same_text(target, "input") {
                Next::Finished(read_input(ctx, n, &args[0], cursor))
            } else if same_text(target, "mk-sym") {
                finished(made_symbol(ctx, n, &args[0]))
            } else if same_text(target, ":") {
                finished(constant(ctx, n, &args[0]))
            } else if same_text(target, "return") {
                Next::Finished(Outcome::Done(args[0].clone()))
            } else if same_text(target, "=") {
                match values_equal(ctx, &args[0], &args[1], n, cursor) {
                    Outcome::Done(same) => Next::Finished(
                        Outcome::Done(
                            if same {
                                make_true()
                            } else {
                                make_false()
                            },
                        ),
                    ),
                    Outcome::Failure(e) => Next::Finished(Outcome::Failure(e)),
                    Outcome::Ask(q) => Next::Finished(Outcome::Ask(q)),
                }
            } else if same_text(target, "+") || same_text(target, "-") || same_text(target, "*") {
                Next::Finished(arithmetic(ctx, n, target, &args[0], &args[1], cursor))
            } else if same_text(target, "obj-append") {
                match list_items(&args[1].node) {
                    Some(lst) => finished(obj_append(ctx.source, &args[0], lst)),
                    None => Next::Finished(
                        Outcome::Failure(
                            param_type_error(ctx.source, "list", args[1].index, args[1].position),
                        ),
                    ),
                }
            } else if same_text(target, "if") {
                let cond_node = &args[0];
                let true_node = &args[1];
                let false_node = &args[2];
                match (&true_node.node, &false_node.node) {
                    (NodeKind::Quote { .. }, NodeKind::Quote { .. }) => {
                        let holds = match &cond_node.node {
                            NodeKind::Symbol(s) => same_text(s.as_str(), "true"),
                            _ => false,
                        };
                        let node = if holds {
                            as_invoke(true_node)
                        } else {
                            as_invoke(false_node)
                        };
                        Next::Enter {
                            node,
                            scope: clone_bindings(ctx.scope),
                            layer: String::from_str("..while evaluating parameters"),
                        }
                    },
                    (NodeKind::Quote { .. }, _) => Next::Finished(
                        Outcome::Failure(
                            param_type_error(
                                ctx.source,
                                "quote",
                                false_node.index,
                                false_node.position,
                            ),
                        ),
                    ),
                    _ => Next::Finished(
                        Outcome::Failure(
                            param_type_error(
                                ctx.source,
                                "quote",
                                true_node.index,
                                true_node.position,
                            ),
                        ),
                    ),
                }
            } else if same_text(target, "define") {
                finished(definition(ctx, table, n, args))
            } else {
                finished(list_operation(ctx, n, target, &args[0]))
            }
        },
    }
}

/// The value of a node; see [`semantics::eval_node`].
pub fn eval_node(
    ctx: &Frame,
    table: &mut Vec<Function>,
    n: &NodeWrapper,
    fuel: usize,
    cursor: &mut usize,
) -> (r: Outcome<NodeWrapper>)
    ensures
        value_effect(r, function_views(final(table)@), *final(cursor)) == semantics::eval_node(
            ctx@,
            function_views(old(table)@),
            n@,
            fuel as nat,
            *old(cursor) as nat,
        ),
    decreases fuel, n, 1nat,
{
    match &n.node {
        NodeKind::List(_) => {
            match eval_seq(ctx, table, n, fuel, cursor) {
                Outcome::Done(ret) => Outcome::Done(
                    NodeWrapper::new_list(ret, no_nodes(), n.index, n.position),
                ),
                Outcome::Failure(e) => {
                    let mut e = e;
                    e.add_layer_top("..while evaluating list elements");
                    Outcome::Failure(e)
                },
                Outcome::Ask(q) => Outcome::Ask(q),
            }
        },
        NodeKind::Invoke { target, .. } => {
            match eval_seq(ctx, table, n, fuel, cursor) {
                Outcome::Failure(e) => {
                    let mut e = e;
                    e.add_layer_top("..while evaluating invoke parameters");
                    Outcome::Failure(e)
                },
                Outcome::Ask(q) => Outcome::Ask(q),
                Outcome::Done(args) => {
                    match dispatch(ctx, table, n, target.as_str(), &args, cursor) {
                        Next::Finished(out) => out,
                        Next::Enter { node, scope, layer } => {
                            if fuel == 0 {
                                return Outcome::Failure(
                                    MifulError::runtime_error(
                                        "Recursion limit reached!",
                                        ctx.source,
                                        n.index,
                                        n.position,
                                    ),
                                );
                            }
                            let inner = Frame {
                                source: ctx.source,
                                scope: &scope,
                                replies: ctx.replies,
                            };
                            let mut snapshot = clone_functions(table);
                            match eval_node(&inner, &mut snapshot, &node, fuel - 1, cursor) {
                                Outcome::Done(v) => Outcome::Done(v),
                                Outcome::Failure(e) => {
                                    let mut e = e;
                                    e.add_layer_top(layer.as_str());
                                    Outcome::Failure(e)
                                },
                                Outcome::Ask(q) => Outcome::Ask(q),
                            }
                        },
                    }
                },
            }
        },
        NodeKind::Quote { target, .. } => {
            match resolve_all(ctx.source, n, &n.hooks) {
                Ok(new_with) => Outcome::Done(
                    NodeWrapper::new_quote(
                        target.clone(),
                        new_with,
                        no_nodes(),
                        n.index,
                        n.position,
                    ),
                ),
                Err(e) => Outcome::Failure(e),
            }
        },
        NodeKind::LambdaHook(_) => Outcome::Failure(
            MifulError::runtime_error("Unresolved hook!", ctx.source, n.index, n.position),
        ),
        _ => Outcome::Done(n.clone()),
    }
}

/// The values of the children of a node; see [`semantics::eval_seq`].
fn eval_seq(
    ctx: &Frame,
    table: &Vec<Function>,
    holder: &NodeWrapper,
    fuel: usize,
    cursor: &mut usize,
) -> (r: Outcome<Vec<NodeWrapper>>)
    ensures
        nodes_effect(r, *final(cursor)) == semantics::eval_seq(
            ctx@,
            function_views(table@),
            holder@,
            fuel as nat,
            *old(cursor) as nat,
            0,
            Seq::empty(),
        ),
    decreases fuel, holder, 0nat,
{
    let mut done: Vec<NodeWrapper> = no_nodes();
    match children_of(holder) {
        None => Outcome::Done(done),
        Some(items) => {
            let mut inner = clone_functions(table);
            let mut i: usize = 0;
            while i < items.len()
                invariant
                    i <= items.len(),
                    node_views(items@) == semantics::children(holder@),
                    holder.node is List || holder.node is Quote || holder.node is Invoke,
                    holder.node is List ==> holder.node->List_0 == *items,
                    holder.node is Quote ==> holder.node->Quote_with == *items,
                    holder.node is Invoke ==> holder.node->Invoke_with == *items,
                    semantics::eval_seq(
                        ctx@,
                        function_views(inner@),
                        holder@,
                        fuel as nat,
                        *cursor as nat,
                        i as nat,
                        node_views(done@),
                    ) == semantics::eval_seq(
                        ctx@,
                        function_views(table@),
                        holder@,
                        fuel as nat,
                        *old(cursor) as nat,
                        0,
                        Seq::empty(),
                    ),
                decreases items.len() - i,
            {
                assert(node_views(items@)[i as int] == items@[i as int]@);
                match eval_node(ctx, &mut inner, &items[i], fuel, cursor) {
                    Outcome::Done(value) => {
                        let ghost before = node_views(done@);
                        let ghost v = value@;
                        done.push(value);
                        assert(node_views(done@) =~= before.push(v));
                    },
                    Outcome::Failure(e) => {
                        return Outcome::Failure(e);
                    },
                    Outcome::Ask(q) => {
                        return Outcome::Ask(q);
                    },
                }
                i += 1;
            }
            Outcome::Done(done)
        },
    }
}


/// The driver as plain mathematical data.
pub struct DriverView {
    /// The text of the program.
    pub input: Seq<char>,
    /// The graphemes of the program, once it was processed.
    pub source: Seq<Seq<char>>,
    /// The top-level nodes of the program.
    pub ast: Seq<NodeView>,
    /// How many of them were evaluated.
    pub index: usize,
    pub scope: Seq<BindingView>,
    pub functions: Seq<FunctionView>,
    /// What the host has answered while the current node is evaluated.
    pub replies: Seq<ReplyView>,
    /// How deep calls may nest.
    pub depth: usize,
}

/// A name bound to a symbol.
pub open spec fn symbol_binding(name: Seq<char>, symbol: Seq<char>) -> BindingView {
    BindingView { name, value: plain_node(KindView::Symbol(symbol), 0, (0, 0)) }
}

/// The scope of a new driver: names for the graphemes that cannot be written
/// as words.
pub open spec fn initial_scope() -> Seq<BindingView> {
    seq![
        symbol_binding("space"@, " "@),
        symbol_binding("tab"@, "\t"@),
        symbol_binding("newline"@, "\n"@),
        symbol_binding("carriage_ret"@, "\r"@),
        symbol_binding("l_bracket"@, "["@),
        symbol_binding("r_bracket"@, "]"@),
        symbol_binding("l_brace"@, "{"@),
        symbol_binding("r_brace"@, "}"@),
        symbol_binding("l_paren"@, "("@),
        symbol_binding("r_paren"@, ")"@),
    ]
}

/// The top-level nodes of a program text: its graphemes are lexed and the
/// tokens parsed.  An error of the parser is given the source and a layer
/// that says where it comes from.
pub open spec fn program(input: Seq<char>) -> Result<Seq<NodeView>, MifulErrorView> {
    let source = graphemes(input);
    match lex(source, semantics::symbols(), false) {
        Err(e) => Err(e),
        Ok(tokens) => match parse(tokens) {
            Ok(ast) => Ok(ast),
            Err(e) => Err(e.layered("..while interpreting the source"@).sourced(source)),
        },
    }
}

/// One step of the driver: what the next top-level node evaluates to, and
/// the driver afterwards; nothing when all nodes were evaluated.
///
/// The node is evaluated with the replies given so far.  Where one more is
/// needed, the step ends with the request and leaves the driver as it was.
/// Otherwise the driver moves on to the next node and forgets the replies;
/// after a value, it knows the functions that the node defined.  The scope
/// never changes.
pub open spec fn drive(d: DriverView) -> (Option<Step>, DriverView) {
    if d.index >= d.ast.len() {
        (None, d)
    } else {
        match semantics::eval_node(
            Context { source: d.source, scope: d.scope, replies: d.replies },
            d.functions,
            d.ast[d.index as int],
            d.depth as nat,
            0,
        ) {
            Effect::Ask(request) => (Some(Step::Ask(request)), d),
            Effect::Failure(e) => (
                Some(Step::Failure(e)),
                DriverView { index: (d.index + 1) as usize, replies: Seq::empty(), ..d },
            ),
            Effect::Done((value, functions), _) => (
                Some(Step::Value(value)),
                DriverView {
                    index: (d.index + 1) as usize,
                    replies: Seq::empty(),
                    functions,
                    ..d
                },
            ),
        }
    }
}

/// Scope immutability: whatever a node evaluates to, the scope of the driver
/// is afterwards what it was before; so are its source, its program and its
/// bound on the depth of calls.
pub proof fn lemma_scope_immutable(d: DriverView)
    ensures
        drive(d).1.scope == d.scope,
        drive(d).1.source == d.source,
        drive(d).1.ast == d.ast,
        drive(d).1.depth == d.depth,
{
}

/// The function table of a driver never holds two entries of the same name
/// and signature: a new driver has none, and a step keeps it so.
pub proof fn lemma_drive_keeps_keys_unique(d: DriverView)
    requires
        crate::functions::unique_keys(d.functions),
    ensures
        crate::functions::unique_keys(drive(d).1.functions),
{
    if d.index < d.ast.len() {
        let ctx = Context { source: d.source, scope: d.scope, replies: d.replies };
        let n = d.ast[d.index as int];
        lemma_eval_keeps_keys_unique(ctx, d.functions, n, d.depth as nat, 0);
    }
}

/// Evaluating a node leaves the function table as it was, or defines one
/// function in it; either way no two entries share name and signature
/// afterwards where none did before.
pub proof fn lemma_eval_keeps_keys_unique(
    ctx: Context,
    table: Seq<FunctionView>,
    n: NodeView,
    fuel: nat,
    used: nat,
)
    requires
        crate::functions::unique_keys(table),
    ensures
        semantics::eval_node(ctx, table, n, fuel, used) matches Effect::Done((_, after), _)
            ==> crate::functions::unique_keys(after),
{
    match n.node {
        KindView::Invoke { target, with } => {
            match semantics::eval_seq(ctx, table, n, fuel, used, 0, Seq::empty()) {
                Effect::Done(args, next) => {
                    match semantics::definition(ctx, table, n, args) {
                        Ok(after) => {
                            let name = crate::typing::name_of(args[0].node)->Some_0;
                            let raw = crate::typing::items_of(args[1].node)->Some_0;
                            match semantics::parameters(
                                ctx.source,
                                raw,
                                0,
                                Seq::empty(),
                                Seq::empty(),
                            ) {
                                Ok((names, raw_types)) => {
                                    match crate::typing::types_of(
                                        ctx.source,
                                        raw_types,
                                        0,
                                        Seq::empty(),
                                        false,
                                    ) {
                                        Ok(signature) => {
                                            crate::functions::lemma_inserted_keeps_keys_unique(
                                                table,
                                                FunctionView {
                                                    name,
                                                    signature,
                                                    parameters: names,
                                                    body: semantics::as_invoke(args[2]),
                                                },
                                            );
                                        },
                                        Err(_) => {},
                                    }
                                },
                                Err(_) => {},
                            }
                        },
                        Err(_) => {},
                    }
                },
                _ => {},
            }
        },
        _ => {},
    }
}

/// Evaluates a program node by node.
pub struct Driver<'a> {
    input: &'a str,
    owned_text: Vec<String>,
    index: usize,
    ast: Vec<NodeWrapper>,
    scope: Vec<Binding>,
    functions: Vec<Function>,
    replies: Vec<Reply>,
    depth: usize,
}

impl<'a> View for Driver<'a> {
    type V = DriverView;

    closed spec fn view(&self) -> DriverView {
        DriverView {
            input: self.input@,
            source: texts(self.owned_text@),
            ast: node_views(self.ast@),
            index: self.index,
            scope: binding_views(self.scope@),
            functions: function_views(self.functions@),
            replies: reply_views(self.replies@),
            depth: self.depth,
        }
    }
}

/// A name bound to a symbol.
fn bind(name: &str, symbol: &str) -> (r: Binding)
    ensures
        r@ == symbol_binding(name@, symbol@),
{
    Binding {
        name: String::from_str(name),
        value: NodeWrapper::new_symbol(String::from_str(symbol), 0, (0, 0)),
    }
}

impl<'a> Driver<'a> {
    /// A driver for the program `input`, with the initial scope and no
    /// functions.  The program is not read before [`Driver::process`].
    pub fn new(input: &'a str) -> (r: Driver<'a>)
        ensures
            r@ == (DriverView {
                input: input@,
                source: Seq::empty(),
                ast: Seq::empty(),
                index: 0,
                scope: initial_scope(),
                functions: Seq::empty(),
                replies: Seq::empty(),
                depth: MAX_DEPTH,
            }),
    {
        let mut scope: Vec<Binding> = Vec::new();
        scope.push(bind("space", " "));
        scope.push(bind("tab", "\t"));
        scope.push(bind("newline", "\n"));
        scope.push(bind("carriage_ret", "\r"));
        scope.push(bind("l_bracket", "["));
        scope.push(bind("r_bracket", "]"));
        scope.push(bind("l_brace", "{"));
        scope.push(bind("r_brace", "}"));
        scope.push(bind("l_paren", "("));
        scope.push(bind("r_paren", ")"));
        assert(binding_views(scope@) =~= initial_scope());
        let r = Driver {
            input,
            owned_text: Vec::new(),
            index: 0,
            ast: Vec::new(),
            scope,
            functions: Vec::new(),
            replies: Vec::new(),
            depth: MAX_DEPTH,
        };
        assert(r@.source =~= Seq::empty());
        assert(r@.ast =~= Seq::empty());
        assert(r@.functions =~= Seq::empty());
        assert(r@.replies =~= Seq::empty());
        r
    }

    /// Sets how deep calls may nest from now on.
    pub fn limit_depth(&mut self, depth: usize)
        ensures
            final(self)@ == (DriverView { depth, ..old(self)@ }),
    {
        self.depth = depth;
    }

    /// Lexes and parses the program and keeps its nodes for evaluation; see
    /// [`program`].
    pub fn process(&mut self) -> (r: Result<Vec<NodeWrapper>, MifulError>)
        ensures
            match r {
                Ok(nodes) => program(old(self)@.input) == Ok::<_, MifulErrorView>(
                    node_views(nodes@),
                ) && final(self)@ == (DriverView {
                    source: graphemes(old(self)@.input),
                    ast: node_views(nodes@),
                    ..old(self)@
                }),
                Err(e) => program(old(self)@.input) == Err::<Seq<NodeView>, _>(e@)
                    && final(self)@ == (DriverView {
                    source: graphemes(old(self)@.input),
                    ..old(self)@
                }),
            },
    {
        let segmented_text = segment_text(self.input);
        self.owned_text = own_texts(&segmented_text);
        let lexer = Lexer::new(segmented_text, default_symbols());
        let tokens = match lexer.tokens() {
            Ok(tokens) => tokens,
            Err(e) => {
                return Err(e);
            },
        };
        match Parser::new(tokens).nodes() {
            Ok(ast) => {
                self.ast = clone_nodes(&ast);
                Ok(ast)
            },
            Err(e) => {
                let mut e = e;
                e.add_layer_top("..while interpreting the source");
                e.supply_source(&self.owned_text);
                Err(e)
            },
        }
    }

    /// Evaluates the next top-level node; see [`drive`].
    pub fn next(&mut self) -> (r: Option<Outcome<NodeWrapper>>)
        ensures
            (match r {
                Some(out) => Some(out@),
                None => None,
            }, final(self)@) == drive(old(self)@),
            final(self)@.scope == old(self)@.scope,
    {
        if self.index >= self.ast.len() {
            return None;
        }
        let mut table = clone_functions(&self.functions);
        let mut cursor: usize = 0;
        let frame = Frame { source: &self.owned_text, scope: &self.scope, replies: &self.replies };
        assert(node_views(self.ast@)[self.index as int] == self.ast@[self.index as int]@);
        let out = eval_node(&frame, &mut table, &self.ast[self.index], self.depth, &mut cursor);
        match out {
            Outcome::Ask(q) => Some(Outcome::Ask(q)),
            Outcome::Failure(e) => {
                self.index = self.index + 1;
                self.replies = Vec::new();
                assert(reply_views(self.replies@) =~= Seq::empty());
                Some(Outcome::Failure(e))
            },
            Outcome::Done(v) => {
                self.index = self.index + 1;
                self.replies = Vec::new();
                self.functions = table;
                assert(reply_views(self.replies@) =~= Seq::empty());
                Some(Outcome::Done(v))
            },
        }
    }

    /// Hands over the host's reply to the request that the last step ended
    /// with.
    pub fn answer(&mut self, reply: Reply)
        ensures
            final(self)@ == (DriverView {
                replies: old(self)@.replies.push(reply@),
                ..old(self)@
            }),
    {
        let ghost before = reply_views(self.replies@);
        self.replies.push(reply);
        assert(reply_views(self.replies@) =~= before.push(reply@));
    }
}

} // verus!
