//! How the parser numbers holes and collects the subtrees they stand for.
//!
//! A top-level value, the arguments of a quote, and the subtree of a hook
//! each form a region with a hook list of its own: the hook list of the
//! value, of the quote, of the subtree.  The hook list of a region holds, in
//! the order of the source, the subtree of every hole of the region and the
//! hook lists of the quotes that stand in it.  The number of a hole is the
//! place of its subtree in the hook list of its region.  [`indexed`] says
//! this of a tree; [`lemma_hook_indexing`] shows it of every tree that the
//! parser gives.

use crate::parsing::ast::{KindView, NodeView};
use crate::parsing::parser::{
    lemma_parse_items_advances, lemma_parse_value_advances, parse_items, parse_step, parse_value,
    Bracket, ParserView,
};
use crate::parsing::token::{TokenTypeView, TokenView};
use vstd::prelude::*;

verus! {

/// The hooks of the first `n` nodes of `items`, in order.
pub open spec fn collected_hooks(items: Seq<NodeView>, n: nat) -> Seq<NodeView>
    decreases n,
{
    if n == 0 || n > items.len() {
        Seq::empty()
    } else {
        collected_hooks(items, (n - 1) as nat) + items[n - 1].hooks
    }
}

/// Whether the holes of a tree are numbered by their places.
///
/// `first` is how many hooks the region that the tree stands in has
/// collected before the tree.  A hole has the number `first` and holds one
/// subtree, which is a region of its own.  A list and an invoke collect the
/// hooks of their elements, and each element finds before it what the
/// region had collected before the list and what the elements before it
/// have added.  A quote collects the hooks of its arguments in the same
/// way, but is a region of its own: its arguments are numbered from 0.
pub open spec fn indexed(n: NodeView, first: int) -> bool
    decreases n, 0nat,
{
    match n.node {
        KindView::LambdaHook(k) => k == first && n.hooks.len() == 1 && indexed(n.hooks[0], 0),
        KindView::List(items) => n.hooks == collected_hooks(items, items.len()) && all_indexed(
            items,
            first,
            items.len(),
        ),
        KindView::Invoke { target, with } => n.hooks == collected_hooks(with, with.len())
            && all_indexed(with, first, with.len()),
        KindView::Quote { target, with } => n.hooks == collected_hooks(with, with.len())
            && all_indexed(with, 0, with.len()),
        _ => n.hooks.len() == 0,
    }
}

/// Whether the first `count` trees are numbered by their places, the first
/// of them from `first` on.
pub open spec fn all_indexed(items: Seq<NodeView>, first: int, count: nat) -> bool
    decreases items, count,
{
    if count == 0 || count > items.len() {
        true
    } else {
        all_indexed(items, first, (count - 1) as nat) && indexed(
            items[count - 1],
            first + collected_hooks(items, (count - 1) as nat).len(),
        )
    }
}

/// The holes that belong to the region a tree stands in, from left to
/// right, each with its number and the subtree it stands for.  A quote
/// keeps its holes to itself.
pub open spec fn own_holes(n: NodeView) -> Seq<(usize, NodeView)>
    decreases n, 0nat,
{
    match n.node {
        KindView::LambdaHook(k) => {
            if n.hooks.len() > 0 {
                seq![(k, n.hooks[0])]
            } else {
                Seq::empty()
            }
        },
        KindView::List(items) => own_holes_of(items, items.len()),
        KindView::Invoke { target, with } => own_holes_of(with, with.len()),
        _ => Seq::empty(),
    }
}

/// The holes of the first `count` trees that belong to their region.
pub open spec fn own_holes_of(items: Seq<NodeView>, count: nat) -> Seq<(usize, NodeView)>
    decreases items, count,
{
    if count == 0 || count > items.len() {
        Seq::empty()
    } else {
        own_holes_of(items, (count - 1) as nat) + own_holes(items[count - 1])
    }
}

/// The holes of the region that a tree is: of a quote, those of its
/// arguments; of any other tree, its own.
pub open spec fn region_holes(n: NodeView) -> Seq<(usize, NodeView)> {
    match n.node {
        KindView::Quote { target, with } => own_holes_of(with, with.len()),
        _ => own_holes(n),
    }
}

/// Whether no quote stands in the tree or among its elements.
pub open spec fn quote_free(n: NodeView) -> bool
    decreases n, 0nat,
{
    match n.node {
        KindView::Quote { .. } => false,
        KindView::List(items) => forall|i: int|
            0 <= i < items.len() ==> quote_free(#[trigger] items[i]),
        KindView::Invoke { target, with } => forall|i: int|
            0 <= i < with.len() ==> quote_free(#[trigger] with[i]),
        _ => true,
    }
}

/// What is collected from the first trees of a sequence depends on those
/// trees alone.
proof fn lemma_same_prefix(a: Seq<NodeView>, b: Seq<NodeView>, first: int, count: nat)
    requires
        count <= a.len(),
        count <= b.len(),
        forall|i: int| 0 <= i < count ==> a[i] == b[i],
    ensures
        collected_hooks(a, count) == collected_hooks(b, count),
        all_indexed(a, first, count) == all_indexed(b, first, count),
    decreases count,
{
    if count > 0 {
        lemma_same_prefix(a, b, first, (count - 1) as nat);
    }
}

/// Hook indexing: every tree that the parser gives is numbered by places.
/// Behind the tree, the count has grown by the hooks of the tree.  For a
/// top-level value `hook_count` is 0, so that the hole numbered `k` of the
/// value stands for `hooks[k]`; the same holds of every quote and of the
/// subtree of every hook, wherever they stand.
pub proof fn lemma_hook_indexing(tokens: Seq<TokenView>, index: nat, hook_count: usize)
    requires
        index < tokens.len(),
        hook_count + (tokens.len() - index) <= usize::MAX,
    ensures
        ({
            let p = parse_value(tokens, index, hook_count);
            p.result matches Ok(node) ==> {
                &&& indexed(node, hook_count as int)
                &&& p.hook_count == hook_count + node.hooks.len()
                &&& index + node.hooks.len() <= p.index <= tokens.len()
            }
        }),
    decreases tokens.len() - index, 0nat,
{
    let p = parse_value(tokens, index, hook_count);
    lemma_parse_value_advances(tokens, index, hook_count);
    let token = tokens[index as int];
    if p.result is Ok {
        let node = p.result->Ok_0;
        let none = Seq::<NodeView>::empty();
        assert(collected_hooks(none, none.len()) =~= none);
        match token.kind {
            TokenTypeView::Control(s) => {
                if s == "("@ {
                    lemma_hooks_of_items(
                        tokens,
                        index + 1,
                        hook_count,
                        crate::parsing::parser::list_bracket(),
                        none,
                        none,
                        token.index,
                        token.position,
                        hook_count,
                    );
                } else if s == "["@ {
                    lemma_hooks_of_items(
                        tokens,
                        index + 2,
                        hook_count,
                        crate::parsing::parser::invoke_bracket(),
                        none,
                        none,
                        token.index,
                        token.position,
                        hook_count,
                    );
                } else if s == "{"@ {
                    lemma_hooks_of_items(
                        tokens,
                        index + 2,
                        0,
                        crate::parsing::parser::quote_bracket(),
                        none,
                        none,
                        token.index,
                        token.position,
                        0,
                    );
                } else if s == "{?"@ {
                    lemma_hook_indexing(tokens, index + 1, 0);
                    lemma_parse_value_advances(tokens, index + 1, 0);
                    let sub = parse_value(tokens, index + 1, 0).result->Ok_0;
                    assert(node.hooks =~= seq![sub]);
                    assert(node.hooks[0] == sub);
                }
            },
            _ => {},
        }
    }
}

/// Every top-level value that the parser gives is a region: its holes are
/// numbered by their places in its own hook list.
pub proof fn lemma_values_are_regions(p: ParserView)
    requires
        p.tokens.len() <= usize::MAX,
    ensures
        parse_step(p).0 matches Some(Ok(node)) ==> indexed(node, 0),
{
    if p.index < p.tokens.len() {
        lemma_hook_indexing(p.tokens, p.index as nat, 0);
    }
}

/// Hook indexing for the elements of a bracket: where the elements parsed
/// before are numbered by places, so are all.
proof fn lemma_hooks_of_items(
    tokens: Seq<TokenView>,
    index: nat,
    hook_count: usize,
    bracket: Bracket,
    values: Seq<NodeView>,
    hooks: Seq<NodeView>,
    last_index: usize,
    last_position: (usize, usize),
    first: usize,
)
    requires
        index <= tokens.len(),
        hook_count + (tokens.len() - index) <= usize::MAX,
        hooks == collected_hooks(values, values.len()),
        all_indexed(values, first as int, values.len()),
        hook_count == first + hooks.len(),
    ensures
        ({
            let p = parse_items(
                tokens,
                index,
                hook_count,
                bracket,
                values,
                hooks,
                last_index,
                last_position,
            );
            p.result matches Ok((vals, hks)) ==> {
                &&& hks == collected_hooks(vals, vals.len())
                &&& all_indexed(vals, first as int, vals.len())
                &&& p.hook_count == first + hks.len()
                &&& index + (hks.len() - hooks.len()) <= p.index <= tokens.len()
            }
        }),
    decreases tokens.len() - index, 1nat,
{
    let p = parse_items(
        tokens,
        index,
        hook_count,
        bracket,
        values,
        hooks,
        last_index,
        last_position,
    );
    lemma_parse_items_advances(
        tokens,
        index,
        hook_count,
        bracket,
        values,
        hooks,
        last_index,
        last_position,
    );
    if index < tokens.len() && tokens[index as int].kind != TokenTypeView::Control(bracket.closer)
        && p.result is Ok {
        lemma_parse_value_advances(tokens, index, hook_count);
        lemma_hook_indexing(tokens, index, hook_count);
        let next = parse_value(tokens, index, hook_count);
        let node = next.result->Ok_0;
        let more = values.push(node);
        lemma_same_prefix(more, values, first as int, values.len());
        assert(collected_hooks(more, more.len()) =~= hooks + node.hooks);
        assert(all_indexed(more, first as int, more.len()));
        lemma_hooks_of_items(
            tokens,
            next.index,
            next.hook_count,
            bracket,
            more,
            hooks + node.hooks,
            node.index,
            node.position,
            first,
        );
    }
}

/// What a tree has collected lies in what its sequence has collected, at
/// the place behind what the trees before it have collected.
proof fn lemma_collected_at(items: Seq<NodeView>, count: nat, i: int, m: int)
    requires
        0 <= i < count <= items.len(),
        0 <= m < items[i].hooks.len(),
    ensures
        collected_hooks(items, i as nat).len() + m < collected_hooks(items, count).len(),
        collected_hooks(items, count)[collected_hooks(items, i as nat).len() + m]
            == items[i].hooks[m],
    decreases count,
{
    if i < count - 1 {
        lemma_collected_at(items, (count - 1) as nat, i, m);
    }
}

/// In a tree that is numbered by places, every hole that belongs to the
/// region of the tree has a number from `first` on that is a place in the
/// hooks of the tree, and the hooks of the tree hold its subtree at that
/// place.
pub proof fn lemma_own_holes(n: NodeView, first: int, j: int)
    requires
        indexed(n, first),
        0 <= j < own_holes(n).len(),
    ensures
        first <= own_holes(n)[j].0 < first + n.hooks.len(),
        n.hooks[own_holes(n)[j].0 - first] == own_holes(n)[j].1,
    decreases n, 0nat,
{
    match n.node {
        KindView::List(items) => {
            lemma_own_holes_of(items, first, items.len(), j);
        },
        KindView::Invoke { target, with } => {
            lemma_own_holes_of(with, first, with.len(), j);
        },
        _ => {},
    }
}

proof fn lemma_own_holes_of(items: Seq<NodeView>, first: int, count: nat, j: int)
    requires
        count <= items.len(),
        all_indexed(items, first, count),
        0 <= j < own_holes_of(items, count).len(),
    ensures
        first <= own_holes_of(items, count)[j].0 < first + collected_hooks(items, count).len(),
        collected_hooks(items, count)[own_holes_of(items, count)[j].0 - first] == own_holes_of(
            items,
            count,
        )[j].1,
    decreases items, count,
{
    let before = own_holes_of(items, (count - 1) as nat);
    let had = collected_hooks(items, (count - 1) as nat);
    if j < before.len() {
        lemma_own_holes_of(items, first, (count - 1) as nat, j);
    } else {
        let child = items[count - 1];
        let at = j - before.len();
        lemma_own_holes(child, first + had.len(), at);
        let m = own_holes(child)[at].0 - (first + had.len());
        lemma_collected_at(items, count, count - 1, m);
    }
}

/// Every hole of a region has a number that is a place in the hook list of
/// the region, and the hook list holds its subtree at that place: `hooks[k]`
/// is what the hole numbered `k` stands for.  This holds of every top-level
/// value, and of every quote and every subtree of a hook, since each is
/// numbered from 0.
pub proof fn lemma_region_holes(n: NodeView, j: int)
    requires
        indexed(n, 0),
        0 <= j < region_holes(n).len(),
    ensures
        region_holes(n)[j].0 < n.hooks.len(),
        n.hooks[region_holes(n)[j].0 as int] == region_holes(n)[j].1,
{
    match n.node {
        KindView::Quote { target, with } => {
            lemma_own_holes_of(with, 0, with.len(), j);
        },
        _ => {
            lemma_own_holes(n, 0, j);
        },
    }
}

/// Where no quote stands in a tree that is numbered by places, the tree has
/// as many holes as hooks, and they are numbered `first`, `first + 1`, ...
/// from left to right.
pub proof fn lemma_holes_count_up(n: NodeView, first: int)
    requires
        indexed(n, first),
        quote_free(n),
    ensures
        own_holes(n).len() == n.hooks.len(),
        forall|j: int| 0 <= j < own_holes(n).len() ==> (#[trigger] own_holes(n)[j]).0 == first + j,
    decreases n, 0nat,
{
    match n.node {
        KindView::List(items) => {
            lemma_holes_of_count_up(items, first, items.len());
        },
        KindView::Invoke { target, with } => {
            lemma_holes_of_count_up(with, first, with.len());
        },
        _ => {},
    }
}

proof fn lemma_holes_of_count_up(items: Seq<NodeView>, first: int, count: nat)
    requires
        count <= items.len(),
        all_indexed(items, first, count),
        forall|i: int| 0 <= i < items.len() ==> quote_free(#[trigger] items[i]),
    ensures
        own_holes_of(items, count).len() == collected_hooks(items, count).len(),
        forall|j: int|
            0 <= j < own_holes_of(items, count).len() ==> (#[trigger] own_holes_of(
                items,
                count,
            )[j]).0 == first + j,
    decreases items, count,
{
    if count > 0 {
        lemma_holes_of_count_up(items, first, (count - 1) as nat);
        lemma_holes_count_up(
            items[count - 1],
            first + collected_hooks(items, (count - 1) as nat).len(),
        );
    }
}

} // verus!
