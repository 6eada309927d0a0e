//! The syntax tree, the type descriptors of function signatures, and how
//! both are written out as text.

use crate::parsing::text::{int_text, integer_text, repeat, repeat_text, trimmed};
use vstd::prelude::*;
use vstd::string::*;

verus! {

/// What a node is.
///
/// A float is carried as its decimal text.  A lambda hook is a numbered hole
/// that stands for a captured subtree.
#[derive(Debug)]
pub enum NodeKind {
    Word(String),
    Symbol(String),
    Float(String),
    Int(i64),
    List(Vec<NodeWrapper>),
    LambdaHook(usize),
    Quote { target: String, with: Vec<NodeWrapper> },
    Invoke { target: String, with: Vec<NodeWrapper> },
}

/// A node with the subtrees captured by the hooks inside it and its place in
/// the source.
#[derive(Debug)]
pub struct NodeWrapper {
    pub node: NodeKind,
    pub hooks: Vec<NodeWrapper>,
    pub position: (usize, usize),
    pub index: usize,
}

pub enum KindView {
    Word(Seq<char>),
    Symbol(Seq<char>),
    Float(Seq<char>),
    Int(i64),
    List(Seq<NodeView>),
    LambdaHook(usize),
    Quote { target: Seq<char>, with: Seq<NodeView> },
    Invoke { target: Seq<char>, with: Seq<NodeView> },
}

pub struct NodeView {
    pub node: KindView,
    pub hooks: Seq<NodeView>,
    pub position: (usize, usize),
    pub index: usize,
}

pub open spec fn kind_view(k: NodeKind) -> KindView
    decreases k,
{
    match k {
        NodeKind::Word(s) => KindView::Word(s@),
        NodeKind::Symbol(s) => KindView::Symbol(s@),
        NodeKind::Float(s) => KindView::Float(s@),
        NodeKind::Int(i) => KindView::Int(i),
        NodeKind::List(v) => KindView::List(node_views(v@)),
        NodeKind::LambdaHook(i) => KindView::LambdaHook(i),
        NodeKind::Quote { target, with } => KindView::Quote {
            target: target@,
            with: node_views(with@),
        },
        NodeKind::Invoke { target, with } => KindView::Invoke {
            target: target@,
            with: node_views(with@),
        },
    }
}

pub open spec fn node_view(n: NodeWrapper) -> NodeView
    decreases n,
{
    NodeView {
        node: kind_view(n.node),
        hooks: node_views(n.hooks@),
        position: n.position,
        index: n.index,
    }
}

/// The contents of a vector of nodes.
pub open spec fn node_views(s: Seq<NodeWrapper>) -> Seq<NodeView>
    decreases s,
{
    Seq::new(
        s.len(),
        |i: int|
            if 0 <= i < s.len() {
                node_view(s[i])
            } else {
                arbitrary()
            },
    )
}

impl View for NodeKind {
    type V = KindView;

    open spec fn view(&self) -> KindView {
        kind_view(*self)
    }
}

impl View for NodeWrapper {
    type V = NodeView;

    open spec fn view(&self) -> NodeView {
        node_view(*self)
    }
}

impl KindView {
    /// The name of the variant.
    pub open spec fn name(self) -> Seq<char> {
        match self {
            KindView::Word(_) => "Word"@,
            KindView::Symbol(_) => "Symbol"@,
            KindView::Float(_) => "Float"@,
            KindView::Int(_) => "Int"@,
            KindView::List(_) => "List"@,
            KindView::LambdaHook(_) => "LambdaHook"@,
            KindView::Quote { .. } => "Quote"@,
            KindView::Invoke { .. } => "Invoke"@,
        }
    }
}

/// A node without hooks.
pub open spec fn plain_node(node: KindView, index: usize, position: (usize, usize)) -> NodeView {
    NodeView { node, hooks: Seq::empty(), position, index }
}

/// Copies of all the nodes of `v`.
pub fn clone_nodes(v: &Vec<NodeWrapper>) -> (r: Vec<NodeWrapper>)
    ensures
        node_views(r@) == node_views(v@),
    decreases v,
{
    let mut r: Vec<NodeWrapper> = Vec::new();
    let mut i: usize = 0;
    while i < v.len()
        invariant
            i <= v.len(),
            r.len() == i,
            forall|k: int| 0 <= k < i ==> node_view(r@[k]) == node_view(v@[k]),
        decreases v.len() - i,
    {
        r.push(v[i].clone());
        i += 1;
    }
    assert(node_views(r@) =~= node_views(v@));
    r
}

impl Clone for NodeKind {
    fn clone(&self) -> (r: Self)
        ensures
            r@ == self@,
        decreases self,
    {
        match self {
            NodeKind::Word(s) => NodeKind::Word(s.clone()),
            NodeKind::Symbol(s) => NodeKind::Symbol(s.clone()),
            NodeKind::Float(s) => NodeKind::Float(s.clone()),
            NodeKind::Int(i) => NodeKind::Int(*i),
            NodeKind::List(v) => NodeKind::List(clone_nodes(v)),
            NodeKind::LambdaHook(i) => NodeKind::LambdaHook(*i),
            NodeKind::Quote { target, with } => NodeKind::Quote {
                target: target.clone(),
                with: clone_nodes(with),
            },
            NodeKind::Invoke { target, with } => NodeKind::Invoke {
                target: target.clone(),
                with: clone_nodes(with),
            },
        }
    }
}

impl Clone for NodeWrapper {
    fn clone(&self) -> (r: Self)
        ensures
            r@ == self@,
        decreases self,
    {
        NodeWrapper {
            node: self.node.clone(),
            hooks: clone_nodes(&self.hooks),
            position: self.position,
            index: self.index,
        }
    }
}

impl NodeKind {
    /// The name of the variant.
    pub fn name(&self) -> (r: &'static str)
        ensures
            r@ == self@.name(),
    {
        match self {
            NodeKind::Word(_) => "Word",
            NodeKind::Symbol(_) => "Symbol",
            NodeKind::Float(_) => "Float",
            NodeKind::Int(_) => "Int",
            NodeKind::List(_) => "List",
            NodeKind::LambdaHook(_) => "LambdaHook",
            NodeKind::Quote { .. } => "Quote",
            NodeKind::Invoke { .. } => "Invoke",
        }
    }
}

impl NodeWrapper {
    /// The empty list at the origin.
    pub fn empty() -> (r: NodeWrapper)
        ensures
            r@ == plain_node(KindView::List(Seq::empty()), 0, (0, 0)),
    {
        let r = NodeWrapper {
            node: NodeKind::List(Vec::new()),
            hooks: Vec::new(),
            position: (0, 0),
            index: 0,
        };
        assert(r@.hooks =~= Seq::empty());
        assert(r@.node->List_0 =~= Seq::empty());
        r
    }

    pub fn new_list(
        elements: Vec<NodeWrapper>,
        hooks: Vec<NodeWrapper>,
        index: usize,
        position: (usize, usize),
    ) -> (r: NodeWrapper)
        ensures
            r@ == (NodeView {
                node: KindView::List(node_views(elements@)),
                hooks: node_views(hooks@),
                position,
                index,
            }),
    {
        NodeWrapper { node: NodeKind::List(elements), hooks, position, index }
    }

    pub fn new_invoke(
        target: String,
        with: Vec<NodeWrapper>,
        hooks: Vec<NodeWrapper>,
        index: usize,
        position: (usize, usize),
    ) -> (r: NodeWrapper)
        ensures
            r@ == (NodeView {
                node: KindView::Invoke { target: target@, with: node_views(with@) },
                hooks: node_views(hooks@),
                position,
                index,
            }),
    {
        NodeWrapper { node: NodeKind::Invoke { target, with }, hooks, position, index }
    }

    pub fn new_quote(
        target: String,
        with: Vec<NodeWrapper>,
        hooks: Vec<NodeWrapper>,
        index: usize,
        position: (usize, usize),
    ) -> (r: NodeWrapper)
        ensures
            r@ == (NodeView {
                node: KindView::Quote { target: target@, with: node_views(with@) },
                hooks: node_views(hooks@),
                position,
                index,
            }),
    {
        NodeWrapper { node: NodeKind::Quote { target, with }, hooks, position, index }
    }

    /// The hole numbered `v_idx`; `hooks` holds the subtree it stands for.
    pub fn new_hook(
        v_idx: usize,
        hooks: Vec<NodeWrapper>,
        index: usize,
        position: (usize, usize),
    ) -> (r: NodeWrapper)
        ensures
            r@ == (NodeView {
                node: KindView::LambdaHook(v_idx),
                hooks: node_views(hooks@),
                position,
                index,
            }),
    {
        NodeWrapper { node: NodeKind::LambdaHook(v_idx), hooks, position, index }
    }

    pub fn new_word(value: String, index: usize, position: (usize, usize)) -> (r: NodeWrapper)
        ensures
            r@ == plain_node(KindView::Word(value@), index, position),
    {
        let r = NodeWrapper { node: NodeKind::Word(value), hooks: Vec::new(), position, index };
        assert(r@.hooks =~= Seq::empty());
        r
    }

    pub fn new_symbol(value: String, index: usize, position: (usize, usize)) -> (r: NodeWrapper)
        ensures
            r@ == plain_node(KindView::Symbol(value@), index, position),
    {
        let r = NodeWrapper { node: NodeKind::Symbol(value), hooks: Vec::new(), position, index };
        assert(r@.hooks =~= Seq::empty());
        r
    }

    /// A float node; `value` is the decimal text of the number.
    pub fn new_float(value: String, index: usize, position: (usize, usize)) -> (r: NodeWrapper)
        ensures
            r@ == plain_node(KindView::Float(value@), index, position),
    {
        let r = NodeWrapper { node: NodeKind::Float(value), hooks: Vec::new(), position, index };
        assert(r@.hooks =~= Seq::empty());
        r
    }

    pub fn new_int(value: i64, index: usize, position: (usize, usize)) -> (r: NodeWrapper)
        ensures
            r@ == plain_node(KindView::Int(value), index, position),
    {
        let r = NodeWrapper { node: NodeKind::Int(value), hooks: Vec::new(), position, index };
        assert(r@.hooks =~= Seq::empty());
        r
    }
}


/// How many nodes a tree holds, captured subtrees included.
pub open spec fn size(n: NodeView) -> nat
    decreases n, 0nat,
{
    1 + kind_size(n.node) + seq_size(n.hooks, n.hooks.len())
}

/// How many nodes stand below a node of this kind.
pub open spec fn kind_size(k: KindView) -> nat
    decreases k, 0nat,
{
    match k {
        KindView::List(items) => seq_size(items, items.len()),
        KindView::Quote { target, with } => seq_size(with, with.len()),
        KindView::Invoke { target, with } => seq_size(with, with.len()),
        _ => 0,
    }
}

/// How many nodes the first `n` trees of `s` hold together.
pub open spec fn seq_size(s: Seq<NodeView>, n: nat) -> nat
    decreases s, n,
{
    if n == 0 || n > s.len() {
        0
    } else {
        seq_size(s, (n - 1) as nat) + size(s[n - 1])
    }
}

/// How many nodes the trees of `s` hold together.
pub open spec fn total_size(s: Seq<NodeView>) -> nat {
    seq_size(s, s.len())
}

pub proof fn lemma_seq_size_prefix(a: Seq<NodeView>, b: Seq<NodeView>, n: nat)
    requires
        n <= a.len(),
        n <= b.len(),
        forall|i: int| 0 <= i < n ==> a[i] == b[i],
    ensures
        seq_size(a, n) == seq_size(b, n),
    decreases n,
{
    if n > 0 {
        lemma_seq_size_prefix(a, b, (n - 1) as nat);
    }
}

pub proof fn lemma_total_size_concat(a: Seq<NodeView>, b: Seq<NodeView>, n: nat)
    requires
        n <= b.len(),
    ensures
        seq_size(a + b, a.len() + n) == total_size(a) + seq_size(b, n),
    decreases n,
{
    if n == 0 {
        lemma_seq_size_prefix(a + b, a, a.len());
    } else {
        lemma_total_size_concat(a, b, (n - 1) as nat);
        assert((a + b)[a.len() + n - 1] == b[n - 1]);
    }
}

pub proof fn lemma_size_within(s: Seq<NodeView>, i: int, n: nat)
    requires
        0 <= i < n <= s.len(),
    ensures
        size(s[i]) <= seq_size(s, n),
    decreases n,
{
    if i < n - 1 {
        lemma_size_within(s, i, (n - 1) as nat);
    }
}

/// One level further in, as far as the machine can count.
pub open spec fn deeper(layer: usize) -> usize {
    if layer < usize::MAX {
        (layer + 1) as usize
    } else {
        layer
    }
}

/// The text of a tree.
///
/// `hooks` are the captured subtrees that a hole in `node` may refer to:
/// those of the quote or top-level value that it stands in.  A list is
/// written in round brackets on one line; a quote and an invoke are written
/// in braces and square brackets with one indented argument per line; a hole
/// shows the subtree it stands for between `{?` and `?}`, or nothing where
/// `hooks` holds no such subtree.  The holes of a quote refer to the hooks of
/// that quote, and those of the subtree of a hook to the hooks of that
/// subtree.
pub open spec fn node_text(node: KindView, hooks: Seq<NodeView>, layer: usize, indent_first: bool) -> Seq<
    char,
>
    decreases 2 * (kind_size(node) + total_size(hooks)) + 1, 0nat,
{
    let indent = repeat("   "@, layer as nat);
    let lead = if indent_first {
        indent
    } else {
        Seq::empty()
    };
    match node {
        KindView::Word(v) => lead + v,
        KindView::Symbol(v) => lead + v,
        KindView::Float(v) => lead + v,
        KindView::Int(v) => lead + int_text(v as int),
        KindView::List(items) => {
            let open = lead + "("@ + format_items(
                items,
                hooks,
                deeper(layer),
                false,
                " "@,
                items.len(),
            );
            (if open.len() > 1 {
                open.drop_last()
            } else {
                open
            }) + ")"@
        },
        KindView::Quote { target, with } => lead + "{"@ + target + "\n"@ + format_items(
            with,
            hooks,
            deeper(layer),
            true,
            "\n"@,
            with.len(),
        ) + indent + "}"@,
        KindView::LambdaHook(idx) => {
            if idx < hooks.len() {
                proof {
                    lemma_size_within(hooks, idx as int, hooks.len());
                }
                lead + "{? "@ + node_text(
                    hooks[idx as int].node,
                    hooks[idx as int].hooks,
                    deeper(layer),
                    false,
                ) + " ?}"@
            } else {
                lead + "{? ?}"@
            }
        },
        KindView::Invoke { target, with } => lead + "["@ + target + "\n"@ + format_items(
            with,
            hooks,
            deeper(layer),
            true,
            "\n"@,
            with.len(),
        ) + indent + "]"@,
    }
}

/// The hooks that the holes of `child` may refer to, where `hooks` are those
/// of the tree around it: a quote has its own, everything else shares those
/// around it.
pub open spec fn hooks_within(hooks: Seq<NodeView>, child: NodeView) -> Seq<NodeView> {
    if child.node is Quote {
        child.hooks
    } else {
        hooks + child.hooks
    }
}

/// The texts of the first `n` trees of `items`, each followed by `after`.
pub open spec fn format_items(
    items: Seq<NodeView>,
    hooks: Seq<NodeView>,
    layer: usize,
    indent_first: bool,
    after: Seq<char>,
    n: nat,
) -> Seq<char>
    decreases 2 * (total_size(items) + total_size(hooks)), n,
{
    if n == 0 || n > items.len() {
        Seq::empty()
    } else {
        proof {
            lemma_size_within(items, n - 1, items.len());
            lemma_total_size_concat(hooks, items[n - 1].hooks, items[n - 1].hooks.len());
            assert((hooks + items[n - 1].hooks).len() == hooks.len() + items[n - 1].hooks.len());
        }
        format_items(items, hooks, layer, indent_first, after, (n - 1) as nat) + node_text(
            items[n - 1].node,
            hooks_within(hooks, items[n - 1]),
            layer,
            indent_first,
        ) + after
    }
}

/// The nodes of `a` followed by those of `b`, copied.
pub fn concat_nodes(a: &Vec<NodeWrapper>, b: &Vec<NodeWrapper>) -> (r: Vec<NodeWrapper>)
    ensures
        node_views(r@) == node_views(a@) + node_views(b@),
{
    let mut r = clone_nodes(a);
    let mut i: usize = 0;
    while i < b.len()
        invariant
            i <= b.len(),
            node_views(r@) == node_views(a@) + node_views(b@).take(i as int),
        decreases b.len() - i,
    {
        let ghost before = node_views(r@);
        let c = b[i].clone();
        r.push(c);
        assert(node_views(r@) =~= before.push(c@));
        assert(node_views(r@) =~= node_views(a@) + node_views(b@).take(i + 1));
        i += 1;
    }
    assert(node_views(b@).take(b.len() as int) =~= node_views(b@));
    r
}

fn next_layer(layer: usize) -> (r: usize)
    ensures
        r == deeper(layer),
{
    if layer < usize::MAX {
        layer + 1
    } else {
        layer
    }
}

/// Writes the first trees of `items`, each followed by `after`, behind `out`.
fn format_into(
    out: &mut String,
    items: &Vec<NodeWrapper>,
    hooks: &Vec<NodeWrapper>,
    layer: usize,
    indent_first: bool,
    after: &str,
)
    ensures
        final(out)@ == old(out)@ + format_items(
            node_views(items@),
            node_views(hooks@),
            layer,
            indent_first,
            after@,
            items.len() as nat,
        ),
    decreases 2 * (total_size(node_views(items@)) + total_size(node_views(hooks@))), 1nat,
{
    let ghost its = node_views(items@);
    let ghost hks = node_views(hooks@);
    let mut i: usize = 0;
    while i < items.len()
        invariant
            i <= items.len(),
            its == node_views(items@),
            hks == node_views(hooks@),
            out@ == old(out)@ + format_items(its, hks, layer, indent_first, after@, i as nat),
        decreases items.len() - i,
    {
        let inner = match &items[i].node {
            NodeKind::Quote { .. } => clone_nodes(&items[i].hooks),
            _ => concat_nodes(hooks, &items[i].hooks),
        };
        proof {
            lemma_size_within(its, i as int, its.len());
            lemma_total_size_concat(hks, its[i as int].hooks, its[i as int].hooks.len());
            assert((hks + its[i as int].hooks).len() == hks.len() + its[i as int].hooks.len());
            assert(items@[i as int].node@ == its[i as int].node);
            assert(items@[i as int]@.hooks == its[i as int].hooks);
            assert(node_views(inner@) == hooks_within(hks, its[i as int]));
        }
        let current = format_node(&items[i].node, &inner, layer, indent_first);
        out.append(current.as_str());
        out.append(after);
        i += 1;
    }
}

/// The text of a tree; see [`node_text`].
pub fn format_node(
    node: &NodeKind,
    hooks: &Vec<NodeWrapper>,
    layer: usize,
    include_initial_indent: bool,
) -> (r: String)
    ensures
        r@ == node_text(node@, node_views(hooks@), layer, include_initial_indent),
    decreases 2 * (kind_size(node@) + total_size(node_views(hooks@))) + 1, 0nat,
{
    let indent = repeat_text("   ", layer);
    let mut output = if include_initial_indent {
        indent.clone()
    } else {
        String::new()
    };
    match node {
        NodeKind::Word(val) => {
            output.append(val.as_str());
        },
        NodeKind::Symbol(val) => {
            output.append(val.as_str());
        },
        NodeKind::Float(val) => {
            output.append(val.as_str());
        },
        NodeKind::Int(val) => {
            output.append(integer_text(*val).as_str());
        },
        NodeKind::List(lst) => {
            output.append("(");
            format_into(&mut output, lst, hooks, next_layer(layer), false, " ");
            if output.as_str().unicode_len() > 1 {
                output.pop();
            }
            output.append(")");
        },
        NodeKind::Quote { target, with } => {
            output.append("{");
            output.append(target.as_str());
            output.append("\n");
            format_into(&mut output, with, hooks, next_layer(layer), true, "\n");
            output.append(indent.as_str());
            output.append("}");
        },
        NodeKind::LambdaHook(v_idx) => {
            if *v_idx < hooks.len() {
                proof {
                    let hks = node_views(hooks@);
                    lemma_size_within(hks, *v_idx as int, hks.len());
                    assert(hooks@[*v_idx as int].node@ == hks[*v_idx as int].node);
                    assert(hooks@[*v_idx as int]@.hooks == hks[*v_idx as int].hooks);
                }
                output.append("{? ");
                output.append(
                    format_node(
                        &hooks[*v_idx].node,
                        &hooks[*v_idx].hooks,
                        next_layer(layer),
                        false,
                    ).as_str(),
                );
                output.append(" ?}");
            } else {
                output.append("{? ?}");
            }
        },
        NodeKind::Invoke { target, with } => {
            output.append("[");
            output.append(target.as_str());
            output.append("\n");
            format_into(&mut output, with, hooks, next_layer(layer), true, "\n");
            output.append(indent.as_str());
            output.append("]");
        },
    }
    assert(output@ =~= node_text(node@, node_views(hooks@), layer, include_initial_indent));
    output
}

impl NodeKind {
    /// The name of the variant, as text of its own.
    pub fn to_string(&self) -> (r: String)
        ensures
            r@ == self@.name(),
    {
        String::from_str(self.name())
    }
}

impl NodeWrapper {
    /// The text of the tree, written with its own captured subtrees.
    pub fn to_string(&self) -> (r: String)
        ensures
            r@ == node_text(self@.node, self@.hooks, 0, false),
    {
        format_node(&self.node, &self.hooks, 0, false)
    }
}

/// A type descriptor of a function signature.
///
/// `Simple` names a kind of node or `any`; `Object` names a class; `Tuple`
/// fixes the types of a list element by element; `List` gives the types its
/// elements may have; `AnyOf` is a union.
#[derive(Debug, PartialEq, Eq, Hash)]
pub enum MifulType {
    Simple(String),
    Object(String),
    Tuple(Vec<MifulType>),
    List(Vec<MifulType>),
    AnyOf(Vec<MifulType>),
}

pub enum TypeView {
    Simple(Seq<char>),
    Object(Seq<char>),
    Tuple(Seq<TypeView>),
    List(Seq<TypeView>),
    AnyOf(Seq<TypeView>),
}

pub open spec fn type_view(t: MifulType) -> TypeView
    decreases t,
{
    match t {
        MifulType::Simple(s) => TypeView::Simple(s@),
        MifulType::Object(s) => TypeView::Object(s@),
        MifulType::Tuple(ts) => TypeView::Tuple(type_views(ts@)),
        MifulType::List(ts) => TypeView::List(type_views(ts@)),
        MifulType::AnyOf(ts) => TypeView::AnyOf(type_views(ts@)),
    }
}

/// The contents of a vector of type descriptors.
pub open spec fn type_views(s: Seq<MifulType>) -> Seq<TypeView>
    decreases s,
{
    Seq::new(
        s.len(),
        |i: int|
            if 0 <= i < s.len() {
                type_view(s[i])
            } else {
                arbitrary()
            },
    )
}

impl View for MifulType {
    type V = TypeView;

    open spec fn view(&self) -> TypeView {
        type_view(*self)
    }
}

/// Copies of all the descriptors of `v`.
pub fn clone_types(v: &Vec<MifulType>) -> (r: Vec<MifulType>)
    ensures
        type_views(r@) == type_views(v@),
    decreases v,
{
    let mut r: Vec<MifulType> = Vec::new();
    let mut i: usize = 0;
    while i < v.len()
        invariant
            i <= v.len(),
            r.len() == i,
            forall|k: int| 0 <= k < i ==> type_view(r@[k]) == type_view(v@[k]),
        decreases v.len() - i,
    {
        r.push(v[i].clone());
        i += 1;
    }
    assert(type_views(r@) =~= type_views(v@));
    r
}

impl Clone for MifulType {
    fn clone(&self) -> (r: Self)
        ensures
            r@ == self@,
        decreases self,
    {
        match self {
            MifulType::Simple(s) => MifulType::Simple(s.clone()),
            MifulType::Object(s) => MifulType::Object(s.clone()),
            MifulType::Tuple(ts) => MifulType::Tuple(clone_types(ts)),
            MifulType::List(ts) => MifulType::List(clone_types(ts)),
            MifulType::AnyOf(ts) => MifulType::AnyOf(clone_types(ts)),
        }
    }
}

/// The text of a type descriptor, as it appears in diagnostics.
pub open spec fn type_text(t: TypeView) -> Seq<char>
    decreases t, 0nat,
{
    match t {
        TypeView::Simple(s) => s,
        TypeView::Object(s) => "(obj "@ + s + ")"@,
        TypeView::Tuple(ts) => trimmed("(tuple ("@ + types_text(ts, " "@, ts.len()), 1) + "))"@,
        TypeView::List(ts) => trimmed("(list ("@ + types_text(ts, " "@, ts.len()), 1) + "))"@,
        TypeView::AnyOf(ts) => trimmed("("@ + types_text(ts, " | "@, ts.len()), 3) + ")"@,
    }
}

/// The texts of the first `n` descriptors of `ts`, each followed by `after`.
pub open spec fn types_text(ts: Seq<TypeView>, after: Seq<char>, n: nat) -> Seq<char>
    decreases ts, n,
{
    if n == 0 || n > ts.len() {
        Seq::empty()
    } else {
        types_text(ts, after, (n - 1) as nat) + type_text(ts[n - 1]) + after
    }
}

/// Whether two vectors hold equal descriptors in the same order.
pub fn same_types(a: &Vec<MifulType>, b: &Vec<MifulType>) -> (r: bool)
    ensures
        r == (type_views(a@) == type_views(b@)),
    decreases a,
{
    if a.len() != b.len() {
        assert(type_views(a@).len() != type_views(b@).len());
        return false;
    }
    let mut i: usize = 0;
    while i < a.len()
        invariant
            i <= a.len(),
            a.len() == b.len(),
            forall|k: int| 0 <= k < i ==> type_view(a@[k]) == type_view(b@[k]),
        decreases a.len() - i,
    {
        if !a[i].same(&b[i]) {
            assert(type_views(a@)[i as int] != type_views(b@)[i as int]);
            return false;
        }
        i += 1;
    }
    assert(type_views(a@) =~= type_views(b@));
    true
}

impl MifulType {
    /// Structural equality.
    pub fn same(&self, other: &MifulType) -> (r: bool)
        ensures
            r == (self@ == other@),
        decreases self,
    {
        match (self, other) {
            (MifulType::Simple(a), MifulType::Simple(b)) => *a == *b,
            (MifulType::Object(a), MifulType::Object(b)) => *a == *b,
            (MifulType::Tuple(a), MifulType::Tuple(b)) => same_types(a, b),
            (MifulType::List(a), MifulType::List(b)) => same_types(a, b),
            (MifulType::AnyOf(a), MifulType::AnyOf(b)) => same_types(a, b),
            _ => false,
        }
    }

    /// The text of the descriptor; see [`type_text`].
    pub fn to_string(&self) -> (r: String)
        ensures
            r@ == type_text(self@),
        decreases self, 0nat,
    {
        match self {
            MifulType::Simple(t) => t.clone(),
            MifulType::Object(t) => {
                let mut s = String::from_str("(obj ");
                s.append(t.as_str());
                s.append(")");
                s
            },
            MifulType::Tuple(ts) => {
                let mut s = String::from_str("(tuple (");
                append_types(&mut s, ts, " ");
                s.pop();
                proof {
                    reveal_with_fuel(trimmed, 2);
                }
                s.append("))");
                s
            },
            MifulType::List(ts) => {
                let mut s = String::from_str("(list (");
                append_types(&mut s, ts, " ");
                s.pop();
                proof {
                    reveal_with_fuel(trimmed, 2);
                }
                s.append("))");
                s
            },
            MifulType::AnyOf(ts) => {
                let mut s = String::from_str("(");
                append_types(&mut s, ts, " | ");
                s.pop();
                s.pop();
                s.pop();
                proof {
                    reveal_with_fuel(trimmed, 4);
                }
                s.append(")");
                s
            },
        }
    }
}

/// Writes the descriptors of `ts`, each followed by `after`, behind `out`.
fn append_types(out: &mut String, ts: &Vec<MifulType>, after: &str)
    ensures
        final(out)@ == old(out)@ + types_text(type_views(ts@), after@, ts.len() as nat),
    decreases ts, 1nat,
{
    let mut i: usize = 0;
    while i < ts.len()
        invariant
            i <= ts.len(),
            out@ == old(out)@ + types_text(type_views(ts@), after@, i as nat),
        decreases ts.len() - i,
    {
        out.append(ts[i].to_string().as_str());
        out.append(after);
        i += 1;
    }
}

} // verus!
