//! Objects, type descriptors and how values are matched against them.
//!
//! An object is a list of exactly three elements: the symbol `_obj`, a word
//! or symbol that names its class, and a list that holds its contents.

use crate::parsing::ast::{
    clone_nodes, concat_nodes, plain_node, KindView, MifulType, NodeKind, NodeView,
    NodeWrapper, TypeView, node_views, type_views,
};
use crate::parsing::hooks::collected_hooks;
use crate::parsing::text::{nat_text, number_text, same_text, texts};
use crate::parsing::utils::{fresh_error, MifulError, MifulErrorView};
use vstd::prelude::*;
use vstd::string::*;

verus! {

/// A runtime error with one message.
pub open spec fn runtime(
    source: Seq<Seq<char>>,
    message: Seq<char>,
    index: usize,
    position: (usize, usize),
) -> MifulErrorView {
    MifulErrorView::Runtime(fresh_error(message, source, index, position))
}

/// The error for a malformed signature, at the offending node.
pub open spec fn type_signature(source: Seq<Seq<char>>, node: NodeView) -> MifulErrorView {
    runtime(source, "Invalid type signature!"@, node.index, node.position)
}

/// The error for an argument of the wrong type.
pub open spec fn param_type(
    source: Seq<Seq<char>>,
    expected: Seq<char>,
    index: usize,
    position: (usize, usize),
) -> MifulErrorView {
    runtime(source, "Invalid parameter type, expecting ` "@ + expected + " `!"@, index, position)
}

/// The error for a wrong number of arguments, at the invoke.
pub open spec fn invalid_param_count(
    source: Seq<Seq<char>>,
    expected: usize,
    got: usize,
    n: NodeView,
) -> MifulErrorView {
    runtime(
        source,
        "Expected "@ + nat_text(expected as nat) + " parameters; got "@ + nat_text(got as nat)
            + "!"@,
        n.index,
        n.position,
    )
}

/// The name carried by a word or a symbol.
pub open spec fn name_of(kind: KindView) -> Option<Seq<char>> {
    match kind {
        KindView::Word(s) => Some(s),
        KindView::Symbol(s) => Some(s),
        _ => None,
    }
}

/// The elements of a list.
pub open spec fn items_of(kind: KindView) -> Option<Seq<NodeView>> {
    match kind {
        KindView::List(items) => Some(items),
        _ => None,
    }
}

/// Whether a node has the shape of an object, whatever its class.
pub open spec fn has_object_shape(kind: KindView) -> bool {
    &&& kind matches KindView::List(st)
    &&& st.len() == 3
    &&& st[0].node == KindView::Symbol("_obj"@)
    &&& name_of(st[1].node) is Some
    &&& st[2].node is List
}

/// The class of a node that has the shape of an object.
pub open spec fn object_class(kind: KindView) -> Seq<char> {
    name_of(kind->List_0[1].node)->Some_0
}

/// The contents of a node that has the shape of an object.
pub open spec fn object_payload(kind: KindView) -> Seq<NodeView> {
    kind->List_0[2].node->List_0
}

/// Whether a node is an object of class `class`; the class `any` stands for
/// every class.
pub open spec fn is_object(kind: KindView, class: Seq<char>) -> bool {
    has_object_shape(kind) && (class == "any"@ || object_class(kind) == class)
}

/// The object of class `class` that holds `items`.
pub open spec fn object_of(
    class: Seq<char>,
    items: Seq<NodeView>,
    index: usize,
    position: (usize, usize),
) -> NodeView {
    let hooks = collected_hooks(items, items.len());
    NodeView {
        node: KindView::List(
            seq![
                plain_node(KindView::Symbol("_obj"@), index, position),
                plain_node(KindView::Word(class), index, position),
                NodeView { node: KindView::List(items), hooks, position, index },
            ],
        ),
        hooks,
        position,
        index,
    }
}

/// The empty object of class `nil`: what a function returns that has nothing
/// to return.
pub open spec fn nil() -> NodeView {
    object_of("nil"@, Seq::empty(), 0, (0, 0))
}

/// The symbol `true` or `false`.
pub open spec fn truth(b: bool) -> NodeView {
    plain_node(
        KindView::Symbol(
            if b {
                "true"@
            } else {
                "false"@
            },
        ),
        0,
        (0, 0),
    )
}

/// The contents of an object, or why the node is none.
pub open spec fn payload_of(source: Seq<Seq<char>>, obj: NodeView) -> Result<
    Seq<NodeView>,
    MifulErrorView,
> {
    match obj.node {
        KindView::List(st) => {
            if st.len() != 3 {
                Err(
                    runtime(
                        source,
                        "Object structure has invalid length!"@,
                        obj.index,
                        obj.position,
                    ),
                )
            } else if !has_object_shape(obj.node) {
                Err(runtime(source, "Invalid object structure!"@, obj.index, obj.position))
            } else {
                Ok(object_payload(obj.node))
            }
        },
        _ => Err(runtime(source, "Object node is of invalid kind!"@, obj.index, obj.position)),
    }
}

/// The class of an object, or why the node is none.
pub open spec fn class_of(source: Seq<Seq<char>>, obj: NodeView) -> Result<
    Seq<char>,
    MifulErrorView,
> {
    match payload_of(source, obj) {
        Ok(_) => Ok(object_class(obj.node)),
        Err(e) => Err(e),
    }
}

/// The object with `items` behind its contents.
pub open spec fn appended_object(source: Seq<Seq<char>>, obj: NodeView, items: Seq<NodeView>) -> Result<
    NodeView,
    MifulErrorView,
> {
    match payload_of(source, obj) {
        Ok(payload) => Ok(
            object_of(object_class(obj.node), payload + items, obj.index, obj.position),
        ),
        Err(e) => Err(e.layered("..while processing object name"@)),
    }
}

/// Whether a value has the type `t`.
///
/// `any` is the type of everything; the other simple types name the kind of
/// the node.  An object type asks for an object of that class.  A tuple type
/// asks for a list whose elements have the listed types one by one; a list
/// type for a list each of whose elements has one of the listed types; a
/// union for a value that has one of the alternatives.
pub open spec fn has_type(node: NodeView, t: TypeView) -> bool
    decreases t,
{
    match t {
        TypeView::Simple(s) => {
            s == "any"@ || match node.node {
                KindView::Float(_) => s == "float"@,
                KindView::Int(_) => s == "int"@,
                KindView::Word(_) => s == "word"@,
                KindView::Symbol(_) => s == "symbol"@,
                KindView::List(_) => s == "list"@,
                KindView::Quote { .. } => s == "quote"@,
                _ => false,
            }
        },
        TypeView::Object(class) => is_object(node.node, class),
        TypeView::Tuple(types) => {
            &&& node.node matches KindView::List(inner)
            &&& inner.len() == types.len()
            &&& forall|i: int| 0 <= i < types.len() ==> has_type(inner[i], #[trigger] types[i])
        },
        TypeView::List(types) => {
            &&& node.node matches KindView::List(inner)
            &&& forall|i: int| 0 <= i < inner.len() ==> has_one_of(#[trigger] inner[i], types)
        },
        TypeView::AnyOf(types) => has_one_of(node, types),
    }
}

/// Whether a value has at least one of the types.
pub open spec fn has_one_of(node: NodeView, types: Seq<TypeView>) -> bool
    decreases types,
{
    exists|j: int| 0 <= j < types.len() && has_type(node, #[trigger] types[j])
}

/// Whether the supplied values fit a signature: as many values as types, and
/// each value of its type.
pub open spec fn accepts(expected: Seq<TypeView>, supplied: Seq<NodeView>) -> bool {
    &&& expected.len() == supplied.len()
    &&& forall|i: int|
        0 <= i < expected.len() ==> has_type(#[trigger] supplied[i], expected[i])
}

/// A value that has an object type is an object: a list of three elements
/// that starts with the symbol `_obj`, names the class asked for (unless any
/// class was asked for) and ends with a list.
pub proof fn lemma_object_invariant(node: NodeView, class: Seq<char>)
    requires
        has_type(node, TypeView::Object(class)),
    ensures
        node.node is List,
        node.node->List_0.len() == 3,
        node.node->List_0[0].node == KindView::Symbol("_obj"@),
        name_of(node.node->List_0[1].node) == Some(class) || class == "any"@,
        name_of(node.node->List_0[1].node) is Some,
        node.node->List_0[2].node is List,
{
}

/// A value has a list type exactly if it is a list and each of its elements
/// has one of the listed types.
pub proof fn lemma_list_type(node: NodeView, types: Seq<TypeView>)
    ensures
        has_type(node, TypeView::List(types)) <==> node.node is List && forall|k: int|
            0 <= k < node.node->List_0.len() ==> has_one_of(
                #[trigger] node.node->List_0[k],
                types,
            ),
{
}

/// The types with `last` folded into a union with the type before it.
pub open spec fn folded(types: Seq<TypeView>, last: TypeView) -> Seq<TypeView> {
    if types.len() == 0 {
        seq![last]
    } else {
        match types.last() {
            TypeView::AnyOf(alternatives) => types.drop_last().push(
                TypeView::AnyOf(alternatives.push(last)),
            ),
            other => types.drop_last().push(TypeView::AnyOf(seq![other, last])),
        }
    }
}

/// The types with `t` added: as a new type, or, behind a `|`, as one more
/// alternative of the type before it.
pub open spec fn with_type(types: Seq<TypeView>, t: TypeView, union: bool) -> Seq<TypeView> {
    if union {
        folded(types, t)
    } else {
        types.push(t)
    }
}

/// What one type expression denotes.
pub enum TypeStep {
    /// The bar that joins the types around it into a union.
    Bar,
    /// A type.
    Type(TypeView),
    /// Not a type expression.
    Invalid(MifulErrorView),
}

/// The types that the expressions `items[from..]` denote, behind `types`.
///
/// A word or symbol is a simple type; `(tuple (..))`, `(list (..))` and
/// `(obj name)` are the compound types; any other list must denote exactly
/// one type and stands for it; a `|` folds the types on its two sides into a
/// union and must not come first.
pub open spec fn types_of(
    source: Seq<Seq<char>>,
    items: Seq<NodeView>,
    from: nat,
    types: Seq<TypeView>,
    union: bool,
) -> Result<Seq<TypeView>, MifulErrorView>
    decreases items, items.len() - from,
{
    if from >= items.len() {
        Ok(types)
    } else {
        match type_step(source, items, from) {
            TypeStep::Bar => {
                if types.len() == 0 {
                    Err(
                        runtime(
                            source,
                            "Invalid type union syntax!"@,
                            items[from as int].index,
                            items[from as int].position,
                        ),
                    )
                } else {
                    types_of(source, items, from + 1, types, true)
                }
            },
            TypeStep::Type(t) => types_of(
                source,
                items,
                from + 1,
                with_type(types, t, union),
                false,
            ),
            TypeStep::Invalid(e) => Err(e),
        }
    }
}

/// What the type expression `items[at]` denotes.
pub open spec fn type_step(source: Seq<Seq<char>>, items: Seq<NodeView>, at: nat) -> TypeStep
    decreases items, 0nat,
{
    if at >= items.len() {
        TypeStep::Bar
    } else {
        let node = items[at as int];
        match node.node {
            KindView::Word(name) => simple_step(name),
            KindView::Symbol(name) => simple_step(name),
            KindView::List(l) => {
                if l.len() == 2 {
                    match name_of(l[0].node) {
                        None => TypeStep::Invalid(type_signature(source, node)),
                        Some(constructor) => {
                            if constructor == "tuple"@ || constructor == "list"@ {
                                match l[1].node {
                                    KindView::List(inner) => {
                                        match types_of(
                                            source,
                                            inner,
                                            0,
                                            Seq::empty(),
                                            false,
                                        ) {
                                            Ok(ts) => TypeStep::Type(
                                                if constructor == "tuple"@ {
                                                    TypeView::Tuple(ts)
                                                } else {
                                                    TypeView::List(ts)
                                                },
                                            ),
                                            Err(e) => TypeStep::Invalid(
                                                e.layered("..while processing compound type"@),
                                            ),
                                        }
                                    },
                                    _ => TypeStep::Invalid(type_signature(source, l[1])),
                                }
                            } else if constructor == "obj"@ {
                                match name_of(l[1].node) {
                                    Some(class) => TypeStep::Type(TypeView::Object(class)),
                                    None => TypeStep::Invalid(type_signature(source, l[1])),
                                }
                            } else {
                                TypeStep::Invalid(type_signature(source, l[0]))
                            }
                        },
                    }
                } else {
                    match types_of(source, l, 0, Seq::empty(), false) {
                        Ok(ts) => {
                            if ts.len() == 1 {
                                TypeStep::Type(ts[0])
                            } else {
                                TypeStep::Invalid(type_signature(source, node))
                            }
                        },
                        Err(e) => TypeStep::Invalid(e),
                    }
                }
            },
            _ => TypeStep::Invalid(type_signature(source, node)),
        }
    }
}

/// What a word or symbol denotes in a signature.
pub open spec fn simple_step(name: Seq<char>) -> TypeStep {
    if name == "|"@ {
        TypeStep::Bar
    } else {
        TypeStep::Type(TypeView::Simple(name))
    }
}


/// The error for a malformed signature, at the offending node.
pub fn type_signature_error(source: &Vec<String>, node: &NodeWrapper) -> (r: MifulError)
    ensures
        r@ == type_signature(texts(source@), node@),
{
    MifulError::runtime_error("Invalid type signature!", source, node.index, node.position)
}

/// The error for an argument of the wrong type.
pub fn param_type_error(
    source: &Vec<String>,
    expected: &str,
    index: usize,
    position: (usize, usize),
) -> (r: MifulError)
    ensures
        r@ == param_type(texts(source@), expected@, index, position),
{
    let mut message = String::from_str("Invalid parameter type, expecting ` ");
    message.append(expected);
    message.append(" `!");
    MifulError::runtime_error(message.as_str(), source, index, position)
}

/// The error for a wrong number of arguments, at the invoke.
pub fn invalid_param_count_error(
    source: &Vec<String>,
    expected: usize,
    got: usize,
    n: &NodeWrapper,
) -> (r: MifulError)
    ensures
        r@ == invalid_param_count(texts(source@), expected, got, n@),
{
    let mut message = String::from_str("Expected ");
    message.append(number_text(expected).as_str());
    message.append(" parameters; got ");
    message.append(number_text(got).as_str());
    message.append("!");
    MifulError::runtime_error(message.as_str(), source, n.index, n.position)
}

/// The name carried by a word or a symbol.
pub fn name_text(kind: &NodeKind) -> (r: Option<&String>)
    ensures
        match r {
            Some(s) => name_of(kind@) == Some(s@),
            None => name_of(kind@) is None,
        },
{
    match kind {
        NodeKind::Word(s) => Some(s),
        NodeKind::Symbol(s) => Some(s),
        _ => None,
    }
}

/// The elements of a list.
pub fn list_items(kind: &NodeKind) -> (r: Option<&Vec<NodeWrapper>>)
    ensures
        match r {
            Some(v) => items_of(kind@) == Some(node_views(v@)),
            None => items_of(kind@) is None,
        },
{
    match kind {
        NodeKind::List(v) => Some(v),
        _ => None,
    }
}

fn has_shape(val: &NodeKind) -> (r: bool)
    ensures
        r == has_object_shape(val@),
{
    match val {
        NodeKind::List(st) => {
            if st.len() != 3 {
                return false;
            }
            assert(node_views(st@)[0] == st@[0]@);
            assert(node_views(st@)[1] == st@[1]@);
            assert(node_views(st@)[2] == st@[2]@);
            let tagged = match &st[0].node {
                NodeKind::Symbol(v) => same_text(v.as_str(), "_obj"),
                _ => false,
            };
            let named = name_text(&st[1].node).is_some();
            let filled = list_items(&st[2].node).is_some();
            tagged && named && filled
        },
        _ => false,
    }
}

/// Whether a node is an object of class `t`; see [`is_object`].
pub fn check_obj_type(val: &NodeKind, t: &str) -> (r: bool)
    ensures
        r == is_object(val@, t@),
{
    if !has_shape(val) {
        return false;
    }
    if same_text(t, "any") {
        return true;
    }
    match val {
        NodeKind::List(st) => {
            assert(node_views(st@)[1] == st@[1]@);
            match name_text(&st[1].node) {
                Some(s) => same_text(s.as_str(), t),
                None => false,
            }
        },
        _ => false,
    }
}

/// The object of class `t` that holds `lst`.
pub fn make_object(t: String, lst: Vec<NodeWrapper>, index: usize, position: (usize, usize)) -> (r:
    NodeWrapper)
    ensures
        r@ == object_of(t@, node_views(lst@), index, position),
{
    let obj_sym = NodeWrapper::new_symbol(String::from_str("_obj"), index, position);
    let obj_type = NodeWrapper::new_word(t, index, position);
    let mut hooks: Vec<NodeWrapper> = Vec::new();
    assert(node_views(hooks@) =~= Seq::empty());
    let ghost items = node_views(lst@);
    let mut i: usize = 0;
    while i < lst.len()
        invariant
            i <= lst.len(),
            items == node_views(lst@),
            node_views(hooks@) == collected_hooks(items, i as nat),
        decreases lst.len() - i,
    {
        hooks = concat_nodes(&hooks, &lst[i].hooks);
        assert(lst@[i as int]@.hooks == items[i as int].hooks);
        i += 1;
    }
    let obj_val = NodeWrapper::new_list(lst, clone_nodes(&hooks), index, position);
    let ghost (a, b, c) = (obj_sym@, obj_type@, obj_val@);
    let mut parts: Vec<NodeWrapper> = Vec::new();
    parts.push(obj_sym);
    parts.push(obj_type);
    parts.push(obj_val);
    assert(node_views(parts@) =~= seq![a, b, c]);
    NodeWrapper::new_list(parts, hooks, index, position)
}

/// The empty object of class `nil`.
pub fn make_nil() -> (r: NodeWrapper)
    ensures
        r@ == nil(),
{
    let none: Vec<NodeWrapper> = Vec::new();
    assert(node_views(none@) =~= Seq::empty());
    make_object(String::from_str("nil"), none, 0, (0, 0))
}

/// The symbol `true`.
pub fn make_true() -> (r: NodeWrapper)
    ensures
        r@ == truth(true),
{
    NodeWrapper::new_symbol(String::from_str("true"), 0, (0, 0))
}

/// The symbol `false`.
pub fn make_false() -> (r: NodeWrapper)
    ensures
        r@ == truth(false),
{
    NodeWrapper::new_symbol(String::from_str("false"), 0, (0, 0))
}

/// The contents of an object, or why the node is none.
pub fn get_obj_val(source: &Vec<String>, obj: &NodeWrapper) -> (r: Result<
    Vec<NodeWrapper>,
    MifulError,
>)
    ensures
        match r {
            Ok(v) => payload_of(texts(source@), obj@) == Ok::<_, MifulErrorView>(node_views(v@)),
            Err(e) => payload_of(texts(source@), obj@) == Err::<Seq<NodeView>, _>(e@),
        },
{
    match &obj.node {
        NodeKind::List(obj_struct) => {
            if obj_struct.len() != 3 {
                Err(
                    MifulError::runtime_error(
                        "Object structure has invalid length!",
                        source,
                        obj.index,
                        obj.position,
                    ),
                )
            } else if !has_shape(&obj.node) {
                Err(
                    MifulError::runtime_error(
                        "Invalid object structure!",
                        source,
                        obj.index,
                        obj.position,
                    ),
                )
            } else {
                assert(node_views(obj_struct@)[2] == obj_struct@[2]@);
                match &obj_struct[2].node {
                    NodeKind::List(lst) => Ok(clone_nodes(lst)),
                    _ => Ok(Vec::new()),
                }
            }
        },
        _ => Err(
            MifulError::runtime_error(
                "Object node is of invalid kind!",
                source,
                obj.index,
                obj.position,
            ),
        ),
    }
}

/// The class of an object, or why the node is none.
pub fn get_obj_type(source: &Vec<String>, obj: &NodeWrapper) -> (r: Result<String, MifulError>)
    ensures
        match r {
            Ok(s) => class_of(texts(source@), obj@) == Ok::<_, MifulErrorView>(s@),
            Err(e) => class_of(texts(source@), obj@) == Err::<Seq<char>, _>(e@),
        },
{
    match get_obj_val(source, obj) {
        Err(e) => Err(e),
        Ok(_) => {
            match &obj.node {
                NodeKind::List(obj_struct) => {
                    assert(node_views(obj_struct@)[1] == obj_struct@[1]@);
                    match name_text(&obj_struct[1].node) {
                        Some(name) => Ok(name.clone()),
                        None => Ok(String::new()),
                    }
                },
                _ => Ok(String::new()),
            }
        },
    }
}

/// The object with the nodes of `lst` behind its contents.
pub fn obj_append(source: &Vec<String>, obj: &NodeWrapper, lst: &Vec<NodeWrapper>) -> (r: Result<
    NodeWrapper,
    MifulError,
>)
    ensures
        match r {
            Ok(v) => appended_object(texts(source@), obj@, node_views(lst@)) == Ok::<_, MifulErrorView>(
                v@,
            ),
            Err(e) => appended_object(texts(source@), obj@, node_views(lst@)) == Err::<NodeView, _>(e@),
        },
{
    match get_obj_type(source, obj) {
        Ok(obj_name) => {
            match get_obj_val(source, obj) {
                Ok(val) => {
                    let obj_val = concat_nodes(&val, lst);
                    Ok(make_object(obj_name, obj_val, obj.index, obj.position))
                },
                Err(e) => {
                    let mut e = e;
                    e.add_layer_top("..while processing object name");
                    Err(e)
                },
            }
        },
        Err(e) => {
            let mut e = e;
            e.add_layer_top("..while processing object name");
            Err(e)
        },
    }
}

/// Whether a value has the type `t`; see [`has_type`].
pub fn check_type(val_node: &NodeWrapper, t: &MifulType) -> (r: bool)
    ensures
        r == has_type(val_node@, t@),
    decreases t,
{
    match t {
        MifulType::Simple(s) => {
            if same_text(s.as_str(), "any") {
                true
            } else {
                match &val_node.node {
                    NodeKind::Float(_) => same_text(s.as_str(), "float"),
                    NodeKind::Int(_) => same_text(s.as_str(), "int"),
                    NodeKind::Word(_) => same_text(s.as_str(), "word"),
                    NodeKind::Symbol(_) => same_text(s.as_str(), "symbol"),
                    NodeKind::List(_) => same_text(s.as_str(), "list"),
                    NodeKind::Quote { .. } => same_text(s.as_str(), "quote"),
                    _ => false,
                }
            }
        },
        MifulType::Object(class_name) => check_obj_type(&val_node.node, class_name.as_str()),
        MifulType::Tuple(types) => {
            match &val_node.node {
                NodeKind::List(inner_lst) => {
                    let ghost inner = node_views(inner_lst@);
                    let ghost ts = type_views(types@);
                    assert(val_node@.node == KindView::List(inner));
                    assert(t@ == TypeView::Tuple(ts));
                    if types.len() != inner_lst.len() {
                        return false;
                    }
                    let mut i: usize = 0;
                    while i < types.len()
                        invariant
                            i <= types.len(),
                            types.len() == inner_lst.len(),
                            inner == node_views(inner_lst@),
                            ts == type_views(types@),
                            t is Tuple,
                            t->Tuple_0 == *types,
                            val_node@.node == KindView::List(inner),
                            t@ == TypeView::Tuple(ts),
                            forall|k: int| 0 <= k < i ==> has_type(inner[k], #[trigger] ts[k]),
                        decreases types.len() - i,
                    {
                        assert(inner[i as int] == inner_lst@[i as int]@);
                        assert(ts[i as int] == types@[i as int]@);
                        if !check_type(&inner_lst[i], &types[i]) {
                            return false;
                        }
                        i += 1;
                    }
                    true
                },
                _ => false,
            }
        },
        MifulType::List(types) => {
            match &val_node.node {
                NodeKind::List(inner_lst) => {
                    let ghost inner = node_views(inner_lst@);
                    let ghost ts = type_views(types@);
                    assert(val_node@.node == KindView::List(inner));
                    assert(t@ == TypeView::List(ts));
                    let mut i: usize = 0;
                    while i < inner_lst.len()
                        invariant
                            i <= inner_lst.len(),
                            inner == node_views(inner_lst@),
                            ts == type_views(types@),
                            t is List,
                            t->List_0 == *types,
                            val_node@.node == KindView::List(inner),
                            t@ == TypeView::List(ts),
                            forall|k: int| 0 <= k < i ==> has_one_of(#[trigger] inner[k], ts),
                        decreases inner_lst.len() - i,
                    {
                        assert(inner[i as int] == inner_lst@[i as int]@);
                        if !check_one_of(&inner_lst[i], types) {
                            assert(!has_one_of(inner[i as int], ts));
                            proof {
                                lemma_list_type(val_node@, ts);
                            }
                            return false;
                        }
                        i += 1;
                    }
                    true
                },
                _ => false,
            }
        },
        MifulType::AnyOf(types) => check_one_of(val_node, types),
    }
}

/// Whether a value has at least one of the types.
pub fn check_one_of(val_node: &NodeWrapper, types: &Vec<MifulType>) -> (r: bool)
    ensures
        r == has_one_of(val_node@, type_views(types@)),
    decreases types,
{
    let ghost ts = type_views(types@);
    let mut j: usize = 0;
    while j < types.len()
        invariant
            j <= types.len(),
            ts == type_views(types@),
            forall|k: int| 0 <= k < j ==> !has_type(val_node@, #[trigger] ts[k]),
        decreases types.len() - j,
    {
        assert(ts[j as int] == types@[j as int]@);
        if check_type(val_node, &types[j]) {
            return true;
        }
        j += 1;
    }
    false
}

/// Whether the supplied values fit a signature.
pub fn args_compatible(exp_args: &Vec<MifulType>, sup_args: &Vec<NodeWrapper>) -> (r: bool)
    ensures
        r == accepts(type_views(exp_args@), node_views(sup_args@)),
{
    if exp_args.len() != sup_args.len() {
        return false;
    }
    let ghost expected = type_views(exp_args@);
    let ghost supplied = node_views(sup_args@);
    let mut i: usize = 0;
    while i < exp_args.len()
        invariant
            i <= exp_args.len(),
            exp_args.len() == sup_args.len(),
            expected == type_views(exp_args@),
            supplied == node_views(sup_args@),
            forall|k: int| 0 <= k < i ==> has_type(#[trigger] supplied[k], expected[k]),
        decreases exp_args.len() - i,
    {
        assert(expected[i as int] == exp_args@[i as int]@);
        assert(supplied[i as int] == sup_args@[i as int]@);
        if !check_type(&sup_args[i], &exp_args[i]) {
            return false;
        }
        i += 1;
    }
    true
}

enum Step {
    Bar,
    Type(MifulType),
    Invalid(MifulError),
}

impl View for Step {
    type V = TypeStep;

    closed spec fn view(&self) -> TypeStep {
        match self {
            Step::Bar => TypeStep::Bar,
            Step::Type(t) => TypeStep::Type(t@),
            Step::Invalid(e) => TypeStep::Invalid(e@),
        }
    }
}

fn simple(name: &String) -> (r: Step)
    ensures
        r@ == simple_step(name@),
{
    if same_text(name.as_str(), "|") {
        Step::Bar
    } else {
        Step::Type(MifulType::Simple(name.clone()))
    }
}

/// What the type expression `lst[at]` denotes.
fn step(source: &Vec<String>, lst: &Vec<NodeWrapper>, at: usize) -> (r: Step)
    requires
        at < lst.len(),
    ensures
        r@ == type_step(texts(source@), node_views(lst@), at as nat),
    decreases lst, 0nat,
{
    let node = &lst[at];
    assert(node_views(lst@)[at as int] == node@);
    match &node.node {
        NodeKind::Word(t_name) => simple(t_name),
        NodeKind::Symbol(t_name) => simple(t_name),
        NodeKind::List(l) => {
            if l.len() == 2 {
                assert(node_views(l@)[0] == l@[0]@);
                assert(node_views(l@)[1] == l@[1]@);
                match name_text(&l[0].node) {
                    None => Step::Invalid(type_signature_error(source, node)),
                    Some(constructor) => {
                        let tuple = same_text(constructor.as_str(), "tuple");
                        if tuple || same_text(constructor.as_str(), "list") {
                            match &l[1].node {
                                NodeKind::List(t_list) => {
                                    match list_to_types(source, t_list) {
                                        Ok(inner_types) => {
                                            if tuple {
                                                Step::Type(MifulType::Tuple(inner_types))
                                            } else {
                                                Step::Type(MifulType::List(inner_types))
                                            }
                                        },
                                        Err(e) => {
                                            let mut e = e;
                                            e.add_layer_top("..while processing compound type");
                                            Step::Invalid(e)
                                        },
                                    }
                                },
                                _ => Step::Invalid(type_signature_error(source, &l[1])),
                            }
                        } else if same_text(constructor.as_str(), "obj") {
                            match name_text(&l[1].node) {
                                Some(obj_name) => Step::Type(MifulType::Object(obj_name.clone())),
                                None => Step::Invalid(type_signature_error(source, &l[1])),
                            }
                        } else {
                            Step::Invalid(type_signature_error(source, &l[0]))
                        }
                    },
                }
            } else {
                match list_to_types(source, l) {
                    Ok(inner_ts) => {
                        if inner_ts.len() == 1 {
                            assert(type_views(inner_ts@)[0] == inner_ts@[0]@);
                            Step::Type(inner_ts[0].clone())
                        } else {
                            Step::Invalid(type_signature_error(source, node))
                        }
                    },
                    Err(e) => Step::Invalid(e),
                }
            }
        },
        _ => Step::Invalid(type_signature_error(source, node)),
    }
}

/// Adds `t` to `types`; see [`with_type`].
fn add_type(types: &mut Vec<MifulType>, t: MifulType, union: bool)
    ensures
        type_views(final(types)@) == with_type(type_views(old(types)@), t@, union),
{
    let ghost before = type_views(types@);
    if union {
        match types.pop() {
            None => {
                types.push(t);
                assert(type_views(types@) =~= seq![t@]);
            },
            Some(before_last) => {
                assert(before.last() == before_last@);
                assert(type_views(types@) =~= before.drop_last());
                let ghost rest = type_views(types@);
                match before_last {
                    MifulType::AnyOf(alternatives) => {
                        let mut alternatives = alternatives;
                        let ghost alts = type_views(alternatives@);
                        alternatives.push(t);
                        assert(type_views(alternatives@) =~= alts.push(t@));
                        let u = MifulType::AnyOf(alternatives);
                        types.push(u);
                        assert(type_views(types@) =~= rest.push(u@));
                    },
                    other => {
                        let ghost o = other@;
                        let mut pair: Vec<MifulType> = Vec::new();
                        pair.push(other);
                        pair.push(t);
                        assert(type_views(pair@) =~= seq![o, t@]);
                        let u = MifulType::AnyOf(pair);
                        types.push(u);
                        assert(type_views(types@) =~= rest.push(u@));
                    },
                }
            },
        }
    } else {
        types.push(t);
        assert(type_views(types@) =~= before.push(t@));
    }
}

/// The types that the expressions of `lst` denote; see [`types_of`].
pub fn list_to_types(source: &Vec<String>, lst: &Vec<NodeWrapper>) -> (r: Result<
    Vec<MifulType>,
    MifulError,
>)
    ensures
        match r {
            Ok(ts) => types_of(texts(source@),
                node_views(lst@),
                0,
                Seq::empty(),
                false,
            ) == Ok::<_, MifulErrorView>(type_views(ts@)),
            Err(e) => types_of(texts(source@), node_views(lst@), 0, Seq::empty(), false)
                == Err::<Seq<TypeView>, _>(e@),
        },
    decreases lst, 1nat,
{
    let ghost src = texts(source@);
    let ghost items = node_views(lst@);
    let mut types: Vec<MifulType> = Vec::new();
    let mut next_union = false;
    assert(type_views(types@) =~= Seq::empty());
    let mut i: usize = 0;
    while i < lst.len()
        invariant
            i <= lst.len(),
            src == texts(source@),
            items == node_views(lst@),
            types_of(src, items, i as nat, type_views(types@), next_union) == types_of(src,
                items,
                0,
                Seq::empty(),
                false,
            ),
        decreases lst.len() - i,
    {
        assert(items[i as int] == lst@[i as int]@);
        match step(source, lst, i) {
            Step::Bar => {
                if types.len() == 0 {
                    return Err(
                        MifulError::runtime_error(
                            "Invalid type union syntax!",
                            source,
                            lst[i].index,
                            lst[i].position,
                        ),
                    );
                }
                next_union = true;
            },
            Step::Type(t) => {
                add_type(&mut types, t, next_union);
                next_union = false;
            },
            Step::Invalid(e) => {
                return Err(e);
            },
        }
        i += 1;
    }
    Ok(types)
}

} // verus!
