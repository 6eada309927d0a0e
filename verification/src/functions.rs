//! Scopes and the function table.
//!
//! A scope is a list of bindings in which a later binding of a name hides the
//! earlier ones.  The function table holds its entries in the order in which
//! they were defined; an entry is known by its name together with its
//! signature, so that one name can have several entries.  A call is answered
//! by the first entry of that name whose signature accepts the arguments.

use crate::parsing::ast::{
    clone_types, MifulType, NodeView, NodeWrapper, TypeView, node_views, type_views, types_text,
};
use crate::parsing::text::{join, join_texts, same_text, texts, trimmed};
use crate::parsing::utils::{MifulError, MifulErrorView};
use crate::typing::{accepts, args_compatible, runtime};
use vstd::prelude::*;
use vstd::string::*;

verus! {

/// A name and the value it stands for.
#[derive(Debug)]
pub struct Binding {
    pub name: String,
    pub value: NodeWrapper,
}

pub struct BindingView {
    pub name: Seq<char>,
    pub value: NodeView,
}

impl View for Binding {
    type V = BindingView;

    open spec fn view(&self) -> BindingView {
        BindingView { name: self.name@, value: self.value@ }
    }
}

/// The contents of a vector of bindings.
pub open spec fn binding_views(s: Seq<Binding>) -> Seq<BindingView> {
    Seq::new(s.len(), |i: int| s[i]@)
}

impl Clone for Binding {
    fn clone(&self) -> (r: Self)
        ensures
            r@ == self@,
    {
        Binding { name: self.name.clone(), value: self.value.clone() }
    }
}

/// A function: its name, the types and names of its parameters, and the
/// invoke that is evaluated when it is called.
#[derive(Debug)]
pub struct Function {
    pub name: String,
    pub signature: Vec<MifulType>,
    pub parameters: Vec<String>,
    pub body: NodeWrapper,
}

pub struct FunctionView {
    pub name: Seq<char>,
    pub signature: Seq<TypeView>,
    pub parameters: Seq<Seq<char>>,
    pub body: NodeView,
}

impl View for Function {
    type V = FunctionView;

    open spec fn view(&self) -> FunctionView {
        FunctionView {
            name: self.name@,
            signature: type_views(self.signature@),
            parameters: texts(self.parameters@),
            body: self.body@,
        }
    }
}

/// The contents of a vector of functions.
pub open spec fn function_views(s: Seq<Function>) -> Seq<FunctionView> {
    Seq::new(s.len(), |i: int| s[i]@)
}

impl Clone for Function {
    fn clone(&self) -> (r: Self)
        ensures
            r@ == self@,
    {
        let mut parameters: Vec<String> = Vec::new();
        let mut i: usize = 0;
        while i < self.parameters.len()
            invariant
                i <= self.parameters.len(),
                parameters.len() == i,
                forall|k: int| 0 <= k < i ==> parameters@[k]@ == self.parameters@[k]@,
            decreases self.parameters.len() - i,
        {
            parameters.push(self.parameters[i].clone());
            i += 1;
        }
        assert(texts(parameters@) =~= texts(self.parameters@));
        Function {
            name: self.name.clone(),
            signature: clone_types(&self.signature),
            parameters,
            body: self.body.clone(),
        }
    }
}

/// Copies of all the bindings of `v`.
pub fn clone_bindings(v: &Vec<Binding>) -> (r: Vec<Binding>)
    ensures
        binding_views(r@) == binding_views(v@),
{
    let mut r: Vec<Binding> = Vec::new();
    let mut i: usize = 0;
    while i < v.len()
        invariant
            i <= v.len(),
            r.len() == i,
            forall|k: int| 0 <= k < i ==> r@[k]@ == v@[k]@,
        decreases v.len() - i,
    {
        r.push(v[i].clone());
        i += 1;
    }
    assert(binding_views(r@) =~= binding_views(v@));
    r
}

/// Copies of all the functions of `v`.
pub fn clone_functions(v: &Vec<Function>) -> (r: Vec<Function>)
    ensures
        function_views(r@) == function_views(v@),
{
    let mut r: Vec<Function> = Vec::new();
    let mut i: usize = 0;
    while i < v.len()
        invariant
            i <= v.len(),
            r.len() == i,
            forall|k: int| 0 <= k < i ==> r@[k]@ == v@[k]@,
        decreases v.len() - i,
    {
        r.push(v[i].clone());
        i += 1;
    }
    assert(function_views(r@) =~= function_views(v@));
    r
}

/// What `name` stands for among the first `n` bindings of `scope`: the value
/// of the last of them that binds it.
pub open spec fn bound_value(scope: Seq<BindingView>, name: Seq<char>, n: nat) -> Option<NodeView>
    decreases n,
{
    if n == 0 || n > scope.len() {
        None
    } else if scope[n - 1].name == name {
        Some(scope[n - 1].value)
    } else {
        bound_value(scope, name, (n - 1) as nat)
    }
}

/// What `name` stands for in `scope`.
pub open spec fn lookup(scope: Seq<BindingView>, name: Seq<char>) -> Option<NodeView> {
    bound_value(scope, name, scope.len())
}

/// The first `n` names bound to the first `n` values, as far as both reach.
pub open spec fn paired(names: Seq<Seq<char>>, values: Seq<NodeView>, n: nat) -> Seq<BindingView>
    decreases n,
{
    if n == 0 || n > names.len() || n > values.len() {
        Seq::empty()
    } else {
        paired(names, values, (n - 1) as nat).push(
            BindingView { name: names[n - 1], value: values[n - 1] },
        )
    }
}

/// Each name bound to the value at the same place; what is left over of the
/// longer sequence is dropped.
pub open spec fn zipped(names: Seq<Seq<char>>, values: Seq<NodeView>) -> Seq<BindingView> {
    paired(
        names,
        values,
        if names.len() <= values.len() {
            names.len()
        } else {
            values.len()
        },
    )
}

/// The first entry at or after `from` that has this name and signature.
pub open spec fn first_with_key(
    table: Seq<FunctionView>,
    name: Seq<char>,
    signature: Seq<TypeView>,
    from: nat,
) -> Option<nat>
    decreases table.len() - from,
{
    if from >= table.len() {
        None
    } else if table[from as int].name == name && table[from as int].signature == signature {
        Some(from)
    } else {
        first_with_key(table, name, signature, from + 1)
    }
}

/// The table after `f` was defined: `f` takes the place of the entry with
/// its name and signature, or comes last if there is none.
pub open spec fn inserted(table: Seq<FunctionView>, f: FunctionView) -> Seq<FunctionView> {
    match first_with_key(table, f.name, f.signature, 0) {
        Some(i) => table.update(i as int, f),
        None => table.push(f),
    }
}

/// Whether the entry answers a call of `name` with `args`.
pub open spec fn answers(f: FunctionView, name: Seq<char>, args: Seq<NodeView>) -> bool {
    f.name == name && accepts(f.signature, args)
}

/// The first entry at or after `from` that answers the call.
pub open spec fn chosen(
    table: Seq<FunctionView>,
    name: Seq<char>,
    args: Seq<NodeView>,
    from: nat,
) -> Option<nat>
    decreases table.len() - from,
{
    if from >= table.len() {
        None
    } else if answers(table[from as int], name, args) {
        Some(from)
    } else {
        chosen(table, name, args, from + 1)
    }
}

/// How an entry is shown in the list of available overloads: its name, two
/// colons, and its parameter types separated by commas.
pub open spec fn described(f: FunctionView) -> Seq<char> {
    trimmed(
        f.name + " :: "@ + types_text(f.signature, ", "@, f.signature.len()),
        if f.signature.len() == 0 {
            4
        } else {
            2
        },
    )
}

/// The descriptions of those of the first `n` entries that are called `name`.
pub open spec fn available(table: Seq<FunctionView>, name: Seq<char>, n: nat) -> Seq<Seq<char>>
    decreases n,
{
    if n == 0 || n > table.len() {
        Seq::empty()
    } else if table[n - 1].name == name {
        available(table, name, (n - 1) as nat).push(described(table[n - 1]))
    } else {
        available(table, name, (n - 1) as nat)
    }
}

/// The error for a call that no entry answers; it lists the entries of that
/// name.
pub open spec fn not_found(
    source: Seq<Seq<char>>,
    table: Seq<FunctionView>,
    name: Seq<char>,
    n: NodeView,
) -> MifulErrorView {
    runtime(
        source,
        "Did not find function ` "@ + name
            + " ` with desired parameter types.\n\t[NOTE] Following are available:\n\t"@ + join(
            available(table, name, table.len()),
            "\n\t"@,
        ),
        n.index,
        n.position,
    )
}

/// The answer to a call: the parameters bound to the arguments and the body
/// to evaluate, or the error that nothing answers.
pub open spec fn selected(
    source: Seq<Seq<char>>,
    table: Seq<FunctionView>,
    name: Seq<char>,
    args: Seq<NodeView>,
    n: NodeView,
) -> Result<(Seq<BindingView>, NodeView), MifulErrorView> {
    match chosen(table, name, args, 0) {
        Some(i) => Ok((zipped(table[i as int].parameters, args), table[i as int].body)),
        None => Err(not_found(source, table, name, n)),
    }
}

/// The entry that was chosen answers the call, and no entry before it does.
pub proof fn lemma_chosen_is_first(
    table: Seq<FunctionView>,
    name: Seq<char>,
    args: Seq<NodeView>,
    from: nat,
)
    ensures
        match chosen(table, name, args, from) {
            Some(i) => from <= i < table.len() && answers(table[i as int], name, args)
                && forall|k: int| from <= k < i ==> !answers(#[trigger] table[k], name, args),
            None => forall|k: int|
                from <= k < table.len() ==> !answers(#[trigger] table[k], name, args),
        },
    decreases table.len() - from,
{
    if from < table.len() && !answers(table[from as int], name, args) {
        lemma_chosen_is_first(table, name, args, from + 1);
    }
}

/// Where an entry answers the call and none before it does, it is chosen.
pub proof fn lemma_first_is_chosen(
    table: Seq<FunctionView>,
    name: Seq<char>,
    args: Seq<NodeView>,
    from: nat,
    i: nat,
)
    requires
        from <= i < table.len(),
        answers(table[i as int], name, args),
        forall|k: int| from <= k < i ==> !answers(#[trigger] table[k], name, args),
    ensures
        chosen(table, name, args, from) == Some(i),
    decreases i - from,
{
    if from < i {
        lemma_first_is_chosen(table, name, args, from + 1, i);
    }
}

/// The entry found for a key has that key, and none before it has.
pub proof fn lemma_first_with_key(
    table: Seq<FunctionView>,
    name: Seq<char>,
    signature: Seq<TypeView>,
    from: nat,
)
    ensures
        match first_with_key(table, name, signature, from) {
            Some(i) => from <= i < table.len() && table[i as int].name == name
                && table[i as int].signature == signature && forall|k: int|
                from <= k < i ==> !(#[trigger] table[k].name == name && table[k].signature
                    == signature),
            None => forall|k: int|
                from <= k < table.len() ==> !(#[trigger] table[k].name == name
                    && table[k].signature == signature),
        },
    decreases table.len() - from,
{
    if from < table.len() && !(table[from as int].name == name && table[from as int].signature
        == signature) {
        lemma_first_with_key(table, name, signature, from + 1);
    }
}

/// Whether no two entries of the table have the same name and signature.
pub open spec fn unique_keys(table: Seq<FunctionView>) -> bool {
    forall|i: int, j: int|
        0 <= i < j < table.len() ==> !((#[trigger] table[i]).name == (#[trigger] table[j]).name
            && table[i].signature == table[j].signature)
}

/// Defining a function keeps the keys of the table apart: where no two
/// entries had the same name and signature, none have afterwards.  The empty
/// table is such a table.
pub proof fn lemma_inserted_keeps_keys_unique(table: Seq<FunctionView>, f: FunctionView)
    requires
        unique_keys(table),
    ensures
        unique_keys(inserted(table, f)),
        unique_keys(Seq::<FunctionView>::empty()),
{
    lemma_first_with_key(table, f.name, f.signature, 0);
    let after = inserted(table, f);
    assert forall|i: int, j: int| 0 <= i < j < after.len() implies !((#[trigger] after[i]).name
        == (#[trigger] after[j]).name && after[i].signature == after[j].signature) by {
        match first_with_key(table, f.name, f.signature, 0) {
            Some(at) => {
                if i != at && j != at {
                    assert(after[i] == table[i] && after[j] == table[j]);
                } else if i == at {
                    assert(after[j] == table[j]);
                    assert(table[at as int].name == f.name);
                } else {
                    assert(after[i] == table[i]);
                    assert(table[at as int].name == f.name);
                }
            },
            None => {
                if j < table.len() {
                    assert(after[i] == table[i] && after[j] == table[j]);
                } else {
                    assert(after[i] == table[i]);
                }
            },
        }
    }
}

/// Dispatch is a function of the table, the name and the arguments alone:
/// wherever and in whatever source a call is made, the same table answers
/// the same call with the same overload, or answers it nowhere.
pub proof fn lemma_dispatch_deterministic(
    table: Seq<FunctionView>,
    name: Seq<char>,
    args: Seq<NodeView>,
    source_a: Seq<Seq<char>>,
    n_a: NodeView,
    source_b: Seq<Seq<char>>,
    n_b: NodeView,
)
    ensures
        selected(source_a, table, name, args, n_a) is Ok <==> selected(
            source_b,
            table,
            name,
            args,
            n_b,
        ) is Ok,
        selected(source_a, table, name, args, n_a) is Ok ==> selected(
            source_a,
            table,
            name,
            args,
            n_a,
        ) == selected(source_b, table, name, args, n_b),
{
}

/// Where a function lands when it is defined: in the place of the first
/// entry with its name and signature, or behind all entries if there is
/// none; every other entry stays where it is.
pub proof fn lemma_inserted_shape(table: Seq<FunctionView>, f: FunctionView)
    ensures
        match first_with_key(table, f.name, f.signature, 0) {
            Some(i) => {
                &&& i < table.len()
                &&& inserted(table, f).len() == table.len()
                &&& inserted(table, f)[i as int] == f
                &&& table[i as int].name == f.name && table[i as int].signature == f.signature
                &&& forall|k: int|
                    0 <= k < table.len() && k != i ==> inserted(table, f)[k] == #[trigger] table[k]
                &&& forall|k: int|
                    0 <= k < i ==> !((#[trigger] table[k]).name == f.name && table[k].signature
                        == f.signature)
            },
            None => {
                &&& inserted(table, f).len() == table.len() + 1
                &&& inserted(table, f)[table.len() as int] == f
                &&& forall|k: int|
                    0 <= k < table.len() ==> inserted(table, f)[k] == #[trigger] table[k]
                &&& forall|k: int|
                    0 <= k < table.len() ==> !((#[trigger] table[k]).name == f.name
                        && table[k].signature == f.signature)
            },
        },
{
    lemma_first_with_key(table, f.name, f.signature, 0);
}

/// The place of a function in the table after it was defined.
pub open spec fn place_of(table: Seq<FunctionView>, f: FunctionView) -> int {
    match first_with_key(table, f.name, f.signature, 0) {
        Some(i) => i as int,
        None => table.len() as int,
    }
}

/// Two functions of one name with different signatures stand side by side in
/// the table, in whichever order they are defined and whatever the table
/// held before.
pub proof fn lemma_overloads_coexist(
    table: Seq<FunctionView>,
    first: FunctionView,
    second: FunctionView,
)
    requires
        first.name == second.name,
        first.signature != second.signature,
    ensures
        inserted(inserted(table, first), second).contains(first),
        inserted(inserted(table, first), second).contains(second),
{
    let t1 = inserted(table, first);
    let t2 = inserted(t1, second);
    lemma_inserted_shape(table, first);
    lemma_inserted_shape(t1, second);
    let i = place_of(table, first);
    let j = place_of(t1, second);
    assert(t1[i] == first);
    assert(i != j);
    assert(t2[i] == first);
    assert(t2[j] == second);
}

/// Overload by type: of two functions of one name with different
/// signatures, a call that the signature of `first` accepts and that of
/// `second` does not is answered by `first`, in whichever order the two were
/// defined.  The table may hold other entries, also of that name, as long
/// as none of them answers the call, unless it is the entry that `first`
/// takes the place of.
pub proof fn lemma_overload_by_type(
    table: Seq<FunctionView>,
    first: FunctionView,
    second: FunctionView,
    args: Seq<NodeView>,
)
    requires
        first.name == second.name,
        first.signature != second.signature,
        accepts(first.signature, args),
        !accepts(second.signature, args),
        forall|k: int|
            0 <= k < table.len() && answers(#[trigger] table[k], first.name, args)
                ==> table[k].signature == first.signature,
    ensures
        ({
            let t = inserted(inserted(table, first), second);
            chosen(t, first.name, args, 0) matches Some(i) && t[i as int] == first
        }),
        ({
            let t = inserted(inserted(table, second), first);
            chosen(t, first.name, args, 0) matches Some(i) && t[i as int] == first
        }),
{
    let name = first.name;
    // first, then second
    {
        let t1 = inserted(table, first);
        let t2 = inserted(t1, second);
        lemma_inserted_shape(table, first);
        lemma_inserted_shape(t1, second);
        let i = place_of(table, first);
        let j = place_of(t1, second);
        assert(t1[i] == first);
        assert(i != j);
        assert(t2[i] == first);
        assert forall|k: int| 0 <= k < i implies !answers(#[trigger] t2[k], name, args) by {
            if k == j {
                assert(t2[k] == second);
            } else {
                assert(t2[k] == t1[k]);
                assert(t1[k] == table[k]);
            }
        }
        lemma_first_is_chosen(t2, name, args, 0, i as nat);
    }
    // second, then first
    {
        let t1 = inserted(table, second);
        let t2 = inserted(t1, first);
        lemma_inserted_shape(table, second);
        lemma_inserted_shape(t1, first);
        let j = place_of(table, second);
        let i = place_of(t1, first);
        assert(t2[i] == first);
        assert forall|k: int| 0 <= k < i implies !answers(#[trigger] t2[k], name, args) by {
            assert(t2[k] == t1[k]);
            if k == j {
                assert(t1[k] == second);
            } else {
                assert(t1[k] == table[k]);
            }
        }
        lemma_first_is_chosen(t2, name, args, 0, i as nat);
    }
}

/// What `name` stands for in `scope`, copied.
pub fn find_binding(scope: &Vec<Binding>, name: &str) -> (r: Option<NodeWrapper>)
    ensures
        match r {
            Some(v) => lookup(binding_views(scope@), name@) == Some(v@),
            None => lookup(binding_views(scope@), name@) is None,
        },
{
    let ghost s = binding_views(scope@);
    let mut n: usize = scope.len();
    while n > 0
        invariant
            n <= scope.len(),
            s == binding_views(scope@),
            bound_value(s, name@, n as nat) == lookup(s, name@),
        decreases n,
    {
        assert(s[n - 1] == scope@[n - 1]@);
        if same_text(scope[n - 1].name.as_str(), name) {
            return Some(scope[n - 1].value.clone());
        }
        n -= 1;
    }
    None
}

/// The scope with each name bound to the value at the same place.
pub fn extend_scope(scope: &Vec<Binding>, names: &Vec<String>, values: &Vec<NodeWrapper>) -> (r:
    Vec<Binding>)
    ensures
        binding_views(r@) == binding_views(scope@) + zipped(texts(names@), node_views(values@)),
{
    let mut r = clone_bindings(scope);
    let count = if names.len() <= values.len() {
        names.len()
    } else {
        values.len()
    };
    let ghost ns = texts(names@);
    let ghost vs = node_views(values@);
    let mut i: usize = 0;
    while i < count
        invariant
            i <= count,
            count <= names.len(),
            count <= values.len(),
            ns == texts(names@),
            vs == node_views(values@),
            binding_views(r@) == binding_views(scope@) + paired(ns, vs, i as nat),
        decreases count - i,
    {
        let ghost before = binding_views(r@);
        let b = Binding { name: names[i].clone(), value: values[i].clone() };
        assert(vs[i as int] == values@[i as int]@);
        r.push(b);
        assert(binding_views(r@) =~= before.push(b@));
        assert(binding_views(r@) =~= binding_views(scope@) + paired(ns, vs, (i + 1) as nat));
        i += 1;
    }
    r
}

/// Defines `f`; see [`inserted`].
pub fn insert_function(table: &mut Vec<Function>, f: Function)
    ensures
        function_views(final(table)@) == inserted(function_views(old(table)@), f@),
{
    let ghost t = function_views(table@);
    let mut i: usize = 0;
    while i < table.len()
        invariant
            i <= table.len(),
            table@ == old(table)@,
            t == function_views(table@),
            first_with_key(t, f@.name, f@.signature, i as nat) == first_with_key(
                t,
                f@.name,
                f@.signature,
                0,
            ),
        decreases table.len() - i,
    {
        assert(t[i as int] == table@[i as int]@);
        if same_text(table[i].name.as_str(), f.name.as_str()) && crate::parsing::ast::same_types(
            &table[i].signature,
            &f.signature,
        ) {
            let ghost fv = f@;
            table.set(i, f);
            assert(function_views(table@) =~= t.update(i as int, fv));
            return ;
        }
        i += 1;
    }
    let ghost fv = f@;
    table.push(f);
    assert(function_views(table@) =~= t.push(fv));
}

/// How an entry is shown in the list of available overloads.
fn describe(f: &Function) -> (r: String)
    ensures
        r@ == described(f@),
{
    let mut af = f.name.clone();
    af.append(" :: ");
    let ghost sig = type_views(f.signature@);
    let mut i: usize = 0;
    while i < f.signature.len()
        invariant
            i <= f.signature.len(),
            sig == type_views(f.signature@),
            af@ == f.name@ + " :: "@ + types_text(sig, ", "@, i as nat),
        decreases f.signature.len() - i,
    {
        assert(sig[i as int] == f.signature@[i as int]@);
        af.append(f.signature[i].to_string().as_str());
        af.append(", ");
        assert(af@ =~= f.name@ + " :: "@ + types_text(sig, ", "@, (i + 1) as nat));
        i += 1;
    }
    af.pop();
    af.pop();
    if f.signature.len() == 0 {
        af.pop();
        af.pop();
    }
    proof {
        reveal_with_fuel(trimmed, 5);
    }
    af
}

/// The answer to a call; see [`selected`].
pub fn choose_function(
    source: &Vec<String>,
    table: &Vec<Function>,
    name: &str,
    params: &Vec<NodeWrapper>,
    n: &NodeWrapper,
) -> (r: Result<(Vec<String>, NodeWrapper), MifulError>)
    ensures
        match r {
            Ok((names, body)) => chosen(function_views(table@), name@, node_views(params@), 0)
                matches Some(i) && texts(names@) == function_views(table@)[i as int].parameters
                && body@ == function_views(table@)[i as int].body,
            Err(e) => chosen(function_views(table@), name@, node_views(params@), 0) is None && e@
                == not_found(texts(source@), function_views(table@), name@, n@),
        },
{
    let ghost t = function_views(table@);
    let ghost args = node_views(params@);
    let mut listed: Vec<String> = Vec::new();
    assert(texts(listed@) =~= Seq::empty());
    let mut i: usize = 0;
    while i < table.len()
        invariant
            i <= table.len(),
            t == function_views(table@),
            args == node_views(params@),
            chosen(t, name@, args, i as nat) == chosen(t, name@, args, 0),
            texts(listed@) == available(t, name@, i as nat),
        decreases table.len() - i,
    {
        assert(t[i as int] == table@[i as int]@);
        if same_text(table[i].name.as_str(), name) {
            if args_compatible(&table[i].signature, params) {
                let names = crate::parsing::text::copy_texts(&table[i].parameters);
                assert(texts(names@) =~= t[i as int].parameters);
                return Ok((names, table[i].body.clone()));
            }
            let ghost before = texts(listed@);
            let af = describe(&table[i]);
            listed.push(af);
            assert(texts(listed@) =~= before.push(af@));
        }
        i += 1;
    }
    let mut message = String::from_str("Did not find function ` ");
    message.append(name);
    message.append(" ` with desired parameter types.\n\t[NOTE] Following are available:\n\t");
    message.append(join_texts(&listed, "\n\t").as_str());
    Err(MifulError::runtime_error(message.as_str(), source, n.index, n.position))
}

} // verus!
