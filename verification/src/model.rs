//! The data model of a parsed shader module, as the identifier pass sees it.
//!
//! A module holds a type table, constants, global variables, functions and
//! entry points. Type handles are indices into the type table; a table is
//! well formed when every embedded handle points at an earlier entry, so
//! bases always precede the composites built from them. Data the pass never
//! reads — address spaces, array sizes, bindings, function bodies — is
//! carried through as opaque payload words.

use vstd::prelude::*;

use crate::names::name_spec;

verus! {

/// One member of a struct type: an optional name, a type handle, and the
/// member's binding and offset, carried through unchanged.
pub struct StructMember {
    pub name: Option<String>,
    pub ty: usize,
    pub binding: u64,
    pub offset: u64,
}

/// The shape of a type node. Shapes that reference other types carry their
/// base handles; every other shape is carried as an opaque tag.
pub enum TypeShape {
    Pointer { base: usize, space: u64 },
    Array { base: usize, size: u64, stride: u64 },
    Struct { members: Vec<StructMember>, span: u64 },
    BindingArray { base: usize, size: u64 },
    Leaf { tag: u64 },
}

/// A type node: an optional name plus a shape.
pub struct Type {
    pub name: Option<String>,
    pub inner: TypeShape,
}

/// A constant. An override constant is configurable from outside the module,
/// so its name is an externally addressable symbol.
pub struct Constant {
    pub name: Option<String>,
    pub ty: usize,
    pub overridden: bool,
    pub payload: u64,
}

/// A global variable.
pub struct GlobalVariable {
    pub name: Option<String>,
    pub ty: usize,
    pub payload: u64,
}

/// A function's result: a type handle plus its binding, carried through.
pub struct FunctionResult {
    pub ty: usize,
    pub payload: u64,
}

/// A local variable of a function.
pub struct LocalVariable {
    pub name: Option<String>,
    pub ty: usize,
    pub payload: u64,
}

/// An argument of a function.
pub struct FunctionArgument {
    pub name: Option<String>,
    pub ty: usize,
    pub payload: u64,
}

/// A function: a name, an optional result, locals and arguments in
/// declaration order, debug-only named-expression annotations, and an opaque
/// body.
pub struct Function {
    pub name: Option<String>,
    pub result: Option<FunctionResult>,
    pub local_variables: Vec<LocalVariable>,
    pub arguments: Vec<FunctionArgument>,
    pub named_expressions: Vec<u64>,
    pub body: u64,
}

/// An entry point: a pipeline-visible name, which the identifier pass must
/// keep, an opaque stage, and the function it invokes.
pub struct EntryPoint {
    pub name: String,
    pub stage: u64,
    pub function: Function,
}

/// A parsed shader module.
pub struct Module {
    pub types: Vec<Type>,
    pub constants: Vec<Constant>,
    pub global_variables: Vec<GlobalVariable>,
    pub functions: Vec<Function>,
    pub entry_points: Vec<EntryPoint>,
}

/// Every type handle embedded in shape `s` is below `n`.
pub open spec fn shape_handles_lt(s: TypeShape, n: int) -> bool {
    match s {
        TypeShape::Pointer { base, .. } => (base as int) < n,
        TypeShape::Array { base, .. } => (base as int) < n,
        TypeShape::Struct { members, .. } => forall|j: int|
            0 <= j < members@.len() ==> (#[trigger] members@[j].ty as int) < n,
        TypeShape::BindingArray { base, .. } => (base as int) < n,
        TypeShape::Leaf { .. } => true,
    }
}

/// Every type handle of function `f` resolves in a table of `n` types.
pub open spec fn fn_wf(f: Function, n: int) -> bool {
    &&& match f.result {
        Some(r) => (r.ty as int) < n,
        None => true,
    }
    &&& forall|j: int|
        0 <= j < f.local_variables@.len() ==> (#[trigger] f.local_variables@[j].ty as int) < n
    &&& forall|j: int| 0 <= j < f.arguments@.len() ==> (#[trigger] f.arguments@[j].ty as int) < n
}

/// A well-formed module: every referenced type handle resolves in the type
/// table, and within the table every embedded handle points at an earlier
/// entry (bases before composites).
pub open spec fn module_wf(m: Module) -> bool {
    &&& forall|i: int|
        0 <= i < m.types@.len() ==> shape_handles_lt(#[trigger] m.types@[i].inner, i)
    &&& forall|i: int|
        0 <= i < m.constants@.len() ==> (#[trigger] m.constants@[i].ty as int) < m.types@.len()
    &&& forall|i: int|
        0 <= i < m.global_variables@.len() ==> (#[trigger] m.global_variables@[i].ty as int)
            < m.types@.len()
    &&& forall|i: int|
        0 <= i < m.functions@.len() ==> fn_wf(#[trigger] m.functions@[i], m.types@.len() as int)
    &&& forall|i: int|
        0 <= i < m.entry_points@.len() ==> fn_wf(
            #[trigger] m.entry_points@[i].function,
            m.types@.len() as int,
        )
}

/// Every handle referenced anywhere in the module resolves in its type
/// table.
pub open spec fn module_handles_resolve(m: Module) -> bool {
    &&& forall|i: int|
        0 <= i < m.types@.len() ==> shape_handles_lt(
            #[trigger] m.types@[i].inner,
            m.types@.len() as int,
        )
    &&& forall|i: int|
        0 <= i < m.constants@.len() ==> (#[trigger] m.constants@[i].ty as int) < m.types@.len()
    &&& forall|i: int|
        0 <= i < m.global_variables@.len() ==> (#[trigger] m.global_variables@[i].ty as int)
            < m.types@.len()
    &&& forall|i: int|
        0 <= i < m.functions@.len() ==> fn_wf(#[trigger] m.functions@[i], m.types@.len() as int)
    &&& forall|i: int|
        0 <= i < m.entry_points@.len() ==> fn_wf(
            #[trigger] m.entry_points@[i].function,
            m.types@.len() as int,
        )
}

/// How many fresh names renaming type `t` consumes: one for the type itself
/// and one for each struct member.
pub open spec fn type_fresh_names(t: Type) -> nat {
    1 + match t.inner {
        TypeShape::Struct { members, .. } => members@.len(),
        _ => 0,
    }
}

/// Names consumed by renaming the first `i` entries of a type table.
pub open spec fn types_names_before(ts: Seq<Type>, i: int) -> nat
    decreases i,
{
    if i <= 0 {
        0
    } else {
        types_names_before(ts, i - 1) + type_fresh_names(ts[i - 1])
    }
}

/// How many fresh names renaming function `f` consumes: one for the function,
/// one per local, one per argument.
pub open spec fn fn_fresh_names(f: Function) -> nat {
    1 + f.local_variables@.len() + f.arguments@.len()
}

/// Names consumed by renaming the first `i` functions.
pub open spec fn fns_names_before(fs: Seq<Function>, i: int) -> nat
    decreases i,
{
    if i <= 0 {
        0
    } else {
        fns_names_before(fs, i - 1) + fn_fresh_names(fs[i - 1])
    }
}

/// Names consumed by renaming the functions of the first `i` entry points.
pub open spec fn eps_names_before(es: Seq<EntryPoint>, i: int) -> nat
    decreases i,
{
    if i <= 0 {
        0
    } else {
        eps_names_before(es, i - 1) + fn_fresh_names(es[i - 1].function)
    }
}

/// All fresh names one minification run over module `m` consumes.
pub open spec fn module_fresh_names(m: Module) -> nat {
    types_names_before(m.types@, m.types@.len() as int) + m.global_variables@.len()
        + fns_names_before(m.functions@, m.functions@.len() as int) + eps_names_before(
        m.entry_points@,
        m.entry_points@.len() as int,
    )
}

/// The identity handle map over a table of `n` types.
pub open spec fn ident_map(n: int) -> Seq<usize> {
    Seq::new(n as nat, |i: int| i as usize)
}

/// Member `n` is member `o` renamed to the name of counter value `c`, with
/// its type handle sent through `map`.
pub open spec fn member_renamed(o: StructMember, n: StructMember, map: Seq<usize>, c: nat) -> bool {
    &&& n.name matches Some(s) && s@ == name_spec(c)
    &&& (o.ty as int) < map.len() && n.ty == map[o.ty as int]
    &&& n.binding == o.binding
    &&& n.offset == o.offset
}

/// Shape `n` is shape `o` with every embedded handle sent through `map` and,
/// for a struct, the members renamed to the names of counter values `c`,
/// `c + 1`, ... in member order.
pub open spec fn shape_renamed(o: TypeShape, n: TypeShape, map: Seq<usize>, c: nat) -> bool {
    match o {
        TypeShape::Pointer { base, space } => n matches TypeShape::Pointer {
            base: nb,
            space: ns,
        } && (base as int) < map.len() && nb == map[base as int] && ns == space,
        TypeShape::Array { base, size, stride } => n matches TypeShape::Array {
            base: nb,
            size: nsz,
            stride: nst,
        } && (base as int) < map.len() && nb == map[base as int] && nsz == size && nst == stride,
        TypeShape::Struct { members, span } => n matches TypeShape::Struct {
            members: nms,
            span: nsp,
        } && nsp == span && nms@.len() == members@.len() && forall|j: int|
            0 <= j < members@.len() ==> member_renamed(
                members@[j],
                #[trigger] nms@[j],
                map,
                (c + j) as nat,
            ),
        TypeShape::BindingArray { base, size } => n matches TypeShape::BindingArray {
            base: nb,
            size: nsz,
        } && (base as int) < map.len() && nb == map[base as int] && nsz == size,
        TypeShape::Leaf { tag } => n matches TypeShape::Leaf { tag: nt } && nt == tag,
    }
}

/// Type `n` is type `o` renamed starting at counter value `c`: the type gets
/// the name of `c`, its struct members the following names.
pub open spec fn type_renamed(o: Type, n: Type, map: Seq<usize>, c: nat) -> bool {
    &&& n.name matches Some(s) && s@ == name_spec(c)
    &&& shape_renamed(o.inner, n.inner, map, c + 1)
}

/// Constant `n` is constant `o` minified: the name of an override constant is
/// kept byte for byte, any other name is erased; the type handle is sent
/// through `map`.
pub open spec fn const_minified(o: Constant, n: Constant, map: Seq<usize>) -> bool {
    &&& if o.overridden {
        n.name == o.name
    } else {
        n.name is None
    }
    &&& (o.ty as int) < map.len() && n.ty == map[o.ty as int]
    &&& n.overridden == o.overridden
    &&& n.payload == o.payload
}

/// Global variable `n` is `o` renamed to the name of counter value `c`.
pub open spec fn global_renamed(
    o: GlobalVariable,
    n: GlobalVariable,
    map: Seq<usize>,
    c: nat,
) -> bool {
    &&& n.name matches Some(s) && s@ == name_spec(c)
    &&& (o.ty as int) < map.len() && n.ty == map[o.ty as int]
    &&& n.payload == o.payload
}

/// Function `n` is function `o` renamed starting at counter value `c`: the
/// function gets the name of `c`, its locals the next names in declaration
/// order, then its arguments; every type handle is sent through `map`; the
/// named-expression debug annotations are discarded.
pub open spec fn fn_renamed(o: Function, n: Function, map: Seq<usize>, c: nat) -> bool {
    &&& n.name matches Some(s) && s@ == name_spec(c)
    &&& match o.result {
        Some(orr) => n.result matches Some(nr) && (orr.ty as int) < map.len() && nr.ty
            == map[orr.ty as int] && nr.payload == orr.payload,
        None => n.result is None,
    }
    &&& n.local_variables@.len() == o.local_variables@.len()
    &&& forall|j: int|
        0 <= j < o.local_variables@.len() ==> {
            let ol = o.local_variables@[j];
            let nl = #[trigger] n.local_variables@[j];
            &&& nl.name matches Some(s) && s@ == name_spec((c + 1 + j) as nat)
            &&& (ol.ty as int) < map.len() && nl.ty == map[ol.ty as int]
            &&& nl.payload == ol.payload
        }
    &&& n.arguments@.len() == o.arguments@.len()
    &&& forall|j: int|
        0 <= j < o.arguments@.len() ==> {
            let oa = o.arguments@[j];
            let na = #[trigger] n.arguments@[j];
            &&& na.name matches Some(s) && s@ == name_spec(
                (c + 1 + o.local_variables@.len() + j) as nat,
            )
            &&& (oa.ty as int) < map.len() && na.ty == map[oa.ty as int]
            &&& na.payload == oa.payload
        }
    &&& n.named_expressions@.len() == 0
    &&& n.body == o.body
}

/// Module `n` is module `o` after one run of the identifier pass: the type
/// table is rebuilt entry for entry under the identity handle map, every
/// nameable entity carries the synthetic name of its counter value, entry
/// point names and override-constant names are untouched, and nothing else
/// changes.
pub open spec fn module_minified(o: Module, n: Module) -> bool {
    let map = ident_map(o.types@.len() as int);
    let tend = types_names_before(o.types@, o.types@.len() as int);
    let gend = tend + o.global_variables@.len();
    let fend = gend + fns_names_before(o.functions@, o.functions@.len() as int);
    &&& n.types@.len() == o.types@.len()
    &&& forall|i: int|
        0 <= i < o.types@.len() ==> type_renamed(
            o.types@[i],
            #[trigger] n.types@[i],
            map,
            types_names_before(o.types@, i),
        )
    &&& n.constants@.len() == o.constants@.len()
    &&& forall|i: int|
        0 <= i < o.constants@.len() ==> const_minified(o.constants@[i], #[trigger] n.constants@[i], map)
    &&& n.global_variables@.len() == o.global_variables@.len()
    &&& forall|i: int|
        0 <= i < o.global_variables@.len() ==> global_renamed(
            o.global_variables@[i],
            #[trigger] n.global_variables@[i],
            map,
            (tend + i) as nat,
        )
    &&& n.functions@.len() == o.functions@.len()
    &&& forall|i: int|
        0 <= i < o.functions@.len() ==> fn_renamed(
            o.functions@[i],
            #[trigger] n.functions@[i],
            map,
            (gend + fns_names_before(o.functions@, i)) as nat,
        )
    &&& n.entry_points@.len() == o.entry_points@.len()
    &&& forall|i: int|
        0 <= i < o.entry_points@.len() ==> {
            let oe = o.entry_points@[i];
            let ne = #[trigger] n.entry_points@[i];
            &&& ne.name@ == oe.name@
            &&& ne.stage == oe.stage
            &&& fn_renamed(
                oe.function,
                ne.function,
                map,
                (fend + eps_names_before(o.entry_points@, i)) as nat,
            )
        }
}

} // verus!
