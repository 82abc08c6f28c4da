//! The identifier-minification pass.
//!
//! The pass walks the type table in dependency order, rebuilding it into a
//! fresh table while renaming every type and struct member; it then erases or
//! keeps constant names, renames globals, functions, locals and arguments,
//! and discards named-expression debug annotations. One name counter is
//! threaded through the whole run, so all generated names are distinct; by
//! their distinctness the rebuilt table never collapses two entries, and the
//! old-to-new handle map is the identity.

use vstd::prelude::*;

use crate::model::Constant;
use crate::model::EntryPoint;
use crate::model::Function;
use crate::model::FunctionArgument;
use crate::model::FunctionResult;
use crate::model::GlobalVariable;
use crate::model::LocalVariable;
use crate::model::Module;
use crate::model::StructMember;
use crate::model::Type;
use crate::model::TypeShape;
use crate::model::const_minified;
use crate::model::eps_names_before;
use crate::model::fn_fresh_names;
use crate::model::fn_renamed;
use crate::model::fn_wf;
use crate::model::fns_names_before;
use crate::model::global_renamed;
use crate::model::ident_map;
use crate::model::member_renamed;
use crate::model::module_fresh_names;
use crate::model::module_minified;
use crate::model::module_wf;
use crate::model::shape_handles_lt;
use crate::model::type_fresh_names;
use crate::model::type_renamed;
use crate::model::types_names_before;
use crate::names::lemma_name_spec_injective;
use crate::names::name_from_count;
use crate::names::name_spec;

verus! {

/// Equality of optional names, by contents.
pub open spec fn opt_name_eq(a: Option<String>, b: Option<String>) -> bool {
    match (a, b) {
        (Some(x), Some(y)) => x@ == y@,
        (None, None) => true,
        _ => false,
    }
}

/// Equality of struct members, by contents.
pub open spec fn member_eq(a: StructMember, b: StructMember) -> bool {
    opt_name_eq(a.name, b.name) && a.ty == b.ty && a.binding == b.binding && a.offset == b.offset
}

/// Equality of member lists, by contents.
pub open spec fn members_eq(a: Seq<StructMember>, b: Seq<StructMember>) -> bool {
    a.len() == b.len() && forall|j: int| 0 <= j < a.len() ==> member_eq(#[trigger] a[j], b[j])
}

/// Structural equality of type shapes.
pub open spec fn shape_eq(a: TypeShape, b: TypeShape) -> bool {
    match (a, b) {
        (
            TypeShape::Pointer { base: b1, space: s1 },
            TypeShape::Pointer { base: b2, space: s2 },
        ) => b1 == b2 && s1 == s2,
        (
            TypeShape::Array { base: b1, size: z1, stride: s1 },
            TypeShape::Array { base: b2, size: z2, stride: s2 },
        ) => b1 == b2 && z1 == z2 && s1 == s2,
        (
            TypeShape::Struct { members: m1, span: s1 },
            TypeShape::Struct { members: m2, span: s2 },
        ) => s1 == s2 && members_eq(m1@, m2@),
        (
            TypeShape::BindingArray { base: b1, size: z1 },
            TypeShape::BindingArray { base: b2, size: z2 },
        ) => b1 == b2 && z1 == z2,
        (TypeShape::Leaf { tag: t1 }, TypeShape::Leaf { tag: t2 }) => t1 == t2,
        _ => false,
    }
}

/// The uniqueness key of the type table: a type's name together with its
/// shape.
pub open spec fn type_key_eq(a: Type, b: Type) -> bool {
    opt_name_eq(a.name, b.name) && shape_eq(a.inner, b.inner)
}

fn opt_name_eq_exec(a: &Option<String>, b: &Option<String>) -> (r: bool)
    ensures
        r == opt_name_eq(*a, *b),
{
    match (a, b) {
        (Some(x), Some(y)) => x.eq(y),
        (None, None) => true,
        _ => false,
    }
}

fn member_eq_exec(a: &StructMember, b: &StructMember) -> (r: bool)
    ensures
        r == member_eq(*a, *b),
{
    opt_name_eq_exec(&a.name, &b.name) && a.ty == b.ty && a.binding == b.binding && a.offset
        == b.offset
}

fn members_eq_exec(a: &Vec<StructMember>, b: &Vec<StructMember>) -> (r: bool)
    ensures
        r == members_eq(a@, b@),
{
    if a.len() != b.len() {
        return false;
    }
    let n = a.len();
    let mut j: usize = 0;
    while j < n
        invariant
            n == a@.len(),
            a@.len() == b@.len(),
            j <= n,
            forall|k: int| 0 <= k < j ==> member_eq(#[trigger] a@[k], b@[k]),
        decreases n - j,
    {
        if !member_eq_exec(&a[j], &b[j]) {
            return false;
        }
        j += 1;
    }
    true
}

fn shape_eq_exec(a: &TypeShape, b: &TypeShape) -> (r: bool)
    ensures
        r == shape_eq(*a, *b),
{
    match (a, b) {
        (
            TypeShape::Pointer { base: b1, space: s1 },
            TypeShape::Pointer { base: b2, space: s2 },
        ) => *b1 == *b2 && *s1 == *s2,
        (
            TypeShape::Array { base: b1, size: z1, stride: s1 },
            TypeShape::Array { base: b2, size: z2, stride: s2 },
        ) => *b1 == *b2 && *z1 == *z2 && *s1 == *s2,
        (
            TypeShape::Struct { members: m1, span: s1 },
            TypeShape::Struct { members: m2, span: s2 },
        ) => *s1 == *s2 && members_eq_exec(m1, m2),
        (
            TypeShape::BindingArray { base: b1, size: z1 },
            TypeShape::BindingArray { base: b2, size: z2 },
        ) => *b1 == *b2 && *z1 == *z2,
        (TypeShape::Leaf { tag: t1 }, TypeShape::Leaf { tag: t2 }) => *t1 == *t2,
        _ => false,
    }
}

fn type_eq(a: &Type, b: &Type) -> (r: bool)
    ensures
        r == type_key_eq(*a, *b),
{
    opt_name_eq_exec(&a.name, &b.name) && shape_eq_exec(&a.inner, &b.inner)
}

/// Insert `t` into the table under the table's uniqueness rule: an entry
/// equal by (name, shape) is reused, otherwise `t` is appended; the returned
/// handle resolves to `t`'s key either way.
fn unique_insert(types: &mut Vec<Type>, t: Type) -> (h: usize)
    ensures
        (forall|j: int| 0 <= j < old(types)@.len() ==> !type_key_eq(#[trigger] old(types)@[j], t))
            ==> (final(types)@ == old(types)@.push(t) && h == old(types)@.len()),
        (exists|j: int| 0 <= j < old(types)@.len() && type_key_eq(#[trigger] old(types)@[j], t))
            ==> (final(types)@ == old(types)@ && (h as int) < old(types)@.len() && type_key_eq(
            old(types)@[h as int],
            t,
        )),
{
    let n = types.len();
    let mut i: usize = 0;
    while i < n
        invariant
            *types == *old(types),
            n == types@.len(),
            i <= n,
            forall|j: int| 0 <= j < i ==> !type_key_eq(#[trigger] types@[j], t),
        decreases n - i,
    {
        if type_eq(&types[i], &t) {
            return i;
        }
        i += 1;
    }
    types.push(t);
    n
}

proof fn lemma_types_names_before_mono(ts: Seq<Type>, i: int, j: int)
    requires
        0 <= i <= j <= ts.len(),
    ensures
        types_names_before(ts, i) <= types_names_before(ts, j),
        i < j ==> types_names_before(ts, i) + type_fresh_names(ts[i]) <= types_names_before(ts, j),
    decreases j,
{
    if i < j {
        lemma_types_names_before_mono(ts, i, j - 1);
    }
}

proof fn lemma_fns_names_before_mono(fs: Seq<Function>, i: int, j: int)
    requires
        0 <= i <= j <= fs.len(),
    ensures
        fns_names_before(fs, i) <= fns_names_before(fs, j),
        i < j ==> fns_names_before(fs, i) + fn_fresh_names(fs[i]) <= fns_names_before(fs, j),
    decreases j,
{
    if i < j {
        lemma_fns_names_before_mono(fs, i, j - 1);
    }
}

proof fn lemma_eps_names_before_mono(es: Seq<EntryPoint>, i: int, j: int)
    requires
        0 <= i <= j <= es.len(),
    ensures
        eps_names_before(es, i) <= eps_names_before(es, j),
        i < j ==> eps_names_before(es, i) + fn_fresh_names(es[i].function) <= eps_names_before(
            es,
            j,
        ),
    decreases j,
{
    if i < j {
        lemma_eps_names_before_mono(es, i, j - 1);
    }
}

proof fn lemma_type_renamed_wider_map(o: Type, n: Type, i: int, w: int, c: nat)
    requires
        type_renamed(o, n, ident_map(i), c),
        0 <= i <= w,
    ensures
        type_renamed(o, n, ident_map(w), c),
{
    match o.inner {
        TypeShape::Struct { members, span } => {
            assert forall|j: int| 0 <= j < members@.len() implies member_renamed(
                members@[j],
                #[trigger] n.inner->Struct_members@[j],
                ident_map(w),
                ((c + 1) + j) as nat,
            ) by {
                assert(member_renamed(
                    members@[j],
                    n.inner->Struct_members@[j],
                    ident_map(i),
                    ((c + 1) + j) as nat,
                ));
            }
        },
        _ => {},
    }
}

/// Build the replacement for type `ty`: a fresh name for the type (and one
/// for each struct member), with every embedded handle sent through `map`.
pub fn remove_type_identifiers(name_counter: &mut usize, ty: &Type, map: &Vec<usize>) -> (r: Type)
    requires
        shape_handles_lt(ty.inner, map@.len() as int),
        *old(name_counter) + type_fresh_names(*ty) <= usize::MAX,
    ensures
        *final(name_counter) as nat == *old(name_counter) + type_fresh_names(*ty),
        type_renamed(*ty, r, map@, *old(name_counter) as nat),
{
    let ghost c0: nat = *name_counter as nat;
    let name = name_from_count(name_counter);
    let inner = match &ty.inner {
        TypeShape::Pointer { base, space } => TypeShape::Pointer {
            base: map[*base],
            space: *space,
        },
        TypeShape::Array { base, size, stride } => TypeShape::Array {
            base: map[*base],
            size: *size,
            stride: *stride,
        },
        TypeShape::Struct { members, span } => {
            let n = members.len();
            let mut new_members: Vec<StructMember> = Vec::new();
            let mut j: usize = 0;
            while j < n
                invariant
                    n == members@.len(),
                    j <= n,
                    *name_counter as nat == c0 + 1 + j as nat,
                    c0 + 1 + n as nat <= usize::MAX,
                    new_members@.len() == j,
                    forall|k: int|
                        0 <= k < j ==> member_renamed(
                            members@[k],
                            #[trigger] new_members@[k],
                            map@,
                            (c0 + 1 + k) as nat,
                        ),
                    forall|k: int|
                        0 <= k < members@.len() ==> (#[trigger] members@[k].ty as int) < map@.len(),
                decreases n - j,
            {
                let mname = name_from_count(name_counter);
                let mty = map[members[j].ty];
                new_members.push(
                    StructMember {
                        name: Some(mname),
                        ty: mty,
                        binding: members[j].binding,
                        offset: members[j].offset,
                    },
                );
                j += 1;
            }
            TypeShape::Struct { members: new_members, span: *span }
        },
        TypeShape::BindingArray { base, size } => TypeShape::BindingArray {
            base: map[*base],
            size: *size,
        },
        TypeShape::Leaf { tag } => TypeShape::Leaf { tag: *tag },
    };
    Type { name: Some(name), inner }
}

/// Rename function `function` in place, starting at the current counter
/// value: the function itself, then each local, then each argument; remap
/// every type handle through `type_handle_mapping`; drop the
/// named-expression debug annotations.
pub fn remove_fn_identifiers(
    name_counter: &mut usize,
    function: &mut Function,
    type_handle_mapping: &Vec<usize>,
)
    requires
        fn_wf(*old(function), type_handle_mapping@.len() as int),
        *old(name_counter) + fn_fresh_names(*old(function)) <= usize::MAX,
    ensures
        *final(name_counter) as nat == *old(name_counter) + fn_fresh_names(*old(function)),
        fn_renamed(
            *old(function),
            *final(function),
            type_handle_mapping@,
            *old(name_counter) as nat,
        ),
{
    let ghost c0: nat = *name_counter as nat;
    let ghost f0: Function = *function;
    let fname = name_from_count(name_counter);
    function.name = Some(fname);
    let new_result = match &function.result {
        Some(res) => Some(
            FunctionResult { ty: type_handle_mapping[res.ty], payload: res.payload },
        ),
        None => None,
    };
    function.result = new_result;

    let nlocals = function.local_variables.len();
    let mut j: usize = 0;
    while j < nlocals
        invariant
            nlocals == f0.local_variables@.len(),
            function.local_variables@.len() == nlocals,
            j <= nlocals,
            *name_counter as nat == c0 + 1 + j as nat,
            c0 + fn_fresh_names(f0) <= usize::MAX,
            fn_wf(f0, type_handle_mapping@.len() as int),
            function.name matches Some(s) && s@ == name_spec(c0),
            match f0.result {
                Some(orr) => function.result matches Some(nr) && nr.ty
                    == type_handle_mapping@[orr.ty as int] && nr.payload == orr.payload,
                None => function.result is None,
            },
            function.arguments@ == f0.arguments@,
            function.named_expressions@ == f0.named_expressions@,
            function.body == f0.body,
            forall|k: int|
                0 <= k < j ==> {
                    let ol = f0.local_variables@[k];
                    let nl = #[trigger] function.local_variables@[k];
                    &&& nl.name matches Some(s) && s@ == name_spec((c0 + 1 + k) as nat)
                    &&& nl.ty == type_handle_mapping@[ol.ty as int]
                    &&& nl.payload == ol.payload
                },
            forall|k: int|
                j <= k < nlocals ==> #[trigger] function.local_variables@[k]
                    == f0.local_variables@[k],
        decreases nlocals - j,
    {
        let lname = name_from_count(name_counter);
        let lty = type_handle_mapping[function.local_variables[j].ty];
        let lpayload = function.local_variables[j].payload;
        function.local_variables[j] = LocalVariable { name: Some(lname), ty: lty, payload: lpayload };
        j += 1;
    }

    let nargs = function.arguments.len();
    let mut j: usize = 0;
    while j < nargs
        invariant
            nargs == f0.arguments@.len(),
            function.arguments@.len() == nargs,
            nlocals == f0.local_variables@.len(),
            j <= nargs,
            *name_counter as nat == c0 + 1 + nlocals as nat + j as nat,
            c0 + fn_fresh_names(f0) <= usize::MAX,
            fn_wf(f0, type_handle_mapping@.len() as int),
            function.name matches Some(s) && s@ == name_spec(c0),
            match f0.result {
                Some(orr) => function.result matches Some(nr) && nr.ty
                    == type_handle_mapping@[orr.ty as int] && nr.payload == orr.payload,
                None => function.result is None,
            },
            function.local_variables@.len() == nlocals,
            forall|k: int|
                0 <= k < nlocals ==> {
                    let ol = f0.local_variables@[k];
                    let nl = #[trigger] function.local_variables@[k];
                    &&& nl.name matches Some(s) && s@ == name_spec((c0 + 1 + k) as nat)
                    &&& nl.ty == type_handle_mapping@[ol.ty as int]
                    &&& nl.payload == ol.payload
                },
            function.named_expressions@ == f0.named_expressions@,
            function.body == f0.body,
            forall|k: int|
                0 <= k < j ==> {
                    let oa = f0.arguments@[k];
                    let na = #[trigger] function.arguments@[k];
                    &&& na.name matches Some(s) && s@ == name_spec(
                        (c0 + 1 + nlocals + k) as nat,
                    )
                    &&& na.ty == type_handle_mapping@[oa.ty as int]
                    &&& na.payload == oa.payload
                },
            forall|k: int|
                j <= k < nargs ==> #[trigger] function.arguments@[k] == f0.arguments@[k],
        decreases nargs - j,
    {
        let aname = name_from_count(name_counter);
        let aty = type_handle_mapping[function.arguments[j].ty];
        let apayload = function.arguments[j].payload;
        function.arguments[j] = FunctionArgument { name: Some(aname), ty: aty, payload: apayload };
        j += 1;
    }

    function.named_expressions.clear();
}

fn remove_identifiers(module: &mut Module)
    requires
        module_wf(*old(module)),
        module_fresh_names(*old(module)) <= usize::MAX,
    ensures
        module_minified(*old(module), *final(module)),
{
    let ghost m0: Module = *module;
    let ghost ts = m0.types@;
    let ghost nt = ts.len() as int;
    let ghost total = module_fresh_names(m0);

    let mut name_counter: usize = 0;
    let mut new_types: Vec<Type> = Vec::new();
    let mut type_handle_mapping: Vec<usize> = Vec::new();
    let ntypes = module.types.len();
    let mut i: usize = 0;
    while i < ntypes
        invariant
            *module == m0,
            m0 == *old(module),
            module_wf(m0),
            module_fresh_names(m0) <= usize::MAX,
            ntypes == ts.len(),
            ts == m0.types@,
            nt == ts.len() as int,
            i <= ntypes,
            name_counter as nat == types_names_before(ts, i as int),
            new_types@.len() == i,
            type_handle_mapping@ == ident_map(i as int),
            forall|k: int|
                0 <= k < i ==> type_renamed(
                    ts[k],
                    #[trigger] new_types@[k],
                    ident_map(nt),
                    types_names_before(ts, k),
                ),
        decreases ntypes - i,
    {
        proof {
            lemma_types_names_before_mono(ts, i as int, nt);
        }
        let new_type = remove_type_identifiers(
            &mut name_counter,
            &module.types[i],
            &type_handle_mapping,
        );
        let ghost ci = types_names_before(ts, i as int);
        proof {
            assert forall|k: int| 0 <= k < i implies !type_key_eq(
                #[trigger] new_types@[k],
                new_type,
            ) by {
                lemma_types_names_before_mono(ts, k, i as int);
                lemma_name_spec_injective(types_names_before(ts, k), ci);
            }
        }
        let new_handle = unique_insert(&mut new_types, new_type);
        type_handle_mapping.push(new_handle);
        proof {
            assert(type_handle_mapping@ =~= ident_map(i + 1 as int));
            lemma_type_renamed_wider_map(ts[i as int], new_types@[i as int], i as int, nt, ci);
        }
        i += 1;
    }
    module.types = new_types;
    let ghost map = ident_map(nt);
    let ghost tend = types_names_before(ts, nt);
    let ghost renamed_types = module.types@;

    let nconsts = module.constants.len();
    let mut i: usize = 0;
    while i < nconsts
        invariant
            m0 == *old(module),
            module_wf(m0),
            module_fresh_names(m0) <= usize::MAX,
            nt == m0.types@.len() as int,
            map == ident_map(nt),
            tend == types_names_before(m0.types@, nt),
            module.types@ == renamed_types,
            type_handle_mapping@ == map,
            nconsts == m0.constants@.len(),
            module.constants@.len() == nconsts,
            i <= nconsts,
            name_counter as nat == tend,
            module.global_variables@ == m0.global_variables@,
            module.functions@ == m0.functions@,
            module.entry_points@ == m0.entry_points@,
            forall|k: int|
                0 <= k < i ==> const_minified(m0.constants@[k], #[trigger] module.constants@[k], map),
            forall|k: int|
                i <= k < nconsts ==> #[trigger] module.constants@[k] == m0.constants@[k],
        decreases nconsts - i,
    {
        let cy = module.constants[i].ty;
        let cty = type_handle_mapping[cy];
        let overridden = module.constants[i].overridden;
        let cpayload = module.constants[i].payload;
        let cname = if overridden {
            match &module.constants[i].name {
                Some(s) => Some(s.clone()),
                None => None,
            }
        } else {
            None
        };
        module.constants[i] = Constant { name: cname, ty: cty, overridden, payload: cpayload };
        i += 1;
    }
    let ghost minified_consts = module.constants@;

    let nglobals = module.global_variables.len();
    let mut i: usize = 0;
    while i < nglobals
        invariant
            m0 == *old(module),
            module_wf(m0),
            module_fresh_names(m0) <= usize::MAX,
            nt == m0.types@.len() as int,
            map == ident_map(nt),
            tend == types_names_before(m0.types@, nt),
            module.types@ == renamed_types,
            module.constants@ == minified_consts,
            type_handle_mapping@ == map,
            nglobals == m0.global_variables@.len(),
            module.global_variables@.len() == nglobals,
            i <= nglobals,
            name_counter as nat == tend + i as nat,
            module.functions@ == m0.functions@,
            module.entry_points@ == m0.entry_points@,
            forall|k: int|
                0 <= k < i ==> global_renamed(
                    m0.global_variables@[k],
                    #[trigger] module.global_variables@[k],
                    map,
                    (tend + k) as nat,
                ),
            forall|k: int|
                i <= k < nglobals ==> #[trigger] module.global_variables@[k]
                    == m0.global_variables@[k],
        decreases nglobals - i,
    {
        let gname = name_from_count(&mut name_counter);
        let gy = module.global_variables[i].ty;
        let gty = type_handle_mapping[gy];
        let gpayload = module.global_variables[i].payload;
        module.global_variables[i] = GlobalVariable {
            name: Some(gname),
            ty: gty,
            payload: gpayload,
        };
        i += 1;
    }
    let ghost minified_globals = module.global_variables@;
    let ghost gend = tend + m0.global_variables@.len();
    let ghost fs = m0.functions@;
    let ghost nf = fs.len() as int;

    let nfns = module.functions.len();
    let mut i: usize = 0;
    while i < nfns
        invariant
            m0 == *old(module),
            module_wf(m0),
            module_fresh_names(m0) <= usize::MAX,
            nt == m0.types@.len() as int,
            map == ident_map(nt),
            tend == types_names_before(m0.types@, nt),
            gend == tend + m0.global_variables@.len(),
            fs == m0.functions@,
            nf == fs.len() as int,
            module.types@ == renamed_types,
            module.constants@ == minified_consts,
            module.global_variables@ == minified_globals,
            type_handle_mapping@ == map,
            nfns == fs.len(),
            module.functions@.len() == nfns,
            i <= nfns,
            name_counter as nat == gend + fns_names_before(fs, i as int),
            module.entry_points@ == m0.entry_points@,
            forall|k: int|
                0 <= k < i ==> fn_renamed(
                    fs[k],
                    #[trigger] module.functions@[k],
                    map,
                    (gend + fns_names_before(fs, k)) as nat,
                ),
            forall|k: int|
                i <= k < nfns ==> #[trigger] module.functions@[k] == fs[k],
        decreases nfns - i,
    {
        proof {
            lemma_fns_names_before_mono(fs, i as int, nf);
        }
        remove_fn_identifiers(&mut name_counter, &mut module.functions[i], &type_handle_mapping);
        i += 1;
    }
    let ghost minified_fns = module.functions@;
    let ghost fend = gend + fns_names_before(fs, nf);
    let ghost es = m0.entry_points@;
    let ghost ne = es.len() as int;

    let neps = module.entry_points.len();
    let mut i: usize = 0;
    while i < neps
        invariant
            m0 == *old(module),
            module_wf(m0),
            module_fresh_names(m0) <= usize::MAX,
            nt == m0.types@.len() as int,
            map == ident_map(nt),
            tend == types_names_before(m0.types@, nt),
            gend == tend + m0.global_variables@.len(),
            fend == gend + fns_names_before(m0.functions@, m0.functions@.len() as int),
            es == m0.entry_points@,
            ne == es.len() as int,
            module.types@ == renamed_types,
            module.constants@ == minified_consts,
            module.global_variables@ == minified_globals,
            module.functions@ == minified_fns,
            type_handle_mapping@ == map,
            neps == es.len(),
            module.entry_points@.len() == neps,
            i <= neps,
            name_counter as nat == fend + eps_names_before(es, i as int),
            forall|k: int|
                0 <= k < i ==> {
                    let oe = es[k];
                    let nep = #[trigger] module.entry_points@[k];
                    &&& nep.name@ == oe.name@
                    &&& nep.stage == oe.stage
                    &&& fn_renamed(
                        oe.function,
                        nep.function,
                        map,
                        (fend + eps_names_before(es, k)) as nat,
                    )
                },
            forall|k: int|
                i <= k < neps ==> #[trigger] module.entry_points@[k] == es[k],
        decreases neps - i,
    {
        proof {
            lemma_eps_names_before_mono(es, i as int, ne);
        }
        remove_fn_identifiers(
            &mut name_counter,
            &mut module.entry_points[i].function,
            &type_handle_mapping,
        );
        i += 1;
    }
}

/// Minify a module in place: every nameable entity is given its minimal
/// synthetic name, the type table is rebuilt so that its (name, shape)
/// uniqueness invariant holds again, and every cross-reference stays
/// consistent. Entry-point names and override-constant names are preserved
/// byte for byte.
pub fn minify_module(module: &mut Module)
    requires
        module_wf(*old(module)),
        module_fresh_names(*old(module)) <= usize::MAX,
    ensures
        module_minified(*old(module), *final(module)),
{
    remove_identifiers(module);
}

/// Preservation and reference integrity: a well-formed module stays well
/// formed under minification, and every handle referenced after the pass
/// resolves in the rebuilt type table.
pub proof fn lemma_minified_module_wf(o: Module, n: Module)
    requires
        module_wf(o),
        module_minified(o, n),
    ensures
        module_wf(n),
        crate::model::module_handles_resolve(n),
{
    let nt = o.types@.len() as int;
    let map = ident_map(nt);
    assert forall|i: int| 0 <= i < n.types@.len() implies shape_handles_lt(
        #[trigger] n.types@[i].inner,
        i,
    ) by {
        assert(type_renamed(o.types@[i], n.types@[i], map, types_names_before(o.types@, i)));
        match o.types@[i].inner {
            TypeShape::Struct { members, span } => {
                let nms = n.types@[i].inner->Struct_members;
                assert forall|j: int| 0 <= j < nms@.len() implies (#[trigger] nms@[j].ty as int)
                    < i by {
                    assert(member_renamed(
                        members@[j],
                        nms@[j],
                        map,
                        (types_names_before(o.types@, i) + 1 + j) as nat,
                    ));
                }
            },
            _ => {},
        }
    }
    assert forall|i: int| 0 <= i < n.functions@.len() implies fn_wf(
        #[trigger] n.functions@[i],
        n.types@.len() as int,
    ) by {
        assert(fn_wf(o.functions@[i], nt));
        assert(fn_renamed(
            o.functions@[i],
            n.functions@[i],
            map,
            (types_names_before(o.types@, nt) + o.global_variables@.len() + fns_names_before(
                o.functions@,
                i,
            )) as nat,
        ));
    }
    assert forall|i: int| 0 <= i < n.entry_points@.len() implies fn_wf(
        #[trigger] n.entry_points@[i].function,
        n.types@.len() as int,
    ) by {
        assert(fn_wf(o.entry_points@[i].function, nt));
        let fend = types_names_before(o.types@, nt) + o.global_variables@.len()
            + fns_names_before(o.functions@, o.functions@.len() as int);
        assert(fn_renamed(
            o.entry_points@[i].function,
            n.entry_points@[i].function,
            map,
            (fend + eps_names_before(o.entry_points@, i)) as nat,
        ));
    }
    assert forall|i: int| 0 <= i < n.types@.len() implies shape_handles_lt(
        #[trigger] n.types@[i].inner,
        n.types@.len() as int,
    ) by {
        assert(shape_handles_lt(n.types@[i].inner, i));
    }
}

/// The rebuilt type table satisfies its uniqueness invariant: no two entries
/// share the same (name, shape) key, because every entry carries a distinct
/// generated name.
pub proof fn lemma_minified_table_unique(o: Module, n: Module)
    requires
        module_minified(o, n),
    ensures
        forall|i: int, j: int|
            0 <= i < j < n.types@.len() ==> !type_key_eq(n.types@[i], n.types@[j]),
{
    assert forall|i: int, j: int| 0 <= i < j < n.types@.len() implies !type_key_eq(
        n.types@[i],
        n.types@[j],
    ) by {
        let map = ident_map(o.types@.len() as int);
        assert(type_renamed(o.types@[i], n.types@[i], map, types_names_before(o.types@, i)));
        assert(type_renamed(o.types@[j], n.types@[j], map, types_names_before(o.types@, j)));
        lemma_types_names_before_mono(o.types@, i, j);
        lemma_name_spec_injective(types_names_before(o.types@, i), types_names_before(o.types@, j));
    }
}

/// Symbol stability: entry-point names and override-constant names are byte
/// for byte what they were; every non-override constant's name is erased;
/// every global variable and every function now carries a synthetic
/// generated name, and those names are mutually distinct.
pub proof fn lemma_minified_symbol_stability(o: Module, n: Module)
    requires
        module_minified(o, n),
    ensures
        forall|i: int|
            0 <= i < n.entry_points@.len() ==> (#[trigger] n.entry_points@[i].name)@
                == o.entry_points@[i].name@,
        forall|i: int|
            0 <= i < n.constants@.len() && o.constants@[i].overridden
                ==> #[trigger] n.constants@[i].name == o.constants@[i].name,
        forall|i: int|
            0 <= i < n.constants@.len() && !o.constants@[i].overridden
                ==> #[trigger] n.constants@[i].name is None,
        forall|i: int|
            0 <= i < n.global_variables@.len() ==> ((#[trigger] n.global_variables@[i].name) matches
                Some(s) && crate::names::is_valid_identifier(s@)),
        forall|i: int|
            0 <= i < n.functions@.len() ==> ((#[trigger] n.functions@[i].name) matches Some(s)
                && crate::names::is_valid_identifier(s@)),
        forall|i: int, j: int|
            0 <= i < j < n.global_variables@.len() ==> !opt_name_eq(
                n.global_variables@[i].name,
                n.global_variables@[j].name,
            ),
        forall|i: int, j: int|
            0 <= i < j < n.functions@.len() ==> !opt_name_eq(
                n.functions@[i].name,
                n.functions@[j].name,
            ),
{
    let map = ident_map(o.types@.len() as int);
    let tend = types_names_before(o.types@, o.types@.len() as int);
    let gend = tend + o.global_variables@.len();
    assert forall|i: int| 0 <= i < n.global_variables@.len() implies (
    #[trigger] n.global_variables@[i].name) matches Some(s) && crate::names::is_valid_identifier(
        s@,
    ) by {
        assert(global_renamed(o.global_variables@[i], n.global_variables@[i], map, (tend + i) as nat));
        crate::names::lemma_name_spec_valid((tend + i) as nat);
    }
    assert forall|i: int| 0 <= i < n.functions@.len() implies (#[trigger] n.functions@[i].name) matches
        Some(s) && crate::names::is_valid_identifier(s@) by {
        assert(fn_renamed(
            o.functions@[i],
            n.functions@[i],
            map,
            (gend + fns_names_before(o.functions@, i)) as nat,
        ));
        crate::names::lemma_name_spec_valid((gend + fns_names_before(o.functions@, i)) as nat);
    }
    assert forall|i: int, j: int| 0 <= i < j < n.global_variables@.len() implies !opt_name_eq(
        n.global_variables@[i].name,
        n.global_variables@[j].name,
    ) by {
        assert(global_renamed(o.global_variables@[i], n.global_variables@[i], map, (tend + i) as nat));
        assert(global_renamed(o.global_variables@[j], n.global_variables@[j], map, (tend + j) as nat));
        lemma_name_spec_injective((tend + i) as nat, (tend + j) as nat);
    }
    assert forall|i: int, j: int| 0 <= i < j < n.functions@.len() implies !opt_name_eq(
        n.functions@[i].name,
        n.functions@[j].name,
    ) by {
        assert(fn_renamed(
            o.functions@[i],
            n.functions@[i],
            map,
            (gend + fns_names_before(o.functions@, i)) as nat,
        ));
        assert(fn_renamed(
            o.functions@[j],
            n.functions@[j],
            map,
            (gend + fns_names_before(o.functions@, j)) as nat,
        ));
        lemma_fns_names_before_mono(o.functions@, i, j);
        lemma_name_spec_injective(
            (gend + fns_names_before(o.functions@, i)) as nat,
            (gend + fns_names_before(o.functions@, j)) as nat,
        );
    }
}

} // verus!
