use wgsl_minifier::minify_module;
use wgsl_minifier::model::{
    Constant, EntryPoint, Function, FunctionArgument, FunctionResult, GlobalVariable,
    LocalVariable, Module, StructMember, Type, TypeShape,
};

fn sample_module() -> Module {
    Module {
        types: vec![
            Type { name: Some(String::from("Scalar")), inner: TypeShape::Leaf { tag: 7 } },
            Type {
                name: Some(String::from("VertexOutput")),
                inner: TypeShape::Struct {
                    members: vec![
                        StructMember {
                            name: Some(String::from("clip_position")),
                            ty: 0,
                            binding: 3,
                            offset: 0,
                        },
                        StructMember { name: None, ty: 0, binding: 4, offset: 16 },
                    ],
                    span: 32,
                },
            },
            Type { name: None, inner: TypeShape::Pointer { base: 1, space: 2 } },
            Type { name: None, inner: TypeShape::Array { base: 0, size: 5, stride: 4 } },
        ],
        constants: vec![
            Constant { name: Some(String::from("plain")), ty: 0, overridden: false, payload: 1 },
            Constant { name: Some(String::from("knob")), ty: 0, overridden: true, payload: 2 },
        ],
        global_variables: vec![GlobalVariable {
            name: Some(String::from("output")),
            ty: 1,
            payload: 9,
        }],
        functions: vec![Function {
            name: Some(String::from("helper")),
            result: Some(FunctionResult { ty: 0, payload: 0 }),
            local_variables: vec![LocalVariable {
                name: Some(String::from("tmp")),
                ty: 0,
                payload: 0,
            }],
            arguments: vec![
                FunctionArgument { name: Some(String::from("v1")), ty: 0, payload: 0 },
                FunctionArgument { name: Some(String::from("v2")), ty: 3, payload: 0 },
            ],
            named_expressions: vec![11, 22],
            body: 77,
        }],
        entry_points: vec![EntryPoint {
            name: String::from("vs_main"),
            stage: 1,
            function: Function {
                name: Some(String::from("vs_main_inner")),
                result: Some(FunctionResult { ty: 1, payload: 0 }),
                local_variables: vec![],
                arguments: vec![FunctionArgument {
                    name: Some(String::from("in_vertex_index")),
                    ty: 0,
                    payload: 0,
                }],
                named_expressions: vec![],
                body: 99,
            },
        }],
    }
}

#[test]
fn types_and_members_get_fresh_names_in_counter_order() {
    let mut m = sample_module();
    minify_module(&mut m);
    // counter: type 0 -> "A"; type 1 -> "a", members "B" and "b";
    // type 2 -> "C"; type 3 -> "c".
    assert_eq!(m.types[0].name.as_deref(), Some("A"));
    assert_eq!(m.types[1].name.as_deref(), Some("a"));
    match &m.types[1].inner {
        TypeShape::Struct { members, span } => {
            assert_eq!(*span, 32);
            assert_eq!(members[0].name.as_deref(), Some("B"));
            assert_eq!(members[1].name.as_deref(), Some("b"));
            assert_eq!(members[0].ty, 0);
            assert_eq!(members[0].binding, 3);
            assert_eq!(members[1].offset, 16);
        }
        _ => panic!("struct shape was not preserved"),
    }
    assert_eq!(m.types[2].name.as_deref(), Some("C"));
    assert_eq!(m.types[3].name.as_deref(), Some("c"));
}

#[test]
fn type_table_keeps_shapes_and_handles() {
    let mut m = sample_module();
    minify_module(&mut m);
    assert_eq!(m.types.len(), 4);
    assert!(matches!(m.types[0].inner, TypeShape::Leaf { tag: 7 }));
    assert!(matches!(m.types[2].inner, TypeShape::Pointer { base: 1, space: 2 }));
    assert!(matches!(m.types[3].inner, TypeShape::Array { base: 0, size: 5, stride: 4 }));
}

#[test]
fn constant_names_are_erased_unless_overridden() {
    let mut m = sample_module();
    minify_module(&mut m);
    assert_eq!(m.constants[0].name, None);
    assert_eq!(m.constants[1].name.as_deref(), Some("knob"));
    assert_eq!(m.constants[0].ty, 0);
    assert_eq!(m.constants[1].payload, 2);
}

#[test]
fn globals_functions_locals_and_arguments_are_renamed() {
    let mut m = sample_module();
    minify_module(&mut m);
    // After the types (counter 0..=5): global -> "D";
    // function -> "d", local -> "E", arguments -> "e", "F".
    assert_eq!(m.global_variables[0].name.as_deref(), Some("D"));
    assert_eq!(m.functions[0].name.as_deref(), Some("d"));
    assert_eq!(m.functions[0].local_variables[0].name.as_deref(), Some("E"));
    assert_eq!(m.functions[0].arguments[0].name.as_deref(), Some("e"));
    assert_eq!(m.functions[0].arguments[1].name.as_deref(), Some("F"));
    assert_eq!(m.functions[0].arguments[1].ty, 3);
    assert_eq!(m.functions[0].body, 77);
}

#[test]
fn named_expression_annotations_are_discarded() {
    let mut m = sample_module();
    minify_module(&mut m);
    assert!(m.functions[0].named_expressions.is_empty());
}

#[test]
fn entry_point_names_are_byte_identical() {
    let mut m = sample_module();
    minify_module(&mut m);
    assert_eq!(m.entry_points[0].name, "vs_main");
    assert_eq!(m.entry_points[0].stage, 1);
    // The entry point's inner function is renamed like any other: "f".
    assert_eq!(m.entry_points[0].function.name.as_deref(), Some("f"));
    assert_eq!(m.entry_points[0].function.arguments[0].name.as_deref(), Some("G"));
    assert_eq!(m.entry_points[0].function.result.as_ref().unwrap().ty, 1);
}

#[test]
fn every_renamed_handle_resolves_in_the_rebuilt_table() {
    let mut m = sample_module();
    minify_module(&mut m);
    let n = m.types.len();
    for t in &m.types {
        match &t.inner {
            TypeShape::Pointer { base, .. } => assert!(*base < n),
            TypeShape::Array { base, .. } => assert!(*base < n),
            TypeShape::BindingArray { base, .. } => assert!(*base < n),
            TypeShape::Struct { members, .. } => {
                for sm in members {
                    assert!(sm.ty < n);
                }
            }
            TypeShape::Leaf { .. } => {}
        }
    }
    for c in &m.constants {
        assert!(c.ty < n);
    }
    for g in &m.global_variables {
        assert!(g.ty < n);
    }
}
