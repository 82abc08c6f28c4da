use wgsl_minifier::model;
use wgsl_minifier::{minify_module, minify_wgsl_source};

fn convert_function(f: &naga::Function) -> model::Function {
    model::Function {
        name: f.name.clone(),
        result: f.result.as_ref().map(|r| model::FunctionResult { ty: r.ty.index(), payload: 0 }),
        local_variables: f
            .local_variables
            .iter()
            .map(|(_h, lv)| model::LocalVariable {
                name: lv.name.clone(),
                ty: lv.ty.index(),
                payload: 0,
            })
            .collect(),
        arguments: f
            .arguments
            .iter()
            .map(|a| model::FunctionArgument { name: a.name.clone(), ty: a.ty.index(), payload: 0 })
            .collect(),
        named_expressions: f.named_expressions.iter().map(|_| 0u64).collect(),
        body: 0,
    }
}

fn convert_module(m: &naga::Module) -> model::Module {
    model::Module {
        types: m
            .types
            .iter()
            .map(|(_h, t)| model::Type {
                name: t.name.clone(),
                inner: match &t.inner {
                    naga::TypeInner::Pointer { base, .. } => {
                        model::TypeShape::Pointer { base: base.index(), space: 0 }
                    }
                    naga::TypeInner::Array { base, stride, .. } => model::TypeShape::Array {
                        base: base.index(),
                        size: 0,
                        stride: *stride as u64,
                    },
                    naga::TypeInner::Struct { members, span } => model::TypeShape::Struct {
                        members: members
                            .iter()
                            .map(|sm| model::StructMember {
                                name: sm.name.clone(),
                                ty: sm.ty.index(),
                                binding: 0,
                                offset: sm.offset as u64,
                            })
                            .collect(),
                        span: *span as u64,
                    },
                    naga::TypeInner::BindingArray { base, .. } => {
                        model::TypeShape::BindingArray { base: base.index(), size: 0 }
                    }
                    _ => model::TypeShape::Leaf { tag: 0 },
                },
            })
            .collect(),
        constants: m
            .constants
            .iter()
            .map(|(_h, c)| model::Constant {
                name: c.name.clone(),
                ty: c.ty.index(),
                overridden: matches!(
                    m.global_expressions.try_get(c.init).unwrap(),
                    naga::Expression::Override(_)
                ),
                payload: 0,
            })
            .collect(),
        global_variables: m
            .global_variables
            .iter()
            .map(|(_h, g)| model::GlobalVariable { name: g.name.clone(), ty: g.ty.index(), payload: 0 })
            .collect(),
        functions: m.functions.iter().map(|(_h, f)| convert_function(f)).collect(),
        entry_points: m
            .entry_points
            .iter()
            .map(|ep| model::EntryPoint {
                name: ep.name.clone(),
                stage: 0,
                function: convert_function(&ep.function),
            })
            .collect(),
    }
}

fn apply_function(f: &mut naga::Function, mf: &model::Function, map: &[naga::Handle<naga::Type>]) {
    f.name = mf.name.clone();
    if let Some(res) = f.result.as_mut() {
        res.ty = map[res.ty.index()];
    }
    let mut j = 0;
    for (_h, lv) in f.local_variables.iter_mut() {
        lv.name = mf.local_variables[j].name.clone();
        lv.ty = map[lv.ty.index()];
        j += 1;
    }
    for (j, arg) in f.arguments.iter_mut().enumerate() {
        arg.name = mf.arguments[j].name.clone();
        arg.ty = map[arg.ty.index()];
    }
    if mf.named_expressions.is_empty() {
        f.named_expressions.clear();
    }
}

fn apply_module(m: &mut naga::Module, mm: &model::Module) {
    let old_types = std::mem::replace(&mut m.types, naga::UniqueArena::new());
    let mut map: Vec<naga::Handle<naga::Type>> = Vec::new();
    let mut new_types = naga::UniqueArena::new();
    for (i, (h, ty)) in old_types.iter().enumerate() {
        let span = old_types.get_span(h);
        let model_ty = &mm.types[i];
        let inner = match &ty.inner {
            naga::TypeInner::Pointer { base, space } => {
                naga::TypeInner::Pointer { base: map[base.index()], space: *space }
            }
            naga::TypeInner::Array { base, size, stride } => {
                naga::TypeInner::Array { base: map[base.index()], size: *size, stride: *stride }
            }
            naga::TypeInner::Struct { members, span } => {
                let model_members = match &model_ty.inner {
                    model::TypeShape::Struct { members, .. } => members,
                    _ => panic!("type shapes diverged"),
                };
                naga::TypeInner::Struct {
                    members: members
                        .iter()
                        .zip(model_members.iter())
                        .map(|(om, nm)| naga::StructMember {
                            name: nm.name.clone(),
                            ty: map[om.ty.index()],
                            binding: om.binding.clone(),
                            offset: om.offset,
                        })
                        .collect(),
                    span: *span,
                }
            }
            naga::TypeInner::BindingArray { base, size } => {
                naga::TypeInner::BindingArray { base: map[base.index()], size: *size }
            }
            other => other.clone(),
        };
        let nh = new_types.insert(naga::Type { name: model_ty.name.clone(), inner }, span);
        map.push(nh);
    }
    m.types = new_types;
    for (i, (_h, c)) in m.constants.iter_mut().enumerate() {
        c.name = mm.constants[i].name.clone();
        c.ty = map[c.ty.index()];
    }
    for (i, (_h, g)) in m.global_variables.iter_mut().enumerate() {
        g.name = mm.global_variables[i].name.clone();
        g.ty = map[g.ty.index()];
    }
    for (i, (_h, f)) in m.functions.iter_mut().enumerate() {
        apply_function(f, &mm.functions[i], &map);
    }
    for (i, ep) in m.entry_points.iter_mut().enumerate() {
        apply_function(&mut ep.function, &mm.entry_points[i].function, &map);
    }
}

fn minify(input_shader: &str) -> String {
    let mut module = naga::front::wgsl::parse_str(&input_shader).unwrap();

    naga::compact::compact(&mut module);

    let mut mm = convert_module(&module);
    minify_module(&mut mm);
    apply_module(&mut module, &mm);

    // Write to string
    let mut validator = naga::valid::Validator::new(
        naga::valid::ValidationFlags::all(),
        naga::valid::Capabilities::all(),
    );
    let info = validator.validate(&module).unwrap();

    let output =
        naga::back::wgsl::write_string(&module, &info, naga::back::wgsl::WriterFlags::empty())
            .unwrap();

    // Minify string
    minify_wgsl_source(&output)
}

#[test]
fn minify_1() {
    let src = "
    struct VertexOutput {
        @builtin(position) clip_position: vec4<f32>,
    };

    fn dead(v1: u32, v2: u32) -> u32 {
        return countOneBits(v1) + v2;
    }

    @vertex
    fn vs_main(
        @builtin(vertex_index) in_vertex_index: u32,
    ) -> VertexOutput {
        var out: VertexOutput;
        let x = f32(1 - i32(in_vertex_index)) * 0.5;
        let y = f32(i32(in_vertex_index & 1u) * 2 - 1) * 0.5;
        out.clip_position = vec4<f32>(x, y, 0.0, 1.0);
        return out;
    }
    ";
    let expected = "struct a{@builtin(position)B:vec4<f32>}fn C(c:u32,D:u32)->u32{return(countOneBits(c)+D);}@vertex fn vs_main(@builtin(vertex_index)e:u32)->a{var E:a;E.B=vec4<f32>((f32(1i-i32(e))*0.5f),(f32((i32(e&1u)*2i)- 1i)*0.5f),0f,1f);let _e22=E;return _e22;}";

    let got = minify(src);

    assert_eq!(expected, got);
}

#[test]
fn minify_2() {
    let src = "
    struct OutputElement {
        x: u32,
        y: u32,
        z: u32,
    }
    struct Output {
        elements: array<OutputElement>,
    }

    @group(2) @binding(0) var<storage, read_write> output: Output;

    fn do_work(global_id: vec3<u32>) {
        output.elements[global_id.x - 1u] = OutputElement(global_id.x - 1u, global_id.x + 1u, global_id.x * 4u);
    }

    @compute
    @workgroup_size(256,1,1)
    fn comp_main(
        @builtin(global_invocation_id) global_id: vec3<u32>,
    ) {
        if global_id.x == 0u {
            return;
        }
        do_work(global_id);
    }
    ";
    let expected = "struct a{B:u32,b:u32,C:u32}struct D{d:array<a>}@group(2)@binding(0)var<storage,read_write>e:D;fn F(f:vec3<u32>){e.d[(f.x- 1u)]=a((f.x- 1u),(f.x+1u),(f.x*4u));return;}@compute@workgroup_size(256,1,1)fn comp_main(@builtin(global_invocation_id)g:vec3<u32>){if(g.x==0u){return;}F(g);return;}";

    let got = minify(src);

    assert_eq!(expected, got);
}
