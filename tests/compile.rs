use std::cell::Cell;

use bedrock::cache::{PipelineCache, PipelinePlan};
use bedrock::draw::{draw_plan, ColorAttachment};
use bedrock::layout::{BindingType, BuildError, LayoutEntry};
use bedrock::parser::{parse_shader, Attribute, FieldDecl};
use bedrock::pingpong::{PingPong, Slot};
use bedrock::resource::{align_up, padded_row_size, staging_size, BindEntry, ShaderInput};
use bedrock::schema::{ShaderInputGroupSchema, ShaderInputSchema, Stages};

fn attr(name: &str, tokens: &str) -> Attribute {
    Attribute { name: name.to_string(), tokens: tokens.to_string() }
}

fn field(name: &str, ty: &str, attrs: Vec<Attribute>) -> FieldDecl {
    FieldDecl { name: name.to_string(), ty: ty.to_string(), attrs }
}

const FRAGMENT: Stages = Stages { vertex: false, fragment: true };
const VERTEX: Stages = Stages { vertex: true, fragment: false };

#[test]
fn fragment_group_layout_has_positional_bindings() {
    let fields = vec![
        field("tex", "Tex", vec![attr("group", "(fragment)"), attr("texture2d", "(width = 256, height = 256)")]),
        field("u", "U", vec![attr("uniform", "(size = 16)")]),
    ];
    let shader = parse_shader("s.wgsl".to_string(), &fields).unwrap();
    let schema = shader.bind_groups[0].input_group_schema();
    let layout = schema.layout_entries().unwrap();
    assert_eq!(
        layout,
        vec![
            LayoutEntry { binding: 0, visibility: FRAGMENT, ty: BindingType::Texture },
            LayoutEntry { binding: 1, visibility: FRAGMENT, ty: BindingType::Uniform },
        ]
    );
}

#[test]
fn binding_index_is_position_whatever_the_kind() {
    let schema = ShaderInputGroupSchema {
        input_schemas: vec![
            ShaderInputSchema::Uniform { size: 4 },
            ShaderInputSchema::Texture { width: 1, height: 1 },
            ShaderInputSchema::Uniform { size: 8 },
        ],
        shader_stages: Stages { vertex: true, fragment: true },
    };
    let layout = schema.layout_entries().unwrap();
    for (i, e) in layout.iter().enumerate() {
        assert_eq!(e.binding, i as u32);
        assert_eq!(e.visibility, Stages { vertex: true, fragment: true });
    }
    assert_eq!(layout[1].ty, BindingType::Texture);
}

#[test]
fn unsupported_binding_has_no_layout() {
    let schema = ShaderInputGroupSchema {
        input_schemas: vec![ShaderInputSchema::Uniform { size: 4 }, ShaderInputSchema::Sampler {}],
        shader_stages: FRAGMENT,
    };
    assert_eq!(schema.layout_entries(), Err(BuildError::UnsupportedKind { binding: 1 }));
    assert_eq!(schema.build().unwrap_err(), BuildError::UnsupportedKind { binding: 1 });
}

#[test]
fn providers_allocate_declared_sizes() {
    assert_eq!(
        ShaderInputSchema::Texture { width: 256, height: 128 }.build(),
        Ok(ShaderInput::Texture { width: 256, height: 128 })
    );
    assert_eq!(ShaderInputSchema::Uniform { size: 16 }.build(), Ok(ShaderInput::Uniform { size: 16 }));
    assert!(ShaderInputSchema::Storage {}.build().is_err());
    assert!(ShaderInputSchema::Sampler {}.build().is_err());
    let group = ShaderInputGroupSchema {
        input_schemas: vec![
            ShaderInputSchema::Texture { width: 1920, height: 1200 },
            ShaderInputSchema::Uniform { size: 8 },
        ],
        shader_stages: FRAGMENT,
    };
    let built = group.build().unwrap();
    assert_eq!(
        built.inputs,
        vec![ShaderInput::Texture { width: 1920, height: 1200 }, ShaderInput::Uniform { size: 8 }]
    );
    assert_eq!(built.layout.len(), 2);
}

#[test]
fn row_size_is_padded_to_alignment() {
    assert_eq!(padded_row_size(1920), 7680);
    assert_eq!(padded_row_size(1), 256);
    assert_eq!(padded_row_size(64), 256);
    assert_eq!(padded_row_size(65), 512);
    assert_eq!(padded_row_size(0), 0);
    assert_eq!(staging_size(1920, 1200), Some(9_216_000));
    assert_eq!(staging_size(100, 3), Some(1536));
    assert_eq!(staging_size(u32::MAX, u32::MAX), None);
    assert_eq!(align_up(0, 256), Some(0));
    assert_eq!(align_up(257, 256), Some(512));
    assert_eq!(align_up(u64::MAX, 256), None);
    assert_eq!(align_up(u64::MAX, 1), Some(u64::MAX));
}

fn texture_and_uniform() -> ShaderInputGroupSchema {
    ShaderInputGroupSchema {
        input_schemas: vec![
            ShaderInputSchema::Texture { width: 4, height: 4 },
            ShaderInputSchema::Uniform { size: 8 },
        ],
        shader_stages: FRAGMENT,
    }
}

#[test]
fn bind_entries_are_positional() {
    let args = vec![ShaderInput::Texture { width: 4, height: 4 }, ShaderInput::Uniform { size: 8 }];
    assert_eq!(
        texture_and_uniform().bind_entries(&args),
        Ok(vec![BindEntry { binding: 0, resource: 0 }, BindEntry { binding: 1, resource: 1 }])
    );
}

#[test]
fn bind_with_wrong_count_is_rejected() {
    let args = vec![ShaderInput::Texture { width: 4, height: 4 }];
    assert_eq!(
        texture_and_uniform().bind_entries(&args),
        Err(BuildError::ArgumentCount { expected: 2, given: 1 })
    );
}

#[test]
fn bind_with_wrong_kind_is_rejected() {
    let args = vec![ShaderInput::Uniform { size: 8 }, ShaderInput::Texture { width: 4, height: 4 }];
    assert_eq!(texture_and_uniform().bind_entries(&args), Err(BuildError::ArgumentKind { binding: 0 }));
    let storage = ShaderInputGroupSchema {
        input_schemas: vec![ShaderInputSchema::Storage {}],
        shader_stages: FRAGMENT,
    };
    assert_eq!(
        storage.bind_entries(&vec![ShaderInput::Uniform { size: 8 }]),
        Err(BuildError::UnsupportedKind { binding: 0 })
    );
}

fn two_group_shader() -> bedrock::schema::PipelineSchema {
    let fields = vec![
        field("a", "A", vec![attr("group", "(vertex)"), attr("uniform", "(size = 16)")]),
        field("b", "B", vec![attr("group", "(fragment)"), attr("texture2d", "(width = 8, height = 8)")]),
        field("o", "O", vec![attr("output", "")]),
        field("o2", "O", vec![attr("output", "")]),
    ];
    parse_shader("shader.wgsl".to_string(), &fields).unwrap().pipeline_schema()
}

#[test]
fn layout_is_built_once() {
    let builds = Cell::new(0u32);
    let mut cache: PipelineCache<Vec<LayoutEntry>, ()> = PipelineCache::new(two_group_shader());
    let first = cache.layout(1, |e| {
        builds.set(builds.get() + 1);
        e
    });
    let second = cache.layout(1, |e| {
        builds.set(builds.get() + 1);
        e
    });
    assert_eq!(first, Ok(0));
    assert_eq!(second, Ok(0));
    assert_eq!(builds.get(), 1);
    assert_eq!(cache.layout_count(), 1);
    assert_eq!(cache.layout_at(0)[0], LayoutEntry { binding: 0, visibility: FRAGMENT, ty: BindingType::Texture });
    assert_eq!(cache.layout_slot(0), None);
    assert_eq!(cache.layout(5, |e| e), Err(BuildError::NoSuchGroup { group: 5 }));
}

#[test]
fn pipeline_layouts_follow_group_order_and_are_built_once() {
    let layout_builds = Cell::new(0u32);
    let pipeline_builds = Cell::new(0u32);
    let mut cache: PipelineCache<Vec<LayoutEntry>, PipelinePlan> = PipelineCache::new(two_group_shader());
    let build_layout = |e: Vec<LayoutEntry>| {
        layout_builds.set(layout_builds.get() + 1);
        e
    };
    let r1 = cache.pipeline(&build_layout, |layouts: &Vec<Vec<LayoutEntry>>, plan: PipelinePlan| {
        pipeline_builds.set(pipeline_builds.get() + 1);
        assert_eq!(layouts[plan.layouts[0]][0].visibility, VERTEX);
        assert_eq!(layouts[plan.layouts[1]][0].visibility, FRAGMENT);
        plan
    });
    assert_eq!(r1, Ok(()));
    let r2 = cache.pipeline(&build_layout, |_: &Vec<Vec<LayoutEntry>>, plan: PipelinePlan| {
        pipeline_builds.set(pipeline_builds.get() + 1);
        plan
    });
    assert_eq!(r2, Ok(()));
    assert_eq!(pipeline_builds.get(), 1);
    assert_eq!(layout_builds.get(), 2);
    let plan = cache.pipeline_handle().unwrap();
    assert_eq!(plan.layouts, vec![0, 1]);
    assert_eq!(plan.source, "shader.wgsl");
    assert_eq!(plan.vertex_entry, "vs_main");
    assert_eq!(plan.fragment_entry.as_deref(), Some("fs_main"));
    assert_eq!(plan.targets, 2);
    assert_eq!(plan.vertex_buffers, 0);
}

#[test]
fn pipeline_reuses_layouts_built_earlier() {
    let mut cache: PipelineCache<u32, Vec<usize>> = PipelineCache::new(two_group_shader());
    assert_eq!(cache.layout(1, |_| 7), Ok(0));
    let r = cache.pipeline(|_| 9, |_: &Vec<u32>, plan: PipelinePlan| plan.layouts);
    assert_eq!(r, Ok(()));
    assert_eq!(cache.pipeline_handle(), Some(&vec![1, 0]));
    assert_eq!(*cache.layout_at(0), 7);
    assert_eq!(*cache.layout_at(1), 9);
}

#[test]
fn pipeline_fails_on_unsupported_group() {
    let schema = bedrock::schema::PipelineSchema {
        source: "s".to_string(),
        vertex_entry: "vs_main".to_string(),
        fragment_entry: None,
        input_group_schemas: vec![ShaderInputGroupSchema {
            input_schemas: vec![ShaderInputSchema::Storage {}],
            shader_stages: FRAGMENT,
        }],
        buffer_layouts: vec![],
        targets: vec![],
    };
    let mut cache: PipelineCache<u32, u32> = PipelineCache::new(schema);
    assert_eq!(
        cache.pipeline(|_| 1, |_: &Vec<u32>, _: PipelinePlan| 2),
        Err(BuildError::UnsupportedKind { binding: 0 })
    );
    assert!(cache.pipeline_handle().is_none());
}

#[test]
fn draw_plan_binds_groups_at_their_indices() {
    let schema = two_group_shader();
    let plan = draw_plan(&schema, 0..6, 0..1, 2, 2).unwrap();
    assert_eq!(plan.vertices, 0..6);
    assert_eq!(plan.instances, 0..1);
    assert_eq!(plan.bind_groups, vec![0, 1]);
    assert_eq!(
        plan.attachments,
        vec![
            ColorAttachment { output: 0, load_existing: true, store_result: true },
            ColorAttachment { output: 1, load_existing: true, store_result: true },
        ]
    );
    assert_eq!(draw_plan(&schema, 0..6, 0..1, 1, 2).unwrap_err(), BuildError::GroupCount { expected: 2, given: 1 });
    assert_eq!(draw_plan(&schema, 0..6, 0..1, 2, 3).unwrap_err(), BuildError::OutputCount { expected: 2, given: 3 });
}

#[test]
fn ping_pong_three_frames() {
    let mut pp = PingPong::new();
    let f1 = pp.next_frame();
    assert_eq!((f1.input, f1.output), (Slot::B, Slot::A));
    let f2 = pp.next_frame();
    assert_eq!((f2.input, f2.output), (Slot::A, Slot::B));
    let f3 = pp.next_frame();
    assert_eq!((f3.input, f3.output), (Slot::B, Slot::A));
    for f in [f1, f2, f3] {
        assert_ne!(f.input, f.output);
    }
    assert_eq!(pp.current().input, Slot::A);
}
