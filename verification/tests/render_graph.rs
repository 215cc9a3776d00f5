use w3drs::exec_validate::{buffer_size_detail, mip_dimensions, validate_exec_v0, RenderGraphValidateError};
use w3drs::render_graph::{
    default_mip_level_count, validate, BlitRegion, Dispatch3D, Pass, RenderGraphDocument, RenderGraphError, Resource,
};
use w3drs::render_graph_exec::{
    blit_copy_region, buffer_decl_size_bytes, readback_layout, buffer_usage, compute_bindings, BlitCopy, ComputeBinding, ComputeBindingKind, compute_read_format_supported, fnv1a64, has_stencil, pass_requests_transparency,
    texture_format, texture_usage, validate_render_graph_exec_v0, host_plan_v0, HostStep, BufferUsages, RenderGraphExecError, TextureFormat,
    TextureUsages,
};

fn compute(id: &str, dispatch: Dispatch3D) -> Pass {
    Pass::Compute {
        id: id.into(),
        shader: "s.wgsl".into(),
        entry_point: "cs_main".into(),
        dispatch,
        texture_reads: vec![],
        storage_writes: vec![],
        storage_buffers: vec![],
        storage_buffers_read: vec![],
        storage_buffers_group1: vec![],
        storage_buffers_read_group1: vec![],
        indirect_dispatch: None,
        ecs_before: Some("physics".into()),
        ecs_after: None,
    }
}

fn doc(resources: Vec<Resource>, passes: Vec<Pass>) -> RenderGraphDocument {
    RenderGraphDocument { schema: "w3drs.render_graph".into(), version: 1, resources, passes }
}

fn texture(id: &str) -> Resource {
    Resource::Texture2d {
        id: id.into(),
        format: "Rgba16Float".into(),
        width: 4,
        height: 4,
        usage: vec!["render_attachment".into()],
        mip_level_count: default_mip_level_count(),
    }
}

fn buffer(id: &str, size: u64) -> Resource {
    Resource::Buffer { id: id.into(), size, usage: vec!["storage".into()] }
}

const ONE: Dispatch3D = Dispatch3D { x: 1, y: 1, z: 1 };

#[test]
fn rejects_wrong_schema() {
    let mut pass = compute("a", ONE);
    if let Pass::Compute { shader, entry_point, ecs_before, .. } = &mut pass {
        *shader = "s.wgsl".into();
        *entry_point = "m".into();
        *ecs_before = None;
    }
    let d = RenderGraphDocument { schema: "other".into(), version: 1, resources: vec![], passes: vec![pass] };
    let err = validate(&d).unwrap_err();
    assert!(matches!(err, RenderGraphError::UnsupportedSchema(_)));
}

#[test]
fn document_rules_in_order() {
    let ok = doc(vec![texture("t"), buffer("b", 16)], vec![compute("c", ONE)]);
    assert!(validate(&ok).is_ok());
    let mut bad = ok.clone();
    bad.schema = "other".into();
    assert!(matches!(validate(&bad), Err(RenderGraphError::UnsupportedSchema(ref s)) if s == "other"));
    let mut bad = ok.clone();
    bad.version = 2;
    assert!(matches!(validate(&bad), Err(RenderGraphError::UnsupportedVersion(2))));
    let bad = doc(vec![texture("t")], vec![]);
    assert!(matches!(validate(&bad), Err(RenderGraphError::EmptyPasses)));
    let bad = doc(vec![texture("t"), buffer("t", 4)], vec![compute("c", ONE)]);
    assert!(matches!(validate(&bad), Err(RenderGraphError::DuplicateResourceId(ref s)) if s == "t"));
    let bad = doc(vec![], vec![compute("c", Dispatch3D { x: 1, y: 0, z: 1 })]);
    assert!(matches!(validate(&bad), Err(RenderGraphError::ZeroDispatch { ref pass_id }) if pass_id == "c"));
    let bad = doc(vec![], vec![compute("c", ONE), compute("c", ONE)]);
    assert!(matches!(validate(&bad), Err(RenderGraphError::DuplicatePassId(ref s)) if s == "c"));
}

#[test]
fn pass_accessors() {
    let p = compute("c", ONE);
    assert_eq!(p.id(), "c");
    assert_eq!(p.ecs_before_label(), Some("physics"));
    assert_eq!(p.ecs_after_label(), None);
    let blank = Pass::Blit {
        id: "b".into(),
        source: "s".into(),
        destination: "d".into(),
        region: None,
        ecs_before: Some("  ".into()),
        ecs_after: Some("".into()),
    };
    assert_eq!(blank.id(), "b");
    assert_eq!(blank.ecs_after_label(), None);
}

#[test]
fn exec_validation_carries_the_validation_error() {
    let d = doc(vec![texture("hdr_color")], vec![compute("c", ONE)]);
    assert!(validate_render_graph_exec_v0(&d, "hdr_color").is_ok());
    let e = validate_render_graph_exec_v0(&d, "nope").unwrap_err();
    assert!(matches!(e, RenderGraphExecError::MissingResource(ref s) if s == "nope"));
}

#[test]
fn buffer_sizes_come_from_the_first_declaration() {
    let d = doc(vec![texture("t"), buffer("b", 16), buffer("b", 32)], vec![compute("c", ONE)]);
    assert_eq!(buffer_decl_size_bytes(&d, "b").ok(), Some(16));
    assert!(matches!(buffer_decl_size_bytes(&d, "t"), Err(RenderGraphExecError::MissingResource(ref s)) if s == "t"));
}

#[test]
fn transparency_is_read_from_the_pass_id() {
    assert!(pass_requests_transparency("main_Transparent"));
    assert!(pass_requests_transparency("ALPHA_blend"));
    assert!(pass_requests_transparency("transparency"));
    assert!(!pass_requests_transparency("opaque"));
    assert!(!pass_requests_transparency("alp ha"));
}

#[test]
fn fnv1a64_reference_values() {
    assert_eq!(fnv1a64(&[]), 0xcbf2_9ce4_8422_2325);
    assert_eq!(fnv1a64(b"a"), 0xaf63_dc4c_8601_ec8c);
    assert_eq!(fnv1a64(b"foobar"), 0x8594_4171_f739_67e8);
}

#[test]
fn mip_dimensions_halve_down_to_one() {
    assert_eq!(mip_dimensions(256, 64, 0), (256, 64));
    assert_eq!(mip_dimensions(256, 64, 3), (32, 8));
    assert_eq!(mip_dimensions(256, 64, 7), (2, 1));
    assert_eq!(mip_dimensions(5, 3, 1), (2, 1));
    assert_eq!(default_mip_level_count(), 1);
}

#[test]
fn depth_mesh_buffer_sizes_are_reported_with_quoted_ids() {
    let d = doc(
        vec![
            Resource::Texture2d {
                id: "shadow".into(),
                format: "Depth32Float".into(),
                width: 4,
                height: 4,
                usage: vec!["render_attachment".into()],
                mip_level_count: 1,
            },
            Resource::Buffer { id: "li\"ght".into(), size: 16, usage: vec!["uniform".into()] },
            Resource::Buffer { id: "inst".into(), size: 64, usage: vec!["storage".into()] },
            texture("hdr_color"),
        ],
        vec![Pass::RasterDepthMesh {
            id: "depth".into(),
            shader: "d.wgsl".into(),
            vertex_entry: "vs".into(),
            depth_target: "shadow".into(),
            light_uniforms_buffer: "li\"ght".into(),
            instance_buffer: "inst".into(),
            ecs_before: None,
            ecs_after: None,
        }],
    );
    let e = validate_exec_v0(&d, "hdr_color").unwrap_err();
    assert_eq!(
        e,
        RenderGraphValidateError::RasterDepthMeshInvalid {
            pass_id: "depth".into(),
            detail: "light_uniforms_buffer \"li\\\"ght\" size 16 < 80 (LightUniforms)".into(),
        }
    );
    assert_eq!(buffer_size_detail("x ", "\"b\"", 7, 64, ""), "x \"b\" size 7 < 64");
}

#[test]
fn usage_flags_map_to_allocation_usages() {
    let f = |v: &[&str]| v.iter().map(|s| s.to_string()).collect::<Vec<String>>();
    assert_eq!(
        buffer_usage(&f(&[])).ok(),
        Some(BufferUsages { storage: true, ..BufferUsages::default() })
    );
    assert_eq!(
        buffer_usage(&f(&["uniform", "copy_dst"])).ok(),
        Some(BufferUsages { uniform: true, copy_dst: true, ..BufferUsages::default() })
    );
    assert!(matches!(
        buffer_usage(&f(&["uniform", "vertex", "bogus"])),
        Err(RenderGraphExecError::UnknownBufferUsage(ref s)) if s == "vertex"
    ));
    assert_eq!(
        texture_usage(&f(&["storage"])).ok(),
        Some(TextureUsages {
            texture_binding: false,
            render_attachment: true,
            storage_binding: true,
            copy_dst: false,
            copy_src: true
        })
    );
    assert!(matches!(
        texture_usage(&f(&["sampled"])),
        Err(RenderGraphExecError::UnknownTextureUsage(ref s)) if s == "sampled"
    ));
}

#[test]
fn texture_formats_by_name() {
    assert_eq!(texture_format("Rgba16Float").ok(), Some(TextureFormat::Rgba16Float));
    assert_eq!(texture_format("Depth24PlusStencil8").ok(), Some(TextureFormat::Depth24PlusStencil8));
    assert!(matches!(texture_format("rgba16float"), Err(RenderGraphExecError::UnknownTextureFormat(ref s)) if s == "rgba16float"));
    assert!(has_stencil(TextureFormat::Depth32FloatStencil8));
    assert!(!has_stencil(TextureFormat::Depth32Float));
    assert!(compute_read_format_supported(TextureFormat::Rgba8Unorm).is_ok());
    assert!(matches!(
        compute_read_format_supported(TextureFormat::Depth32Float),
        Err(RenderGraphExecError::UnsupportedComputeTextureReadFormat(ref s)) if s == "Depth32Float"
    ));
}

#[test]
fn blit_copy_covers_the_source_or_the_clamped_region() {
    assert_eq!(
        blit_copy_region(16, 8, 16, 8, &None),
        BlitCopy { src_mip_level: 0, dst_mip_level: 0, src_x: 0, src_y: 0, dst_x: 0, dst_y: 0, width: 16, height: 8 }
    );
    let reg = BlitRegion {
        src_mip_level: 1,
        dst_mip_level: 0,
        src_origin_x: 2,
        src_origin_y: 1,
        dst_origin_x: 1,
        dst_origin_y: 1,
        width: None,
        height: Some(10),
    };
    assert_eq!(
        blit_copy_region(16, 8, 4, 4, &Some(reg.clone())),
        BlitCopy { src_mip_level: 1, dst_mip_level: 0, src_x: 2, src_y: 1, dst_x: 1, dst_y: 1, width: 3, height: 3 }
    );
    let small = BlitRegion { width: Some(2), height: Some(1), ..reg };
    assert_eq!(blit_copy_region(16, 8, 4, 4, &Some(small)).width, 2);
}

fn compute_with(
    rw: &[&str],
    ro: &[&str],
    writes: &[&str],
    reads: &[&str],
    g1_rw: &[&str],
    g1_ro: &[&str],
) -> Pass {
    let v = |l: &[&str]| l.iter().map(|s| s.to_string()).collect::<Vec<String>>();
    let mut p = compute("p", ONE);
    if let Pass::Compute {
        storage_buffers,
        storage_buffers_read,
        storage_writes,
        texture_reads,
        storage_buffers_group1,
        storage_buffers_read_group1,
        ..
    } = &mut p
    {
        *storage_buffers = v(rw);
        *storage_buffers_read = v(ro);
        *storage_writes = v(writes);
        *texture_reads = v(reads);
        *storage_buffers_group1 = v(g1_rw);
        *storage_buffers_read_group1 = v(g1_ro);
    }
    p
}

fn slot(binding: u32, resource: &str, kind: ComputeBindingKind) -> ComputeBinding {
    ComputeBinding { binding, resource: resource.to_string(), kind }
}

#[test]
fn compute_bindings_number_group_zero_then_group_one() {
    let d = doc(vec![buffer("a", 2), buffer("b", 64), buffer("c", 8), texture("t"), texture("u")], vec![]);
    let p = compute_with(&["a"], &["b"], &["t"], &["u"], &["c"], &[]);
    let b = compute_bindings(&d, &p).unwrap();
    assert_eq!(
        b.group0,
        vec![
            slot(0, "a", ComputeBindingKind::StorageBuffer { read_only: false, min_size: 4 }),
            slot(1, "b", ComputeBindingKind::StorageBuffer { read_only: true, min_size: 64 }),
            slot(2, "t", ComputeBindingKind::StorageTextureWrite),
            slot(3, "u", ComputeBindingKind::SampledTexture),
        ]
    );
    assert_eq!(b.group1, vec![slot(0, "c", ComputeBindingKind::StorageBuffer { read_only: false, min_size: 8 })]);
    let none = compute_bindings(&d, &compute_with(&[], &[], &[], &[], &[], &[])).unwrap();
    assert!(none.group0.is_empty() && none.group1.is_empty());
}

#[test]
fn compute_bindings_refuse_missing_buffers_and_lone_group_one() {
    let d = doc(vec![buffer("a", 16), buffer("c", 16)], vec![]);
    let err = compute_bindings(&d, &compute_with(&[], &[], &[], &[], &["c"], &[])).unwrap_err();
    assert!(matches!(
        err,
        RenderGraphExecError::MissingResource(ref m)
            if m == "compute pass \"p\": bind group 1 buffers require group-0 bindings (validate_exec_v0 should catch this)"
    ));
    let err = compute_bindings(&d, &compute_with(&["a"], &["zz"], &[], &[], &["yy"], &[])).unwrap_err();
    assert!(matches!(err, RenderGraphExecError::MissingResource(ref m) if m == "zz"));
    let err = compute_bindings(&d, &compute_with(&["a"], &[], &[], &[], &["c"], &["yy"])).unwrap_err();
    assert!(matches!(err, RenderGraphExecError::MissingResource(ref m) if m == "yy"));
}

#[test]
fn readback_rows_are_padded_to_the_copy_alignment() {
    assert_eq!(readback_layout(4, 4), (256, 1024));
    assert_eq!(readback_layout(32, 2), (256, 512));
    assert_eq!(readback_layout(33, 3), (512, 1536));
    assert_eq!(readback_layout(0, 7), (0, 0));
}

#[test]
fn host_plan_wraps_each_pass_in_its_ecs_nodes() {
    let d = doc(
        vec![],
        vec![
            Pass::Blit {
                id: "b".into(),
                source: "s".into(),
                destination: "d".into(),
                region: None,
                ecs_before: Some("physics".into()),
                ecs_after: Some("".into()),
            },
            Pass::RasterDepthMesh {
                id: "depth".into(),
                shader: "d.wgsl".into(),
                vertex_entry: "vs".into(),
                depth_target: "shadow".into(),
                light_uniforms_buffer: "l".into(),
                instance_buffer: "i".into(),
                ecs_before: None,
                ecs_after: Some("cull".into()),
            },
        ],
    );
    assert_eq!(
        host_plan_v0(&d),
        vec![
            HostStep::EcsNode("physics".into()),
            HostStep::EncodePass(0),
            HostStep::EncodePass(1),
            HostStep::DrawDepthMesh(1),
            HostStep::EcsNode("cull".into()),
        ]
    );
    assert_eq!(host_plan_v0(&doc(vec![], vec![])), vec![]);
}
