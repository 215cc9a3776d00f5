use w3drs::exec_validate::{pass_ids_in_order_v0, validate_exec_v0, RenderGraphValidateError};
use w3drs::render_graph::{Dispatch3D, Pass, RenderGraphDocument, Resource};

fn doc_minimal_tex(
    format: &str,
    tex_usage: Vec<String>,
    buf_usage: Vec<String>,
) -> RenderGraphDocument {
    RenderGraphDocument {
        schema: "w3drs.render_graph".into(),
        version: 1,
        resources: vec![
            Resource::Texture2d {
                id: "hdr_color".into(),
                format: format.into(),
                width: 4,
                height: 4,
                usage: tex_usage,
                mip_level_count: 1,
            },
            Resource::Buffer {
                id: "b".into(),
                size: 16,
                usage: buf_usage,
            },
        ],
        passes: vec![
            Pass::Compute {
                ecs_before: None,
                ecs_after: None,
                id: "c".into(),
                shader: "shaders/x.wgsl".into(),
                entry_point: "cs_main".into(),
                dispatch: Dispatch3D { x: 1, y: 1, z: 1 },
                texture_reads: vec![],
                storage_writes: vec![],
                storage_buffers: vec![],
                storage_buffers_read: vec![],
                storage_buffers_group1: vec![],
                storage_buffers_read_group1: vec![],
                indirect_dispatch: None,
            },
            Pass::RasterMesh {
                ecs_before: None,
                ecs_after: None,
                id: "r".into(),
                shader: "shaders/y.wgsl".into(),
                vertex_entry: "vs_main".into(),
                fragment_entry: "fs_main".into(),
                color_targets: vec!["hdr_color".into()],
                depth_target: None,
            },
        ],
    }
}

#[test]
fn validate_rejects_unknown_texture_format() {
    let doc = doc_minimal_tex("Bc1RgbaUnorm", vec![], vec!["storage".into()]);
    let e = validate_exec_v0(&doc, "hdr_color").unwrap_err();
    assert!(matches!(
        e,
        RenderGraphValidateError::UnknownTextureFormat(ref s) if s == "Bc1RgbaUnorm"
    ));
}

#[test]
fn validate_rejects_unknown_texture_usage_flag() {
    let doc = doc_minimal_tex(
        "Rgba16Float",
        vec!["not_a_real_usage".into()],
        vec!["storage".into()],
    );
    let e = validate_exec_v0(&doc, "hdr_color").unwrap_err();
    assert!(matches!(
        e,
        RenderGraphValidateError::UnknownTextureUsage(ref s) if s == "not_a_real_usage"
    ));
}

#[test]
fn validate_rejects_unknown_buffer_usage_flag() {
    let doc = doc_minimal_tex(
        "Rgba16Float",
        vec!["render_attachment".into()],
        vec!["bad_buf_usage".into()],
    );
    let e = validate_exec_v0(&doc, "hdr_color").unwrap_err();
    assert!(matches!(
        e,
        RenderGraphValidateError::UnknownBufferUsage(ref s) if s == "bad_buf_usage"
    ));
}

#[test]
fn validate_rejects_readback_when_tex_is_rgba8_unorm() {
    let doc = doc_minimal_tex(
        "Rgba8Unorm",
        vec!["render_attachment".into()],
        vec!["storage".into()],
    );
    let e = validate_exec_v0(&doc, "hdr_color").unwrap_err();
    assert!(matches!(
        e,
        RenderGraphValidateError::InvalidReadbackFormat { ref id, ref got }
            if id == "hdr_color" && got == "Rgba8Unorm"
    ));
}

#[test]
fn validate_rejects_missing_readback() {
    let doc = doc_minimal_tex("Rgba16Float", vec![], vec!["storage".into()]);
    let e = validate_exec_v0(&doc, "nope").unwrap_err();
    assert!(matches!(
        e,
        RenderGraphValidateError::MissingResource(ref s) if s == "nope"
    ));
}

#[test]
fn validate_rejects_empty_color_targets() {
    let doc = RenderGraphDocument {
        schema: "w3drs.render_graph".into(),
        version: 1,
        resources: vec![Resource::Texture2d {
            id: "hdr_color".into(),
            format: "Rgba16Float".into(),
            width: 4,
            height: 4,
            usage: vec!["render_attachment".into()],
            mip_level_count: 1,
        }],
        passes: vec![Pass::RasterMesh {
            ecs_before: None,
            ecs_after: None,
            id: "r".into(),
            shader: "s.wgsl".into(),
            vertex_entry: "vs_main".into(),
            fragment_entry: "fs_main".into(),
            color_targets: vec![],
            depth_target: None,
        }],
    };
    let e = validate_exec_v0(&doc, "hdr_color").unwrap_err();
    assert!(matches!(
        e,
        RenderGraphValidateError::EmptyColorTargets(ref s) if s == "r"
    ));
}

#[test]
fn validate_rejects_raster_color_target_unknown() {
    let doc = RenderGraphDocument {
        schema: "w3drs.render_graph".into(),
        version: 1,
        resources: vec![Resource::Texture2d {
            id: "hdr_color".into(),
            format: "Rgba16Float".into(),
            width: 4,
            height: 4,
            usage: vec!["render_attachment".into()],
            mip_level_count: 1,
        }],
        passes: vec![Pass::RasterMesh {
            ecs_before: None,
            ecs_after: None,
            id: "r".into(),
            shader: "s.wgsl".into(),
            vertex_entry: "vs_main".into(),
            fragment_entry: "fs_main".into(),
            color_targets: vec!["other_tex".into()],
            depth_target: None,
        }],
    };
    let e = validate_exec_v0(&doc, "hdr_color").unwrap_err();
    assert!(matches!(
        e,
        RenderGraphValidateError::MissingResource(ref s) if s == "other_tex"
    ));
}

#[test]
fn validate_accepts_fixture_shape() {
    let doc = doc_minimal_tex(
        "Rgba16Float",
        vec!["texture_binding".into(), "render_attachment".into()],
        vec!["storage".into(), "copy_dst".into()],
    );
    validate_exec_v0(&doc, "hdr_color").unwrap();
}

#[test]
fn validate_rejects_raster_without_render_attachment_usage() {
    let doc = doc_minimal_tex(
        "Rgba16Float",
        vec!["texture_binding".into()],
        vec!["storage".into()],
    );
    let e = validate_exec_v0(&doc, "hdr_color").unwrap_err();
    assert!(matches!(
        e,
        RenderGraphValidateError::TextureSemanticUsageMissing {
            ref missing,
            ..
        } if missing == "render_attachment"
    ));
}

#[test]
fn validate_rejects_duplicate_raster_color_targets() {
    let doc = RenderGraphDocument {
        schema: "w3drs.render_graph".into(),
        version: 1,
        resources: vec![Resource::Texture2d {
            id: "hdr_color".into(),
            format: "Rgba16Float".into(),
            width: 4,
            height: 4,
            usage: vec!["render_attachment".into()],
            mip_level_count: 1,
        }],
        passes: vec![Pass::RasterMesh {
            ecs_before: None,
            ecs_after: None,
            id: "r".into(),
            shader: "s.wgsl".into(),
            vertex_entry: "vs_main".into(),
            fragment_entry: "fs_main".into(),
            color_targets: vec!["hdr_color".into(), "hdr_color".into()],
            depth_target: None,
        }],
    };
    let e = validate_exec_v0(&doc, "hdr_color").unwrap_err();
    assert!(matches!(
        e,
        RenderGraphValidateError::DuplicateRasterColorTarget { .. }
    ));
}

#[test]
fn validate_rejects_depth_target_non_depth_format() {
    let doc = RenderGraphDocument {
        schema: "w3drs.render_graph".into(),
        version: 1,
        resources: vec![Resource::Texture2d {
            id: "hdr_color".into(),
            format: "Rgba16Float".into(),
            width: 4,
            height: 4,
            usage: vec!["render_attachment".into()],
            mip_level_count: 1,
        }],
        passes: vec![Pass::RasterMesh {
            ecs_before: None,
            ecs_after: None,
            id: "r".into(),
            shader: "s.wgsl".into(),
            vertex_entry: "vs_main".into(),
            fragment_entry: "fs_main".into(),
            color_targets: vec!["hdr_color".into()],
            depth_target: Some("hdr_color".into()),
        }],
    };
    let e = validate_exec_v0(&doc, "hdr_color").unwrap_err();
    assert!(matches!(
        e,
        RenderGraphValidateError::InvalidDepthTargetFormat { .. }
    ));
}

#[test]
fn validate_rejects_compute_storage_write_without_storage_usage() {
    let doc = RenderGraphDocument {
        schema: "w3drs.render_graph".into(),
        version: 1,
        resources: vec![
            Resource::Texture2d {
                id: "hdr_color".into(),
                format: "Rgba16Float".into(),
                width: 4,
                height: 4,
                usage: vec!["render_attachment".into(), "texture_binding".into()],
                mip_level_count: 1,
            },
            Resource::Texture2d {
                id: "work".into(),
                format: "Rgba16Float".into(),
                width: 4,
                height: 4,
                usage: vec!["texture_binding".into()],
                mip_level_count: 1,
            },
        ],
        passes: vec![
            Pass::Compute {
                ecs_before: None,
                ecs_after: None,
                id: "c".into(),
                shader: "x.wgsl".into(),
                entry_point: "m".into(),
                dispatch: Dispatch3D { x: 1, y: 1, z: 1 },
                texture_reads: vec![],
                storage_writes: vec!["work".into()],
                storage_buffers: vec![],
                storage_buffers_read: vec![],
                storage_buffers_group1: vec![],
                storage_buffers_read_group1: vec![],
                indirect_dispatch: None,
            },
            Pass::RasterMesh {
                ecs_before: None,
                ecs_after: None,
                id: "r".into(),
                shader: "y.wgsl".into(),
                vertex_entry: "vs_main".into(),
                fragment_entry: "fs_main".into(),
                color_targets: vec!["hdr_color".into()],
                depth_target: None,
            },
        ],
    };
    let e = validate_exec_v0(&doc, "hdr_color").unwrap_err();
    assert!(matches!(
        e,
        RenderGraphValidateError::TextureSemanticUsageMissing {
            ref missing,
            ..
        } if missing == "storage"
    ));
}

#[test]
fn pass_ids_in_order_matches_document() {
    let doc = doc_minimal_tex(
        "Rgba16Float",
        vec!["render_attachment".into()],
        vec!["storage".into()],
    );
    assert_eq!(pass_ids_in_order_v0(&doc), vec!["c", "r"]);
}

#[test]
fn validate_rejects_compute_storage_buffer_without_storage_usage() {
    let doc = RenderGraphDocument {
        schema: "w3drs.render_graph".into(),
        version: 1,
        resources: vec![
            Resource::Texture2d {
                id: "hdr_color".into(),
                format: "Rgba16Float".into(),
                width: 4,
                height: 4,
                usage: vec!["render_attachment".into()],
                mip_level_count: 1,
            },
            Resource::Buffer {
                id: "indirect_args".into(),
                size: 64,
                usage: vec!["copy_dst".into()],
            },
        ],
        passes: vec![
            Pass::Compute {
                ecs_before: None,
                ecs_after: None,
                id: "c".into(),
                shader: "x.wgsl".into(),
                entry_point: "m".into(),
                dispatch: Dispatch3D { x: 1, y: 1, z: 1 },
                texture_reads: vec![],
                storage_writes: vec![],
                storage_buffers: vec!["indirect_args".into()],
                storage_buffers_read: vec![],
                storage_buffers_group1: vec![],
                storage_buffers_read_group1: vec![],
                indirect_dispatch: None,
            },
            Pass::RasterMesh {
                ecs_before: None,
                ecs_after: None,
                id: "r".into(),
                shader: "y.wgsl".into(),
                vertex_entry: "vs_main".into(),
                fragment_entry: "fs_main".into(),
                color_targets: vec!["hdr_color".into()],
                depth_target: None,
            },
        ],
    };
    let e = validate_exec_v0(&doc, "hdr_color").unwrap_err();
    assert!(matches!(
        e,
        RenderGraphValidateError::BufferSemanticUsageMissing {
            ref missing,
            ..
        } if missing == "storage"
    ));
}

#[test]
fn validate_rejects_duplicate_compute_storage_buffers() {
    let doc = RenderGraphDocument {
        schema: "w3drs.render_graph".into(),
        version: 1,
        resources: vec![
            Resource::Texture2d {
                id: "hdr_color".into(),
                format: "Rgba16Float".into(),
                width: 4,
                height: 4,
                usage: vec!["render_attachment".into()],
                mip_level_count: 1,
            },
            Resource::Buffer {
                id: "indirect_args".into(),
                size: 64,
                usage: vec!["storage".into()],
            },
        ],
        passes: vec![
            Pass::Compute {
                ecs_before: None,
                ecs_after: None,
                id: "c".into(),
                shader: "x.wgsl".into(),
                entry_point: "m".into(),
                dispatch: Dispatch3D { x: 1, y: 1, z: 1 },
                texture_reads: vec![],
                storage_writes: vec![],
                storage_buffers: vec!["indirect_args".into(), "indirect_args".into()],
                storage_buffers_read: vec![],
                storage_buffers_group1: vec![],
                storage_buffers_read_group1: vec![],
                indirect_dispatch: None,
            },
            Pass::RasterMesh {
                ecs_before: None,
                ecs_after: None,
                id: "r".into(),
                shader: "y.wgsl".into(),
                vertex_entry: "vs_main".into(),
                fragment_entry: "fs_main".into(),
                color_targets: vec!["hdr_color".into()],
                depth_target: None,
            },
        ],
    };
    let e = validate_exec_v0(&doc, "hdr_color").unwrap_err();
    assert!(matches!(
        e,
        RenderGraphValidateError::DuplicateComputeStorageBuffer { .. }
    ));
}

#[test]
fn validate_rejects_duplicate_compute_storage_writes() {
    let doc = RenderGraphDocument {
        schema: "w3drs.render_graph".into(),
        version: 1,
        resources: vec![
            Resource::Texture2d {
                id: "hdr_color".into(),
                format: "Rgba16Float".into(),
                width: 4,
                height: 4,
                usage: vec!["render_attachment".into()],
                mip_level_count: 1,
            },
            Resource::Texture2d {
                id: "ping".into(),
                format: "Rgba16Float".into(),
                width: 4,
                height: 4,
                usage: vec!["storage".into()],
                mip_level_count: 1,
            },
        ],
        passes: vec![
            Pass::Compute {
                ecs_before: None,
                ecs_after: None,
                id: "c".into(),
                shader: "x.wgsl".into(),
                entry_point: "m".into(),
                dispatch: Dispatch3D { x: 1, y: 1, z: 1 },
                texture_reads: vec![],
                storage_writes: vec!["ping".into(), "ping".into()],
                storage_buffers: vec![],
                storage_buffers_read: vec![],
                storage_buffers_group1: vec![],
                storage_buffers_read_group1: vec![],
                indirect_dispatch: None,
            },
            Pass::RasterMesh {
                ecs_before: None,
                ecs_after: None,
                id: "r".into(),
                shader: "y.wgsl".into(),
                vertex_entry: "vs_main".into(),
                fragment_entry: "fs_main".into(),
                color_targets: vec!["hdr_color".into()],
                depth_target: None,
            },
        ],
    };
    let e = validate_exec_v0(&doc, "hdr_color").unwrap_err();
    assert!(matches!(
        e,
        RenderGraphValidateError::DuplicateComputeStorageTexture { .. }
    ));
}

#[test]
fn validate_rejects_duplicate_compute_texture_reads() {
    let doc = RenderGraphDocument {
        schema: "w3drs.render_graph".into(),
        version: 1,
        resources: vec![
            Resource::Texture2d {
                id: "hdr_color".into(),
                format: "Rgba16Float".into(),
                width: 4,
                height: 4,
                usage: vec!["render_attachment".into(), "texture_binding".into()],
                mip_level_count: 1,
            },
            Resource::Texture2d {
                id: "ping".into(),
                format: "Rgba16Float".into(),
                width: 4,
                height: 4,
                usage: vec!["storage".into()],
                mip_level_count: 1,
            },
        ],
        passes: vec![
            Pass::Compute {
                ecs_before: None,
                ecs_after: None,
                id: "c".into(),
                shader: "x.wgsl".into(),
                entry_point: "m".into(),
                dispatch: Dispatch3D { x: 1, y: 1, z: 1 },
                texture_reads: vec!["hdr_color".into(), "hdr_color".into()],
                storage_writes: vec!["ping".into()],
                storage_buffers: vec![],
                storage_buffers_read: vec![],
                storage_buffers_group1: vec![],
                storage_buffers_read_group1: vec![],
                indirect_dispatch: None,
            },
            Pass::RasterMesh {
                ecs_before: None,
                ecs_after: None,
                id: "r".into(),
                shader: "y.wgsl".into(),
                vertex_entry: "vs_main".into(),
                fragment_entry: "fs_main".into(),
                color_targets: vec!["hdr_color".into()],
                depth_target: None,
            },
        ],
    };
    let e = validate_exec_v0(&doc, "hdr_color").unwrap_err();
    assert!(matches!(
        e,
        RenderGraphValidateError::DuplicateComputeReadTexture { .. }
    ));
}

#[test]
fn validate_rejects_compute_same_texture_read_and_storage_write() {
    let doc = RenderGraphDocument {
        schema: "w3drs.render_graph".into(),
        version: 1,
        resources: vec![
            Resource::Texture2d {
                id: "hdr_color".into(),
                format: "Rgba16Float".into(),
                width: 4,
                height: 4,
                usage: vec!["render_attachment".into(), "texture_binding".into()],
                mip_level_count: 1,
            },
            Resource::Texture2d {
                id: "ping".into(),
                format: "Rgba16Float".into(),
                width: 4,
                height: 4,
                usage: vec!["storage".into(), "texture_binding".into()],
                mip_level_count: 1,
            },
        ],
        passes: vec![
            Pass::Compute {
                ecs_before: None,
                ecs_after: None,
                id: "c".into(),
                shader: "x.wgsl".into(),
                entry_point: "m".into(),
                dispatch: Dispatch3D { x: 1, y: 1, z: 1 },
                texture_reads: vec!["ping".into()],
                storage_writes: vec!["ping".into()],
                storage_buffers: vec![],
                storage_buffers_read: vec![],
                storage_buffers_group1: vec![],
                storage_buffers_read_group1: vec![],
                indirect_dispatch: None,
            },
            Pass::RasterMesh {
                ecs_before: None,
                ecs_after: None,
                id: "r".into(),
                shader: "y.wgsl".into(),
                vertex_entry: "vs_main".into(),
                fragment_entry: "fs_main".into(),
                color_targets: vec!["hdr_color".into()],
                depth_target: None,
            },
        ],
    };
    let e = validate_exec_v0(&doc, "hdr_color").unwrap_err();
    assert!(matches!(
        e,
        RenderGraphValidateError::ComputeTextureReadWriteConflict { .. }
    ));
}

#[test]
fn validate_rejects_compute_texture_read_depth_format() {
    let doc = RenderGraphDocument {
        schema: "w3drs.render_graph".into(),
        version: 1,
        resources: vec![
            Resource::Texture2d {
                id: "hdr_color".into(),
                format: "Rgba16Float".into(),
                width: 4,
                height: 4,
                usage: vec!["render_attachment".into()],
                mip_level_count: 1,
            },
            Resource::Texture2d {
                id: "scene_depth".into(),
                format: "Depth32Float".into(),
                width: 4,
                height: 4,
                usage: vec!["render_attachment".into(), "texture_binding".into()],
                mip_level_count: 1,
            },
            Resource::Texture2d {
                id: "ping".into(),
                format: "Rgba16Float".into(),
                width: 4,
                height: 4,
                usage: vec!["storage".into()],
                mip_level_count: 1,
            },
        ],
        passes: vec![
            Pass::Compute {
                ecs_before: None,
                ecs_after: None,
                id: "c".into(),
                shader: "x.wgsl".into(),
                entry_point: "m".into(),
                dispatch: Dispatch3D { x: 1, y: 1, z: 1 },
                texture_reads: vec!["scene_depth".into()],
                storage_writes: vec!["ping".into()],
                storage_buffers: vec![],
                storage_buffers_read: vec![],
                storage_buffers_group1: vec![],
                storage_buffers_read_group1: vec![],
                indirect_dispatch: None,
            },
            Pass::RasterMesh {
                ecs_before: None,
                ecs_after: None,
                id: "r".into(),
                shader: "y.wgsl".into(),
                vertex_entry: "vs_main".into(),
                fragment_entry: "fs_main".into(),
                color_targets: vec!["hdr_color".into()],
                depth_target: None,
            },
        ],
    };
    let e = validate_exec_v0(&doc, "hdr_color").unwrap_err();
    assert!(matches!(
        e,
        RenderGraphValidateError::InvalidComputeTextureReadFormat { .. }
    ));
}

#[test]
fn validate_rejects_duplicate_compute_storage_buffers_read() {
    let doc = RenderGraphDocument {
        schema: "w3drs.render_graph".into(),
        version: 1,
        resources: vec![
            Resource::Texture2d {
                id: "hdr_color".into(),
                format: "Rgba16Float".into(),
                width: 4,
                height: 4,
                usage: vec!["render_attachment".into()],
                mip_level_count: 1,
            },
            Resource::Buffer {
                id: "ro_a".into(),
                size: 64,
                usage: vec!["storage".into()],
            },
        ],
        passes: vec![
            Pass::Compute {
                ecs_before: None,
                ecs_after: None,
                id: "c".into(),
                shader: "x.wgsl".into(),
                entry_point: "m".into(),
                dispatch: Dispatch3D { x: 1, y: 1, z: 1 },
                texture_reads: vec![],
                storage_writes: vec![],
                storage_buffers: vec![],
                storage_buffers_read: vec!["ro_a".into(), "ro_a".into()],
                storage_buffers_group1: vec![],
                storage_buffers_read_group1: vec![],
                indirect_dispatch: None,
            },
            Pass::RasterMesh {
                ecs_before: None,
                ecs_after: None,
                id: "r".into(),
                shader: "y.wgsl".into(),
                vertex_entry: "vs_main".into(),
                fragment_entry: "fs_main".into(),
                color_targets: vec!["hdr_color".into()],
                depth_target: None,
            },
        ],
    };
    let e = validate_exec_v0(&doc, "hdr_color").unwrap_err();
    assert!(matches!(
        e,
        RenderGraphValidateError::DuplicateComputeStorageBufferRead { .. }
    ));
}

#[test]
fn validate_rejects_compute_same_buffer_rw_and_ro_lists() {
    let doc = RenderGraphDocument {
        schema: "w3drs.render_graph".into(),
        version: 1,
        resources: vec![
            Resource::Texture2d {
                id: "hdr_color".into(),
                format: "Rgba16Float".into(),
                width: 4,
                height: 4,
                usage: vec!["render_attachment".into()],
                mip_level_count: 1,
            },
            Resource::Buffer {
                id: "b".into(),
                size: 64,
                usage: vec!["storage".into()],
            },
        ],
        passes: vec![
            Pass::Compute {
                ecs_before: None,
                ecs_after: None,
                id: "c".into(),
                shader: "x.wgsl".into(),
                entry_point: "m".into(),
                dispatch: Dispatch3D { x: 1, y: 1, z: 1 },
                texture_reads: vec![],
                storage_writes: vec![],
                storage_buffers: vec!["b".into()],
                storage_buffers_read: vec!["b".into()],
                storage_buffers_group1: vec![],
                storage_buffers_read_group1: vec![],
                indirect_dispatch: None,
            },
            Pass::RasterMesh {
                ecs_before: None,
                ecs_after: None,
                id: "r".into(),
                shader: "y.wgsl".into(),
                vertex_entry: "vs_main".into(),
                fragment_entry: "fs_main".into(),
                color_targets: vec!["hdr_color".into()],
                depth_target: None,
            },
        ],
    };
    let e = validate_exec_v0(&doc, "hdr_color").unwrap_err();
    assert!(matches!(
        e,
        RenderGraphValidateError::ComputeStorageBufferRwRoConflict { .. }
    ));
}

#[test]
fn validate_rejects_compute_group1_without_group0() {
    let doc = RenderGraphDocument {
        schema: "w3drs.render_graph".into(),
        version: 1,
        resources: vec![
            Resource::Texture2d {
                id: "hdr_color".into(),
                format: "Rgba16Float".into(),
                width: 4,
                height: 4,
                usage: vec!["render_attachment".into()],
                mip_level_count: 1,
            },
            Resource::Buffer {
                id: "g1_only".into(),
                size: 16,
                usage: vec!["storage".into()],
            },
        ],
        passes: vec![
            Pass::Compute {
                ecs_before: None,
                ecs_after: None,
                id: "c".into(),
                shader: "x.wgsl".into(),
                entry_point: "m".into(),
                dispatch: Dispatch3D { x: 1, y: 1, z: 1 },
                texture_reads: vec![],
                storage_writes: vec![],
                storage_buffers: vec![],
                storage_buffers_read: vec![],
                storage_buffers_group1: vec!["g1_only".into()],
                storage_buffers_read_group1: vec![],
                indirect_dispatch: None,
            },
            Pass::RasterMesh {
                ecs_before: None,
                ecs_after: None,
                id: "r".into(),
                shader: "y.wgsl".into(),
                vertex_entry: "vs_main".into(),
                fragment_entry: "fs_main".into(),
                color_targets: vec!["hdr_color".into()],
                depth_target: None,
            },
        ],
    };
    let e = validate_exec_v0(&doc, "hdr_color").unwrap_err();
    assert!(matches!(
        e,
        RenderGraphValidateError::ComputeGroup1RequiresGroup0 { .. }
    ));
}

#[test]
fn validate_rejects_duplicate_compute_storage_buffers_group1() {
    let doc = RenderGraphDocument {
        schema: "w3drs.render_graph".into(),
        version: 1,
        resources: vec![
            Resource::Texture2d {
                id: "hdr_color".into(),
                format: "Rgba16Float".into(),
                width: 4,
                height: 4,
                usage: vec!["render_attachment".into(), "texture_binding".into()],
                mip_level_count: 1,
            },
            Resource::Texture2d {
                id: "ping".into(),
                format: "Rgba16Float".into(),
                width: 4,
                height: 4,
                usage: vec!["storage".into()],
                mip_level_count: 1,
            },
            Resource::Buffer {
                id: "g1b".into(),
                size: 16,
                usage: vec!["storage".into()],
            },
        ],
        passes: vec![
            Pass::Compute {
                ecs_before: None,
                ecs_after: None,
                id: "c".into(),
                shader: "x.wgsl".into(),
                entry_point: "m".into(),
                dispatch: Dispatch3D { x: 1, y: 1, z: 1 },
                texture_reads: vec![],
                storage_writes: vec!["ping".into()],
                storage_buffers: vec![],
                storage_buffers_read: vec![],
                storage_buffers_group1: vec!["g1b".into(), "g1b".into()],
                storage_buffers_read_group1: vec![],
                indirect_dispatch: None,
            },
            Pass::RasterMesh {
                ecs_before: None,
                ecs_after: None,
                id: "r".into(),
                shader: "y.wgsl".into(),
                vertex_entry: "vs_main".into(),
                fragment_entry: "fs_main".into(),
                color_targets: vec!["hdr_color".into()],
                depth_target: None,
            },
        ],
    };
    let e = validate_exec_v0(&doc, "hdr_color").unwrap_err();
    assert!(matches!(
        e,
        RenderGraphValidateError::DuplicateComputeStorageBufferGroup1 { .. }
    ));
}

#[test]
fn validate_rejects_compute_buffer_in_group0_and_group1() {
    let doc = RenderGraphDocument {
        schema: "w3drs.render_graph".into(),
        version: 1,
        resources: vec![
            Resource::Texture2d {
                id: "hdr_color".into(),
                format: "Rgba16Float".into(),
                width: 4,
                height: 4,
                usage: vec!["render_attachment".into()],
                mip_level_count: 1,
            },
            Resource::Buffer {
                id: "shared".into(),
                size: 64,
                usage: vec!["storage".into()],
            },
        ],
        passes: vec![
            Pass::Compute {
                ecs_before: None,
                ecs_after: None,
                id: "c".into(),
                shader: "x.wgsl".into(),
                entry_point: "m".into(),
                dispatch: Dispatch3D { x: 1, y: 1, z: 1 },
                texture_reads: vec![],
                storage_writes: vec![],
                storage_buffers: vec!["shared".into()],
                storage_buffers_read: vec![],
                storage_buffers_group1: vec!["shared".into()],
                storage_buffers_read_group1: vec![],
                indirect_dispatch: None,
            },
            Pass::RasterMesh {
                ecs_before: None,
                ecs_after: None,
                id: "r".into(),
                shader: "y.wgsl".into(),
                vertex_entry: "vs_main".into(),
                fragment_entry: "fs_main".into(),
                color_targets: vec!["hdr_color".into()],
                depth_target: None,
            },
        ],
    };
    let e = validate_exec_v0(&doc, "hdr_color").unwrap_err();
    assert!(matches!(
        e,
        RenderGraphValidateError::ComputeBufferSharedAcrossBindGroups { .. }
    ));
}

#[test]
fn validate_accepts_compute_group1_with_group0() {
    let doc = RenderGraphDocument {
        schema: "w3drs.render_graph".into(),
        version: 1,
        resources: vec![
            Resource::Texture2d {
                id: "hdr_color".into(),
                format: "Rgba16Float".into(),
                width: 4,
                height: 4,
                usage: vec!["render_attachment".into(), "texture_binding".into()],
                mip_level_count: 1,
            },
            Resource::Texture2d {
                id: "ping".into(),
                format: "Rgba16Float".into(),
                width: 4,
                height: 4,
                usage: vec!["storage".into()],
                mip_level_count: 1,
            },
            Resource::Buffer {
                id: "g1b".into(),
                size: 16,
                usage: vec!["storage".into()],
            },
        ],
        passes: vec![
            Pass::Compute {
                ecs_before: None,
                ecs_after: None,
                id: "c".into(),
                shader: "x.wgsl".into(),
                entry_point: "m".into(),
                dispatch: Dispatch3D { x: 1, y: 1, z: 1 },
                texture_reads: vec![],
                storage_writes: vec!["ping".into()],
                storage_buffers: vec![],
                storage_buffers_read: vec![],
                storage_buffers_group1: vec!["g1b".into()],
                storage_buffers_read_group1: vec![],
                indirect_dispatch: None,
            },
            Pass::RasterMesh {
                ecs_before: None,
                ecs_after: None,
                id: "r".into(),
                shader: "y.wgsl".into(),
                vertex_entry: "vs_main".into(),
                fragment_entry: "fs_main".into(),
                color_targets: vec!["hdr_color".into()],
                depth_target: None,
            },
        ],
    };
    validate_exec_v0(&doc, "hdr_color").unwrap();
}

#[test]
fn validate_rejects_compute_read_group1_without_group0() {
    let doc = RenderGraphDocument {
        schema: "w3drs.render_graph".into(),
        version: 1,
        resources: vec![
            Resource::Texture2d {
                id: "hdr_color".into(),
                format: "Rgba16Float".into(),
                width: 4,
                height: 4,
                usage: vec!["render_attachment".into()],
                mip_level_count: 1,
            },
            Resource::Buffer {
                id: "g1_ro_only".into(),
                size: 16,
                usage: vec!["storage".into()],
            },
        ],
        passes: vec![
            Pass::Compute {
                ecs_before: None,
                ecs_after: None,
                id: "c".into(),
                shader: "x.wgsl".into(),
                entry_point: "m".into(),
                dispatch: Dispatch3D { x: 1, y: 1, z: 1 },
                texture_reads: vec![],
                storage_writes: vec![],
                storage_buffers: vec![],
                storage_buffers_read: vec![],
                storage_buffers_group1: vec![],
                storage_buffers_read_group1: vec!["g1_ro_only".into()],
                indirect_dispatch: None,
            },
            Pass::RasterMesh {
                ecs_before: None,
                ecs_after: None,
                id: "r".into(),
                shader: "y.wgsl".into(),
                vertex_entry: "vs_main".into(),
                fragment_entry: "fs_main".into(),
                color_targets: vec!["hdr_color".into()],
                depth_target: None,
            },
        ],
    };
    let e = validate_exec_v0(&doc, "hdr_color").unwrap_err();
    assert!(matches!(
        e,
        RenderGraphValidateError::ComputeGroup1RequiresGroup0 { .. }
    ));
}

#[test]
fn validate_rejects_duplicate_compute_storage_buffers_read_group1() {
    let doc = RenderGraphDocument {
        schema: "w3drs.render_graph".into(),
        version: 1,
        resources: vec![
            Resource::Texture2d {
                id: "hdr_color".into(),
                format: "Rgba16Float".into(),
                width: 4,
                height: 4,
                usage: vec!["render_attachment".into(), "texture_binding".into()],
                mip_level_count: 1,
            },
            Resource::Texture2d {
                id: "ping".into(),
                format: "Rgba16Float".into(),
                width: 4,
                height: 4,
                usage: vec!["storage".into()],
                mip_level_count: 1,
            },
            Resource::Buffer {
                id: "g1r".into(),
                size: 16,
                usage: vec!["storage".into()],
            },
        ],
        passes: vec![
            Pass::Compute {
                ecs_before: None,
                ecs_after: None,
                id: "c".into(),
                shader: "x.wgsl".into(),
                entry_point: "m".into(),
                dispatch: Dispatch3D { x: 1, y: 1, z: 1 },
                texture_reads: vec![],
                storage_writes: vec!["ping".into()],
                storage_buffers: vec![],
                storage_buffers_read: vec![],
                storage_buffers_group1: vec![],
                storage_buffers_read_group1: vec!["g1r".into(), "g1r".into()],
                indirect_dispatch: None,
            },
            Pass::RasterMesh {
                ecs_before: None,
                ecs_after: None,
                id: "r".into(),
                shader: "y.wgsl".into(),
                vertex_entry: "vs_main".into(),
                fragment_entry: "fs_main".into(),
                color_targets: vec!["hdr_color".into()],
                depth_target: None,
            },
        ],
    };
    let e = validate_exec_v0(&doc, "hdr_color").unwrap_err();
    assert!(matches!(
        e,
        RenderGraphValidateError::DuplicateComputeStorageBufferReadGroup1 { .. }
    ));
}

#[test]
fn validate_rejects_compute_group1_same_buffer_rw_and_ro() {
    let doc = RenderGraphDocument {
        schema: "w3drs.render_graph".into(),
        version: 1,
        resources: vec![
            Resource::Texture2d {
                id: "hdr_color".into(),
                format: "Rgba16Float".into(),
                width: 4,
                height: 4,
                usage: vec!["render_attachment".into(), "texture_binding".into()],
                mip_level_count: 1,
            },
            Resource::Texture2d {
                id: "ping".into(),
                format: "Rgba16Float".into(),
                width: 4,
                height: 4,
                usage: vec!["storage".into()],
                mip_level_count: 1,
            },
            Resource::Buffer {
                id: "g1x".into(),
                size: 16,
                usage: vec!["storage".into()],
            },
        ],
        passes: vec![
            Pass::Compute {
                ecs_before: None,
                ecs_after: None,
                id: "c".into(),
                shader: "x.wgsl".into(),
                entry_point: "m".into(),
                dispatch: Dispatch3D { x: 1, y: 1, z: 1 },
                texture_reads: vec![],
                storage_writes: vec!["ping".into()],
                storage_buffers: vec![],
                storage_buffers_read: vec![],
                storage_buffers_group1: vec!["g1x".into()],
                storage_buffers_read_group1: vec!["g1x".into()],
                indirect_dispatch: None,
            },
            Pass::RasterMesh {
                ecs_before: None,
                ecs_after: None,
                id: "r".into(),
                shader: "y.wgsl".into(),
                vertex_entry: "vs_main".into(),
                fragment_entry: "fs_main".into(),
                color_targets: vec!["hdr_color".into()],
                depth_target: None,
            },
        ],
    };
    let e = validate_exec_v0(&doc, "hdr_color").unwrap_err();
    assert!(matches!(
        e,
        RenderGraphValidateError::ComputeStorageBufferGroup1RwRoConflict { .. }
    ));
}

#[test]
fn validate_accepts_compute_group1_ro_only_with_group0() {
    let doc = RenderGraphDocument {
        schema: "w3drs.render_graph".into(),
        version: 1,
        resources: vec![
            Resource::Texture2d {
                id: "hdr_color".into(),
                format: "Rgba16Float".into(),
                width: 4,
                height: 4,
                usage: vec!["render_attachment".into(), "texture_binding".into()],
                mip_level_count: 1,
            },
            Resource::Texture2d {
                id: "ping".into(),
                format: "Rgba16Float".into(),
                width: 4,
                height: 4,
                usage: vec!["storage".into()],
                mip_level_count: 1,
            },
            Resource::Buffer {
                id: "g1r".into(),
                size: 16,
                usage: vec!["storage".into()],
            },
        ],
        passes: vec![
            Pass::Compute {
                ecs_before: None,
                ecs_after: None,
                id: "c".into(),
                shader: "x.wgsl".into(),
                entry_point: "m".into(),
                dispatch: Dispatch3D { x: 1, y: 1, z: 1 },
                texture_reads: vec![],
                storage_writes: vec!["ping".into()],
                storage_buffers: vec![],
                storage_buffers_read: vec![],
                storage_buffers_group1: vec![],
                storage_buffers_read_group1: vec!["g1r".into()],
                indirect_dispatch: None,
            },
            Pass::RasterMesh {
                ecs_before: None,
                ecs_after: None,
                id: "r".into(),
                shader: "y.wgsl".into(),
                vertex_entry: "vs_main".into(),
                fragment_entry: "fs_main".into(),
                color_targets: vec!["hdr_color".into()],
                depth_target: None,
            },
        ],
    };
    validate_exec_v0(&doc, "hdr_color").unwrap();
}

#[test]
fn validate_rejects_blit_same_texture() {
    let doc = RenderGraphDocument {
        schema: "w3drs.render_graph".into(),
        version: 1,
        resources: vec![Resource::Texture2d {
            id: "t".into(),
            format: "Rgba16Float".into(),
            width: 4,
            height: 4,
            usage: vec![
                "render_attachment".into(),
                "copy_src".into(),
                "copy_dst".into(),
            ],
            mip_level_count: 1,
        }],
        passes: vec![
            Pass::Blit {
                ecs_before: None,
                ecs_after: None,
                id: "b".into(),
                source: "t".into(),
                destination: "t".into(),
                region: None,
            },
            Pass::RasterMesh {
                ecs_before: None,
                ecs_after: None,
                id: "r".into(),
                shader: "y.wgsl".into(),
                vertex_entry: "vs_main".into(),
                fragment_entry: "fs_main".into(),
                color_targets: vec!["t".into()],
                depth_target: None,
            },
        ],
    };
    let e = validate_exec_v0(&doc, "t").unwrap_err();
    assert!(matches!(
        e,
        RenderGraphValidateError::BlitSameTexture { .. }
    ));
}

#[test]
fn validate_rejects_blit_format_mismatch() {
    let doc = RenderGraphDocument {
        schema: "w3drs.render_graph".into(),
        version: 1,
        resources: vec![
            Resource::Texture2d {
                id: "a".into(),
                format: "Rgba16Float".into(),
                width: 4,
                height: 4,
                usage: vec!["copy_src".into(), "render_attachment".into()],
                mip_level_count: 1,
            },
            Resource::Texture2d {
                id: "b".into(),
                format: "Rgba8Unorm".into(),
                width: 4,
                height: 4,
                usage: vec!["copy_dst".into(), "render_attachment".into()],
                mip_level_count: 1,
            },
        ],
        passes: vec![
            Pass::Blit {
                ecs_before: None,
                ecs_after: None,
                id: "blit".into(),
                source: "a".into(),
                destination: "b".into(),
                region: None,
            },
            Pass::RasterMesh {
                ecs_before: None,
                ecs_after: None,
                id: "r".into(),
                shader: "y.wgsl".into(),
                vertex_entry: "vs_main".into(),
                fragment_entry: "fs_main".into(),
                color_targets: vec!["a".into()],
                depth_target: None,
            },
        ],
    };
    let e = validate_exec_v0(&doc, "a").unwrap_err();
    assert!(matches!(
        e,
        RenderGraphValidateError::BlitFormatMismatch { .. }
    ));
}

