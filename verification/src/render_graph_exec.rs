//! Executor-side view of render-graph validation: the executor's error type, the conversion
//! from validation failures, and the pure helpers the GPU executor relies on.

use vstd::prelude::*;

use crate::exec_validate::{
    buffer_decl, buffer_flag_check, compute_check, group1_buffer_check, group1_buffer_read_check, pass_semantics_check,
    semantics_check, storage_buffer_check, storage_buffer_read_check, Check, height_of, texture_decl, min_u32, mip_dimensions, mip_extent, region_invalid, width_of, buffer_usage_known, exec_check, has_buffer, has_flag, is_buffer, is_first, lemma_first_index,
    first_buffer_at, lemma_buffer_decl_first, outcome, size_of, spec_known_texture_format, texture_flag_check, texture_usage_known, validate_exec_v0, ExecFailure,
    RenderGraphValidateError,
};
use crate::scan::{first_failure, lemma_first_failure_ok, lemma_first_failure_stable, then_check};
use crate::render_graph::{non_empty_label, pass_ecs_after, pass_ecs_before, BlitRegion, IndirectDispatchArgs, Pass, RenderGraphDocument, Resource};
use crate::text::{debug_quoted, debug_text, ascii_lower_seq, ascii_lowercase_chars, chars_contain, chars_of, contains_str, contains_sub, str_eq, strs};

verus! {

#[verifier::external_type_specification]
#[verifier::external_body]
pub struct ExIoError(std::io::Error);

/// Errors of the GPU executor.
#[derive(Debug)]
pub enum RenderGraphExecError {
    UnknownTextureFormat(String),
    UnknownBufferUsage(String),
    UnknownTextureUsage(String),
    MissingResource(String),
    EmptyColorTargets(String),
    InvalidReadbackFormat { id: String, got: String },
    DuplicateRasterColorTarget { pass_id: String, texture_id: String },
    InvalidDepthTargetFormat { texture_id: String, got: String },
    TextureSemanticUsageMissing { pass_id: String, texture_id: String, missing: String, declared: Vec<String> },
    BufferSemanticUsageMissing { pass_id: String, buffer_id: String, missing: String, declared: Vec<String> },
    DuplicateComputeStorageBuffer { pass_id: String, buffer_id: String },
    DuplicateComputeStorageBufferRead { pass_id: String, buffer_id: String },
    ComputeStorageBufferRwRoConflict { pass_id: String, buffer_id: String },
    ComputeGroup1RequiresGroup0 { pass_id: String },
    DuplicateComputeStorageBufferGroup1 { pass_id: String, buffer_id: String },
    DuplicateComputeStorageBufferReadGroup1 { pass_id: String, buffer_id: String },
    ComputeStorageBufferGroup1RwRoConflict { pass_id: String, buffer_id: String },
    ComputeBufferSharedAcrossBindGroups { pass_id: String, buffer_id: String },
    DuplicateComputeStorageTexture { pass_id: String, texture_id: String },
    DuplicateComputeReadTexture { pass_id: String, texture_id: String },
    ComputeTextureReadWriteConflict { pass_id: String, texture_id: String },
    InvalidComputeTextureReadFormat { pass_id: String, texture_id: String, got: String },
    BlitSameTexture { pass_id: String, texture_id: String },
    BlitFormatMismatch { pass_id: String, src_id: String, dst_id: String, src_fmt: String, dst_fmt: String },
    BlitExtentMismatch { pass_id: String, src_id: String, dst_id: String, sw: u32, sh: u32, dw: u32, dh: u32 },
    InvalidTextureMipLevelCount { id: String, got: u32 },
    BlitRegionInvalid { pass_id: String, src_id: String, dst_id: String },
    IndirectBufferUsageMissing { pass_id: String, buffer_id: String, missing: String, declared: Vec<String> },
    IndirectDispatchOutOfBuffer { pass_id: String, buffer_id: String, offset: u64, size: u64 },
    IndirectDispatchOffsetMisaligned { pass_id: String, buffer_id: String, offset: u64 },
    EcsLabelEmpty { pass_id: String, field: &'static str },
    RasterDepthMeshInvalid { pass_id: String, detail: String },
    UnsupportedComputeTextureReadFormat(String),
    /// Reading a shader from disk failed.
    Io(std::io::Error),
    /// The in-memory shader loader has no text for `rel`.
    WgslNotFound { rel: String },
    /// The readback map callback was dropped before it reported.
    ReadbackMapOneshotDropped,
    /// Mapping the readback buffer failed.
    ReadbackBufferMapFailed,
}

/// Mathematical model of a [`RenderGraphExecError`].
pub enum ExecErrorModel {
    /// A static validation failure.
    Validate(ExecFailure),
    UnsupportedComputeTextureReadFormat(Seq<char>),
    Io,
    WgslNotFound(Seq<char>),
    ReadbackMapOneshotDropped,
    ReadbackBufferMapFailed,
}

impl View for RenderGraphExecError {
    type V = ExecErrorModel;

    open spec fn view(&self) -> ExecErrorModel {
        match self {
            RenderGraphExecError::UnknownTextureFormat(s) => ExecErrorModel::Validate(ExecFailure::UnknownTextureFormat(s@)),
            RenderGraphExecError::UnknownBufferUsage(s) => ExecErrorModel::Validate(ExecFailure::UnknownBufferUsage(s@)),
            RenderGraphExecError::UnknownTextureUsage(s) => ExecErrorModel::Validate(ExecFailure::UnknownTextureUsage(s@)),
            RenderGraphExecError::MissingResource(s) => ExecErrorModel::Validate(ExecFailure::MissingResource(s@)),
            RenderGraphExecError::EmptyColorTargets(s) => ExecErrorModel::Validate(ExecFailure::EmptyColorTargets(s@)),
            RenderGraphExecError::InvalidReadbackFormat { id, got } =>
                ExecErrorModel::Validate(ExecFailure::InvalidReadbackFormat { id: id@, got: got@ }),
            RenderGraphExecError::DuplicateRasterColorTarget { pass_id, texture_id } =>
                ExecErrorModel::Validate(ExecFailure::DuplicateRasterColorTarget { pass_id: pass_id@, texture_id: texture_id@ }),
            RenderGraphExecError::InvalidDepthTargetFormat { texture_id, got } =>
                ExecErrorModel::Validate(ExecFailure::InvalidDepthTargetFormat { texture_id: texture_id@, got: got@ }),
            RenderGraphExecError::TextureSemanticUsageMissing { pass_id, texture_id, missing, declared } =>
                ExecErrorModel::Validate(ExecFailure::TextureSemanticUsageMissing { pass_id: pass_id@, texture_id: texture_id@, missing: missing@, declared: strs(declared@) }),
            RenderGraphExecError::BufferSemanticUsageMissing { pass_id, buffer_id, missing, declared } =>
                ExecErrorModel::Validate(ExecFailure::BufferSemanticUsageMissing { pass_id: pass_id@, buffer_id: buffer_id@, missing: missing@, declared: strs(declared@) }),
            RenderGraphExecError::DuplicateComputeStorageBuffer { pass_id, buffer_id } =>
                ExecErrorModel::Validate(ExecFailure::DuplicateComputeStorageBuffer { pass_id: pass_id@, buffer_id: buffer_id@ }),
            RenderGraphExecError::DuplicateComputeStorageBufferRead { pass_id, buffer_id } =>
                ExecErrorModel::Validate(ExecFailure::DuplicateComputeStorageBufferRead { pass_id: pass_id@, buffer_id: buffer_id@ }),
            RenderGraphExecError::ComputeStorageBufferRwRoConflict { pass_id, buffer_id } =>
                ExecErrorModel::Validate(ExecFailure::ComputeStorageBufferRwRoConflict { pass_id: pass_id@, buffer_id: buffer_id@ }),
            RenderGraphExecError::ComputeGroup1RequiresGroup0 { pass_id } =>
                ExecErrorModel::Validate(ExecFailure::ComputeGroup1RequiresGroup0 { pass_id: pass_id@ }),
            RenderGraphExecError::DuplicateComputeStorageBufferGroup1 { pass_id, buffer_id } =>
                ExecErrorModel::Validate(ExecFailure::DuplicateComputeStorageBufferGroup1 { pass_id: pass_id@, buffer_id: buffer_id@ }),
            RenderGraphExecError::DuplicateComputeStorageBufferReadGroup1 { pass_id, buffer_id } =>
                ExecErrorModel::Validate(ExecFailure::DuplicateComputeStorageBufferReadGroup1 { pass_id: pass_id@, buffer_id: buffer_id@ }),
            RenderGraphExecError::ComputeStorageBufferGroup1RwRoConflict { pass_id, buffer_id } =>
                ExecErrorModel::Validate(ExecFailure::ComputeStorageBufferGroup1RwRoConflict { pass_id: pass_id@, buffer_id: buffer_id@ }),
            RenderGraphExecError::ComputeBufferSharedAcrossBindGroups { pass_id, buffer_id } =>
                ExecErrorModel::Validate(ExecFailure::ComputeBufferSharedAcrossBindGroups { pass_id: pass_id@, buffer_id: buffer_id@ }),
            RenderGraphExecError::DuplicateComputeStorageTexture { pass_id, texture_id } =>
                ExecErrorModel::Validate(ExecFailure::DuplicateComputeStorageTexture { pass_id: pass_id@, texture_id: texture_id@ }),
            RenderGraphExecError::DuplicateComputeReadTexture { pass_id, texture_id } =>
                ExecErrorModel::Validate(ExecFailure::DuplicateComputeReadTexture { pass_id: pass_id@, texture_id: texture_id@ }),
            RenderGraphExecError::ComputeTextureReadWriteConflict { pass_id, texture_id } =>
                ExecErrorModel::Validate(ExecFailure::ComputeTextureReadWriteConflict { pass_id: pass_id@, texture_id: texture_id@ }),
            RenderGraphExecError::InvalidComputeTextureReadFormat { pass_id, texture_id, got } =>
                ExecErrorModel::Validate(ExecFailure::InvalidComputeTextureReadFormat { pass_id: pass_id@, texture_id: texture_id@, got: got@ }),
            RenderGraphExecError::BlitSameTexture { pass_id, texture_id } =>
                ExecErrorModel::Validate(ExecFailure::BlitSameTexture { pass_id: pass_id@, texture_id: texture_id@ }),
            RenderGraphExecError::BlitFormatMismatch { pass_id, src_id, dst_id, src_fmt, dst_fmt } =>
                ExecErrorModel::Validate(ExecFailure::BlitFormatMismatch { pass_id: pass_id@, src_id: src_id@, dst_id: dst_id@, src_fmt: src_fmt@, dst_fmt: dst_fmt@ }),
            RenderGraphExecError::BlitExtentMismatch { pass_id, src_id, dst_id, sw, sh, dw, dh } =>
                ExecErrorModel::Validate(ExecFailure::BlitExtentMismatch { pass_id: pass_id@, src_id: src_id@, dst_id: dst_id@, sw: *sw, sh: *sh, dw: *dw, dh: *dh }),
            RenderGraphExecError::InvalidTextureMipLevelCount { id, got } =>
                ExecErrorModel::Validate(ExecFailure::InvalidTextureMipLevelCount { id: id@, got: *got }),
            RenderGraphExecError::BlitRegionInvalid { pass_id, src_id, dst_id } =>
                ExecErrorModel::Validate(ExecFailure::BlitRegionInvalid { pass_id: pass_id@, src_id: src_id@, dst_id: dst_id@ }),
            RenderGraphExecError::IndirectBufferUsageMissing { pass_id, buffer_id, missing, declared } =>
                ExecErrorModel::Validate(ExecFailure::IndirectBufferUsageMissing { pass_id: pass_id@, buffer_id: buffer_id@, missing: missing@, declared: strs(declared@) }),
            RenderGraphExecError::IndirectDispatchOutOfBuffer { pass_id, buffer_id, offset, size } =>
                ExecErrorModel::Validate(ExecFailure::IndirectDispatchOutOfBuffer { pass_id: pass_id@, buffer_id: buffer_id@, offset: *offset, size: *size }),
            RenderGraphExecError::IndirectDispatchOffsetMisaligned { pass_id, buffer_id, offset } =>
                ExecErrorModel::Validate(ExecFailure::IndirectDispatchOffsetMisaligned { pass_id: pass_id@, buffer_id: buffer_id@, offset: *offset }),
            RenderGraphExecError::EcsLabelEmpty { pass_id, field } =>
                ExecErrorModel::Validate(ExecFailure::EcsLabelEmpty { pass_id: pass_id@, field: field@ }),
            RenderGraphExecError::RasterDepthMeshInvalid { pass_id, detail } =>
                ExecErrorModel::Validate(ExecFailure::RasterDepthMeshInvalid { pass_id: pass_id@, detail: detail@ }),
            RenderGraphExecError::UnsupportedComputeTextureReadFormat(s) =>
                ExecErrorModel::UnsupportedComputeTextureReadFormat(s@),
            RenderGraphExecError::Io(_) => ExecErrorModel::Io,
            RenderGraphExecError::WgslNotFound { rel } => ExecErrorModel::WgslNotFound(rel@),
            RenderGraphExecError::ReadbackMapOneshotDropped => ExecErrorModel::ReadbackMapOneshotDropped,
            RenderGraphExecError::ReadbackBufferMapFailed => ExecErrorModel::ReadbackBufferMapFailed,
        }
    }
}

impl From<RenderGraphValidateError> for RenderGraphExecError {
    fn from(e: RenderGraphValidateError) -> (r: Self) {
        match e {
            RenderGraphValidateError::UnknownTextureFormat(s) => RenderGraphExecError::UnknownTextureFormat(s),
            RenderGraphValidateError::UnknownBufferUsage(s) => RenderGraphExecError::UnknownBufferUsage(s),
            RenderGraphValidateError::UnknownTextureUsage(s) => RenderGraphExecError::UnknownTextureUsage(s),
            RenderGraphValidateError::MissingResource(s) => RenderGraphExecError::MissingResource(s),
            RenderGraphValidateError::EmptyColorTargets(s) => RenderGraphExecError::EmptyColorTargets(s),
            RenderGraphValidateError::InvalidReadbackFormat { id, got } => RenderGraphExecError::InvalidReadbackFormat { id, got },
            RenderGraphValidateError::DuplicateRasterColorTarget { pass_id, texture_id } => RenderGraphExecError::DuplicateRasterColorTarget { pass_id, texture_id },
            RenderGraphValidateError::InvalidDepthTargetFormat { texture_id, got } => RenderGraphExecError::InvalidDepthTargetFormat { texture_id, got },
            RenderGraphValidateError::TextureSemanticUsageMissing { pass_id, texture_id, missing, declared } => RenderGraphExecError::TextureSemanticUsageMissing { pass_id, texture_id, missing, declared },
            RenderGraphValidateError::BufferSemanticUsageMissing { pass_id, buffer_id, missing, declared } => RenderGraphExecError::BufferSemanticUsageMissing { pass_id, buffer_id, missing, declared },
            RenderGraphValidateError::DuplicateComputeStorageBuffer { pass_id, buffer_id } => RenderGraphExecError::DuplicateComputeStorageBuffer { pass_id, buffer_id },
            RenderGraphValidateError::DuplicateComputeStorageBufferRead { pass_id, buffer_id } => RenderGraphExecError::DuplicateComputeStorageBufferRead { pass_id, buffer_id },
            RenderGraphValidateError::ComputeStorageBufferRwRoConflict { pass_id, buffer_id } => RenderGraphExecError::ComputeStorageBufferRwRoConflict { pass_id, buffer_id },
            RenderGraphValidateError::ComputeGroup1RequiresGroup0 { pass_id } => RenderGraphExecError::ComputeGroup1RequiresGroup0 { pass_id },
            RenderGraphValidateError::DuplicateComputeStorageBufferGroup1 { pass_id, buffer_id } => RenderGraphExecError::DuplicateComputeStorageBufferGroup1 { pass_id, buffer_id },
            RenderGraphValidateError::DuplicateComputeStorageBufferReadGroup1 { pass_id, buffer_id } => RenderGraphExecError::DuplicateComputeStorageBufferReadGroup1 { pass_id, buffer_id },
            RenderGraphValidateError::ComputeStorageBufferGroup1RwRoConflict { pass_id, buffer_id } => RenderGraphExecError::ComputeStorageBufferGroup1RwRoConflict { pass_id, buffer_id },
            RenderGraphValidateError::ComputeBufferSharedAcrossBindGroups { pass_id, buffer_id } => RenderGraphExecError::ComputeBufferSharedAcrossBindGroups { pass_id, buffer_id },
            RenderGraphValidateError::DuplicateComputeStorageTexture { pass_id, texture_id } => RenderGraphExecError::DuplicateComputeStorageTexture { pass_id, texture_id },
            RenderGraphValidateError::DuplicateComputeReadTexture { pass_id, texture_id } => RenderGraphExecError::DuplicateComputeReadTexture { pass_id, texture_id },
            RenderGraphValidateError::ComputeTextureReadWriteConflict { pass_id, texture_id } => RenderGraphExecError::ComputeTextureReadWriteConflict { pass_id, texture_id },
            RenderGraphValidateError::InvalidComputeTextureReadFormat { pass_id, texture_id, got } => RenderGraphExecError::InvalidComputeTextureReadFormat { pass_id, texture_id, got },
            RenderGraphValidateError::BlitSameTexture { pass_id, texture_id } => RenderGraphExecError::BlitSameTexture { pass_id, texture_id },
            RenderGraphValidateError::BlitFormatMismatch { pass_id, src_id, dst_id, src_fmt, dst_fmt } => RenderGraphExecError::BlitFormatMismatch { pass_id, src_id, dst_id, src_fmt, dst_fmt },
            RenderGraphValidateError::BlitExtentMismatch { pass_id, src_id, dst_id, sw, sh, dw, dh } => RenderGraphExecError::BlitExtentMismatch { pass_id, src_id, dst_id, sw, sh, dw, dh },
            RenderGraphValidateError::InvalidTextureMipLevelCount { id, got } => RenderGraphExecError::InvalidTextureMipLevelCount { id, got },
            RenderGraphValidateError::BlitRegionInvalid { pass_id, src_id, dst_id } => RenderGraphExecError::BlitRegionInvalid { pass_id, src_id, dst_id },
            RenderGraphValidateError::IndirectBufferUsageMissing { pass_id, buffer_id, missing, declared } => RenderGraphExecError::IndirectBufferUsageMissing { pass_id, buffer_id, missing, declared },
            RenderGraphValidateError::IndirectDispatchOutOfBuffer { pass_id, buffer_id, offset, size } => RenderGraphExecError::IndirectDispatchOutOfBuffer { pass_id, buffer_id, offset, size },
            RenderGraphValidateError::IndirectDispatchOffsetMisaligned { pass_id, buffer_id, offset } => RenderGraphExecError::IndirectDispatchOffsetMisaligned { pass_id, buffer_id, offset },
            RenderGraphValidateError::EcsLabelEmpty { pass_id, field } => RenderGraphExecError::EcsLabelEmpty { pass_id, field },
            RenderGraphValidateError::RasterDepthMeshInvalid { pass_id, detail } => RenderGraphExecError::RasterDepthMeshInvalid { pass_id, detail },
        }
    }
}

impl vstd::std_specs::convert::FromSpecImpl<RenderGraphValidateError> for RenderGraphExecError {
    open spec fn obeys_from_spec() -> bool {
        true
    }

    open spec fn from_spec(e: RenderGraphValidateError) -> RenderGraphExecError {
        match e {
                RenderGraphValidateError::UnknownTextureFormat(s) => RenderGraphExecError::UnknownTextureFormat(s),
                RenderGraphValidateError::UnknownBufferUsage(s) => RenderGraphExecError::UnknownBufferUsage(s),
                RenderGraphValidateError::UnknownTextureUsage(s) => RenderGraphExecError::UnknownTextureUsage(s),
                RenderGraphValidateError::MissingResource(s) => RenderGraphExecError::MissingResource(s),
                RenderGraphValidateError::EmptyColorTargets(s) => RenderGraphExecError::EmptyColorTargets(s),
                RenderGraphValidateError::InvalidReadbackFormat { id, got } => RenderGraphExecError::InvalidReadbackFormat { id, got },
                RenderGraphValidateError::DuplicateRasterColorTarget { pass_id, texture_id } => RenderGraphExecError::DuplicateRasterColorTarget { pass_id, texture_id },
                RenderGraphValidateError::InvalidDepthTargetFormat { texture_id, got } => RenderGraphExecError::InvalidDepthTargetFormat { texture_id, got },
                RenderGraphValidateError::TextureSemanticUsageMissing { pass_id, texture_id, missing, declared } => RenderGraphExecError::TextureSemanticUsageMissing { pass_id, texture_id, missing, declared },
                RenderGraphValidateError::BufferSemanticUsageMissing { pass_id, buffer_id, missing, declared } => RenderGraphExecError::BufferSemanticUsageMissing { pass_id, buffer_id, missing, declared },
                RenderGraphValidateError::DuplicateComputeStorageBuffer { pass_id, buffer_id } => RenderGraphExecError::DuplicateComputeStorageBuffer { pass_id, buffer_id },
                RenderGraphValidateError::DuplicateComputeStorageBufferRead { pass_id, buffer_id } => RenderGraphExecError::DuplicateComputeStorageBufferRead { pass_id, buffer_id },
                RenderGraphValidateError::ComputeStorageBufferRwRoConflict { pass_id, buffer_id } => RenderGraphExecError::ComputeStorageBufferRwRoConflict { pass_id, buffer_id },
                RenderGraphValidateError::ComputeGroup1RequiresGroup0 { pass_id } => RenderGraphExecError::ComputeGroup1RequiresGroup0 { pass_id },
                RenderGraphValidateError::DuplicateComputeStorageBufferGroup1 { pass_id, buffer_id } => RenderGraphExecError::DuplicateComputeStorageBufferGroup1 { pass_id, buffer_id },
                RenderGraphValidateError::DuplicateComputeStorageBufferReadGroup1 { pass_id, buffer_id } => RenderGraphExecError::DuplicateComputeStorageBufferReadGroup1 { pass_id, buffer_id },
                RenderGraphValidateError::ComputeStorageBufferGroup1RwRoConflict { pass_id, buffer_id } => RenderGraphExecError::ComputeStorageBufferGroup1RwRoConflict { pass_id, buffer_id },
                RenderGraphValidateError::ComputeBufferSharedAcrossBindGroups { pass_id, buffer_id } => RenderGraphExecError::ComputeBufferSharedAcrossBindGroups { pass_id, buffer_id },
                RenderGraphValidateError::DuplicateComputeStorageTexture { pass_id, texture_id } => RenderGraphExecError::DuplicateComputeStorageTexture { pass_id, texture_id },
                RenderGraphValidateError::DuplicateComputeReadTexture { pass_id, texture_id } => RenderGraphExecError::DuplicateComputeReadTexture { pass_id, texture_id },
                RenderGraphValidateError::ComputeTextureReadWriteConflict { pass_id, texture_id } => RenderGraphExecError::ComputeTextureReadWriteConflict { pass_id, texture_id },
                RenderGraphValidateError::InvalidComputeTextureReadFormat { pass_id, texture_id, got } => RenderGraphExecError::InvalidComputeTextureReadFormat { pass_id, texture_id, got },
                RenderGraphValidateError::BlitSameTexture { pass_id, texture_id } => RenderGraphExecError::BlitSameTexture { pass_id, texture_id },
                RenderGraphValidateError::BlitFormatMismatch { pass_id, src_id, dst_id, src_fmt, dst_fmt } => RenderGraphExecError::BlitFormatMismatch { pass_id, src_id, dst_id, src_fmt, dst_fmt },
                RenderGraphValidateError::BlitExtentMismatch { pass_id, src_id, dst_id, sw, sh, dw, dh } => RenderGraphExecError::BlitExtentMismatch { pass_id, src_id, dst_id, sw, sh, dw, dh },
                RenderGraphValidateError::InvalidTextureMipLevelCount { id, got } => RenderGraphExecError::InvalidTextureMipLevelCount { id, got },
                RenderGraphValidateError::BlitRegionInvalid { pass_id, src_id, dst_id } => RenderGraphExecError::BlitRegionInvalid { pass_id, src_id, dst_id },
                RenderGraphValidateError::IndirectBufferUsageMissing { pass_id, buffer_id, missing, declared } => RenderGraphExecError::IndirectBufferUsageMissing { pass_id, buffer_id, missing, declared },
                RenderGraphValidateError::IndirectDispatchOutOfBuffer { pass_id, buffer_id, offset, size } => RenderGraphExecError::IndirectDispatchOutOfBuffer { pass_id, buffer_id, offset, size },
                RenderGraphValidateError::IndirectDispatchOffsetMisaligned { pass_id, buffer_id, offset } => RenderGraphExecError::IndirectDispatchOffsetMisaligned { pass_id, buffer_id, offset },
                RenderGraphValidateError::EcsLabelEmpty { pass_id, field } => RenderGraphExecError::EcsLabelEmpty { pass_id, field },
                RenderGraphValidateError::RasterDepthMeshInvalid { pass_id, detail } => RenderGraphExecError::RasterDepthMeshInvalid { pass_id, detail },
        }
    }
}

/// Every validation failure is carried over unchanged into the executor's error type.
pub proof fn lemma_exec_error_from_validate(e: RenderGraphValidateError)
    ensures
        <RenderGraphExecError as vstd::std_specs::convert::FromSpec<RenderGraphValidateError>>::from_spec(e)@
            == ExecErrorModel::Validate(e@),
{
}

/// Model of an executor check outcome.
pub open spec fn exec_outcome(r: Result<(), RenderGraphExecError>) -> Result<(), ExecErrorModel> {
    match r {
        Ok(_) => Ok(()),
        Err(e) => Err(e@),
    }
}

/// Static checks before GPU submission: the validation rules of [`validate_exec_v0`], with the
/// failure carried into [`RenderGraphExecError`].
pub fn validate_render_graph_exec_v0(
    doc: &RenderGraphDocument,
    readback_id: &str,
) -> (r: Result<(), RenderGraphExecError>)
    ensures
        exec_outcome(r) == match exec_check(*doc, readback_id@) {
            Ok(_) => Ok(()),
            Err(f) => Err(ExecErrorModel::Validate(f)),
        },
{
    match validate_exec_v0(doc, readback_id) {
        Ok(()) => Ok(()),
        Err(e) => {
            let x = RenderGraphExecError::from(e);
            Err(x)
        },
    }
}

/// Behaviour of the host hooks of a graph run that does nothing at ECS nodes and encodes no
/// depth-only draws.
#[derive(Debug, Default, Clone, Copy)]
pub struct NoopRenderGraphV0Host;


/// One step of encoding a graph, in the order the host sees them.
#[derive(Debug, Clone, PartialEq, Eq)]
pub enum HostStep {
    /// The host runs the ECS node with this label.
    EcsNode(String),
    /// Pass `i` (in submission order) is encoded.
    EncodePass(usize),
    /// Inside the encoding of `raster_depth_mesh` pass `i`, the host records its depth-only draw.
    DrawDepthMesh(usize),
}

/// Model of a [`HostStep`].
pub enum HostStepView {
    EcsNode(Seq<char>),
    EncodePass(int),
    DrawDepthMesh(int),
}

impl View for HostStep {
    type V = HostStepView;

    open spec fn view(&self) -> HostStepView {
        match self {
            HostStep::EcsNode(l) => HostStepView::EcsNode(l@),
            HostStep::EncodePass(i) => HostStepView::EncodePass(*i as int),
            HostStep::DrawDepthMesh(i) => HostStepView::DrawDepthMesh(*i as int),
        }
    }
}

/// The ECS node step for a label, when there is a (non-empty) one.
pub open spec fn label_step(l: Option<Seq<char>>) -> Seq<HostStepView> {
    match l {
        Some(s) => seq![HostStepView::EcsNode(s)],
        None => Seq::empty(),
    }
}

/// The steps of pass `p` at index `i`: its `ecs_before` node, its encoding (with the host's
/// depth-only draw for a `raster_depth_mesh` pass), then its `ecs_after` node.
pub open spec fn pass_steps(p: Pass, i: int) -> Seq<HostStepView> {
    label_step(non_empty_label(pass_ecs_before(p))) + seq![HostStepView::EncodePass(i)] + (if p is RasterDepthMesh {
        seq![HostStepView::DrawDepthMesh(i)]
    } else {
        Seq::empty()
    }) + label_step(non_empty_label(pass_ecs_after(p)))
}

/// The steps of the first `n` passes, pass after pass.
pub open spec fn host_plan(passes: Seq<Pass>, n: int) -> Seq<HostStepView>
    decreases n,
{
    if n <= 0 || n > passes.len() {
        Seq::empty()
    } else {
        host_plan(passes, n - 1) + pass_steps(passes[n - 1], n - 1)
    }
}

/// Models of a list of steps.
pub open spec fn steps_view(steps: Seq<HostStep>) -> Seq<HostStepView> {
    Seq::new(steps.len(), |i: int| steps[i]@)
}

/// The order in which encoding `doc` calls on the host and encodes passes: for each pass in
/// submission order, its `ecs_before` node, the pass (with the depth-only draw of a
/// `raster_depth_mesh` pass), then its `ecs_after` node. Encoding stops at the first pass that
/// fails, after the steps before it.
pub fn host_plan_v0(doc: &RenderGraphDocument) -> (r: Vec<HostStep>)
    ensures
        steps_view(r@) == host_plan(doc.passes@, doc.passes@.len() as int),
{
    let mut out: Vec<HostStep> = Vec::new();
    let mut i: usize = 0;
    while i < doc.passes.len()
        invariant
            i <= doc.passes@.len(),
            steps_view(out@) == host_plan(doc.passes@, i as int),
        decreases doc.passes.len() - i,
    {
        let pass = &doc.passes[i];
        let ghost before = out@;
        if let Some(l) = pass.ecs_before_label() {
            out.push(HostStep::EcsNode(l.to_string()));
        }
        out.push(HostStep::EncodePass(i));
        if let Pass::RasterDepthMesh { .. } = pass {
            out.push(HostStep::DrawDepthMesh(i));
        }
        if let Some(l) = pass.ecs_after_label() {
            out.push(HostStep::EcsNode(l.to_string()));
        }
        proof {
            let added = out@.subrange(before.len() as int, out@.len() as int);
            assert(out@ =~= before + added);
            assert(steps_view(added) =~= pass_steps(doc.passes@[i as int], i as int));
            assert(steps_view(out@) =~= steps_view(before) + steps_view(added));
        }
        i = i + 1;
    }
    out
}

/// Declared size of buffer `id`: the first buffer declaration with that id, or `MissingResource`.
pub fn buffer_decl_size_bytes(doc: &RenderGraphDocument, id: &str) -> (r: Result<u64, RenderGraphExecError>)
    ensures
        match r {
            Ok(size) => has_buffer(doc.resources@, id@) && size == size_of(buffer_decl(doc.resources@, id@)),
            Err(e) => !has_buffer(doc.resources@, id@)
                && e@ == ExecErrorModel::Validate(ExecFailure::MissingResource(id@)),
        },
{
    let ghost res = doc.resources@;
    let ghost p = |i: int| 0 <= i < res.len() && is_buffer(res[i], id@);
    let mut i: usize = 0;
    while i < doc.resources.len()
        invariant
            i <= res.len(),
            res == doc.resources@,
            p == (|i: int| 0 <= i < res.len() && is_buffer(res[i], id@)),
            forall|j: int| 0 <= j < i ==> !is_buffer(#[trigger] res[j], id@),
        decreases doc.resources.len() - i,
    {
        if let Resource::Buffer { id: bid, size, .. } = &doc.resources[i] {
            if str_eq(bid.as_str(), id) {
                proof {
                    assert(is_first(p, i as int));
                    lemma_first_index(p, i as int);
                }
                return Ok(*size);
            }
        }
        i = i + 1;
    }
    Err(RenderGraphExecError::MissingResource(id.to_owned()))
}

/// A pass id that asks for alpha blending: it contains `transparent`, `transparency` or `alpha`,
/// ignoring ASCII case.
pub open spec fn spec_pass_requests_transparency(id: Seq<char>) -> bool {
    let l = ascii_lower_seq(id);
    contains_sub(l, "transparent"@) || contains_sub(l, "transparency"@) || contains_sub(l, "alpha"@)
}

/// Whether a pass id asks for alpha blending (see [`spec_pass_requests_transparency`]).
pub fn pass_requests_transparency(id: &str) -> (r: bool)
    ensures
        r == spec_pass_requests_transparency(id@),
{
    let l = ascii_lowercase_chars(id);
    chars_contain(&l, &chars_of("transparent")) || chars_contain(&l, &chars_of("transparency"))
        || chars_contain(&l, &chars_of("alpha"))
}

/// FNV-1a offset basis.
pub const FNV_OFFSET: u64 = 14695981039346656037;

/// FNV-1a prime.
pub const FNV_PRIME: u64 = 1099511628211;

/// 64-bit FNV-1a hash of a byte sequence.
pub open spec fn spec_fnv1a64(bytes: Seq<u8>) -> u64
    decreases bytes.len(),
{
    if bytes.len() == 0 {
        FNV_OFFSET
    } else {
        let h = spec_fnv1a64(bytes.drop_last());
        (((h ^ (bytes.last() as u64)) as nat * FNV_PRIME as nat) % 0x1_0000_0000_0000_0000) as u64
    }
}

/// FNV-1a (64 bits) with the published constants: the empty input hashes to the offset basis
/// 14695981039346656037, and each further byte is xor-ed into the hash, which is then multiplied
/// by the prime 1099511628211 modulo 2^64.
pub proof fn lemma_fnv1a64_steps(bytes: Seq<u8>, b: u8)
    ensures
        spec_fnv1a64(Seq::<u8>::empty()) == 14695981039346656037u64,
        spec_fnv1a64(bytes.push(b)) as int == ((spec_fnv1a64(bytes) ^ (b as u64)) as int * 1099511628211) % 0x1_0000_0000_0000_0000,
{
    assert(bytes.push(b).drop_last() =~= bytes);
}

/// 64-bit FNV-1a hash (the readback checksum of a graph run).
pub fn fnv1a64(bytes: &[u8]) -> (r: u64)
    ensures
        r == spec_fnv1a64(bytes@),
{
    let mut h: u64 = FNV_OFFSET;
    let mut i: usize = 0;
    while i < bytes.len()
        invariant
            i <= bytes@.len(),
            h == spec_fnv1a64(bytes@.subrange(0, i as int)),
        decreases bytes.len() - i,
    {
        proof {
            assert(bytes@.subrange(0, i + 1).drop_last() =~= bytes@.subrange(0, i as int));
        }
        h = h ^ (bytes[i] as u64);
        h = h.wrapping_mul(FNV_PRIME);
        i = i + 1;
    }
    assert(bytes@.subrange(0, bytes@.len() as int) =~= bytes@);
    h
}

/// GPU texture formats the executor allocates.
#[derive(Clone, Copy, Debug, PartialEq, Eq)]
pub enum TextureFormat {
    Rgba16Float,
    Rgba8Unorm,
    Depth24Plus,
    Depth32Float,
    Depth24PlusStencil8,
    Depth32FloatStencil8,
}

/// The name of a format in documents.
pub open spec fn format_name(f: TextureFormat) -> Seq<char> {
    match f {
        TextureFormat::Rgba16Float => "Rgba16Float"@,
        TextureFormat::Rgba8Unorm => "Rgba8Unorm"@,
        TextureFormat::Depth24Plus => "Depth24Plus"@,
        TextureFormat::Depth32Float => "Depth32Float"@,
        TextureFormat::Depth24PlusStencil8 => "Depth24PlusStencil8"@,
        TextureFormat::Depth32FloatStencil8 => "Depth32FloatStencil8"@,
    }
}

/// The format a document names, or `UnknownTextureFormat`.
pub fn texture_format(s: &str) -> (r: Result<TextureFormat, RenderGraphExecError>)
    ensures
        match r {
            Ok(f) => spec_known_texture_format(s@) && format_name(f) == s@,
            Err(e) => !spec_known_texture_format(s@) && e@ == ExecErrorModel::Validate(ExecFailure::UnknownTextureFormat(s@)),
        },
{
    if str_eq(s, "Rgba16Float") {
        Ok(TextureFormat::Rgba16Float)
    } else if str_eq(s, "Rgba8Unorm") {
        Ok(TextureFormat::Rgba8Unorm)
    } else if str_eq(s, "Depth24Plus") {
        Ok(TextureFormat::Depth24Plus)
    } else if str_eq(s, "Depth32Float") {
        Ok(TextureFormat::Depth32Float)
    } else if str_eq(s, "Depth24PlusStencil8") {
        Ok(TextureFormat::Depth24PlusStencil8)
    } else if str_eq(s, "Depth32FloatStencil8") {
        Ok(TextureFormat::Depth32FloatStencil8)
    } else {
        Err(RenderGraphExecError::UnknownTextureFormat(s.to_owned()))
    }
}

/// Whether a depth pass on `format` also clears (and discards) a stencil aspect.
pub fn has_stencil(format: TextureFormat) -> (r: bool)
    ensures
        r == (format is Depth24PlusStencil8 || format is Depth32FloatStencil8),
{
    match format {
        TextureFormat::Depth24PlusStencil8 | TextureFormat::Depth32FloatStencil8 => true,
        _ => false,
    }
}

/// Whether a compute pass can sample `format` (as an unfilterable float texture); the other
/// formats give `UnsupportedComputeTextureReadFormat` with the format's name.
pub fn compute_read_format_supported(format: TextureFormat) -> (r: Result<(), RenderGraphExecError>)
    ensures
        (format is Rgba16Float || format is Rgba8Unorm) <==> r is Ok,
        r matches Err(e) ==> e@ == ExecErrorModel::UnsupportedComputeTextureReadFormat(format_name(format)),
{
    match format {
        TextureFormat::Rgba16Float | TextureFormat::Rgba8Unorm => Ok(()),
        TextureFormat::Depth24Plus => Err(RenderGraphExecError::UnsupportedComputeTextureReadFormat(String::from_str("Depth24Plus"))),
        TextureFormat::Depth32Float => Err(RenderGraphExecError::UnsupportedComputeTextureReadFormat(String::from_str("Depth32Float"))),
        TextureFormat::Depth24PlusStencil8 => Err(
            RenderGraphExecError::UnsupportedComputeTextureReadFormat(String::from_str("Depth24PlusStencil8")),
        ),
        TextureFormat::Depth32FloatStencil8 => Err(
            RenderGraphExecError::UnsupportedComputeTextureReadFormat(String::from_str("Depth32FloatStencil8")),
        ),
    }
}

/// How a buffer is allocated.
#[derive(Clone, Copy, Debug, Default, PartialEq, Eq)]
pub struct BufferUsages {
    pub storage: bool,
    pub copy_dst: bool,
    pub copy_src: bool,
    pub map_read: bool,
    pub indirect: bool,
    pub uniform: bool,
}

/// How a texture is allocated.
#[derive(Clone, Copy, Debug, Default, PartialEq, Eq)]
pub struct TextureUsages {
    pub texture_binding: bool,
    pub render_attachment: bool,
    pub storage_binding: bool,
    pub copy_dst: bool,
    pub copy_src: bool,
}

/// The usages of a buffer declaring `flags` (all known): each flag sets its usage, and a buffer
/// declaring none is a storage buffer.
pub open spec fn buffer_usages_of(flags: Seq<String>) -> BufferUsages {
    BufferUsages {
        storage: has_flag(flags, "storage"@) || flags.len() == 0,
        copy_dst: has_flag(flags, "copy_dst"@),
        copy_src: has_flag(flags, "copy_src"@),
        map_read: has_flag(flags, "map_read"@),
        indirect: has_flag(flags, "indirect"@),
        uniform: has_flag(flags, "uniform"@),
    }
}

/// The usages of a texture declaring `flags` (all known): each flag sets its usage (`storage` as
/// storage binding), and every texture can also be copied from and rendered to.
pub open spec fn texture_usages_of(flags: Seq<String>) -> TextureUsages {
    TextureUsages {
        texture_binding: has_flag(flags, "texture_binding"@),
        render_attachment: true,
        storage_binding: has_flag(flags, "storage"@),
        copy_dst: has_flag(flags, "copy_dst"@),
        copy_src: true,
    }
}

/// Each declared buffer flag sets exactly its own usage: a usage is set exactly when its flag is
/// in the list (`storage` also when the list is empty, the default for a buffer).
pub proof fn lemma_buffer_usages_follow_flags(flags: Seq<String>)
    ensures
        buffer_usages_of(flags).map_read <==> exists|i: int| 0 <= i < flags.len() && (#[trigger] flags[i])@ == "map_read"@,
        buffer_usages_of(flags).copy_dst <==> exists|i: int| 0 <= i < flags.len() && (#[trigger] flags[i])@ == "copy_dst"@,
        buffer_usages_of(flags).copy_src <==> exists|i: int| 0 <= i < flags.len() && (#[trigger] flags[i])@ == "copy_src"@,
        buffer_usages_of(flags).indirect <==> exists|i: int| 0 <= i < flags.len() && (#[trigger] flags[i])@ == "indirect"@,
        buffer_usages_of(flags).uniform <==> exists|i: int| 0 <= i < flags.len() && (#[trigger] flags[i])@ == "uniform"@,
        buffer_usages_of(flags).storage <==> (flags.len() == 0 || exists|i: int|
            0 <= i < flags.len() && (#[trigger] flags[i])@ == "storage"@),
{
}

/// Each declared texture flag sets exactly its own usage (`storage` as a storage binding); every
/// texture can also be rendered to and copied from.
pub proof fn lemma_texture_usages_follow_flags(flags: Seq<String>)
    ensures
        texture_usages_of(flags).texture_binding <==> exists|i: int|
            0 <= i < flags.len() && (#[trigger] flags[i])@ == "texture_binding"@,
        texture_usages_of(flags).storage_binding <==> exists|i: int|
            0 <= i < flags.len() && (#[trigger] flags[i])@ == "storage"@,
        texture_usages_of(flags).copy_dst <==> exists|i: int| 0 <= i < flags.len() && (#[trigger] flags[i])@ == "copy_dst"@,
        texture_usages_of(flags).render_attachment,
        texture_usages_of(flags).copy_src,
{
}

/// Allocation usages of a buffer, or `UnknownBufferUsage` for its first unknown flag.
pub fn buffer_usage(flags: &Vec<String>) -> (r: Result<BufferUsages, RenderGraphExecError>)
    ensures
        match r {
            Ok(u) => first_failure(flags@.len(), |j: int| buffer_flag_check(flags@, j)) is Ok && u == buffer_usages_of(
                flags@,
            ),
            Err(e) => first_failure(flags@.len(), |j: int| buffer_flag_check(flags@, j)) matches Err(f)
                && e@ == ExecErrorModel::Validate(f),
        },
{
    match buffer_usage_known(flags) {
        Err(e) => {
            proof {
                lemma_exec_error_from_validate(e);
            }
            Err(RenderGraphExecError::from(e))
        },
        Ok(()) => Ok(BufferUsages {
            storage: contains_str(flags, "storage") || flags.len() == 0,
            copy_dst: contains_str(flags, "copy_dst"),
            copy_src: contains_str(flags, "copy_src"),
            map_read: contains_str(flags, "map_read"),
            indirect: contains_str(flags, "indirect"),
            uniform: contains_str(flags, "uniform"),
        }),
    }
}

/// Allocation usages of a texture, or `UnknownTextureUsage` for its first unknown flag.
pub fn texture_usage(flags: &Vec<String>) -> (r: Result<TextureUsages, RenderGraphExecError>)
    ensures
        match r {
            Ok(u) => first_failure(flags@.len(), |j: int| texture_flag_check(flags@, j)) is Ok && u == texture_usages_of(
                flags@,
            ),
            Err(e) => first_failure(flags@.len(), |j: int| texture_flag_check(flags@, j)) matches Err(f)
                && e@ == ExecErrorModel::Validate(f),
        },
{
    match texture_usage_known(flags) {
        Err(e) => {
            proof {
                lemma_exec_error_from_validate(e);
            }
            Err(RenderGraphExecError::from(e))
        },
        Ok(()) => Ok(TextureUsages {
            texture_binding: contains_str(flags, "texture_binding"),
            render_attachment: true,
            storage_binding: contains_str(flags, "storage"),
            copy_dst: contains_str(flags, "copy_dst"),
            copy_src: true,
        }),
    }
}

// ───────────────────────────── readback ─────────────────────────────

/// Bytes of one `Rgba16Float` texel, the only format read back.
pub const READBACK_BYTES_PER_PIXEL: u32 = 8;

/// Alignment of the rows of a texture-to-buffer copy.
pub const COPY_BYTES_PER_ROW_ALIGNMENT: usize = 256;

/// `x` rounded up to a multiple of `m`.
pub open spec fn round_up(x: int, m: int) -> int {
    if x % m == 0 { x } else { x - x % m + m }
}

/// The readback row pitch of a `width`-texel row of `Rgba16Float` (8 bytes a texel) is the
/// smallest multiple of the 256-byte copy alignment that holds the row.
pub proof fn lemma_readback_row_pitch(width: int)
    requires
        0 <= width,
    ensures
        ({
            let pitch = round_up(width * READBACK_BYTES_PER_PIXEL, COPY_BYTES_PER_ROW_ALIGNMENT as int);
            &&& pitch % 256 == 0
            &&& 8 * width <= pitch < 8 * width + 256
        }),
{
    let n = width * 8;
    assert(0 <= n % 256 < 256);
    if n % 256 != 0 {
        assert((n - n % 256 + 256) % 256 == 0) by {
            vstd::arithmetic::div_mod::lemma_fundamental_div_mod(n, 256);
            vstd::arithmetic::div_mod::lemma_mod_multiples_basic(n / 256 + 1, 256);
            assert(n - n % 256 + 256 == (n / 256 + 1) * 256) by (nonlinear_arith)
                requires
                    n == 256 * (n / 256) + n % 256,
            ;
        }
    }
}

/// A blit with a region copies between the region's mips from its origins, and its extent is
/// the largest that fits in both mips from those origins, capped by the width and height the
/// region asks for (when it asks); without a region, the whole mip 0 of the source is copied to
/// the origin of mip 0 of the destination.
pub proof fn lemma_blit_copy_largest_fit(src_w: u32, src_h: u32, dst_w: u32, dst_h: u32, region: Option<BlitRegion>)
    requires
        region matches Some(reg) ==> blit_origins_inside(src_w, src_h, dst_w, dst_h, reg),
    ensures
        ({
            let r = blit_copy(src_w, src_h, dst_w, dst_h, region);
            match region {
                None => r.src_mip_level == 0 && r.dst_mip_level == 0 && r.src_x == 0 && r.src_y == 0 && r.dst_x == 0
                    && r.dst_y == 0 && r.width == src_w && r.height == src_h,
                Some(reg) => {
                    let sw = mip_extent(src_w, reg.src_mip_level as nat) as int;
                    let sh = mip_extent(src_h, reg.src_mip_level as nat) as int;
                    let dw = mip_extent(dst_w, reg.dst_mip_level as nat) as int;
                    let dh = mip_extent(dst_h, reg.dst_mip_level as nat) as int;
                    &&& r.src_mip_level == reg.src_mip_level && r.dst_mip_level == reg.dst_mip_level
                    &&& r.src_x == reg.src_origin_x && r.src_y == reg.src_origin_y
                    &&& r.dst_x == reg.dst_origin_x && r.dst_y == reg.dst_origin_y
                    &&& r.width <= sw - reg.src_origin_x && r.width <= dw - reg.dst_origin_x
                    &&& r.height <= sh - reg.src_origin_y && r.height <= dh - reg.dst_origin_y
                    &&& reg.width matches Some(q) ==> r.width <= q
                    &&& reg.height matches Some(q) ==> r.height <= q
                    &&& r.width == sw - reg.src_origin_x || r.width == dw - reg.dst_origin_x || reg.width == Some(r.width)
                    &&& r.height == sh - reg.src_origin_y || r.height == dh - reg.dst_origin_y || reg.height == Some(
                        r.height,
                    )
                },
            }
        }),
{
}

/// Layout of the buffer a `width` x `height` readback texture is copied into: its row pitch
/// (the texel bytes of a row rounded up to the copy alignment) and its size (`height` rows).
pub fn readback_layout(width: u32, height: u32) -> (r: (usize, u64))
    requires
        width * READBACK_BYTES_PER_PIXEL <= u32::MAX,
        width * READBACK_BYTES_PER_PIXEL + COPY_BYTES_PER_ROW_ALIGNMENT <= usize::MAX,
        round_up(width * READBACK_BYTES_PER_PIXEL, COPY_BYTES_PER_ROW_ALIGNMENT as int) * height <= u64::MAX,
    ensures
        r.0 == round_up(width * READBACK_BYTES_PER_PIXEL, COPY_BYTES_PER_ROW_ALIGNMENT as int),
        r.1 == r.0 * height,
{
    let unpadded = (width * READBACK_BYTES_PER_PIXEL) as usize;
    let rem = unpadded % COPY_BYTES_PER_ROW_ALIGNMENT;
    let padded = if rem == 0 { unpadded } else { unpadded - rem + COPY_BYTES_PER_ROW_ALIGNMENT };
    assert(padded == round_up(width * READBACK_BYTES_PER_PIXEL, COPY_BYTES_PER_ROW_ALIGNMENT as int));
    let size = (padded as u64) * (height as u64);
    (padded, size)
}

// ───────────────────────────── blit copies ─────────────────────────────

/// Texels that a blit pass copies: the mip levels, the origin in each texture, and the extent.
#[derive(Debug, Clone, Copy, PartialEq, Eq)]
pub struct BlitCopy {
    pub src_mip_level: u32,
    pub dst_mip_level: u32,
    pub src_x: u32,
    pub src_y: u32,
    pub dst_x: u32,
    pub dst_y: u32,
    pub width: u32,
    pub height: u32,
}

/// The copy of a blit pass between a `src_width` x `src_height` source and a `dst_width` x
/// `dst_height` destination: without a region, the whole mip 0 of the source; with one, from its
/// origins, as much as fits in both mips (and no more than the region's own size, when it gives one).
pub open spec fn blit_copy(
    src_width: u32,
    src_height: u32,
    dst_width: u32,
    dst_height: u32,
    region: Option<BlitRegion>,
) -> BlitCopy {
    match region {
        None => BlitCopy {
            src_mip_level: 0,
            dst_mip_level: 0,
            src_x: 0,
            src_y: 0,
            dst_x: 0,
            dst_y: 0,
            width: src_width,
            height: src_height,
        },
        Some(reg) => {
            let sw = mip_extent(src_width, reg.src_mip_level as nat);
            let sh = mip_extent(src_height, reg.src_mip_level as nat);
            let dw = mip_extent(dst_width, reg.dst_mip_level as nat);
            let dh = mip_extent(dst_height, reg.dst_mip_level as nat);
            let max_w = min_u32((sw - reg.src_origin_x) as u32, (dw - reg.dst_origin_x) as u32);
            let max_h = min_u32((sh - reg.src_origin_y) as u32, (dh - reg.dst_origin_y) as u32);
            BlitCopy {
                src_mip_level: reg.src_mip_level,
                dst_mip_level: reg.dst_mip_level,
                src_x: reg.src_origin_x,
                src_y: reg.src_origin_y,
                dst_x: reg.dst_origin_x,
                dst_y: reg.dst_origin_y,
                width: match reg.width {
                    Some(w) => min_u32(w, max_w),
                    None => max_w,
                },
                height: match reg.height {
                    Some(h) => min_u32(h, max_h),
                    None => max_h,
                },
            }
        },
    }
}

/// The region's origins lie within the mips it names (the copy extent is measured from them).
pub open spec fn blit_origins_inside(
    src_width: u32,
    src_height: u32,
    dst_width: u32,
    dst_height: u32,
    reg: BlitRegion,
) -> bool {
    &&& reg.src_origin_x <= mip_extent(src_width, reg.src_mip_level as nat)
    &&& reg.src_origin_y <= mip_extent(src_height, reg.src_mip_level as nat)
    &&& reg.dst_origin_x <= mip_extent(dst_width, reg.dst_mip_level as nat)
    &&& reg.dst_origin_y <= mip_extent(dst_height, reg.dst_mip_level as nat)
}

/// The copy that a blit pass performs (see [`blit_copy`]); with a region, it lies inside both mips.
pub fn blit_copy_region(
    src_width: u32,
    src_height: u32,
    dst_width: u32,
    dst_height: u32,
    region: &Option<BlitRegion>,
) -> (r: BlitCopy)
    requires
        *region matches Some(reg) ==> blit_origins_inside(src_width, src_height, dst_width, dst_height, reg),
    ensures
        r == blit_copy(src_width, src_height, dst_width, dst_height, *region),
        region is Some ==> {
            &&& r.src_x + r.width <= mip_extent(src_width, r.src_mip_level as nat)
            &&& r.src_y + r.height <= mip_extent(src_height, r.src_mip_level as nat)
            &&& r.dst_x + r.width <= mip_extent(dst_width, r.dst_mip_level as nat)
            &&& r.dst_y + r.height <= mip_extent(dst_height, r.dst_mip_level as nat)
        },
{
    match region {
        None => BlitCopy {
            src_mip_level: 0,
            dst_mip_level: 0,
            src_x: 0,
            src_y: 0,
            dst_x: 0,
            dst_y: 0,
            width: src_width,
            height: src_height,
        },
        Some(reg) => {
            let (sw, sh) = mip_dimensions(src_width, src_height, reg.src_mip_level);
            let (dw, dh) = mip_dimensions(dst_width, dst_height, reg.dst_mip_level);
            let a = sw - reg.src_origin_x;
            let b = dw - reg.dst_origin_x;
            let max_w = if a <= b { a } else { b };
            let a = sh - reg.src_origin_y;
            let b = dh - reg.dst_origin_y;
            let max_h = if a <= b { a } else { b };
            let width = match reg.width {
                Some(w) => if w <= max_w { w } else { max_w },
                None => max_w,
            };
            let height = match reg.height {
                Some(h) => if h <= max_h { h } else { max_h },
                None => max_h,
            };
            BlitCopy {
                src_mip_level: reg.src_mip_level,
                dst_mip_level: reg.dst_mip_level,
                src_x: reg.src_origin_x,
                src_y: reg.src_origin_y,
                dst_x: reg.dst_origin_x,
                dst_y: reg.dst_origin_y,
                width,
                height,
            }
        },
    }
}

/// A blit region that passes validation copies a non-empty block that lies inside both textures'
/// mips, and the executor can measure it from its origins.
pub proof fn lemma_valid_blit_region_copies_inside(reg: BlitRegion, src: Resource, dst: Resource)
    requires
        !region_invalid(reg, src, dst),
    ensures
        blit_origins_inside(width_of(src), height_of(src), width_of(dst), height_of(dst), reg),
        ({
            let c = blit_copy(width_of(src), height_of(src), width_of(dst), height_of(dst), Some(reg));
            &&& c.width > 0 && c.height > 0
            &&& c.src_x + c.width <= mip_extent(width_of(src), c.src_mip_level as nat)
            &&& c.src_y + c.height <= mip_extent(height_of(src), c.src_mip_level as nat)
            &&& c.dst_x + c.width <= mip_extent(width_of(dst), c.dst_mip_level as nat)
            &&& c.dst_y + c.height <= mip_extent(height_of(dst), c.dst_mip_level as nat)
        }),
{
}

// ───────────────────────────── compute bindings ─────────────────────────────

/// What one binding of a compute pass holds.
#[derive(Debug, Clone, Copy, PartialEq, Eq)]
pub enum ComputeBindingKind {
    /// A storage buffer; `min_size` is its declared size, at least 4 bytes.
    StorageBuffer { read_only: bool, min_size: u64 },
    /// A write-only storage texture.
    StorageTextureWrite,
    /// A sampled texture.
    SampledTexture,
}

/// One binding of a compute pass: its number in the bind group, the resource bound, and how.
#[derive(Debug, Clone, PartialEq, Eq)]
pub struct ComputeBinding {
    pub binding: u32,
    pub resource: String,
    pub kind: ComputeBindingKind,
}

/// Model of a [`ComputeBinding`].
pub type BindingSlot = (u32, Seq<char>, ComputeBindingKind);

impl View for ComputeBinding {
    type V = BindingSlot;

    open spec fn view(&self) -> BindingSlot {
        (self.binding, self.resource@, self.kind)
    }
}

/// The two bind groups of a compute pass (either may be empty).
#[derive(Debug, Clone, PartialEq, Eq)]
pub struct ComputeBindings {
    pub group0: Vec<ComputeBinding>,
    pub group1: Vec<ComputeBinding>,
}

/// Models of a list of bindings.
pub open spec fn slots(v: Seq<ComputeBinding>) -> Seq<BindingSlot> {
    v.map_values(|c: ComputeBinding| c@)
}

/// Minimum binding size of a storage buffer: its declared size, raised to 4 bytes.
pub open spec fn storage_min_size(res: Seq<Resource>, id: Seq<char>) -> u64 {
    let size = size_of(buffer_decl(res, id));
    if size >= 4 { size } else { 4 }
}

/// Storage buffers `ids` bound from number `base` on, in order.
pub open spec fn buffer_slots(res: Seq<Resource>, ids: Seq<String>, base: int, read_only: bool) -> Seq<BindingSlot> {
    Seq::new(
        ids.len(),
        |k: int|
            (
                (base + k) as u32,
                ids[k]@,
                ComputeBindingKind::StorageBuffer { read_only, min_size: storage_min_size(res, ids[k]@) },
            ),
    )
}

/// Textures `ids` bound from number `base` on, in order, all as `kind`.
pub open spec fn texture_slots(ids: Seq<String>, base: int, kind: ComputeBindingKind) -> Seq<BindingSlot> {
    Seq::new(ids.len(), |k: int| ((base + k) as u32, ids[k]@, kind))
}

/// The `k`-th buffer of `ids` is declared, or `MissingResource` names it.
pub open spec fn buffer_declared_check(res: Seq<Resource>, ids: Seq<String>, k: int) -> Result<(), ExecErrorModel> {
    if has_buffer(res, ids[k]@) {
        Ok(())
    } else {
        Err(ExecErrorModel::Validate(ExecFailure::MissingResource(ids[k]@)))
    }
}

/// Every buffer of `ids` is declared, else the first that is not.
pub open spec fn buffers_declared(res: Seq<Resource>, ids: Seq<String>) -> Result<(), ExecErrorModel> {
    first_failure(ids.len(), |k: int| buffer_declared_check(res, ids, k))
}

/// The error text of a compute pass that binds group-1 buffers without any group-0 binding.
pub open spec fn group1_without_group0(pid: Seq<char>) -> Seq<char> {
    "compute pass "@ + debug_text(pid)
        + ": bind group 1 buffers require group-0 bindings (validate_exec_v0 should catch this)"@
}

/// Bindings of a compute pass. Group 0 holds, numbered from 0 in this order, the read-write
/// storage buffers, the read-only storage buffers, the written storage textures and the sampled
/// textures; group 1 its own read-write then read-only storage buffers. A pass with group-1
/// buffers and no group-0 binding is refused; otherwise the first undeclared buffer (group 0,
/// then group 1) is `MissingResource`.
pub open spec fn compute_bindings_outcome(
    res: Seq<Resource>,
    pid: Seq<char>,
    rw: Seq<String>,
    ro: Seq<String>,
    writes: Seq<String>,
    reads: Seq<String>,
    g1_rw: Seq<String>,
    g1_ro: Seq<String>,
) -> Result<(Seq<BindingSlot>, Seq<BindingSlot>), ExecErrorModel> {
    if rw.len() + ro.len() + writes.len() + reads.len() == 0 && g1_rw.len() + g1_ro.len() > 0 {
        Err(ExecErrorModel::Validate(ExecFailure::MissingResource(group1_without_group0(pid))))
    } else {
        match then_check(
            buffers_declared(res, rw),
            then_check(buffers_declared(res, ro), then_check(buffers_declared(res, g1_rw), buffers_declared(res, g1_ro))),
        ) {
            Err(e) => Err(e),
            Ok(_) => Ok(
                (
                    buffer_slots(res, rw, 0, false) + buffer_slots(res, ro, rw.len() as int, true) + texture_slots(
                        writes,
                        (rw.len() + ro.len()) as int,
                        ComputeBindingKind::StorageTextureWrite,
                    ) + texture_slots(reads, (rw.len() + ro.len() + writes.len()) as int, ComputeBindingKind::SampledTexture),
                    buffer_slots(res, g1_rw, 0, false) + buffer_slots(res, g1_ro, g1_rw.len() as int, true),
                ),
            ),
        }
    }
}

/// Appends the storage buffers `ids`, numbered from `base`, or stops at the first undeclared one.
fn push_buffer_slots(
    out: &mut Vec<ComputeBinding>,
    doc: &RenderGraphDocument,
    ids: &Vec<String>,
    base: usize,
    read_only: bool,
) -> (r: Result<(), RenderGraphExecError>)
    requires
        base + ids@.len() <= u32::MAX,
    ensures
        r is Ok <==> buffers_declared(doc.resources@, ids@) is Ok,
        r matches Err(e) ==> buffers_declared(doc.resources@, ids@) == Err::<(), ExecErrorModel>(e@),
        r is Ok ==> slots(final(out)@) == slots(old(out)@) + buffer_slots(doc.resources@, ids@, base as int, read_only),
{
    let ghost res = doc.resources@;
    let ghost f = |k: int| buffer_declared_check(res, ids@, k);
    let ghost start = slots(out@);
    let mut k: usize = 0;
    while k < ids.len()
        invariant
            k <= ids@.len(),
            base + ids@.len() <= u32::MAX,
            res == doc.resources@,
            f == (|k: int| buffer_declared_check(res, ids@, k)),
            first_failure(k as nat, f) == Ok::<(), ExecErrorModel>(()),
            slots(out@) == start + buffer_slots(res, ids@, base as int, read_only).subrange(0, k as int),
        decreases ids.len() - k,
    {
        let id = ids[k].as_str();
        match buffer_decl_size_bytes(doc, id) {
            Err(e) => {
                proof {
                    lemma_first_failure_stable((k + 1) as nat, ids@.len(), f);
                }
                return Err(e);
            },
            Ok(size) => {
                let min_size = if size >= 4 { size } else { 4 };
                let b = ComputeBinding {
                    binding: (base + k) as u32,
                    resource: ids[k].clone(),
                    kind: ComputeBindingKind::StorageBuffer { read_only, min_size },
                };
                let ghost before = out@;
                out.push(b);
                proof {
                    assert(slots(out@) =~= slots(before) + seq![b@]);
                    assert(buffer_slots(res, ids@, base as int, read_only).subrange(0, k + 1) =~= buffer_slots(
                        res,
                        ids@,
                        base as int,
                        read_only,
                    ).subrange(0, k as int) + seq![b@]);
                }
                k = k + 1;
            },
        }
    }
    proof {
        assert(buffer_slots(res, ids@, base as int, read_only).subrange(0, ids@.len() as int) =~= buffer_slots(
            res,
            ids@,
            base as int,
            read_only,
        ));
    }
    Ok(())
}

/// Appends the textures `ids`, numbered from `base`, all as `kind`.
fn push_texture_slots(out: &mut Vec<ComputeBinding>, ids: &Vec<String>, base: usize, kind: ComputeBindingKind)
    requires
        base + ids@.len() <= u32::MAX,
    ensures
        slots(final(out)@) == slots(old(out)@) + texture_slots(ids@, base as int, kind),
{
    let ghost start = slots(out@);
    let mut k: usize = 0;
    while k < ids.len()
        invariant
            k <= ids@.len(),
            base + ids@.len() <= u32::MAX,
            slots(out@) == start + texture_slots(ids@, base as int, kind).subrange(0, k as int),
        decreases ids.len() - k,
    {
        let b = ComputeBinding { binding: (base + k) as u32, resource: ids[k].clone(), kind };
        let ghost before = out@;
        out.push(b);
        proof {
            assert(slots(out@) =~= slots(before) + seq![b@]);
            assert(texture_slots(ids@, base as int, kind).subrange(0, k + 1) =~= texture_slots(
                ids@,
                base as int,
                kind,
            ).subrange(0, k as int) + seq![b@]);
        }
        k = k + 1;
    }
    proof {
        assert(texture_slots(ids@, base as int, kind).subrange(0, ids@.len() as int) =~= texture_slots(
            ids@,
            base as int,
            kind,
        ));
    }
}

/// The bindings of a compute pass of `doc` (see [`compute_bindings_outcome`]).
pub fn compute_bindings(doc: &RenderGraphDocument, pass: &Pass) -> (r: Result<ComputeBindings, RenderGraphExecError>)
    requires
        pass is Compute,
        pass->storage_buffers@.len() + pass->storage_buffers_read@.len() + pass->storage_writes@.len()
            + pass->texture_reads@.len() <= u32::MAX,
        pass->storage_buffers_group1@.len() + pass->storage_buffers_read_group1@.len() <= u32::MAX,
    ensures
        ({
            let o = compute_bindings_outcome(
                doc.resources@,
                pass->Compute_id@,
                pass->storage_buffers@,
                pass->storage_buffers_read@,
                pass->storage_writes@,
                pass->texture_reads@,
                pass->storage_buffers_group1@,
                pass->storage_buffers_read_group1@,
            );
            match r {
                Ok(b) => o == Ok::<(Seq<BindingSlot>, Seq<BindingSlot>), ExecErrorModel>((slots(b.group0@), slots(b.group1@))),
                Err(e) => o == Err::<(Seq<BindingSlot>, Seq<BindingSlot>), ExecErrorModel>(e@),
            }
        }),
{
    match pass {
        Pass::Compute {
            id,
            storage_buffers,
            storage_buffers_read,
            storage_writes,
            texture_reads,
            storage_buffers_group1,
            storage_buffers_read_group1,
            ..
        } => {
            let n_rw = storage_buffers.len();
            let n_ro = storage_buffers_read.len();
            let n_w = storage_writes.len();
            let n0 = n_rw + n_ro + n_w + texture_reads.len();
            let n1 = storage_buffers_group1.len() + storage_buffers_read_group1.len();
            if n0 == 0 && n1 > 0 {
                let mut m = String::from_str("compute pass ");
                let q = debug_quoted(id.as_str());
                m.append(q.as_str());
                m.append(": bind group 1 buffers require group-0 bindings (validate_exec_v0 should catch this)");
                return Err(RenderGraphExecError::MissingResource(m));
            }
            let mut group0: Vec<ComputeBinding> = Vec::new();
            let mut group1: Vec<ComputeBinding> = Vec::new();
            assert(slots(group0@) =~= Seq::<BindingSlot>::empty());
            assert(slots(group1@) =~= Seq::<BindingSlot>::empty());
            push_buffer_slots(&mut group0, doc, storage_buffers, 0, false)?;
            push_buffer_slots(&mut group0, doc, storage_buffers_read, n_rw, true)?;
            push_buffer_slots(&mut group1, doc, storage_buffers_group1, 0, false)?;
            push_buffer_slots(&mut group1, doc, storage_buffers_read_group1, storage_buffers_group1.len(), true)?;
            push_texture_slots(&mut group0, storage_writes, n_rw + n_ro, ComputeBindingKind::StorageTextureWrite);
            push_texture_slots(&mut group0, texture_reads, n_rw + n_ro + n_w, ComputeBindingKind::SampledTexture);
            Ok(ComputeBindings { group0, group1 })
        },
        _ => Err(RenderGraphExecError::MissingResource(String::new())),
    }
}

/// Every listed buffer that passes its validation rule is declared.
proof fn lemma_checked_buffers_declared(res: Seq<Resource>, ids: Seq<String>, checked: spec_fn(int) -> Check)
    requires
        first_failure(ids.len(), checked) is Ok,
        forall|k: int| 0 <= k < ids.len() && (#[trigger] checked(k)) is Ok ==> has_buffer(res, ids[k]@),
    ensures
        buffers_declared(res, ids) is Ok,
{
    lemma_first_failure_ok(ids.len(), checked);
    lemma_first_failure_ok(ids.len(), |k: int| buffer_declared_check(res, ids, k));
    assert forall|k: int| 0 <= k < ids.len() implies (#[trigger] buffer_declared_check(res, ids, k)) is Ok by {
        assert(checked(k) is Ok);
    }
}

/// A compute pass that passes its validation rules can be bound.
proof fn lemma_compute_check_binds(
    res: Seq<Resource>,
    pid: Seq<char>,
    tr: Seq<String>,
    sw: Seq<String>,
    sb: Seq<String>,
    sbr: Seq<String>,
    g1: Seq<String>,
    g1r: Seq<String>,
    ind: Option<IndirectDispatchArgs>,
)
    requires
        compute_check(res, pid, tr, sw, sb, sbr, g1, g1r, ind) is Ok,
    ensures
        compute_bindings_outcome(res, pid, sb, sbr, sw, tr, g1, g1r) is Ok,
{
    lemma_checked_buffers_declared(res, sb, |i: int| storage_buffer_check(res, pid, sb, i));
    lemma_checked_buffers_declared(res, sbr, |i: int| storage_buffer_read_check(res, pid, sbr, sb, i));
    lemma_checked_buffers_declared(res, g1, |i: int| group1_buffer_check(res, pid, g1, sb, sbr, i));
    lemma_checked_buffers_declared(res, g1r, |i: int| group1_buffer_read_check(res, pid, g1r, g1, sb, sbr, i));
}

/// A buffer slot of `ids` starting at `base`: slot `k` binds `ids[k]` as number `base + k`, a
/// storage buffer of the given access whose minimum size is the declared size of the first buffer
/// of that name, at least 4 bytes.
pub open spec fn buffer_slot_ok(res: Seq<Resource>, slot: BindingSlot, id: Seq<char>, number: int, read_only: bool) -> bool {
    &&& slot.0 as int == number
    &&& slot.1 == id
    &&& exists|kk: int| #[trigger] first_buffer_at(res, id, kk) && (res[kk] matches Resource::Buffer { size, .. } && slot.2
        == ComputeBindingKind::StorageBuffer { read_only, min_size: if size >= 4 { size } else { 4 } })
}

/// The bindings of a compute pass, when they can be made: group 0 numbers its bindings 0, 1, 2,
/// ... in this order: the read-write storage buffers, the read-only storage buffers, the textures
/// it writes (as write-only storage textures), then the textures it reads (as sampled textures);
/// group 1 numbers its read-write then read-only buffers from 0. Each storage buffer's minimum
/// binding size is its declared size, at least 4 bytes.
pub proof fn lemma_compute_binding_numbers(
    res: Seq<Resource>,
    pid: Seq<char>,
    rw: Seq<String>,
    ro: Seq<String>,
    writes: Seq<String>,
    reads: Seq<String>,
    g1_rw: Seq<String>,
    g1_ro: Seq<String>,
)
    requires
        rw.len() + ro.len() + writes.len() + reads.len() <= u32::MAX,
        g1_rw.len() + g1_ro.len() <= u32::MAX,
        compute_bindings_outcome(res, pid, rw, ro, writes, reads, g1_rw, g1_ro) is Ok,
    ensures
        ({
            let (g0, g1) = compute_bindings_outcome(res, pid, rw, ro, writes, reads, g1_rw, g1_ro)->Ok_0;
            let a = rw.len() as int;
            let b = a + ro.len();
            let c = b + writes.len();
            &&& g0.len() == c + reads.len()
            &&& forall|k: int| 0 <= k < a ==> buffer_slot_ok(res, #[trigger] g0[k], rw[k]@, k, false)
            &&& forall|k: int| a <= k < b ==> buffer_slot_ok(res, #[trigger] g0[k], ro[k - a]@, k, true)
            &&& forall|k: int| b <= k < c ==> #[trigger] g0[k] == (k as u32, writes[k - b]@, ComputeBindingKind::StorageTextureWrite)
            &&& forall|k: int| c <= k < g0.len() ==> #[trigger] g0[k] == (k as u32, reads[k - c]@, ComputeBindingKind::SampledTexture)
            &&& g1.len() == g1_rw.len() + g1_ro.len()
            &&& forall|k: int| 0 <= k < g1_rw.len() ==> buffer_slot_ok(res, #[trigger] g1[k], g1_rw[k]@, k, false)
            &&& forall|k: int| g1_rw.len() <= k < g1.len() ==> buffer_slot_ok(res, #[trigger] g1[k], g1_ro[k - g1_rw.len()]@, k, true)
        }),
{
    let chk = then_check(
        buffers_declared(res, rw),
        then_check(buffers_declared(res, ro), then_check(buffers_declared(res, g1_rw), buffers_declared(res, g1_ro))),
    );
    assert(chk is Ok);
    lemma_slots_declared(res, rw, 0, false);
    lemma_slots_declared(res, ro, rw.len() as int, true);
    lemma_slots_declared(res, g1_rw, 0, false);
    lemma_slots_declared(res, g1_ro, g1_rw.len() as int, true);
    let (g0, g1) = compute_bindings_outcome(res, pid, rw, ro, writes, reads, g1_rw, g1_ro)->Ok_0;
    let s1 = buffer_slots(res, rw, 0, false);
    let s2 = buffer_slots(res, ro, rw.len() as int, true);
    let s3 = texture_slots(writes, (rw.len() + ro.len()) as int, ComputeBindingKind::StorageTextureWrite);
    let s4 = texture_slots(reads, (rw.len() + ro.len() + writes.len()) as int, ComputeBindingKind::SampledTexture);
    assert(g0 == s1 + s2 + s3 + s4);
    let a = rw.len() as int;
    let b = a + ro.len();
    let c = b + writes.len();
    assert forall|k: int| 0 <= k < a implies buffer_slot_ok(res, #[trigger] g0[k], rw[k]@, k, false) by {
        assert(g0[k] == s1[k]);
    }
    assert forall|k: int| a <= k < b implies buffer_slot_ok(res, #[trigger] g0[k], ro[k - a]@, k, true) by {
        assert(g0[k] == s2[k - a]);
    }
    assert forall|k: int| b <= k < c implies #[trigger] g0[k] == (k as u32, writes[k - b]@, ComputeBindingKind::StorageTextureWrite) by {
        assert(g0[k] == s3[k - b]);
    }
    assert forall|k: int| c <= k < g0.len() implies #[trigger] g0[k] == (k as u32, reads[k - c]@, ComputeBindingKind::SampledTexture) by {
        assert(g0[k] == s4[k - c]);
    }
    let t1 = buffer_slots(res, g1_rw, 0, false);
    let t2 = buffer_slots(res, g1_ro, g1_rw.len() as int, true);
    assert(g1 == t1 + t2);
    assert forall|k: int| 0 <= k < g1_rw.len() implies buffer_slot_ok(res, #[trigger] g1[k], g1_rw[k]@, k, false) by {
        assert(g1[k] == t1[k]);
    }
    assert forall|k: int| g1_rw.len() <= k < g1.len() implies buffer_slot_ok(res, #[trigger] g1[k], g1_ro[k - g1_rw.len()]@, k, true) by {
        assert(g1[k] == t2[k - g1_rw.len()]);
    }
}

proof fn lemma_slots_declared(res: Seq<Resource>, ids: Seq<String>, base: int, read_only: bool)
    requires
        buffers_declared(res, ids) is Ok,
        0 <= base,
        base + ids.len() <= u32::MAX,
    ensures
        forall|k: int| 0 <= k < ids.len() ==> buffer_slot_ok(res, #[trigger] buffer_slots(res, ids, base, read_only)[k], ids[k]@, base + k, read_only),
{
    let f = |k: int| buffer_declared_check(res, ids, k);
    assert(buffers_declared(res, ids) == first_failure(ids.len(), f));
    lemma_first_failure_ok(ids.len(), f);
    assert forall|k: int| 0 <= k < ids.len() implies buffer_slot_ok(res, #[trigger] buffer_slots(res, ids, base, read_only)[k], ids[k]@, base + k, read_only) by {
        assert(f(k) is Ok);
        lemma_buffer_decl_first(res, ids[k]@);
        let kk = choose|kk: int| #[trigger] first_buffer_at(res, ids[k]@, kk) && buffer_decl(res, ids[k]@) == res[kk];
        assert(first_buffer_at(res, ids[k]@, kk));
    }
}

/// Every compute pass of a document that passes execution validation can be bound: the executor
/// meets neither an undeclared buffer nor group-1 buffers without a group 0.
pub proof fn lemma_validated_compute_passes_bind(doc: RenderGraphDocument, readback: Seq<char>, i: int)
    requires
        exec_check(doc, readback) is Ok,
        0 <= i < doc.passes@.len(),
        doc.passes@[i] is Compute,
    ensures
        ({
            let p = doc.passes@[i];
            compute_bindings_outcome(
                doc.resources@,
                p->Compute_id@,
                p->storage_buffers@,
                p->storage_buffers_read@,
                p->storage_writes@,
                p->texture_reads@,
                p->storage_buffers_group1@,
                p->storage_buffers_read_group1@,
            ) is Ok
        }),
{
    let res = doc.resources@;
    let f = |j: int| pass_semantics_check(doc.resources@, doc.passes@[j]);
    assert(semantics_check(doc) == first_failure(doc.passes@.len(), f));
    lemma_first_failure_ok(doc.passes@.len(), f);
    assert(f(i) is Ok);
    match doc.passes@[i] {
        Pass::Compute {
            id,
            texture_reads,
            storage_writes,
            storage_buffers,
            storage_buffers_read,
            storage_buffers_group1,
            storage_buffers_read_group1,
            indirect_dispatch,
            ..
        } => {
            lemma_compute_check_binds(
                res,
                id@,
                texture_reads@,
                storage_writes@,
                storage_buffers@,
                storage_buffers_read@,
                storage_buffers_group1@,
                storage_buffers_read_group1@,
                indirect_dispatch,
            );
        },
        _ => {},
    }
}

/// Every blit pass of a document that passes execution validation can be measured by the
/// executor, and the block it copies lies inside the source mip and the destination mip.
pub proof fn lemma_validated_blits_copy_inside(doc: RenderGraphDocument, readback: Seq<char>, i: int)
    requires
        exec_check(doc, readback) is Ok,
        0 <= i < doc.passes@.len(),
        doc.passes@[i] is Blit,
    ensures
        ({
            let p = doc.passes@[i];
            let s = texture_decl(doc.resources@, p->source@);
            let d = texture_decl(doc.resources@, p->destination@);
            let c = blit_copy(width_of(s), height_of(s), width_of(d), height_of(d), p->region);
            &&& p->region matches Some(reg) ==> blit_origins_inside(
                width_of(s),
                height_of(s),
                width_of(d),
                height_of(d),
                reg,
            )
            &&& c.src_x + c.width <= mip_extent(width_of(s), c.src_mip_level as nat)
            &&& c.src_y + c.height <= mip_extent(height_of(s), c.src_mip_level as nat)
            &&& c.dst_x + c.width <= mip_extent(width_of(d), c.dst_mip_level as nat)
            &&& c.dst_y + c.height <= mip_extent(height_of(d), c.dst_mip_level as nat)
        }),
{
    let f = |j: int| pass_semantics_check(doc.resources@, doc.passes@[j]);
    assert(semantics_check(doc) == first_failure(doc.passes@.len(), f));
    lemma_first_failure_ok(doc.passes@.len(), f);
    assert(f(i) is Ok);
    let p = doc.passes@[i];
    let s = texture_decl(doc.resources@, p->source@);
    let d = texture_decl(doc.resources@, p->destination@);
    if let Some(reg) = p->region {
        lemma_valid_blit_region_copies_inside(reg, s, d);
    }
}

} // verus!
