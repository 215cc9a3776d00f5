//! Static checks for executing a render-graph document on the GPU: known formats and usage flags,
//! a readback target, and per pass the wiring of its textures and buffers (declared usages must
//! cover how the pass uses them, no duplicate bindings, depth formats for depth targets).

use vstd::prelude::*;

use crate::render_graph::{opt_str, BlitRegion, IndirectDispatchArgs, pass_ecs_after, pass_ecs_before, pass_id, Pass, RenderGraphDocument, Resource};
use crate::scan::{first_failure, lemma_first_failure_ok, lemma_first_failure_stable, then_check};
use crate::text::{debug_quoted, debug_text, contains_str, contains_str_before, decimal, decimal_string, occurs_before, str_eq, strs};

verus! {

// ───────────────────────────── errors ─────────────────────────────

/// Why a document cannot be executed.
#[derive(Debug, Clone, PartialEq, Eq)]
pub enum RenderGraphValidateError {
    UnknownTextureFormat(String),
    UnknownBufferUsage(String),
    UnknownTextureUsage(String),
    MissingResource(String),
    EmptyColorTargets(String),
    InvalidReadbackFormat { id: String, got: String },
    DuplicateRasterColorTarget { pass_id: String, texture_id: String },
    InvalidDepthTargetFormat { texture_id: String, got: String },
    TextureSemanticUsageMissing { pass_id: String, texture_id: String, missing: String, declared: Vec<String> },
    BufferSemanticUsageMissing { pass_id: String, buffer_id: String, missing: String, declared: Vec<String> },
    DuplicateComputeStorageBuffer { pass_id: String, buffer_id: String },
    DuplicateComputeStorageBufferRead { pass_id: String, buffer_id: String },
    ComputeStorageBufferRwRoConflict { pass_id: String, buffer_id: String },
    ComputeGroup1RequiresGroup0 { pass_id: String },
    DuplicateComputeStorageBufferGroup1 { pass_id: String, buffer_id: String },
    DuplicateComputeStorageBufferReadGroup1 { pass_id: String, buffer_id: String },
    ComputeStorageBufferGroup1RwRoConflict { pass_id: String, buffer_id: String },
    ComputeBufferSharedAcrossBindGroups { pass_id: String, buffer_id: String },
    DuplicateComputeStorageTexture { pass_id: String, texture_id: String },
    DuplicateComputeReadTexture { pass_id: String, texture_id: String },
    ComputeTextureReadWriteConflict { pass_id: String, texture_id: String },
    InvalidComputeTextureReadFormat { pass_id: String, texture_id: String, got: String },
    BlitSameTexture { pass_id: String, texture_id: String },
    BlitFormatMismatch { pass_id: String, src_id: String, dst_id: String, src_fmt: String, dst_fmt: String },
    BlitExtentMismatch { pass_id: String, src_id: String, dst_id: String, sw: u32, sh: u32, dw: u32, dh: u32 },
    InvalidTextureMipLevelCount { id: String, got: u32 },
    BlitRegionInvalid { pass_id: String, src_id: String, dst_id: String },
    IndirectBufferUsageMissing { pass_id: String, buffer_id: String, missing: String, declared: Vec<String> },
    IndirectDispatchOutOfBuffer { pass_id: String, buffer_id: String, offset: u64, size: u64 },
    IndirectDispatchOffsetMisaligned { pass_id: String, buffer_id: String, offset: u64 },
    EcsLabelEmpty { pass_id: String, field: &'static str },
    RasterDepthMeshInvalid { pass_id: String, detail: String },
}

/// Mathematical model of a [`RenderGraphValidateError`]: strings as character sequences.
pub enum ExecFailure {
    UnknownTextureFormat(Seq<char>),
    UnknownBufferUsage(Seq<char>),
    UnknownTextureUsage(Seq<char>),
    MissingResource(Seq<char>),
    EmptyColorTargets(Seq<char>),
    InvalidReadbackFormat { id: Seq<char>, got: Seq<char> },
    DuplicateRasterColorTarget { pass_id: Seq<char>, texture_id: Seq<char> },
    InvalidDepthTargetFormat { texture_id: Seq<char>, got: Seq<char> },
    TextureSemanticUsageMissing { pass_id: Seq<char>, texture_id: Seq<char>, missing: Seq<char>, declared: Seq<Seq<char>> },
    BufferSemanticUsageMissing { pass_id: Seq<char>, buffer_id: Seq<char>, missing: Seq<char>, declared: Seq<Seq<char>> },
    DuplicateComputeStorageBuffer { pass_id: Seq<char>, buffer_id: Seq<char> },
    DuplicateComputeStorageBufferRead { pass_id: Seq<char>, buffer_id: Seq<char> },
    ComputeStorageBufferRwRoConflict { pass_id: Seq<char>, buffer_id: Seq<char> },
    ComputeGroup1RequiresGroup0 { pass_id: Seq<char> },
    DuplicateComputeStorageBufferGroup1 { pass_id: Seq<char>, buffer_id: Seq<char> },
    DuplicateComputeStorageBufferReadGroup1 { pass_id: Seq<char>, buffer_id: Seq<char> },
    ComputeStorageBufferGroup1RwRoConflict { pass_id: Seq<char>, buffer_id: Seq<char> },
    ComputeBufferSharedAcrossBindGroups { pass_id: Seq<char>, buffer_id: Seq<char> },
    DuplicateComputeStorageTexture { pass_id: Seq<char>, texture_id: Seq<char> },
    DuplicateComputeReadTexture { pass_id: Seq<char>, texture_id: Seq<char> },
    ComputeTextureReadWriteConflict { pass_id: Seq<char>, texture_id: Seq<char> },
    InvalidComputeTextureReadFormat { pass_id: Seq<char>, texture_id: Seq<char>, got: Seq<char> },
    BlitSameTexture { pass_id: Seq<char>, texture_id: Seq<char> },
    BlitFormatMismatch { pass_id: Seq<char>, src_id: Seq<char>, dst_id: Seq<char>, src_fmt: Seq<char>, dst_fmt: Seq<char> },
    BlitExtentMismatch { pass_id: Seq<char>, src_id: Seq<char>, dst_id: Seq<char>, sw: u32, sh: u32, dw: u32, dh: u32 },
    InvalidTextureMipLevelCount { id: Seq<char>, got: u32 },
    BlitRegionInvalid { pass_id: Seq<char>, src_id: Seq<char>, dst_id: Seq<char> },
    IndirectBufferUsageMissing { pass_id: Seq<char>, buffer_id: Seq<char>, missing: Seq<char>, declared: Seq<Seq<char>> },
    IndirectDispatchOutOfBuffer { pass_id: Seq<char>, buffer_id: Seq<char>, offset: u64, size: u64 },
    IndirectDispatchOffsetMisaligned { pass_id: Seq<char>, buffer_id: Seq<char>, offset: u64 },
    EcsLabelEmpty { pass_id: Seq<char>, field: Seq<char> },
    RasterDepthMeshInvalid { pass_id: Seq<char>, detail: Seq<char> },
}

impl View for RenderGraphValidateError {
    type V = ExecFailure;

    open spec fn view(&self) -> ExecFailure {
        match self {
            RenderGraphValidateError::UnknownTextureFormat(s) => ExecFailure::UnknownTextureFormat(s@),
            RenderGraphValidateError::UnknownBufferUsage(s) => ExecFailure::UnknownBufferUsage(s@),
            RenderGraphValidateError::UnknownTextureUsage(s) => ExecFailure::UnknownTextureUsage(s@),
            RenderGraphValidateError::MissingResource(s) => ExecFailure::MissingResource(s@),
            RenderGraphValidateError::EmptyColorTargets(s) => ExecFailure::EmptyColorTargets(s@),
            RenderGraphValidateError::InvalidReadbackFormat { id, got } =>
                ExecFailure::InvalidReadbackFormat { id: id@, got: got@ },
            RenderGraphValidateError::DuplicateRasterColorTarget { pass_id, texture_id } =>
                ExecFailure::DuplicateRasterColorTarget { pass_id: pass_id@, texture_id: texture_id@ },
            RenderGraphValidateError::InvalidDepthTargetFormat { texture_id, got } =>
                ExecFailure::InvalidDepthTargetFormat { texture_id: texture_id@, got: got@ },
            RenderGraphValidateError::TextureSemanticUsageMissing { pass_id, texture_id, missing, declared } =>
                ExecFailure::TextureSemanticUsageMissing {
                    pass_id: pass_id@, texture_id: texture_id@, missing: missing@, declared: strs(declared@),
                },
            RenderGraphValidateError::BufferSemanticUsageMissing { pass_id, buffer_id, missing, declared } =>
                ExecFailure::BufferSemanticUsageMissing {
                    pass_id: pass_id@, buffer_id: buffer_id@, missing: missing@, declared: strs(declared@),
                },
            RenderGraphValidateError::DuplicateComputeStorageBuffer { pass_id, buffer_id } =>
                ExecFailure::DuplicateComputeStorageBuffer { pass_id: pass_id@, buffer_id: buffer_id@ },
            RenderGraphValidateError::DuplicateComputeStorageBufferRead { pass_id, buffer_id } =>
                ExecFailure::DuplicateComputeStorageBufferRead { pass_id: pass_id@, buffer_id: buffer_id@ },
            RenderGraphValidateError::ComputeStorageBufferRwRoConflict { pass_id, buffer_id } =>
                ExecFailure::ComputeStorageBufferRwRoConflict { pass_id: pass_id@, buffer_id: buffer_id@ },
            RenderGraphValidateError::ComputeGroup1RequiresGroup0 { pass_id } =>
                ExecFailure::ComputeGroup1RequiresGroup0 { pass_id: pass_id@ },
            RenderGraphValidateError::DuplicateComputeStorageBufferGroup1 { pass_id, buffer_id } =>
                ExecFailure::DuplicateComputeStorageBufferGroup1 { pass_id: pass_id@, buffer_id: buffer_id@ },
            RenderGraphValidateError::DuplicateComputeStorageBufferReadGroup1 { pass_id, buffer_id } =>
                ExecFailure::DuplicateComputeStorageBufferReadGroup1 { pass_id: pass_id@, buffer_id: buffer_id@ },
            RenderGraphValidateError::ComputeStorageBufferGroup1RwRoConflict { pass_id, buffer_id } =>
                ExecFailure::ComputeStorageBufferGroup1RwRoConflict { pass_id: pass_id@, buffer_id: buffer_id@ },
            RenderGraphValidateError::ComputeBufferSharedAcrossBindGroups { pass_id, buffer_id } =>
                ExecFailure::ComputeBufferSharedAcrossBindGroups { pass_id: pass_id@, buffer_id: buffer_id@ },
            RenderGraphValidateError::DuplicateComputeStorageTexture { pass_id, texture_id } =>
                ExecFailure::DuplicateComputeStorageTexture { pass_id: pass_id@, texture_id: texture_id@ },
            RenderGraphValidateError::DuplicateComputeReadTexture { pass_id, texture_id } =>
                ExecFailure::DuplicateComputeReadTexture { pass_id: pass_id@, texture_id: texture_id@ },
            RenderGraphValidateError::ComputeTextureReadWriteConflict { pass_id, texture_id } =>
                ExecFailure::ComputeTextureReadWriteConflict { pass_id: pass_id@, texture_id: texture_id@ },
            RenderGraphValidateError::InvalidComputeTextureReadFormat { pass_id, texture_id, got } =>
                ExecFailure::InvalidComputeTextureReadFormat {
                    pass_id: pass_id@, texture_id: texture_id@, got: got@,
                },
            RenderGraphValidateError::BlitSameTexture { pass_id, texture_id } =>
                ExecFailure::BlitSameTexture { pass_id: pass_id@, texture_id: texture_id@ },
            RenderGraphValidateError::BlitFormatMismatch { pass_id, src_id, dst_id, src_fmt, dst_fmt } =>
                ExecFailure::BlitFormatMismatch {
                    pass_id: pass_id@, src_id: src_id@, dst_id: dst_id@, src_fmt: src_fmt@, dst_fmt: dst_fmt@,
                },
            RenderGraphValidateError::BlitExtentMismatch { pass_id, src_id, dst_id, sw, sh, dw, dh } =>
                ExecFailure::BlitExtentMismatch {
                    pass_id: pass_id@, src_id: src_id@, dst_id: dst_id@, sw: *sw, sh: *sh, dw: *dw, dh: *dh,
                },
            RenderGraphValidateError::InvalidTextureMipLevelCount { id, got } =>
                ExecFailure::InvalidTextureMipLevelCount { id: id@, got: *got },
            RenderGraphValidateError::BlitRegionInvalid { pass_id, src_id, dst_id } =>
                ExecFailure::BlitRegionInvalid { pass_id: pass_id@, src_id: src_id@, dst_id: dst_id@ },
            RenderGraphValidateError::IndirectBufferUsageMissing { pass_id, buffer_id, missing, declared } =>
                ExecFailure::IndirectBufferUsageMissing {
                    pass_id: pass_id@, buffer_id: buffer_id@, missing: missing@, declared: strs(declared@),
                },
            RenderGraphValidateError::IndirectDispatchOutOfBuffer { pass_id, buffer_id, offset, size } =>
                ExecFailure::IndirectDispatchOutOfBuffer {
                    pass_id: pass_id@, buffer_id: buffer_id@, offset: *offset, size: *size,
                },
            RenderGraphValidateError::IndirectDispatchOffsetMisaligned { pass_id, buffer_id, offset } =>
                ExecFailure::IndirectDispatchOffsetMisaligned { pass_id: pass_id@, buffer_id: buffer_id@, offset: *offset },
            RenderGraphValidateError::EcsLabelEmpty { pass_id, field } =>
                ExecFailure::EcsLabelEmpty { pass_id: pass_id@, field: field@ },
            RenderGraphValidateError::RasterDepthMeshInvalid { pass_id, detail } =>
                ExecFailure::RasterDepthMeshInvalid { pass_id: pass_id@, detail: detail@ },
        }
    }
}

/// Model of a check outcome.
pub type Check = Result<(), ExecFailure>;

/// Model of an executable check outcome.
pub open spec fn outcome(r: Result<(), RenderGraphValidateError>) -> Check {
    match r {
        Ok(_) => Ok(()),
        Err(e) => Err(e@),
    }
}


// ───────────────────────────── resource lookup ─────────────────────────────

/// `r` is a texture named `id`.
pub open spec fn is_texture(r: Resource, id: Seq<char>) -> bool {
    r matches Resource::Texture2d { id: tid, .. } && tid@ == id
}

/// `r` is a buffer named `id`.
pub open spec fn is_buffer(r: Resource, id: Seq<char>) -> bool {
    r matches Resource::Buffer { id: bid, .. } && bid@ == id
}

/// A texture named `id` is declared.
pub open spec fn has_texture(res: Seq<Resource>, id: Seq<char>) -> bool {
    exists|i: int| 0 <= i < res.len() && is_texture(#[trigger] res[i], id)
}

/// A buffer named `id` is declared.
pub open spec fn has_buffer(res: Seq<Resource>, id: Seq<char>) -> bool {
    exists|i: int| 0 <= i < res.len() && is_buffer(#[trigger] res[i], id)
}

/// `i` is the first index where `p` holds.
pub open spec fn is_first(p: spec_fn(int) -> bool, i: int) -> bool {
    0 <= i && p(i) && forall|j: int| 0 <= j < i ==> !#[trigger] p(j)
}

/// The first index where `p` holds (meaningful when there is one).
pub open spec fn first_index(p: spec_fn(int) -> bool) -> int {
    choose|i: int| is_first(p, i)
}

pub proof fn lemma_first_index(p: spec_fn(int) -> bool, i: int)
    requires
        is_first(p, i),
    ensures
        first_index(p) == i,
{
    let c = first_index(p);
    assert(is_first(p, c));
    if c < i {
        assert(!p(c));
    } else if i < c {
        assert(!p(i));
    }
}

/// The first declaration of the texture `id` (the one the checks read).
pub open spec fn texture_decl(res: Seq<Resource>, id: Seq<char>) -> Resource {
    res[first_index(|i: int| 0 <= i < res.len() && is_texture(res[i], id))]
}

/// The first declaration of the buffer `id`.
pub open spec fn buffer_decl(res: Seq<Resource>, id: Seq<char>) -> Resource {
    res[first_index(|i: int| 0 <= i < res.len() && is_buffer(res[i], id))]
}

/// Declared usage flags of a resource.
pub open spec fn usage_of(r: Resource) -> Seq<String> {
    match r {
        Resource::Texture2d { usage, .. } => usage@,
        Resource::Buffer { usage, .. } => usage@,
    }
}

/// Declared format of a texture.
pub open spec fn format_of(r: Resource) -> Seq<char> {
    match r {
        Resource::Texture2d { format, .. } => format@,
        Resource::Buffer { .. } => Seq::empty(),
    }
}

/// The usage list contains `flag`.
pub open spec fn has_flag(usage: Seq<String>, flag: Seq<char>) -> bool {
    occurs_before(usage, usage.len() as int, flag)
}

/// Index of the first declaration of texture `id`, if any.
fn find_texture(res: &Vec<Resource>, id: &str) -> (r: Option<usize>)
    ensures
        match r {
            Some(i) => has_texture(res@, id@) && i < res@.len() && res@[i as int] == texture_decl(res@, id@)
                && is_texture(res@[i as int], id@),
            None => !has_texture(res@, id@),
        },
{
    let ghost p = |i: int| 0 <= i < res@.len() && is_texture(res@[i], id@);
    let mut i: usize = 0;
    while i < res.len()
        invariant
            i <= res@.len(),
            p == (|i: int| 0 <= i < res@.len() && is_texture(res@[i], id@)),
            forall|j: int| 0 <= j < i ==> !is_texture(#[trigger] res@[j], id@),
        decreases res.len() - i,
    {
        if let Resource::Texture2d { id: tid, .. } = &res[i] {
            if str_eq(tid.as_str(), id) {
                proof {
                    assert(is_first(p, i as int));
                    lemma_first_index(p, i as int);
                }
                return Some(i);
            }
        }
        i = i + 1;
    }
    None
}

/// Index of the first declaration of buffer `id`, if any.
fn find_buffer(res: &Vec<Resource>, id: &str) -> (r: Option<usize>)
    ensures
        match r {
            Some(i) => has_buffer(res@, id@) && i < res@.len() && res@[i as int] == buffer_decl(res@, id@)
                && is_buffer(res@[i as int], id@),
            None => !has_buffer(res@, id@),
        },
{
    let ghost p = |i: int| 0 <= i < res@.len() && is_buffer(res@[i], id@);
    let mut i: usize = 0;
    while i < res.len()
        invariant
            i <= res@.len(),
            p == (|i: int| 0 <= i < res@.len() && is_buffer(res@[i], id@)),
            forall|j: int| 0 <= j < i ==> !is_buffer(#[trigger] res@[j], id@),
        decreases res.len() - i,
    {
        if let Resource::Buffer { id: bid, .. } = &res[i] {
            if str_eq(bid.as_str(), id) {
                proof {
                    assert(is_first(p, i as int));
                    lemma_first_index(p, i as int);
                }
                return Some(i);
            }
        }
        i = i + 1;
    }
    None
}

fn usage_has(usage: &Vec<String>, flag: &str) -> (r: bool)
    ensures
        r == has_flag(usage@, flag@),
{
    contains_str(usage, flag)
}


fn clone_strings(v: &Vec<String>) -> (r: Vec<String>)
    ensures
        strs(r@) == strs(v@),
{
    let mut out: Vec<String> = Vec::new();
    let mut i: usize = 0;
    while i < v.len()
        invariant
            i <= v@.len(),
            out@.len() == i,
            forall|j: int| 0 <= j < i ==> (#[trigger] out@[j])@ == v@[j]@,
        decreases v.len() - i,
    {
        out.push(v[i].clone());
        i = i + 1;
    }
    assert(strs(out@) =~= strs(v@));
    out
}

// ───────────────────────────── usage checks ─────────────────────────────

/// The texture declaration `decl` of `t`, referenced by pass `pid`, declares `flag`.
pub open spec fn texture_usage_check(pid: Seq<char>, t: Seq<char>, decl: Resource, flag: Seq<char>) -> Check {
    if has_flag(usage_of(decl), flag) {
        Ok(())
    } else {
        Err(ExecFailure::TextureSemanticUsageMissing {
            pass_id: pid, texture_id: t, missing: flag, declared: strs(usage_of(decl)),
        })
    }
}

/// The buffer declaration `decl` of `b`, referenced by pass `pid`, declares `flag`.
pub open spec fn buffer_usage_check(pid: Seq<char>, b: Seq<char>, decl: Resource, flag: Seq<char>) -> Check {
    if has_flag(usage_of(decl), flag) {
        Ok(())
    } else {
        Err(ExecFailure::BufferSemanticUsageMissing {
            pass_id: pid, buffer_id: b, missing: flag, declared: strs(usage_of(decl)),
        })
    }
}

fn texture_usage_item(pid: &str, t: &str, decl: &Resource, flag: &str) -> (r: Result<(), RenderGraphValidateError>)
    ensures
        outcome(r) == texture_usage_check(pid@, t@, *decl, flag@),
{
    let usage = match decl {
        Resource::Texture2d { usage, .. } => usage,
        Resource::Buffer { usage, .. } => usage,
    };
    if usage_has(usage, flag) {
        Ok(())
    } else {
        Err(RenderGraphValidateError::TextureSemanticUsageMissing {
            pass_id: pid.to_owned(),
            texture_id: t.to_owned(),
            missing: flag.to_owned(),
            declared: clone_strings(usage),
        })
    }
}

fn buffer_usage_item(pid: &str, b: &str, decl: &Resource, flag: &str) -> (r: Result<(), RenderGraphValidateError>)
    ensures
        outcome(r) == buffer_usage_check(pid@, b@, *decl, flag@),
{
    let usage = match decl {
        Resource::Texture2d { usage, .. } => usage,
        Resource::Buffer { usage, .. } => usage,
    };
    if usage_has(usage, flag) {
        Ok(())
    } else {
        Err(RenderGraphValidateError::BufferSemanticUsageMissing {
            pass_id: pid.to_owned(),
            buffer_id: b.to_owned(),
            missing: flag.to_owned(),
            declared: clone_strings(usage),
        })
    }
}

/// `list[i]` already occurs earlier in `list`.
pub open spec fn repeated(list: Seq<String>, i: int) -> bool {
    occurs_before(list, i, list[i]@)
}

/// `s` occurs in `list`.
pub open spec fn listed(list: Seq<String>, s: Seq<char>) -> bool {
    occurs_before(list, list.len() as int, s)
}

// ───────────────────────────── compute passes ─────────────────────────────

/// Entry `i` of `storage_writes`: not repeated, a declared texture, with usage `storage`.
pub open spec fn storage_write_check(res: Seq<Resource>, pid: Seq<char>, sw: Seq<String>, i: int) -> Check {
    let t = sw[i]@;
    if repeated(sw, i) {
        Err(ExecFailure::DuplicateComputeStorageTexture { pass_id: pid, texture_id: t })
    } else if !has_texture(res, t) {
        Err(ExecFailure::MissingResource(t))
    } else {
        texture_usage_check(pid, t, texture_decl(res, t), "storage"@)
    }
}

/// Entry `i` of `texture_reads`: not repeated, not also a storage write, a declared texture in
/// `Rgba16Float` or `Rgba8Unorm`, with usage `texture_binding`.
pub open spec fn texture_read_check(
    res: Seq<Resource>,
    pid: Seq<char>,
    tr: Seq<String>,
    sw: Seq<String>,
    i: int,
) -> Check {
    let t = tr[i]@;
    if repeated(tr, i) {
        Err(ExecFailure::DuplicateComputeReadTexture { pass_id: pid, texture_id: t })
    } else if listed(sw, t) {
        Err(ExecFailure::ComputeTextureReadWriteConflict { pass_id: pid, texture_id: t })
    } else if !has_texture(res, t) {
        Err(ExecFailure::MissingResource(t))
    } else if !(format_of(texture_decl(res, t)) == "Rgba16Float"@ || format_of(texture_decl(res, t))
        == "Rgba8Unorm"@) {
        Err(ExecFailure::InvalidComputeTextureReadFormat {
            pass_id: pid, texture_id: t, got: format_of(texture_decl(res, t)),
        })
    } else {
        texture_usage_check(pid, t, texture_decl(res, t), "texture_binding"@)
    }
}

/// Entry `i` of `storage_buffers`: not repeated, a declared buffer with usage `storage`.
pub open spec fn storage_buffer_check(res: Seq<Resource>, pid: Seq<char>, sb: Seq<String>, i: int) -> Check {
    let b = sb[i]@;
    if repeated(sb, i) {
        Err(ExecFailure::DuplicateComputeStorageBuffer { pass_id: pid, buffer_id: b })
    } else if !has_buffer(res, b) {
        Err(ExecFailure::MissingResource(b))
    } else {
        buffer_usage_check(pid, b, buffer_decl(res, b), "storage"@)
    }
}

/// Entry `i` of `storage_buffers_read`: not repeated, not also read/write, a declared buffer with
/// usage `storage`.
pub open spec fn storage_buffer_read_check(
    res: Seq<Resource>,
    pid: Seq<char>,
    sbr: Seq<String>,
    sb: Seq<String>,
    i: int,
) -> Check {
    let b = sbr[i]@;
    if repeated(sbr, i) {
        Err(ExecFailure::DuplicateComputeStorageBufferRead { pass_id: pid, buffer_id: b })
    } else if listed(sb, b) {
        Err(ExecFailure::ComputeStorageBufferRwRoConflict { pass_id: pid, buffer_id: b })
    } else if !has_buffer(res, b) {
        Err(ExecFailure::MissingResource(b))
    } else {
        buffer_usage_check(pid, b, buffer_decl(res, b), "storage"@)
    }
}

/// Entry `i` of `storage_buffers_group1`: not repeated, not in bind group 0, a declared buffer
/// with usage `storage`.
pub open spec fn group1_buffer_check(
    res: Seq<Resource>,
    pid: Seq<char>,
    g1: Seq<String>,
    sb: Seq<String>,
    sbr: Seq<String>,
    i: int,
) -> Check {
    let b = g1[i]@;
    if repeated(g1, i) {
        Err(ExecFailure::DuplicateComputeStorageBufferGroup1 { pass_id: pid, buffer_id: b })
    } else if listed(sb, b) || listed(sbr, b) {
        Err(ExecFailure::ComputeBufferSharedAcrossBindGroups { pass_id: pid, buffer_id: b })
    } else if !has_buffer(res, b) {
        Err(ExecFailure::MissingResource(b))
    } else {
        buffer_usage_check(pid, b, buffer_decl(res, b), "storage"@)
    }
}

/// Entry `i` of `storage_buffers_read_group1`: not repeated, not read/write in group 1, not in
/// bind group 0, a declared buffer with usage `storage`.
pub open spec fn group1_buffer_read_check(
    res: Seq<Resource>,
    pid: Seq<char>,
    g1r: Seq<String>,
    g1: Seq<String>,
    sb: Seq<String>,
    sbr: Seq<String>,
    i: int,
) -> Check {
    let b = g1r[i]@;
    if repeated(g1r, i) {
        Err(ExecFailure::DuplicateComputeStorageBufferReadGroup1 { pass_id: pid, buffer_id: b })
    } else if listed(g1, b) {
        Err(ExecFailure::ComputeStorageBufferGroup1RwRoConflict { pass_id: pid, buffer_id: b })
    } else if listed(sb, b) || listed(sbr, b) {
        Err(ExecFailure::ComputeBufferSharedAcrossBindGroups { pass_id: pid, buffer_id: b })
    } else if !has_buffer(res, b) {
        Err(ExecFailure::MissingResource(b))
    } else {
        buffer_usage_check(pid, b, buffer_decl(res, b), "storage"@)
    }
}

fn storage_write_item(res: &Vec<Resource>, pid: &str, sw: &Vec<String>, i: usize) -> (r: Result<(), RenderGraphValidateError>)
    requires
        i < sw@.len(),
    ensures
        outcome(r) == storage_write_check(res@, pid@, sw@, i as int),
{
    let t = sw[i].as_str();
    if contains_str_before(sw, i, t) {
        return Err(RenderGraphValidateError::DuplicateComputeStorageTexture {
            pass_id: pid.to_owned(),
            texture_id: t.to_owned(),
        });
    }
    match find_texture(res, t) {
        None => Err(RenderGraphValidateError::MissingResource(t.to_owned())),
        Some(k) => texture_usage_item(pid, t, &res[k], "storage"),
    }
}

fn texture_read_item(res: &Vec<Resource>, pid: &str, tr: &Vec<String>, sw: &Vec<String>, i: usize) -> (r: Result<(), RenderGraphValidateError>)
    requires
        i < tr@.len(),
    ensures
        outcome(r) == texture_read_check(res@, pid@, tr@, sw@, i as int),
{
    let t = tr[i].as_str();
    if contains_str_before(tr, i, t) {
        return Err(RenderGraphValidateError::DuplicateComputeReadTexture {
            pass_id: pid.to_owned(),
            texture_id: t.to_owned(),
        });
    }
    if contains_str(sw, t) {
        return Err(RenderGraphValidateError::ComputeTextureReadWriteConflict {
            pass_id: pid.to_owned(),
            texture_id: t.to_owned(),
        });
    }
    match find_texture(res, t) {
        None => Err(RenderGraphValidateError::MissingResource(t.to_owned())),
        Some(k) => {
            let decl = &res[k];
            let format = match decl {
                Resource::Texture2d { format, .. } => format.as_str(),
                Resource::Buffer { .. } => "",
            };
            if !(str_eq(format, "Rgba16Float") || str_eq(format, "Rgba8Unorm")) {
                return Err(RenderGraphValidateError::InvalidComputeTextureReadFormat {
                    pass_id: pid.to_owned(),
                    texture_id: t.to_owned(),
                    got: format.to_owned(),
                });
            }
            texture_usage_item(pid, t, decl, "texture_binding")
        },
    }
}

fn storage_buffer_item(res: &Vec<Resource>, pid: &str, sb: &Vec<String>, i: usize) -> (r: Result<(), RenderGraphValidateError>)
    requires
        i < sb@.len(),
    ensures
        outcome(r) == storage_buffer_check(res@, pid@, sb@, i as int),
{
    let b = sb[i].as_str();
    if contains_str_before(sb, i, b) {
        return Err(RenderGraphValidateError::DuplicateComputeStorageBuffer {
            pass_id: pid.to_owned(),
            buffer_id: b.to_owned(),
        });
    }
    match find_buffer(res, b) {
        None => Err(RenderGraphValidateError::MissingResource(b.to_owned())),
        Some(k) => buffer_usage_item(pid, b, &res[k], "storage"),
    }
}

fn storage_buffer_read_item(res: &Vec<Resource>, pid: &str, sbr: &Vec<String>, sb: &Vec<String>, i: usize) -> (r: Result<(), RenderGraphValidateError>)
    requires
        i < sbr@.len(),
    ensures
        outcome(r) == storage_buffer_read_check(res@, pid@, sbr@, sb@, i as int),
{
    let b = sbr[i].as_str();
    if contains_str_before(sbr, i, b) {
        return Err(RenderGraphValidateError::DuplicateComputeStorageBufferRead {
            pass_id: pid.to_owned(),
            buffer_id: b.to_owned(),
        });
    }
    if contains_str(sb, b) {
        return Err(RenderGraphValidateError::ComputeStorageBufferRwRoConflict {
            pass_id: pid.to_owned(),
            buffer_id: b.to_owned(),
        });
    }
    match find_buffer(res, b) {
        None => Err(RenderGraphValidateError::MissingResource(b.to_owned())),
        Some(k) => buffer_usage_item(pid, b, &res[k], "storage"),
    }
}

fn group1_buffer_item(
    res: &Vec<Resource>,
    pid: &str,
    g1: &Vec<String>,
    sb: &Vec<String>,
    sbr: &Vec<String>,
    i: usize,
) -> (r: Result<(), RenderGraphValidateError>)
    requires
        i < g1@.len(),
    ensures
        outcome(r) == group1_buffer_check(res@, pid@, g1@, sb@, sbr@, i as int),
{
    let b = g1[i].as_str();
    if contains_str_before(g1, i, b) {
        return Err(RenderGraphValidateError::DuplicateComputeStorageBufferGroup1 {
            pass_id: pid.to_owned(),
            buffer_id: b.to_owned(),
        });
    }
    if contains_str(sb, b) || contains_str(sbr, b) {
        return Err(RenderGraphValidateError::ComputeBufferSharedAcrossBindGroups {
            pass_id: pid.to_owned(),
            buffer_id: b.to_owned(),
        });
    }
    match find_buffer(res, b) {
        None => Err(RenderGraphValidateError::MissingResource(b.to_owned())),
        Some(k) => buffer_usage_item(pid, b, &res[k], "storage"),
    }
}

fn group1_buffer_read_item(
    res: &Vec<Resource>,
    pid: &str,
    g1r: &Vec<String>,
    g1: &Vec<String>,
    sb: &Vec<String>,
    sbr: &Vec<String>,
    i: usize,
) -> (r: Result<(), RenderGraphValidateError>)
    requires
        i < g1r@.len(),
    ensures
        outcome(r) == group1_buffer_read_check(res@, pid@, g1r@, g1@, sb@, sbr@, i as int),
{
    let b = g1r[i].as_str();
    if contains_str_before(g1r, i, b) {
        return Err(RenderGraphValidateError::DuplicateComputeStorageBufferReadGroup1 {
            pass_id: pid.to_owned(),
            buffer_id: b.to_owned(),
        });
    }
    if contains_str(g1, b) {
        return Err(RenderGraphValidateError::ComputeStorageBufferGroup1RwRoConflict {
            pass_id: pid.to_owned(),
            buffer_id: b.to_owned(),
        });
    }
    if contains_str(sb, b) || contains_str(sbr, b) {
        return Err(RenderGraphValidateError::ComputeBufferSharedAcrossBindGroups {
            pass_id: pid.to_owned(),
            buffer_id: b.to_owned(),
        });
    }
    match find_buffer(res, b) {
        None => Err(RenderGraphValidateError::MissingResource(b.to_owned())),
        Some(k) => buffer_usage_item(pid, b, &res[k], "storage"),
    }
}

// ───────────────────────────── formats and flags ─────────────────────────────

/// A depth or depth/stencil texture format.
pub open spec fn spec_is_depth_format(f: Seq<char>) -> bool {
    f == "Depth24Plus"@ || f == "Depth32Float"@ || f == "Depth24PlusStencil8"@ || f == "Depth32FloatStencil8"@
}

/// A texture format the executor understands.
pub open spec fn spec_known_texture_format(f: Seq<char>) -> bool {
    f == "Rgba16Float"@ || f == "Rgba8Unorm"@ || spec_is_depth_format(f)
}

/// A buffer usage flag the executor understands.
pub open spec fn spec_known_buffer_flag(f: Seq<char>) -> bool {
    f == "storage"@ || f == "copy_dst"@ || f == "copy_src"@ || f == "map_read"@ || f == "indirect"@
        || f == "uniform"@
}

/// A texture usage flag the executor understands.
pub open spec fn spec_known_texture_flag(f: Seq<char>) -> bool {
    f == "texture_binding"@ || f == "render_attachment"@ || f == "storage"@ || f == "copy_dst"@
        || f == "copy_src"@
}

fn is_depth_stencil_format(s: &str) -> (r: bool)
    ensures
        r == spec_is_depth_format(s@),
{
    str_eq(s, "Depth24Plus") || str_eq(s, "Depth32Float") || str_eq(s, "Depth24PlusStencil8")
        || str_eq(s, "Depth32FloatStencil8")
}


fn check_storage_writes(res: &Vec<Resource>, pid: &str, sw: &Vec<String>) -> (r: Result<(), RenderGraphValidateError>)
    ensures
        outcome(r) == first_failure(sw@.len(), |i: int| storage_write_check(res@, pid@, sw@, i)),
{
    let ghost f = |i: int| storage_write_check(res@, pid@, sw@, i);
    let mut i: usize = 0;
    while i < sw.len()
        invariant
            i <= sw@.len(),
            f == (|i: int| storage_write_check(res@, pid@, sw@, i)),
            first_failure(i as nat, f) == Ok::<(), ExecFailure>(()),
        decreases sw.len() - i,
    {
        let r = storage_write_item(res, pid, sw, i);
        if r.is_err() {
            proof {
                lemma_first_failure_stable((i + 1) as nat, sw@.len(), f);
            }
            return r;
        }
        i = i + 1;
    }
    Ok(())
}

fn check_texture_reads(res: &Vec<Resource>, pid: &str, tr: &Vec<String>, sw: &Vec<String>) -> (r: Result<(), RenderGraphValidateError>)
    ensures
        outcome(r) == first_failure(tr@.len(), |i: int| texture_read_check(res@, pid@, tr@, sw@, i)),
{
    let ghost f = |i: int| texture_read_check(res@, pid@, tr@, sw@, i);
    let mut i: usize = 0;
    while i < tr.len()
        invariant
            i <= tr@.len(),
            f == (|i: int| texture_read_check(res@, pid@, tr@, sw@, i)),
            first_failure(i as nat, f) == Ok::<(), ExecFailure>(()),
        decreases tr.len() - i,
    {
        let r = texture_read_item(res, pid, tr, sw, i);
        if r.is_err() {
            proof {
                lemma_first_failure_stable((i + 1) as nat, tr@.len(), f);
            }
            return r;
        }
        i = i + 1;
    }
    Ok(())
}

fn check_storage_buffers(res: &Vec<Resource>, pid: &str, sb: &Vec<String>) -> (r: Result<(), RenderGraphValidateError>)
    ensures
        outcome(r) == first_failure(sb@.len(), |i: int| storage_buffer_check(res@, pid@, sb@, i)),
{
    let ghost f = |i: int| storage_buffer_check(res@, pid@, sb@, i);
    let mut i: usize = 0;
    while i < sb.len()
        invariant
            i <= sb@.len(),
            f == (|i: int| storage_buffer_check(res@, pid@, sb@, i)),
            first_failure(i as nat, f) == Ok::<(), ExecFailure>(()),
        decreases sb.len() - i,
    {
        let r = storage_buffer_item(res, pid, sb, i);
        if r.is_err() {
            proof {
                lemma_first_failure_stable((i + 1) as nat, sb@.len(), f);
            }
            return r;
        }
        i = i + 1;
    }
    Ok(())
}

fn check_storage_buffers_read(res: &Vec<Resource>, pid: &str, sbr: &Vec<String>, sb: &Vec<String>) -> (r: Result<(), RenderGraphValidateError>)
    ensures
        outcome(r) == first_failure(sbr@.len(), |i: int| storage_buffer_read_check(res@, pid@, sbr@, sb@, i)),
{
    let ghost f = |i: int| storage_buffer_read_check(res@, pid@, sbr@, sb@, i);
    let mut i: usize = 0;
    while i < sbr.len()
        invariant
            i <= sbr@.len(),
            f == (|i: int| storage_buffer_read_check(res@, pid@, sbr@, sb@, i)),
            first_failure(i as nat, f) == Ok::<(), ExecFailure>(()),
        decreases sbr.len() - i,
    {
        let r = storage_buffer_read_item(res, pid, sbr, sb, i);
        if r.is_err() {
            proof {
                lemma_first_failure_stable((i + 1) as nat, sbr@.len(), f);
            }
            return r;
        }
        i = i + 1;
    }
    Ok(())
}

fn check_group1_buffers(res: &Vec<Resource>, pid: &str, g1: &Vec<String>, sb: &Vec<String>, sbr: &Vec<String>) -> (r: Result<(), RenderGraphValidateError>)
    ensures
        outcome(r) == first_failure(g1@.len(), |i: int| group1_buffer_check(res@, pid@, g1@, sb@, sbr@, i)),
{
    let ghost f = |i: int| group1_buffer_check(res@, pid@, g1@, sb@, sbr@, i);
    let mut i: usize = 0;
    while i < g1.len()
        invariant
            i <= g1@.len(),
            f == (|i: int| group1_buffer_check(res@, pid@, g1@, sb@, sbr@, i)),
            first_failure(i as nat, f) == Ok::<(), ExecFailure>(()),
        decreases g1.len() - i,
    {
        let r = group1_buffer_item(res, pid, g1, sb, sbr, i);
        if r.is_err() {
            proof {
                lemma_first_failure_stable((i + 1) as nat, g1@.len(), f);
            }
            return r;
        }
        i = i + 1;
    }
    Ok(())
}

fn check_group1_buffers_read(res: &Vec<Resource>, pid: &str, g1r: &Vec<String>, g1: &Vec<String>, sb: &Vec<String>, sbr: &Vec<String>) -> (r: Result<(), RenderGraphValidateError>)
    ensures
        outcome(r) == first_failure(g1r@.len(), |i: int| group1_buffer_read_check(res@, pid@, g1r@, g1@, sb@, sbr@, i)),
{
    let ghost f = |i: int| group1_buffer_read_check(res@, pid@, g1r@, g1@, sb@, sbr@, i);
    let mut i: usize = 0;
    while i < g1r.len()
        invariant
            i <= g1r@.len(),
            f == (|i: int| group1_buffer_read_check(res@, pid@, g1r@, g1@, sb@, sbr@, i)),
            first_failure(i as nat, f) == Ok::<(), ExecFailure>(()),
        decreases g1r.len() - i,
    {
        let r = group1_buffer_read_item(res, pid, g1r, g1, sb, sbr, i);
        if r.is_err() {
            proof {
                lemma_first_failure_stable((i + 1) as nat, g1r@.len(), f);
            }
            return r;
        }
        i = i + 1;
    }
    Ok(())
}

/// `offset + 12`, saturating at `u64::MAX`.
pub open spec fn end_of_indirect_args(offset: u64) -> int {
    if offset + 12 > u64::MAX { u64::MAX as int } else { offset + 12 }
}

/// Declared size of a buffer.
pub open spec fn size_of(r: Resource) -> u64 {
    match r {
        Resource::Buffer { size, .. } => size,
        Resource::Texture2d { .. } => 0,
    }
}

/// Indirect dispatch: 4-byte aligned offset into a declared buffer that holds the 12 argument
/// bytes and declares usage `indirect`.
pub open spec fn indirect_check(res: Seq<Resource>, pid: Seq<char>, ind: Option<IndirectDispatchArgs>) -> Check {
    match ind {
        None => Ok(()),
        Some(a) => {
            let b = a.buffer@;
            if a.offset % 4 != 0 {
                Err(ExecFailure::IndirectDispatchOffsetMisaligned { pass_id: pid, buffer_id: b, offset: a.offset })
            } else if !has_buffer(res, b) {
                Err(ExecFailure::MissingResource(b))
            } else if end_of_indirect_args(a.offset) > size_of(buffer_decl(res, b)) {
                Err(ExecFailure::IndirectDispatchOutOfBuffer {
                    pass_id: pid, buffer_id: b, offset: a.offset, size: size_of(buffer_decl(res, b)),
                })
            } else if !has_flag(usage_of(buffer_decl(res, b)), "indirect"@) {
                Err(ExecFailure::IndirectBufferUsageMissing {
                    pass_id: pid,
                    buffer_id: b,
                    missing: "indirect"@,
                    declared: strs(usage_of(buffer_decl(res, b))),
                })
            } else {
                Ok(())
            }
        },
    }
}

/// An indirect dispatch at a 4-aligned offset into a buffer whose first declaration (resource
/// `k`) has usage `indirect` is accepted exactly when the three `u32` arguments (12 bytes) fit
/// in the declared size from that offset; otherwise it is reported out of the buffer with that
/// size. (Offsets within 12 bytes of `u64::MAX` are left out: the end of the arguments saturates
/// there, so a buffer of size `u64::MAX` accepts them.)
pub proof fn lemma_indirect_args_fit(res: Seq<Resource>, pid: Seq<char>, a: IndirectDispatchArgs, k: int)
    requires
        0 <= k < res.len(),
        res[k] matches Resource::Buffer { id, .. } && id@ == a.buffer@,
        forall|j: int| 0 <= j < k ==> !(#[trigger] res[j] matches Resource::Buffer { id, .. } && id@ == a.buffer@),
        a.offset % 4 == 0,
        a.offset + 12 <= u64::MAX,
        exists|u: int| 0 <= u < usage_of(res[k]).len() && (#[trigger] usage_of(res[k])[u])@ == "indirect"@,
    ensures
        ({
            let size = match res[k] {
                Resource::Buffer { size, .. } => size,
                _ => 0,
            };
            &&& indirect_check(res, pid, Some(a)) is Ok <==> a.offset + 12 <= size
            &&& a.offset + 12 > size ==> indirect_check(res, pid, Some(a)) == Err::<(), ExecFailure>(
                ExecFailure::IndirectDispatchOutOfBuffer { pass_id: pid, buffer_id: a.buffer@, offset: a.offset, size },
            )
        }),
{
    let b = a.buffer@;
    let p = |i: int| 0 <= i < res.len() && is_buffer(res[i], b);
    assert(is_first(p, k)) by {
        assert forall|j: int| 0 <= j < k implies !#[trigger] p(j) by {
            assert(!(res[j] matches Resource::Buffer { id, .. } && id@ == b));
        }
    }
    lemma_first_index(p, k);
    assert(buffer_decl(res, b) == res[k]);
    assert(has_buffer(res, b)) by {
        assert(is_buffer(res[k], b));
    }
    let u = choose|u: int| 0 <= u < usage_of(res[k]).len() && (#[trigger] usage_of(res[k])[u])@ == "indirect"@;
    assert(has_flag(usage_of(res[k]), "indirect"@)) by {
        assert(usage_of(res[k])[u]@ == "indirect"@);
    }
}

/// Every rule of a compute pass, in the order they are checked.
pub open spec fn compute_check(
    res: Seq<Resource>,
    pid: Seq<char>,
    tr: Seq<String>,
    sw: Seq<String>,
    sb: Seq<String>,
    sbr: Seq<String>,
    g1: Seq<String>,
    g1r: Seq<String>,
    ind: Option<IndirectDispatchArgs>,
) -> Check {
    then_check(first_failure(sw.len(), |i: int| storage_write_check(res, pid, sw, i)),
    then_check(first_failure(tr.len(), |i: int| texture_read_check(res, pid, tr, sw, i)),
    then_check(first_failure(sb.len(), |i: int| storage_buffer_check(res, pid, sb, i)),
    then_check(first_failure(sbr.len(), |i: int| storage_buffer_read_check(res, pid, sbr, sb, i)),
    then_check(
        if (g1.len() > 0 || g1r.len() > 0) && sb.len() == 0 && sbr.len() == 0 && sw.len() == 0 && tr.len() == 0 {
            Err(ExecFailure::ComputeGroup1RequiresGroup0 { pass_id: pid })
        } else {
            Ok(())
        },
    then_check(first_failure(g1.len(), |i: int| group1_buffer_check(res, pid, g1, sb, sbr, i)),
    then_check(first_failure(g1r.len(), |i: int| group1_buffer_read_check(res, pid, g1r, g1, sb, sbr, i)),
        indirect_check(res, pid, ind))))))))
}

fn indirect_item(res: &Vec<Resource>, pid: &str, ind: &Option<IndirectDispatchArgs>) -> (r: Result<(), RenderGraphValidateError>)
    ensures
        outcome(r) == indirect_check(res@, pid@, *ind),
{
    match ind {
        None => Ok(()),
        Some(a) => {
            let b = a.buffer.as_str();
            if a.offset % 4 != 0 {
                return Err(RenderGraphValidateError::IndirectDispatchOffsetMisaligned {
                    pass_id: pid.to_owned(),
                    buffer_id: b.to_owned(),
                    offset: a.offset,
                });
            }
            match find_buffer(res, b) {
                None => Err(RenderGraphValidateError::MissingResource(b.to_owned())),
                Some(k) => {
                    let (size, usage) = match &res[k] {
                        Resource::Buffer { size, usage, .. } => (*size, usage),
                        Resource::Texture2d { usage, .. } => (0, usage),
                    };
                    if a.offset.saturating_add(12) > size {
                        return Err(RenderGraphValidateError::IndirectDispatchOutOfBuffer {
                            pass_id: pid.to_owned(),
                            buffer_id: b.to_owned(),
                            offset: a.offset,
                            size,
                        });
                    }
                    if !usage_has(usage, "indirect") {
                        return Err(RenderGraphValidateError::IndirectBufferUsageMissing {
                            pass_id: pid.to_owned(),
                            buffer_id: b.to_owned(),
                            missing: "indirect".to_owned(),
                            declared: clone_strings(usage),
                        });
                    }
                    Ok(())
                },
            }
        },
    }
}

#[allow(clippy::too_many_arguments)]
fn compute_item(
    res: &Vec<Resource>,
    pid: &str,
    tr: &Vec<String>,
    sw: &Vec<String>,
    sb: &Vec<String>,
    sbr: &Vec<String>,
    g1: &Vec<String>,
    g1r: &Vec<String>,
    ind: &Option<IndirectDispatchArgs>,
) -> (r: Result<(), RenderGraphValidateError>)
    ensures
        outcome(r) == compute_check(res@, pid@, tr@, sw@, sb@, sbr@, g1@, g1r@, *ind),
{
    check_storage_writes(res, pid, sw)?;
    check_texture_reads(res, pid, tr, sw)?;
    check_storage_buffers(res, pid, sb)?;
    check_storage_buffers_read(res, pid, sbr, sb)?;
    let g0_empty = sb.len() == 0 && sbr.len() == 0 && sw.len() == 0 && tr.len() == 0;
    if (g1.len() > 0 || g1r.len() > 0) && g0_empty {
        return Err(RenderGraphValidateError::ComputeGroup1RequiresGroup0 { pass_id: pid.to_owned() });
    }
    check_group1_buffers(res, pid, g1, sb, sbr)?;
    check_group1_buffers_read(res, pid, g1r, g1, sb, sbr)?;
    indirect_item(res, pid, ind)
}

// ───────────────────────────── raster passes ─────────────────────────────

/// Entry `i` of `color_targets`: not repeated, a declared texture with usage `render_attachment`.
pub open spec fn color_target_check(res: Seq<Resource>, pid: Seq<char>, ct: Seq<String>, i: int) -> Check {
    let t = ct[i]@;
    if repeated(ct, i) {
        Err(ExecFailure::DuplicateRasterColorTarget { pass_id: pid, texture_id: t })
    } else if !has_texture(res, t) {
        Err(ExecFailure::MissingResource(t))
    } else {
        texture_usage_check(pid, t, texture_decl(res, t), "render_attachment"@)
    }
}

/// An optional depth target: a declared texture in a depth format with usage `render_attachment`.
pub open spec fn depth_target_check(res: Seq<Resource>, pid: Seq<char>, dt: Option<Seq<char>>) -> Check {
    match dt {
        None => Ok(()),
        Some(d) => {
            if !has_texture(res, d) {
                Err(ExecFailure::MissingResource(d))
            } else if !spec_is_depth_format(format_of(texture_decl(res, d))) {
                Err(ExecFailure::InvalidDepthTargetFormat { texture_id: d, got: format_of(texture_decl(res, d)) })
            } else {
                texture_usage_check(pid, d, texture_decl(res, d), "render_attachment"@)
            }
        },
    }
}

/// Attachments of a raster or fullscreen pass.
pub open spec fn raster_check(res: Seq<Resource>, pid: Seq<char>, ct: Seq<String>, dt: Option<Seq<char>>) -> Check {
    then_check(
        first_failure(ct.len(), |i: int| color_target_check(res, pid, ct, i)),
        depth_target_check(res, pid, dt),
    )
}

fn color_target_item(res: &Vec<Resource>, pid: &str, ct: &Vec<String>, i: usize) -> (r: Result<(), RenderGraphValidateError>)
    requires
        i < ct@.len(),
    ensures
        outcome(r) == color_target_check(res@, pid@, ct@, i as int),
{
    let t = ct[i].as_str();
    if contains_str_before(ct, i, t) {
        return Err(RenderGraphValidateError::DuplicateRasterColorTarget {
            pass_id: pid.to_owned(),
            texture_id: t.to_owned(),
        });
    }
    match find_texture(res, t) {
        None => Err(RenderGraphValidateError::MissingResource(t.to_owned())),
        Some(k) => texture_usage_item(pid, t, &res[k], "render_attachment"),
    }
}

fn check_color_targets(res: &Vec<Resource>, pid: &str, ct: &Vec<String>) -> (r: Result<(), RenderGraphValidateError>)
    ensures
        outcome(r) == first_failure(ct@.len(), |i: int| color_target_check(res@, pid@, ct@, i)),
{
    let ghost f = |i: int| color_target_check(res@, pid@, ct@, i);
    let mut i: usize = 0;
    while i < ct.len()
        invariant
            i <= ct@.len(),
            f == (|i: int| color_target_check(res@, pid@, ct@, i)),
            first_failure(i as nat, f) == Ok::<(), ExecFailure>(()),
        decreases ct.len() - i,
    {
        let r = color_target_item(res, pid, ct, i);
        if r.is_err() {
            proof {
                lemma_first_failure_stable((i + 1) as nat, ct@.len(), f);
            }
            return r;
        }
        i = i + 1;
    }
    Ok(())
}

fn depth_target_item(res: &Vec<Resource>, pid: &str, dt: &Option<String>) -> (r: Result<(), RenderGraphValidateError>)
    ensures
        outcome(r) == depth_target_check(res@, pid@, opt_str(*dt)),
{
    match dt {
        None => Ok(()),
        Some(d) => {
            let d = d.as_str();
            match find_texture(res, d) {
                None => Err(RenderGraphValidateError::MissingResource(d.to_owned())),
                Some(k) => {
                    let decl = &res[k];
                    let format = match decl {
                        Resource::Texture2d { format, .. } => format.as_str(),
                        Resource::Buffer { .. } => "",
                    };
                    if !is_depth_stencil_format(format) {
                        return Err(RenderGraphValidateError::InvalidDepthTargetFormat {
                            texture_id: d.to_owned(),
                            got: format.to_owned(),
                        });
                    }
                    texture_usage_item(pid, d, decl, "render_attachment")
                },
            }
        },
    }
}

fn raster_item(res: &Vec<Resource>, pid: &str, ct: &Vec<String>, dt: &Option<String>) -> (r: Result<(), RenderGraphValidateError>)
    ensures
        outcome(r) == raster_check(res@, pid@, ct@, opt_str(*dt)),
{
    check_color_targets(res, pid, ct)?;
    depth_target_item(res, pid, dt)
}

// ───────────────────────────── blit passes ─────────────────────────────

/// Extent of mip `level` along an axis of `x` texels: halved `level` times, never below 1.
pub open spec fn mip_extent(x: u32, level: nat) -> u32
    decreases level,
{
    if level == 0 {
        x
    } else {
        let prev = mip_extent(x, (level - 1) as nat);
        if prev / 2 >= 1 { (prev / 2) as u32 } else { 1 }
    }
}

/// Mip level `level` of a side of `x >= 1` texels has `x / 2^level` texels, and never fewer than 1.
pub proof fn lemma_mip_extent_halves(x: u32, level: nat)
    requires
        x >= 1,
    ensures
        mip_extent(x, level) as int == (if x as int / vstd::arithmetic::power2::pow2(level) as int >= 1 {
            x as int / vstd::arithmetic::power2::pow2(level) as int
        } else {
            1
        }),
    decreases level,
{
    vstd::arithmetic::power2::lemma_pow2_pos(level);
    if level == 0 {
        assert(vstd::arithmetic::power2::pow2(0) == 1) by {
            vstd::arithmetic::power::lemma_pow0(2);
        }
    } else {
        let l1 = (level - 1) as nat;
        lemma_mip_extent_halves(x, l1);
        let p1 = vstd::arithmetic::power2::pow2(l1) as int;
        vstd::arithmetic::power2::lemma_pow2_pos(l1);
        vstd::arithmetic::power2::lemma_pow2_unfold(level);
        vstd::arithmetic::div_mod::lemma_div_denominator(x as int, p1, 2);
        assert(p1 * 2 == vstd::arithmetic::power2::pow2(level) as int);
        if x as int / p1 < 1 {
            vstd::arithmetic::div_mod::lemma_div_is_ordered_by_denominator(x as int, p1, p1 * 2);
        }
    }
}

/// Width of a texture declaration.
pub open spec fn width_of(r: Resource) -> u32 {
    match r {
        Resource::Texture2d { width, .. } => width,
        Resource::Buffer { .. } => 0,
    }
}

/// Height of a texture declaration.
pub open spec fn height_of(r: Resource) -> u32 {
    match r {
        Resource::Texture2d { height, .. } => height,
        Resource::Buffer { .. } => 0,
    }
}

/// Mip count of a texture declaration.
pub open spec fn mips_of(r: Resource) -> u32 {
    match r {
        Resource::Texture2d { mip_level_count, .. } => mip_level_count,
        Resource::Buffer { .. } => 0,
    }
}

pub open spec fn min_u32(a: u32, b: u32) -> u32 {
    if a <= b { a } else { b }
}

/// A blit sub-region that names a missing mip, starts outside either mip, or copies nothing.
pub open spec fn region_invalid(reg: BlitRegion, s: Resource, d: Resource) -> bool {
    if reg.src_mip_level >= mips_of(s) || reg.dst_mip_level >= mips_of(d) {
        true
    } else {
        let sw = mip_extent(width_of(s), reg.src_mip_level as nat);
        let sh = mip_extent(height_of(s), reg.src_mip_level as nat);
        let dw = mip_extent(width_of(d), reg.dst_mip_level as nat);
        let dh = mip_extent(height_of(d), reg.dst_mip_level as nat);
        if reg.src_origin_x >= sw || reg.src_origin_y >= sh || reg.dst_origin_x >= dw || reg.dst_origin_y >= dh {
            true
        } else {
            let max_w = min_u32((sw - reg.src_origin_x) as u32, (dw - reg.dst_origin_x) as u32);
            let max_h = min_u32((sh - reg.src_origin_y) as u32, (dh - reg.dst_origin_y) as u32);
            let copy_w = match reg.width { Some(w) => min_u32(w, max_w), None => max_w };
            let copy_h = match reg.height { Some(h) => min_u32(h, max_h), None => max_h };
            copy_w == 0 || copy_h == 0
        }
    }
}

/// Every rule of a blit pass, in the order they are checked.
pub open spec fn blit_check(
    res: Seq<Resource>,
    pid: Seq<char>,
    src: Seq<char>,
    dst: Seq<char>,
    region: Option<BlitRegion>,
) -> Check {
    if src == dst {
        Err(ExecFailure::BlitSameTexture { pass_id: pid, texture_id: src })
    } else if !has_texture(res, src) {
        Err(ExecFailure::MissingResource(src))
    } else if !has_texture(res, dst) {
        Err(ExecFailure::MissingResource(dst))
    } else {
        let s = texture_decl(res, src);
        let d = texture_decl(res, dst);
        if format_of(s) != format_of(d) {
            Err(ExecFailure::BlitFormatMismatch {
                pass_id: pid, src_id: src, dst_id: dst, src_fmt: format_of(s), dst_fmt: format_of(d),
            })
        } else if region is None && (width_of(s) != width_of(d) || height_of(s) != height_of(d)) {
            Err(ExecFailure::BlitExtentMismatch {
                pass_id: pid,
                src_id: src,
                dst_id: dst,
                sw: width_of(s),
                sh: height_of(s),
                dw: width_of(d),
                dh: height_of(d),
            })
        } else if region matches Some(reg) && region_invalid(reg, s, d) {
            Err(ExecFailure::BlitRegionInvalid { pass_id: pid, src_id: src, dst_id: dst })
        } else if !has_flag(usage_of(s), "copy_src"@) {
            texture_usage_check(pid, src, s, "copy_src"@)
        } else {
            texture_usage_check(pid, dst, d, "copy_dst"@)
        }
    }
}

/// Size of mip `level` of a `width` x `height` texture (each axis halved `level` times, at least 1).
pub fn mip_dimensions(width: u32, height: u32, level: u32) -> (r: (u32, u32))
    ensures
        r.0 == mip_extent(width, level as nat),
        r.1 == mip_extent(height, level as nat),
{
    let mut w = width;
    let mut h = height;
    let mut i: u32 = 0;
    while i < level
        invariant
            i <= level,
            w == mip_extent(width, i as nat),
            h == mip_extent(height, i as nat),
        decreases level - i,
    {
        w = if w / 2 >= 1 { w / 2 } else { 1 };
        h = if h / 2 >= 1 { h / 2 } else { 1 };
        i = i + 1;
    }
    (w, h)
}

fn texture_fields(r: &Resource) -> (out: (&str, u32, u32, &Vec<String>, u32))
    ensures
        out.0@ == format_of(*r),
        out.1 == width_of(*r),
        out.2 == height_of(*r),
        out.3@ == usage_of(*r),
        out.4 == mips_of(*r),
{
    proof {
        reveal_strlit("");
    }
    match r {
        Resource::Texture2d { format, width, height, usage, mip_level_count, .. } =>
            (format.as_str(), *width, *height, usage, *mip_level_count),
        Resource::Buffer { usage, .. } => ("", 0, 0, usage, 0),
    }
}

fn region_is_invalid(reg: &BlitRegion, s: &Resource, d: &Resource) -> (r: bool)
    ensures
        r == region_invalid(*reg, *s, *d),
{
    let (_, s_w, s_h, _, s_mips) = texture_fields(s);
    let (_, d_w, d_h, _, d_mips) = texture_fields(d);
    if reg.src_mip_level >= s_mips || reg.dst_mip_level >= d_mips {
        return true;
    }
    let (sw, sh) = mip_dimensions(s_w, s_h, reg.src_mip_level);
    let (dw, dh) = mip_dimensions(d_w, d_h, reg.dst_mip_level);
    if reg.src_origin_x >= sw || reg.src_origin_y >= sh || reg.dst_origin_x >= dw || reg.dst_origin_y >= dh {
        return true;
    }
    let max_w = if sw - reg.src_origin_x <= dw - reg.dst_origin_x { sw - reg.src_origin_x } else { dw - reg.dst_origin_x };
    let max_h = if sh - reg.src_origin_y <= dh - reg.dst_origin_y { sh - reg.src_origin_y } else { dh - reg.dst_origin_y };
    let copy_w = match reg.width {
        Some(w) => if w <= max_w { w } else { max_w },
        None => max_w,
    };
    let copy_h = match reg.height {
        Some(h) => if h <= max_h { h } else { max_h },
        None => max_h,
    };
    copy_w == 0 || copy_h == 0
}

fn blit_item(
    res: &Vec<Resource>,
    pid: &str,
    source: &str,
    destination: &str,
    region: &Option<BlitRegion>,
) -> (r: Result<(), RenderGraphValidateError>)
    ensures
        outcome(r) == blit_check(res@, pid@, source@, destination@, *region),
{
    if str_eq(source, destination) {
        return Err(RenderGraphValidateError::BlitSameTexture {
            pass_id: pid.to_owned(),
            texture_id: source.to_owned(),
        });
    }
    let si = match find_texture(res, source) {
        None => return Err(RenderGraphValidateError::MissingResource(source.to_owned())),
        Some(k) => k,
    };
    let di = match find_texture(res, destination) {
        None => return Err(RenderGraphValidateError::MissingResource(destination.to_owned())),
        Some(k) => k,
    };
    let s = &res[si];
    let d = &res[di];
    let (s_fmt, s_w, s_h, s_usage, _) = texture_fields(s);
    let (d_fmt, d_w, d_h, _, _) = texture_fields(d);
    if !str_eq(s_fmt, d_fmt) {
        return Err(RenderGraphValidateError::BlitFormatMismatch {
            pass_id: pid.to_owned(),
            src_id: source.to_owned(),
            dst_id: destination.to_owned(),
            src_fmt: s_fmt.to_owned(),
            dst_fmt: d_fmt.to_owned(),
        });
    }
    if region.is_none() && (s_w != d_w || s_h != d_h) {
        return Err(RenderGraphValidateError::BlitExtentMismatch {
            pass_id: pid.to_owned(),
            src_id: source.to_owned(),
            dst_id: destination.to_owned(),
            sw: s_w,
            sh: s_h,
            dw: d_w,
            dh: d_h,
        });
    }
    if let Some(reg) = region {
        if region_is_invalid(reg, s, d) {
            return Err(RenderGraphValidateError::BlitRegionInvalid {
                pass_id: pid.to_owned(),
                src_id: source.to_owned(),
                dst_id: destination.to_owned(),
            });
        }
    }
    if !usage_has(s_usage, "copy_src") {
        return texture_usage_item(pid, source, s, "copy_src");
    }
    texture_usage_item(pid, destination, d, "copy_dst")
}

// ───────────────────────────── depth-only mesh passes ─────────────────────────────

/// Minimum size in bytes of the light uniform buffer of a depth-only mesh pass.
pub const RASTER_DEPTH_LIGHT_UNIFORM_MIN: u64 = 80;

/// Minimum size in bytes of the instance buffer of a depth-only mesh pass (one 4x4 matrix).
pub const RASTER_DEPTH_INSTANCE_MIN: u64 = 64;

/// Message for a light uniform buffer below the minimum size.
pub open spec fn light_buffer_too_small(b: Seq<char>, size: u64) -> Seq<char> {
    "light_uniforms_buffer "@ + debug_text(b) + " size "@ + decimal(size as nat) + " < "@
        + decimal(RASTER_DEPTH_LIGHT_UNIFORM_MIN as nat) + " (LightUniforms)"@
}

/// Message for an instance buffer below the minimum size.
pub open spec fn instance_buffer_too_small(b: Seq<char>, size: u64) -> Seq<char> {
    "instance_buffer "@ + debug_text(b) + " size "@ + decimal(size as nat) + " < "@
        + decimal(RASTER_DEPTH_INSTANCE_MIN as nat)
}

/// Every rule of a depth-only mesh pass, in the order they are checked.
pub open spec fn depth_mesh_check(
    res: Seq<Resource>,
    pid: Seq<char>,
    depth: Seq<char>,
    light: Seq<char>,
    inst: Seq<char>,
) -> Check {
    if !has_texture(res, depth) {
        Err(ExecFailure::MissingResource(depth))
    } else if !has_buffer(res, light) {
        Err(ExecFailure::MissingResource(light))
    } else if !has_buffer(res, inst) {
        Err(ExecFailure::MissingResource(inst))
    } else if light == inst {
        Err(ExecFailure::RasterDepthMeshInvalid {
            pass_id: pid,
            detail: "light_uniforms_buffer and instance_buffer must differ"@,
        })
    } else {
        let t = texture_decl(res, depth);
        let lb = buffer_decl(res, light);
        let ib = buffer_decl(res, inst);
        if !spec_is_depth_format(format_of(t)) {
            Err(ExecFailure::InvalidDepthTargetFormat { texture_id: depth, got: format_of(t) })
        } else if !has_flag(usage_of(t), "render_attachment"@) {
            texture_usage_check(pid, depth, t, "render_attachment"@)
        } else if size_of(lb) < RASTER_DEPTH_LIGHT_UNIFORM_MIN {
            Err(ExecFailure::RasterDepthMeshInvalid { pass_id: pid, detail: light_buffer_too_small(light, size_of(lb)) })
        } else if !has_flag(usage_of(lb), "uniform"@) {
            buffer_usage_check(pid, light, lb, "uniform"@)
        } else if size_of(ib) < RASTER_DEPTH_INSTANCE_MIN {
            Err(ExecFailure::RasterDepthMeshInvalid { pass_id: pid, detail: instance_buffer_too_small(inst, size_of(ib)) })
        } else {
            buffer_usage_check(pid, inst, ib, "storage"@)
        }
    }
}

/// Detail of a depth-only mesh pass whose buffer is too small: `prefix`, the buffer id as `Debug`
/// quotes it (`quoted_id`), ` size `, the size, ` < `, the minimum, then `suffix`.
pub fn buffer_size_detail(prefix: &str, quoted_id: &str, size: u64, min: u64, suffix: &str) -> (r: String)
    ensures
        r@ == prefix@ + quoted_id@ + " size "@ + decimal(size as nat) + " < "@ + decimal(min as nat) + suffix@,
{
    let mut s = String::new();
    s.append(prefix);
    s.append(quoted_id);
    s.append(" size ");
    let n = decimal_string(size);
    s.append(n.as_str());
    s.append(" < ");
    let m = decimal_string(min);
    s.append(m.as_str());
    s.append(suffix);
    assert(s@ =~= prefix@ + quoted_id@ + " size "@ + decimal(size as nat) + " < "@ + decimal(min as nat) + suffix@);
    s
}

fn size_detail(prefix: &str, b: &str, size: u64, min: u64, suffix: &str) -> (r: String)
    ensures
        r@ == prefix@ + debug_text(b@) + " size "@ + decimal(size as nat) + " < "@ + decimal(min as nat) + suffix@,
{
    let q = debug_quoted(b);
    buffer_size_detail(prefix, q.as_str(), size, min, suffix)
}

fn buffer_fields(r: &Resource) -> (out: (u64, &Vec<String>))
    ensures
        out.0 == size_of(*r),
        out.1@ == usage_of(*r),
{
    match r {
        Resource::Buffer { size, usage, .. } => (*size, usage),
        Resource::Texture2d { usage, .. } => (0, usage),
    }
}

fn depth_mesh_item(
    res: &Vec<Resource>,
    pid: &str,
    depth: &str,
    light: &str,
    inst: &str,
) -> (r: Result<(), RenderGraphValidateError>)
    ensures
        outcome(r) == depth_mesh_check(res@, pid@, depth@, light@, inst@),
{
    let ti = match find_texture(res, depth) {
        None => return Err(RenderGraphValidateError::MissingResource(depth.to_owned())),
        Some(k) => k,
    };
    let li = match find_buffer(res, light) {
        None => return Err(RenderGraphValidateError::MissingResource(light.to_owned())),
        Some(k) => k,
    };
    let ii = match find_buffer(res, inst) {
        None => return Err(RenderGraphValidateError::MissingResource(inst.to_owned())),
        Some(k) => k,
    };
    if str_eq(light, inst) {
        return Err(RenderGraphValidateError::RasterDepthMeshInvalid {
            pass_id: pid.to_owned(),
            detail: "light_uniforms_buffer and instance_buffer must differ".to_owned(),
        });
    }
    let t = &res[ti];
    let (t_fmt, _, _, t_usage, _) = texture_fields(t);
    if !is_depth_stencil_format(t_fmt) {
        return Err(RenderGraphValidateError::InvalidDepthTargetFormat {
            texture_id: depth.to_owned(),
            got: t_fmt.to_owned(),
        });
    }
    if !usage_has(t_usage, "render_attachment") {
        return texture_usage_item(pid, depth, t, "render_attachment");
    }
    let lb = &res[li];
    let (l_size, l_usage) = buffer_fields(lb);
    if l_size < RASTER_DEPTH_LIGHT_UNIFORM_MIN {
        return Err(RenderGraphValidateError::RasterDepthMeshInvalid {
            pass_id: pid.to_owned(),
            detail: size_detail("light_uniforms_buffer ", light, l_size, RASTER_DEPTH_LIGHT_UNIFORM_MIN, " (LightUniforms)"),
        });
    }
    if !usage_has(l_usage, "uniform") {
        return buffer_usage_item(pid, light, lb, "uniform");
    }
    let ib = &res[ii];
    let (i_size, _) = buffer_fields(ib);
    if i_size < RASTER_DEPTH_INSTANCE_MIN {
        proof {
            reveal_strlit("");
        }
        let d = size_detail("instance_buffer ", inst, i_size, RASTER_DEPTH_INSTANCE_MIN, "");
        assert(d@ =~= instance_buffer_too_small(inst@, i_size));
        return Err(RenderGraphValidateError::RasterDepthMeshInvalid { pass_id: pid.to_owned(), detail: d });
    }
    buffer_usage_item(pid, inst, ib, "storage")
}

// ───────────────────────────── all passes ─────────────────────────────

/// Optional ECS labels must be omitted or non-empty.
pub open spec fn ecs_labels_check(p: Pass) -> Check {
    if pass_ecs_before(p) matches Some(s) && s.len() == 0 {
        Err(ExecFailure::EcsLabelEmpty { pass_id: pass_id(p), field: "ecs_before"@ })
    } else if pass_ecs_after(p) matches Some(s) && s.len() == 0 {
        Err(ExecFailure::EcsLabelEmpty { pass_id: pass_id(p), field: "ecs_after"@ })
    } else {
        Ok(())
    }
}

/// How one pass uses the declared resources.
pub open spec fn pass_semantics_check(res: Seq<Resource>, p: Pass) -> Check {
    then_check(
        ecs_labels_check(p),
        match p {
            Pass::Compute {
                id,
                texture_reads,
                storage_writes,
                storage_buffers,
                storage_buffers_read,
                storage_buffers_group1,
                storage_buffers_read_group1,
                indirect_dispatch,
                ..
            } => compute_check(
                res,
                id@,
                texture_reads@,
                storage_writes@,
                storage_buffers@,
                storage_buffers_read@,
                storage_buffers_group1@,
                storage_buffers_read_group1@,
                indirect_dispatch,
            ),
            Pass::RasterMesh { id, color_targets, depth_target, .. } =>
                raster_check(res, id@, color_targets@, opt_str(depth_target)),
            Pass::Fullscreen { id, color_targets, depth_target, .. } =>
                raster_check(res, id@, color_targets@, opt_str(depth_target)),
            Pass::Blit { id, source, destination, region, .. } =>
                blit_check(res, id@, source@, destination@, region),
            Pass::RasterDepthMesh { id, depth_target, light_uniforms_buffer, instance_buffer, .. } =>
                depth_mesh_check(res, id@, depth_target@, light_uniforms_buffer@, instance_buffer@),
        },
    )
}

/// Resource wiring of every pass, in submission order.
pub open spec fn semantics_check(doc: RenderGraphDocument) -> Check {
    first_failure(doc.passes@.len(), |i: int| pass_semantics_check(doc.resources@, doc.passes@[i]))
}

fn ecs_label_empty(o: &Option<String>) -> (r: bool)
    ensures
        r == (opt_str(*o) matches Some(s) && s.len() == 0),
{
    match o {
        Some(s) => s.as_str().is_empty(),
        None => false,
    }
}

fn pass_semantics_item(res: &Vec<Resource>, p: &Pass) -> (r: Result<(), RenderGraphValidateError>)
    ensures
        outcome(r) == pass_semantics_check(res@, *p),
{
    let (pid, ecs_before, ecs_after) = match p {
        Pass::Compute { id, ecs_before, ecs_after, .. } => (id, ecs_before, ecs_after),
        Pass::RasterMesh { id, ecs_before, ecs_after, .. } => (id, ecs_before, ecs_after),
        Pass::Fullscreen { id, ecs_before, ecs_after, .. } => (id, ecs_before, ecs_after),
        Pass::Blit { id, ecs_before, ecs_after, .. } => (id, ecs_before, ecs_after),
        Pass::RasterDepthMesh { id, ecs_before, ecs_after, .. } => (id, ecs_before, ecs_after),
    };
    if ecs_label_empty(ecs_before) {
        return Err(RenderGraphValidateError::EcsLabelEmpty { pass_id: pid.clone(), field: "ecs_before" });
    }
    if ecs_label_empty(ecs_after) {
        return Err(RenderGraphValidateError::EcsLabelEmpty { pass_id: pid.clone(), field: "ecs_after" });
    }
    match p {
        Pass::Compute {
            id,
            texture_reads,
            storage_writes,
            storage_buffers,
            storage_buffers_read,
            storage_buffers_group1,
            storage_buffers_read_group1,
            indirect_dispatch,
            ..
        } => compute_item(
            res,
            id.as_str(),
            texture_reads,
            storage_writes,
            storage_buffers,
            storage_buffers_read,
            storage_buffers_group1,
            storage_buffers_read_group1,
            indirect_dispatch,
        ),
        Pass::RasterMesh { id, color_targets, depth_target, .. } =>
            raster_item(res, id.as_str(), color_targets, depth_target),
        Pass::Fullscreen { id, color_targets, depth_target, .. } =>
            raster_item(res, id.as_str(), color_targets, depth_target),
        Pass::Blit { id, source, destination, region, .. } =>
            blit_item(res, id.as_str(), source.as_str(), destination.as_str(), region),
        Pass::RasterDepthMesh { id, depth_target, light_uniforms_buffer, instance_buffer, .. } =>
            depth_mesh_item(
                res,
                id.as_str(),
                depth_target.as_str(),
                light_uniforms_buffer.as_str(),
                instance_buffer.as_str(),
            ),
    }
}

fn validate_pass_resource_semantics_v0(doc: &RenderGraphDocument) -> (r: Result<(), RenderGraphValidateError>)
    ensures
        outcome(r) == semantics_check(*doc),
{
    let ghost f = |i: int| pass_semantics_check(doc.resources@, doc.passes@[i]);
    let mut i: usize = 0;
    while i < doc.passes.len()
        invariant
            i <= doc.passes@.len(),
            f == (|i: int| pass_semantics_check(doc.resources@, doc.passes@[i])),
            first_failure(i as nat, f) == Ok::<(), ExecFailure>(()),
        decreases doc.passes.len() - i,
    {
        let r = pass_semantics_item(&doc.resources, &doc.passes[i]);
        if r.is_err() {
            proof {
                lemma_first_failure_stable((i + 1) as nat, doc.passes@.len(), f);
            }
            return r;
        }
        i = i + 1;
    }
    Ok(())
}

// ───────────────────────────── whole document ─────────────────────────────

/// Usage flag `j` of a texture is known.
pub open spec fn texture_flag_check(usage: Seq<String>, j: int) -> Check {
    if spec_known_texture_flag(usage[j]@) { Ok(()) } else { Err(ExecFailure::UnknownTextureUsage(usage[j]@)) }
}

/// Usage flag `j` of a buffer is known.
pub open spec fn buffer_flag_check(usage: Seq<String>, j: int) -> Check {
    if spec_known_buffer_flag(usage[j]@) { Ok(()) } else { Err(ExecFailure::UnknownBufferUsage(usage[j]@)) }
}

/// A declaration is executable: known texture format, known usage flags, 1..=32 mips.
pub open spec fn resource_decl_check(r: Resource) -> Check {
    match r {
        Resource::Texture2d { id, format, usage, mip_level_count, .. } => {
            if !spec_known_texture_format(format@) {
                Err(ExecFailure::UnknownTextureFormat(format@))
            } else {
                then_check(
                    first_failure(usage@.len(), |j: int| texture_flag_check(usage@, j)),
                    if mip_level_count == 0 || mip_level_count > 32 {
                        Err(ExecFailure::InvalidTextureMipLevelCount { id: id@, got: mip_level_count })
                    } else {
                        Ok(())
                    },
                )
            }
        },
        Resource::Buffer { usage, .. } => first_failure(usage@.len(), |j: int| buffer_flag_check(usage@, j)),
    }
}

/// Color target `j` of a raster pass names a declared texture.
pub open spec fn target_declared_check(res: Seq<Resource>, ct: Seq<String>, j: int) -> Check {
    if has_texture(res, ct[j]@) { Ok(()) } else { Err(ExecFailure::MissingResource(ct[j]@)) }
}

/// Raster and fullscreen passes have at least one color target, all declared textures.
pub open spec fn targets_declared_check(res: Seq<Resource>, p: Pass) -> Check {
    match p {
        Pass::RasterMesh { id, color_targets, .. } => if color_targets@.len() == 0 {
            Err(ExecFailure::EmptyColorTargets(id@))
        } else {
            first_failure(color_targets@.len(), |j: int| target_declared_check(res, color_targets@, j))
        },
        Pass::Fullscreen { id, color_targets, .. } => if color_targets@.len() == 0 {
            Err(ExecFailure::EmptyColorTargets(id@))
        } else {
            first_failure(color_targets@.len(), |j: int| target_declared_check(res, color_targets@, j))
        },
        _ => Ok(()),
    }
}

/// The readback target is a declared `Rgba16Float` texture.
pub open spec fn readback_check(res: Seq<Resource>, rb: Seq<char>) -> Check {
    if !has_texture(res, rb) {
        Err(ExecFailure::MissingResource(rb))
    } else if format_of(texture_decl(res, rb)) != "Rgba16Float"@ {
        Err(ExecFailure::InvalidReadbackFormat { id: rb, got: format_of(texture_decl(res, rb)) })
    } else {
        Ok(())
    }
}

/// All execution rules of a document with readback target `rb`, first failure first:
/// declarations, readback target, raster targets, then the resource wiring of each pass.
pub open spec fn exec_check(doc: RenderGraphDocument, rb: Seq<char>) -> Check {
    then_check(
        first_failure(doc.resources@.len(), |i: int| resource_decl_check(doc.resources@[i])),
        then_check(
            readback_check(doc.resources@, rb),
            then_check(
                first_failure(doc.passes@.len(), |i: int| targets_declared_check(doc.resources@, doc.passes@[i])),
                semantics_check(doc),
            ),
        ),
    )
}

fn texture_format_known(s: &str) -> (r: Result<(), RenderGraphValidateError>)
    ensures
        outcome(r) == (if spec_known_texture_format(s@) { Ok(()) } else { Err(ExecFailure::UnknownTextureFormat(s@)) }),
{
    if str_eq(s, "Rgba16Float") || str_eq(s, "Rgba8Unorm") || is_depth_stencil_format(s) {
        Ok(())
    } else {
        Err(RenderGraphValidateError::UnknownTextureFormat(s.to_owned()))
    }
}

pub(crate) fn texture_usage_known(flags: &Vec<String>) -> (r: Result<(), RenderGraphValidateError>)
    ensures
        outcome(r) == first_failure(flags@.len(), |j: int| texture_flag_check(flags@, j)),
{
    let ghost f = |j: int| texture_flag_check(flags@, j);
    let mut i: usize = 0;
    while i < flags.len()
        invariant
            i <= flags@.len(),
            f == (|j: int| texture_flag_check(flags@, j)),
            first_failure(i as nat, f) == Ok::<(), ExecFailure>(()),
        decreases flags.len() - i,
    {
        let s = flags[i].as_str();
        if !(str_eq(s, "texture_binding") || str_eq(s, "render_attachment") || str_eq(s, "storage")
            || str_eq(s, "copy_dst") || str_eq(s, "copy_src")) {
            proof {
                lemma_first_failure_stable((i + 1) as nat, flags@.len(), f);
            }
            return Err(RenderGraphValidateError::UnknownTextureUsage(s.to_owned()));
        }
        i = i + 1;
    }
    Ok(())
}

pub(crate) fn buffer_usage_known(flags: &Vec<String>) -> (r: Result<(), RenderGraphValidateError>)
    ensures
        outcome(r) == first_failure(flags@.len(), |j: int| buffer_flag_check(flags@, j)),
{
    let ghost f = |j: int| buffer_flag_check(flags@, j);
    let mut i: usize = 0;
    while i < flags.len()
        invariant
            i <= flags@.len(),
            f == (|j: int| buffer_flag_check(flags@, j)),
            first_failure(i as nat, f) == Ok::<(), ExecFailure>(()),
        decreases flags.len() - i,
    {
        let s = flags[i].as_str();
        if !(str_eq(s, "storage") || str_eq(s, "copy_dst") || str_eq(s, "copy_src") || str_eq(s, "map_read")
            || str_eq(s, "indirect") || str_eq(s, "uniform")) {
            proof {
                lemma_first_failure_stable((i + 1) as nat, flags@.len(), f);
            }
            return Err(RenderGraphValidateError::UnknownBufferUsage(s.to_owned()));
        }
        i = i + 1;
    }
    Ok(())
}

fn resource_decl_item(r: &Resource) -> (out: Result<(), RenderGraphValidateError>)
    ensures
        outcome(out) == resource_decl_check(*r),
{
    match r {
        Resource::Texture2d { id, format, usage, mip_level_count, .. } => {
            texture_format_known(format.as_str())?;
            texture_usage_known(usage)?;
            if *mip_level_count == 0 || *mip_level_count > 32 {
                return Err(RenderGraphValidateError::InvalidTextureMipLevelCount {
                    id: id.clone(),
                    got: *mip_level_count,
                });
            }
            Ok(())
        },
        Resource::Buffer { usage, .. } => buffer_usage_known(usage),
    }
}

fn check_declarations(res: &Vec<Resource>) -> (r: Result<(), RenderGraphValidateError>)
    ensures
        outcome(r) == first_failure(res@.len(), |i: int| resource_decl_check(res@[i])),
{
    let ghost f = |i: int| resource_decl_check(res@[i]);
    let mut i: usize = 0;
    while i < res.len()
        invariant
            i <= res@.len(),
            f == (|i: int| resource_decl_check(res@[i])),
            first_failure(i as nat, f) == Ok::<(), ExecFailure>(()),
        decreases res.len() - i,
    {
        let r = resource_decl_item(&res[i]);
        if r.is_err() {
            proof {
                lemma_first_failure_stable((i + 1) as nat, res@.len(), f);
            }
            return r;
        }
        i = i + 1;
    }
    Ok(())
}

fn targets_declared_list(res: &Vec<Resource>, ct: &Vec<String>) -> (r: Result<(), RenderGraphValidateError>)
    ensures
        outcome(r) == first_failure(ct@.len(), |j: int| target_declared_check(res@, ct@, j)),
{
    let ghost f = |j: int| target_declared_check(res@, ct@, j);
    let mut i: usize = 0;
    while i < ct.len()
        invariant
            i <= ct@.len(),
            f == (|j: int| target_declared_check(res@, ct@, j)),
            first_failure(i as nat, f) == Ok::<(), ExecFailure>(()),
        decreases ct.len() - i,
    {
        if find_texture(res, ct[i].as_str()).is_none() {
            proof {
                lemma_first_failure_stable((i + 1) as nat, ct@.len(), f);
            }
            return Err(RenderGraphValidateError::MissingResource(ct[i].clone()));
        }
        i = i + 1;
    }
    Ok(())
}

fn targets_declared_item(res: &Vec<Resource>, p: &Pass) -> (r: Result<(), RenderGraphValidateError>)
    ensures
        outcome(r) == targets_declared_check(res@, *p),
{
    match p {
        Pass::RasterMesh { id, color_targets, .. } | Pass::Fullscreen { id, color_targets, .. } => {
            if color_targets.len() == 0 {
                return Err(RenderGraphValidateError::EmptyColorTargets(id.clone()));
            }
            targets_declared_list(res, color_targets)
        },
        _ => Ok(()),
    }
}

fn check_targets_declared(doc: &RenderGraphDocument) -> (r: Result<(), RenderGraphValidateError>)
    ensures
        outcome(r) == first_failure(doc.passes@.len(), |i: int| targets_declared_check(doc.resources@, doc.passes@[i])),
{
    let ghost f = |i: int| targets_declared_check(doc.resources@, doc.passes@[i]);
    let mut i: usize = 0;
    while i < doc.passes.len()
        invariant
            i <= doc.passes@.len(),
            f == (|i: int| targets_declared_check(doc.resources@, doc.passes@[i])),
            first_failure(i as nat, f) == Ok::<(), ExecFailure>(()),
        decreases doc.passes.len() - i,
    {
        let r = targets_declared_item(&doc.resources, &doc.passes[i]);
        if r.is_err() {
            proof {
                lemma_first_failure_stable((i + 1) as nat, doc.passes@.len(), f);
            }
            return r;
        }
        i = i + 1;
    }
    Ok(())
}

/// Static checks for executing `doc` on the GPU and reading back texture `readback_id`:
/// declarations (formats, usage flags, mip counts), the readback target (`Rgba16Float`),
/// raster color targets, then how every pass uses its resources. The first failing rule
/// is reported.
pub fn validate_exec_v0(doc: &RenderGraphDocument, readback_id: &str) -> (r: Result<(), RenderGraphValidateError>)
    ensures
        outcome(r) == exec_check(*doc, readback_id@),
{
    check_declarations(&doc.resources)?;
    match find_texture(&doc.resources, readback_id) {
        None => {
            return Err(RenderGraphValidateError::MissingResource(readback_id.to_owned()));
        },
        Some(k) => {
            let (fmt, _, _, _, _) = texture_fields(&doc.resources[k]);
            if !str_eq(fmt, "Rgba16Float") {
                return Err(RenderGraphValidateError::InvalidReadbackFormat {
                    id: readback_id.to_owned(),
                    got: fmt.to_owned(),
                });
            }
        },
    }
    check_targets_declared(doc)?;
    validate_pass_resource_semantics_v0(doc)
}

/// Pass ids in submission order.
pub fn pass_ids_in_order_v0(doc: &RenderGraphDocument) -> (r: Vec<&str>)
    ensures
        r@.len() == doc.passes@.len(),
        forall|i: int| 0 <= i < r@.len() ==> (#[trigger] r@[i])@ == pass_id(doc.passes@[i]),
{
    let mut out: Vec<&str> = Vec::new();
    let mut i: usize = 0;
    while i < doc.passes.len()
        invariant
            i <= doc.passes@.len(),
            out@.len() == i,
            forall|j: int| 0 <= j < i ==> (#[trigger] out@[j])@ == pass_id(doc.passes@[j]),
        decreases doc.passes.len() - i,
    {
        out.push(doc.passes[i].id());
        i = i + 1;
    }
    out
}

/// Resource `k` is the first texture declared under `id`.
pub open spec fn first_texture_at(res: Seq<Resource>, id: Seq<char>, k: int) -> bool {
    &&& 0 <= k < res.len()
    &&& res[k] matches Resource::Texture2d { id: tid, .. } && tid@ == id
    &&& forall|j: int| 0 <= j < k ==> !((#[trigger] res[j]) matches Resource::Texture2d { id: tid, .. } && tid@ == id)
}

/// Resource `k` is the first buffer declared under `id`.
pub open spec fn first_buffer_at(res: Seq<Resource>, id: Seq<char>, k: int) -> bool {
    &&& 0 <= k < res.len()
    &&& res[k] matches Resource::Buffer { id: bid, .. } && bid@ == id
    &&& forall|j: int| 0 <= j < k ==> !((#[trigger] res[j]) matches Resource::Buffer { id: bid, .. } && bid@ == id)
}

/// `flag` is among the declared usage flags of `r`.
pub open spec fn declares_usage(r: Resource, flag: Seq<char>) -> bool {
    match r {
        Resource::Texture2d { usage, .. } => exists|u: int| 0 <= u < usage@.len() && (#[trigger] usage@[u])@ == flag,
        Resource::Buffer { usage, .. } => exists|u: int| 0 <= u < usage@.len() && (#[trigger] usage@[u])@ == flag,
    }
}

proof fn lemma_first_of(p: spec_fn(int) -> bool, n: int, i: int)
    requires
        0 <= i < n,
        p(i),
    ensures
        exists|k: int| #[trigger] is_first(p, k) && k <= i,
    decreases i,
{
    if exists|j: int| 0 <= j < i && #[trigger] p(j) {
        let j = choose|j: int| 0 <= j < i && #[trigger] p(j);
        lemma_first_of(p, n, j);
    } else {
        assert(is_first(p, i));
    }
}

proof fn lemma_texture_decl_first(res: Seq<Resource>, id: Seq<char>)
    requires
        has_texture(res, id),
    ensures
        exists|k: int| #[trigger] first_texture_at(res, id, k) && texture_decl(res, id) == res[k],
{
    let p = |i: int| 0 <= i < res.len() && is_texture(res[i], id);
    let i = choose|i: int| 0 <= i < res.len() && is_texture(#[trigger] res[i], id);
    assert(p(i));
    lemma_first_of(p, res.len() as int, i);
    let k = choose|k: int| #[trigger] is_first(p, k) && k <= i;
    lemma_first_index(p, k);
    assert forall|j: int| 0 <= j < k implies !((#[trigger] res[j]) matches Resource::Texture2d { id: tid, .. } && tid@ == id) by {
        assert(!p(j));
    }
    assert(first_texture_at(res, id, k));
}

pub proof fn lemma_buffer_decl_first(res: Seq<Resource>, id: Seq<char>)
    requires
        has_buffer(res, id),
    ensures
        exists|k: int| #[trigger] first_buffer_at(res, id, k) && buffer_decl(res, id) == res[k],
{
    let p = |i: int| 0 <= i < res.len() && is_buffer(res[i], id);
    let i = choose|i: int| 0 <= i < res.len() && is_buffer(#[trigger] res[i], id);
    assert(p(i));
    lemma_first_of(p, res.len() as int, i);
    let k = choose|k: int| #[trigger] is_first(p, k) && k <= i;
    lemma_first_index(p, k);
    assert forall|j: int| 0 <= j < k implies !((#[trigger] res[j]) matches Resource::Buffer { id: bid, .. } && bid@ == id) by {
        assert(!p(j));
    }
    assert(first_buffer_at(res, id, k));
}

/// What a document accepted for execution guarantees, read off its declarations: the readback
/// texture is declared and its first declaration is `Rgba16Float`; in every compute pass, each
/// texture it writes as storage is declared and its first declaration has usage `storage`, and an
/// indirect dispatch has a 4-aligned offset into a declared buffer whose first declaration has
/// usage `indirect` and holds the 12 argument bytes from that offset (the end saturating at
/// `u64::MAX`).
pub proof fn lemma_exec_accepted(doc: RenderGraphDocument, rb: Seq<char>, i: int)
    requires
        exec_check(doc, rb) is Ok,
    ensures
        exists|k: int| #[trigger] first_texture_at(doc.resources@, rb, k) && (doc.resources@[k] matches Resource::Texture2d {
            format,
            ..
        } && format@ == "Rgba16Float"@),
        0 <= i < doc.passes@.len() && doc.passes@[i] is Compute ==> forall|t: int|
            #![trigger doc.passes@[i]->storage_writes@[t]]
            0 <= t < doc.passes@[i]->storage_writes@.len() ==> exists|k: int|
                #[trigger] first_texture_at(doc.resources@, doc.passes@[i]->storage_writes@[t]@, k) && declares_usage(
                    doc.resources@[k],
                    "storage"@,
                ),
        0 <= i < doc.passes@.len() ==> (doc.passes@[i] matches Pass::Compute { indirect_dispatch: Some(a), .. } ==> {
            &&& a.offset % 4 == 0
            &&& exists|k: int| #[trigger] first_buffer_at(doc.resources@, a.buffer@, k) && declares_usage(doc.resources@[k], "indirect"@)
                && (doc.resources@[k] matches Resource::Buffer { size, .. } && (a.offset + 12 <= size || size == u64::MAX))
        }),
{
    let res = doc.resources@;
    let ps = doc.passes@;
    let rf = |j: int| resource_decl_check(doc.resources@[j]);
    let tf = |j: int| targets_declared_check(doc.resources@, doc.passes@[j]);
    let sf = |j: int| pass_semantics_check(doc.resources@, doc.passes@[j]);
    assert(exec_check(doc, rb) == then_check(first_failure(res.len(), rf), then_check(readback_check(res, rb), then_check(
        first_failure(ps.len(), tf),
        first_failure(ps.len(), sf),
    ))));
    assert(readback_check(res, rb) is Ok);
    lemma_texture_decl_first(res, rb);
    let k = choose|k: int| #[trigger] first_texture_at(res, rb, k) && texture_decl(res, rb) == res[k];
    assert(first_texture_at(res, rb, k));
    if 0 <= i < ps.len() {
        lemma_first_failure_ok(ps.len(), sf);
        assert(sf(i) is Ok);
        if let Pass::Compute {
            id,
            texture_reads,
            storage_writes,
            storage_buffers,
            storage_buffers_read,
            storage_buffers_group1,
            storage_buffers_read_group1,
            indirect_dispatch,
            ..
        } = ps[i] {
            let pid = id@;
            let sw = storage_writes@;
            let c = compute_check(
                res,
                pid,
                texture_reads@,
                sw,
                storage_buffers@,
                storage_buffers_read@,
                storage_buffers_group1@,
                storage_buffers_read_group1@,
                indirect_dispatch,
            );
            assert(c is Ok);
            let wf = |j: int| storage_write_check(res, pid, sw, j);
            assert(first_failure(sw.len(), wf) is Ok);
            lemma_first_failure_ok(sw.len(), wf);
            assert forall|t: int| #![trigger sw[t]] 0 <= t < sw.len() implies exists|k: int|
                #[trigger] first_texture_at(res, sw[t]@, k) && declares_usage(res[k], "storage"@) by {
                assert(wf(t) is Ok);
                lemma_texture_decl_first(res, sw[t]@);
                let k = choose|k: int| #[trigger] first_texture_at(res, sw[t]@, k) && texture_decl(res, sw[t]@) == res[k];
                let u = usage_of(res[k]);
                assert(has_flag(u, "storage"@));
                let q = choose|q: int| 0 <= q < u.len() && q < u.len() && (#[trigger] u[q])@ == "storage"@;
                assert(declares_usage(res[k], "storage"@)) by {
                    assert(u[q]@ == "storage"@);
                }
            }
            assert forall|t: int| #![trigger doc.passes@[i]->storage_writes@[t]]
                0 <= t < doc.passes@[i]->storage_writes@.len() implies exists|k: int|
                #[trigger] first_texture_at(doc.resources@, doc.passes@[i]->storage_writes@[t]@, k) && declares_usage(
                    doc.resources@[k],
                    "storage"@,
                ) by {
                assert(doc.passes@[i]->storage_writes@[t] == sw[t]);
            }
            assert(indirect_check(res, pid, indirect_dispatch) is Ok);
            if let Some(a) = indirect_dispatch {
                lemma_buffer_decl_first(res, a.buffer@);
                let k = choose|k: int| #[trigger] first_buffer_at(res, a.buffer@, k) && buffer_decl(res, a.buffer@) == res[k];
                let u = usage_of(res[k]);
                assert(has_flag(u, "indirect"@));
                let q = choose|q: int| 0 <= q < u.len() && q < u.len() && (#[trigger] u[q])@ == "indirect"@;
                assert(declares_usage(res[k], "indirect"@)) by {
                    assert(u[q]@ == "indirect"@);
                }
            }
        }
    }
}

} // verus!
