//! Declarative render-graph documents (schema `w3drs.render_graph`, version 1): the resources a
//! frame allocates and the passes it submits in order, with the document-level validation rules.

use vstd::prelude::*;

use crate::scan::{first_failure, lemma_first_failure_at, lemma_first_failure_ok, lemma_first_failure_stable, then_check};
use crate::text::{str_eq, strs};

verus! {

/// Top-level document.
#[derive(Debug, Clone, PartialEq, Eq)]
pub struct RenderGraphDocument {
    pub schema: String,
    pub version: u32,
    pub resources: Vec<Resource>,
    pub passes: Vec<Pass>,
}

/// GPU resource declared by the graph.
#[derive(Debug, Clone, PartialEq, Eq)]
pub enum Resource {
    Texture2d {
        id: String,
        format: String,
        width: u32,
        height: u32,
        usage: Vec<String>,
        /// Number of allocated mips (>= 1).
        mip_level_count: u32,
    },
    Buffer { id: String, size: u64, usage: Vec<String> },
}

/// A single pass, in submission order.
#[derive(Debug, Clone, PartialEq, Eq)]
pub enum Pass {
    Compute {
        id: String,
        shader: String,
        entry_point: String,
        dispatch: Dispatch3D,
        /// Textures sampled by the pass.
        texture_reads: Vec<String>,
        /// Textures written as storage images.
        storage_writes: Vec<String>,
        /// Read/write storage buffers of bind group 0.
        storage_buffers: Vec<String>,
        /// Read-only storage buffers of bind group 0, bound after `storage_buffers`.
        storage_buffers_read: Vec<String>,
        /// Read/write storage buffers of bind group 1.
        storage_buffers_group1: Vec<String>,
        /// Read-only storage buffers of bind group 1, bound after `storage_buffers_group1`.
        storage_buffers_read_group1: Vec<String>,
        /// Indirect dispatch arguments (three `u32` at `offset`); a fixed `dispatch` otherwise.
        indirect_dispatch: Option<IndirectDispatchArgs>,
        ecs_before: Option<String>,
        ecs_after: Option<String>,
    },
    RasterMesh {
        id: String,
        shader: String,
        vertex_entry: String,
        fragment_entry: String,
        color_targets: Vec<String>,
        depth_target: Option<String>,
        ecs_before: Option<String>,
        ecs_after: Option<String>,
    },
    /// Fullscreen triangle pass (same attachment model as `RasterMesh`).
    Fullscreen {
        id: String,
        shader: String,
        vertex_entry: String,
        fragment_entry: String,
        color_targets: Vec<String>,
        depth_target: Option<String>,
        ecs_before: Option<String>,
        ecs_after: Option<String>,
    },
    /// Depth-only mesh pass: uniform buffer in group 0, read-only instance matrices in group 1.
    RasterDepthMesh {
        id: String,
        shader: String,
        vertex_entry: String,
        depth_target: String,
        light_uniforms_buffer: String,
        instance_buffer: String,
        ecs_before: Option<String>,
        ecs_after: Option<String>,
    },
    /// Texture to texture copy; whole mip 0 without `region`.
    Blit {
        id: String,
        source: String,
        destination: String,
        region: Option<BlitRegion>,
        ecs_before: Option<String>,
        ecs_after: Option<String>,
    },
}

/// Arguments of an indirect compute dispatch (12 bytes at `offset`).
#[derive(Debug, Clone, PartialEq, Eq)]
pub struct IndirectDispatchArgs {
    pub buffer: String,
    pub offset: u64,
}

/// Optional sub-copy of a blit pass (origins in texels; missing sizes take what remains valid).
#[derive(Debug, Clone, PartialEq, Eq)]
pub struct BlitRegion {
    pub src_mip_level: u32,
    pub dst_mip_level: u32,
    pub src_origin_x: u32,
    pub src_origin_y: u32,
    pub dst_origin_x: u32,
    pub dst_origin_y: u32,
    pub width: Option<u32>,
    pub height: Option<u32>,
}

#[derive(Debug, Clone, Copy, PartialEq, Eq)]
pub struct Dispatch3D {
    pub x: u32,
    pub y: u32,
    pub z: u32,
}

/// The character view of an optional string.
pub open spec fn opt_str(o: Option<String>) -> Option<Seq<char>> {
    match o {
        Some(s) => Some(s@),
        None => None,
    }
}

/// Id of a resource.
pub open spec fn resource_id(r: Resource) -> Seq<char> {
    match r {
        Resource::Texture2d { id, .. } => id@,
        Resource::Buffer { id, .. } => id@,
    }
}

/// Id of a pass.
pub open spec fn pass_id(p: Pass) -> Seq<char> {
    match p {
        Pass::Compute { id, .. } => id@,
        Pass::RasterMesh { id, .. } => id@,
        Pass::Fullscreen { id, .. } => id@,
        Pass::RasterDepthMesh { id, .. } => id@,
        Pass::Blit { id, .. } => id@,
    }
}

/// The `ecs_before` field of a pass.
pub open spec fn pass_ecs_before(p: Pass) -> Option<Seq<char>> {
    match p {
        Pass::Compute { ecs_before, .. } => opt_str(ecs_before),
        Pass::RasterMesh { ecs_before, .. } => opt_str(ecs_before),
        Pass::Fullscreen { ecs_before, .. } => opt_str(ecs_before),
        Pass::RasterDepthMesh { ecs_before, .. } => opt_str(ecs_before),
        Pass::Blit { ecs_before, .. } => opt_str(ecs_before),
    }
}

/// The `ecs_after` field of a pass.
pub open spec fn pass_ecs_after(p: Pass) -> Option<Seq<char>> {
    match p {
        Pass::Compute { ecs_after, .. } => opt_str(ecs_after),
        Pass::RasterMesh { ecs_after, .. } => opt_str(ecs_after),
        Pass::Fullscreen { ecs_after, .. } => opt_str(ecs_after),
        Pass::RasterDepthMesh { ecs_after, .. } => opt_str(ecs_after),
        Pass::Blit { ecs_after, .. } => opt_str(ecs_after),
    }
}

/// A label only counts when it is present and non-empty.
pub open spec fn non_empty_label(o: Option<Seq<char>>) -> Option<Seq<char>> {
    match o {
        Some(s) => if s.len() > 0 { Some(s) } else { None },
        None => None,
    }
}

fn opt_label(o: &Option<String>) -> (r: Option<&str>)
    ensures
        match r {
            Some(s) => non_empty_label(opt_str(*o)) == Some(s@),
            None => non_empty_label(opt_str(*o)) is None,
        },
{
    match o {
        Some(s) => {
            if s.as_str().is_empty() {
                None
            } else {
                Some(s.as_str())
            }
        },
        None => None,
    }
}

impl Pass {
    /// Submission-order pass id.
    pub fn id(&self) -> (r: &str)
        ensures
            r@ == pass_id(*self),
    {
        match self {
            Pass::Compute { id, .. } => id.as_str(),
            Pass::RasterMesh { id, .. } => id.as_str(),
            Pass::Fullscreen { id, .. } => id.as_str(),
            Pass::Blit { id, .. } => id.as_str(),
            Pass::RasterDepthMesh { id, .. } => id.as_str(),
        }
    }

    /// Label of the ECS node the host runs before encoding the pass (present and non-empty only).
    pub fn ecs_before_label(&self) -> (r: Option<&str>)
        ensures
            match r {
                Some(s) => non_empty_label(pass_ecs_before(*self)) == Some(s@),
                None => non_empty_label(pass_ecs_before(*self)) is None,
            },
    {
        match self {
            Pass::Compute { ecs_before, .. } => opt_label(ecs_before),
            Pass::RasterMesh { ecs_before, .. } => opt_label(ecs_before),
            Pass::Fullscreen { ecs_before, .. } => opt_label(ecs_before),
            Pass::Blit { ecs_before, .. } => opt_label(ecs_before),
            Pass::RasterDepthMesh { ecs_before, .. } => opt_label(ecs_before),
        }
    }

    /// Label of the ECS node the host runs after encoding the pass (present and non-empty only).
    pub fn ecs_after_label(&self) -> (r: Option<&str>)
        ensures
            match r {
                Some(s) => non_empty_label(pass_ecs_after(*self)) == Some(s@),
                None => non_empty_label(pass_ecs_after(*self)) is None,
            },
    {
        match self {
            Pass::Compute { ecs_after, .. } => opt_label(ecs_after),
            Pass::RasterMesh { ecs_after, .. } => opt_label(ecs_after),
            Pass::Fullscreen { ecs_after, .. } => opt_label(ecs_after),
            Pass::Blit { ecs_after, .. } => opt_label(ecs_after),
            Pass::RasterDepthMesh { ecs_after, .. } => opt_label(ecs_after),
        }
    }
}


/// Schema id every document must carry.
pub const SCHEMA_ID: &'static str = "w3drs.render_graph";

/// The only document version understood.
pub const SUPPORTED_VERSION: u32 = 1;

#[verifier::external_type_specification]
#[verifier::external_body]
pub struct ExJsonError(serde_json::Error);

/// Why a document is rejected.
#[derive(Debug)]
pub enum RenderGraphError {
    /// The text is not a well-formed document.
    Json(serde_json::Error),
    UnsupportedSchema(String),
    UnsupportedVersion(u32),
    EmptyPasses,
    DuplicateResourceId(String),
    DuplicatePassId(String),
    ZeroDispatch { pass_id: String },
}

/// Mathematical model of a [`RenderGraphError`].
pub enum GraphFailure {
    Json,
    UnsupportedSchema(Seq<char>),
    UnsupportedVersion(u32),
    EmptyPasses,
    DuplicateResourceId(Seq<char>),
    DuplicatePassId(Seq<char>),
    ZeroDispatch(Seq<char>),
}

impl View for RenderGraphError {
    type V = GraphFailure;

    open spec fn view(&self) -> GraphFailure {
        match self {
            RenderGraphError::Json(_) => GraphFailure::Json,
            RenderGraphError::UnsupportedSchema(s) => GraphFailure::UnsupportedSchema(s@),
            RenderGraphError::UnsupportedVersion(v) => GraphFailure::UnsupportedVersion(*v),
            RenderGraphError::EmptyPasses => GraphFailure::EmptyPasses,
            RenderGraphError::DuplicateResourceId(s) => GraphFailure::DuplicateResourceId(s@),
            RenderGraphError::DuplicatePassId(s) => GraphFailure::DuplicatePassId(s@),
            RenderGraphError::ZeroDispatch { pass_id } => GraphFailure::ZeroDispatch(pass_id@),
        }
    }
}

/// Model of a validation outcome.
pub open spec fn graph_outcome(r: Result<(), RenderGraphError>) -> Result<(), GraphFailure> {
    match r {
        Ok(_) => Ok(()),
        Err(e) => Err(e@),
    }
}

/// Resource `i` reuses the id of an earlier resource.
pub open spec fn resource_id_check(res: Seq<Resource>, i: int) -> Result<(), GraphFailure> {
    if exists|j: int| 0 <= j < i && resource_id(#[trigger] res[j]) == resource_id(res[i]) {
        Err(GraphFailure::DuplicateResourceId(resource_id(res[i])))
    } else {
        Ok(())
    }
}

/// A compute pass dispatches nothing along some axis.
pub open spec fn zero_dispatch(p: Pass) -> bool {
    match p {
        Pass::Compute { dispatch, .. } => dispatch.x == 0 || dispatch.y == 0 || dispatch.z == 0,
        _ => false,
    }
}

/// Pass `i` has an empty dispatch or reuses the id of an earlier pass.
pub open spec fn pass_id_check(passes: Seq<Pass>, i: int) -> Result<(), GraphFailure> {
    if zero_dispatch(passes[i]) {
        Err(GraphFailure::ZeroDispatch(pass_id(passes[i])))
    } else if exists|j: int| 0 <= j < i && pass_id(#[trigger] passes[j]) == pass_id(passes[i]) {
        Err(GraphFailure::DuplicatePassId(pass_id(passes[i])))
    } else {
        Ok(())
    }
}

/// The document rules, first failure first: schema, version, non-empty pass list,
/// unique resource ids, then per pass a non-zero dispatch and a unique id.
pub open spec fn document_check(doc: RenderGraphDocument) -> Result<(), GraphFailure> {
    if doc.schema@ != SCHEMA_ID@ {
        Err(GraphFailure::UnsupportedSchema(doc.schema@))
    } else if doc.version != SUPPORTED_VERSION {
        Err(GraphFailure::UnsupportedVersion(doc.version))
    } else if doc.passes@.len() == 0 {
        Err(GraphFailure::EmptyPasses)
    } else {
        then_check(
            first_failure(doc.resources@.len(), |i: int| resource_id_check(doc.resources@, i)),
            first_failure(doc.passes@.len(), |i: int| pass_id_check(doc.passes@, i)),
        )
    }
}

fn resource_id_str(r: &Resource) -> (s: &str)
    ensures
        s@ == resource_id(*r),
{
    match r {
        Resource::Texture2d { id, .. } => id.as_str(),
        Resource::Buffer { id, .. } => id.as_str(),
    }
}

fn resource_id_seen_before(res: &Vec<Resource>, i: usize) -> (r: bool)
    requires
        i < res@.len(),
    ensures
        r == exists|j: int| 0 <= j < i && resource_id(#[trigger] res@[j]) == resource_id(res@[i as int]),
{
    let id = resource_id_str(&res[i]);
    let mut j: usize = 0;
    while j < i
        invariant
            i < res@.len(),
            j <= i,
            id@ == resource_id(res@[i as int]),
            forall|k: int| 0 <= k < j ==> resource_id(#[trigger] res@[k]) != id@,
        decreases i - j,
    {
        if str_eq(resource_id_str(&res[j]), id) {
            return true;
        }
        j = j + 1;
    }
    false
}

fn check_resource_ids(res: &Vec<Resource>) -> (r: Result<(), RenderGraphError>)
    ensures
        graph_outcome(r) == first_failure(res@.len(), |i: int| resource_id_check(res@, i)),
{
    let ghost f = |i: int| resource_id_check(res@, i);
    let mut i: usize = 0;
    while i < res.len()
        invariant
            i <= res@.len(),
            f == (|i: int| resource_id_check(res@, i)),
            first_failure(i as nat, f) == Ok::<(), GraphFailure>(()),
        decreases res.len() - i,
    {
        if resource_id_seen_before(res, i) {
            let e = RenderGraphError::DuplicateResourceId(resource_id_str(&res[i]).to_owned());
            proof {
                assert(f(i as int) == Err::<(), GraphFailure>(e@));
                lemma_first_failure_stable((i + 1) as nat, res@.len(), f);
            }
            return Err(e);
        }
        assert(f(i as int) is Ok);
        i = i + 1;
    }
    Ok(())
}

fn pass_id_seen_before(passes: &Vec<Pass>, i: usize) -> (r: bool)
    requires
        i < passes@.len(),
    ensures
        r == exists|j: int| 0 <= j < i && pass_id(#[trigger] passes@[j]) == pass_id(passes@[i as int]),
{
    let id = passes[i].id();
    let mut j: usize = 0;
    while j < i
        invariant
            i < passes@.len(),
            j <= i,
            id@ == pass_id(passes@[i as int]),
            forall|k: int| 0 <= k < j ==> pass_id(#[trigger] passes@[k]) != id@,
        decreases i - j,
    {
        if str_eq(passes[j].id(), id) {
            return true;
        }
        j = j + 1;
    }
    false
}

fn check_pass_ids(passes: &Vec<Pass>) -> (r: Result<(), RenderGraphError>)
    ensures
        graph_outcome(r) == first_failure(passes@.len(), |i: int| pass_id_check(passes@, i)),
{
    let ghost f = |i: int| pass_id_check(passes@, i);
    let mut i: usize = 0;
    while i < passes.len()
        invariant
            i <= passes@.len(),
            f == (|i: int| pass_id_check(passes@, i)),
            first_failure(i as nat, f) == Ok::<(), GraphFailure>(()),
        decreases passes.len() - i,
    {
        let p = &passes[i];
        if let Pass::Compute { id, dispatch, .. } = p {
            if dispatch.x == 0 || dispatch.y == 0 || dispatch.z == 0 {
                let e = RenderGraphError::ZeroDispatch { pass_id: id.clone() };
                proof {
                    assert(f(i as int) == Err::<(), GraphFailure>(e@));
                    lemma_first_failure_stable((i + 1) as nat, passes@.len(), f);
                }
                return Err(e);
            }
        }
        if pass_id_seen_before(passes, i) {
            let e = RenderGraphError::DuplicatePassId(p.id().to_owned());
            proof {
                assert(f(i as int) == Err::<(), GraphFailure>(e@));
                lemma_first_failure_stable((i + 1) as nat, passes@.len(), f);
            }
            return Err(e);
        }
        assert(f(i as int) is Ok);
        i = i + 1;
    }
    Ok(())
}

/// Document-level rules applied after parsing: schema and version, a non-empty pass list,
/// unique resource ids, compute dispatches with no zero axis, unique pass ids.
pub fn validate(doc: &RenderGraphDocument) -> (r: Result<(), RenderGraphError>)
    ensures
        graph_outcome(r) == document_check(*doc),
{
    if !str_eq(doc.schema.as_str(), SCHEMA_ID) {
        return Err(RenderGraphError::UnsupportedSchema(doc.schema.clone()));
    }
    if doc.version != SUPPORTED_VERSION {
        return Err(RenderGraphError::UnsupportedVersion(doc.version));
    }
    if doc.passes.len() == 0 {
        return Err(RenderGraphError::EmptyPasses);
    }
    check_resource_ids(&doc.resources)?;
    check_pass_ids(&doc.passes)
}

/// Mip level count of a texture declaration that gives none: 1.
pub fn default_mip_level_count() -> (r: u32)
    ensures
        r == 1,
{
    1
}

/// A valid document has the supported schema and version, at least one pass, no resource id and
/// no pass id used twice, and dispatches something along every axis of every compute pass.
pub proof fn lemma_valid_document(doc: RenderGraphDocument)
    requires
        document_check(doc) is Ok,
    ensures
        doc.schema@ == SCHEMA_ID@,
        doc.version == SUPPORTED_VERSION,
        doc.passes@.len() > 0,
        forall|a: int, b: int|
            0 <= a < b < doc.resources@.len() ==> resource_id(#[trigger] doc.resources@[a]) != resource_id(
                #[trigger] doc.resources@[b],
            ),
        forall|a: int, b: int|
            0 <= a < b < doc.passes@.len() ==> pass_id(#[trigger] doc.passes@[a]) != pass_id(#[trigger] doc.passes@[b]),
        forall|i: int|
            0 <= i < doc.passes@.len() ==> ((#[trigger] doc.passes@[i]) matches Pass::Compute { dispatch, .. }
                ==> dispatch.x > 0 && dispatch.y > 0 && dispatch.z > 0),
{
    let rf = |j: int| resource_id_check(doc.resources@, j);
    let pf = |j: int| pass_id_check(doc.passes@, j);
    assert(document_check(doc) == then_check(first_failure(doc.resources@.len(), rf), first_failure(doc.passes@.len(), pf)));
    lemma_first_failure_ok(doc.resources@.len(), rf);
    lemma_first_failure_ok(doc.passes@.len(), pf);
    assert forall|a: int, b: int| 0 <= a < b < doc.resources@.len() implies resource_id(#[trigger] doc.resources@[a])
        != resource_id(#[trigger] doc.resources@[b]) by {
        assert(rf(b) is Ok);
    }
    assert forall|a: int, b: int| 0 <= a < b < doc.passes@.len() implies pass_id(#[trigger] doc.passes@[a]) != pass_id(
        #[trigger] doc.passes@[b],
    ) by {
        assert(pf(b) is Ok);
    }
    assert forall|i: int| 0 <= i < doc.passes@.len() implies ((#[trigger] doc.passes@[i]) matches Pass::Compute {
        dispatch,
        ..
    } ==> dispatch.x > 0 && dispatch.y > 0 && dispatch.z > 0) by {
        assert(pf(i) is Ok);
    }
}

/// In a document with the supported schema and version, some passes, and no id used twice (among
/// resources, among passes), validation fails exactly when a compute pass has a zero dispatch
/// axis, and then reports `ZeroDispatch` for the first such pass.
pub proof fn lemma_zero_dispatch_rejected(doc: RenderGraphDocument, i: int)
    requires
        doc.schema@ == SCHEMA_ID@,
        doc.version == SUPPORTED_VERSION,
        doc.passes@.len() > 0,
        forall|a: int, b: int|
            0 <= a < b < doc.resources@.len() ==> resource_id(#[trigger] doc.resources@[a]) != resource_id(
                #[trigger] doc.resources@[b],
            ),
        forall|a: int, b: int|
            0 <= a < b < doc.passes@.len() ==> pass_id(#[trigger] doc.passes@[a]) != pass_id(#[trigger] doc.passes@[b]),
    ensures
        document_check(doc) is Ok <==> forall|j: int| 0 <= j < doc.passes@.len() ==> !((#[trigger] doc.passes@[j]) matches Pass::Compute { dispatch, .. } && (dispatch.x == 0 || dispatch.y == 0 || dispatch.z == 0)),
        0 <= i < doc.passes@.len() && (doc.passes@[i] matches Pass::Compute { dispatch, .. } && (dispatch.x == 0 || dispatch.y == 0 || dispatch.z == 0)) && (forall|j: int|
            0 <= j < i ==> !((#[trigger] doc.passes@[j]) matches Pass::Compute { dispatch, .. } && (dispatch.x == 0 || dispatch.y == 0 || dispatch.z == 0))) ==> document_check(doc) == Err::<(), GraphFailure>(
            GraphFailure::ZeroDispatch(pass_id(doc.passes@[i])),
        ),
{
    let res = doc.resources@;
    let ps = doc.passes@;
    let rf = |j: int| resource_id_check(res, j);
    let pf = |j: int| pass_id_check(ps, j);
    assert forall|j: int| 0 <= j < res.len() implies (#[trigger] rf(j)) is Ok by {
        if exists|k: int| 0 <= k < j && resource_id(#[trigger] res[k]) == resource_id(res[j]) {
            let k = choose|k: int| 0 <= k < j && resource_id(#[trigger] res[k]) == resource_id(res[j]);
            assert(resource_id(res[k]) != resource_id(res[j]));
        }
    }
    lemma_first_failure_ok(res.len(), rf);
    assert forall|j: int| 0 <= j < ps.len() implies (#[trigger] pf(j)) is Ok <==> !(ps[j] matches Pass::Compute { dispatch, .. } && (dispatch.x == 0 || dispatch.y == 0 || dispatch.z == 0)) by {
        if exists|k: int| 0 <= k < j && pass_id(#[trigger] ps[k]) == pass_id(ps[j]) {
            let k = choose|k: int| 0 <= k < j && pass_id(#[trigger] ps[k]) == pass_id(ps[j]);
            assert(pass_id(ps[k]) != pass_id(ps[j]));
        }
    }
    lemma_first_failure_ok(ps.len(), pf);
    assert(document_check(doc) == then_check(first_failure(res.len(), rf), first_failure(ps.len(), pf)));
    assert(document_check(doc) == first_failure(ps.len(), pf));
    if forall|j: int| 0 <= j < ps.len() ==> !((#[trigger] ps[j]) matches Pass::Compute { dispatch, .. } && (dispatch.x == 0 || dispatch.y == 0 || dispatch.z == 0)) {
        assert forall|j: int| 0 <= j < ps.len() implies (#[trigger] pf(j)) is Ok by {
            assert(!(ps[j] matches Pass::Compute { dispatch, .. } && (dispatch.x == 0 || dispatch.y == 0 || dispatch.z == 0)));
        }
    }
    if forall|j: int| 0 <= j < ps.len() ==> (#[trigger] pf(j)) is Ok {
        assert forall|j: int| 0 <= j < ps.len() implies !((#[trigger] ps[j]) matches Pass::Compute { dispatch, .. } && (dispatch.x == 0 || dispatch.y == 0 || dispatch.z == 0)) by {
            assert(pf(j) is Ok);
        }
    }
    if 0 <= i < ps.len() && (ps[i] matches Pass::Compute { dispatch, .. } && (dispatch.x == 0 || dispatch.y == 0 || dispatch.z == 0)) && (forall|j: int| 0 <= j < i ==> !((#[trigger] ps[j]) matches Pass::Compute { dispatch, .. } && (dispatch.x == 0 || dispatch.y == 0 || dispatch.z == 0))) {
        assert forall|j: int| 0 <= j < i implies (#[trigger] pf(j)) is Ok by {
            assert(!(ps[j] matches Pass::Compute { dispatch, .. } && (dispatch.x == 0 || dispatch.y == 0 || dispatch.z == 0)));
        }
        lemma_first_failure_at(ps.len(), pf, i);
    }
}

} // verus!
