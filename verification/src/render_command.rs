//! Draw batching: renderable entities sorted by mesh and material are grouped into instanced draw
//! calls and shadow batches over the instance buffer.

use vstd::prelude::*;

verus! {

/// Shadow draw batch: `instance_count` consecutive instances of one mesh, from `first_instance`.
#[derive(Clone, Copy, Debug, PartialEq, Eq)]
pub struct ShadowBatch {
    pub mesh_id: u32,
    pub first_instance: u32,
    pub instance_count: u32,
}

/// One draw call over `instance_count` consecutive entries of the instance buffer, all with the
/// same mesh and material; `cast_shadow` when one of them casts a shadow.
#[derive(Clone, Copy, Debug, PartialEq, Eq)]
pub struct DrawBatch {
    pub mesh_id: u32,
    pub material_id: u32,
    pub first_instance: u32,
    pub instance_count: u32,
    pub cast_shadow: bool,
}

/// Arguments of `draw_indexed_indirect` (WebGPU layout).
#[derive(Clone, Copy, Debug, PartialEq, Eq)]
pub struct DrawIndexedIndirectArgs {
    pub index_count: u32,
    pub instance_count: u32,
    pub first_index: u32,
    pub base_vertex: i32,
    pub first_instance: u32,
}

/// End (excluded) of the instances of shadow batch `b`.
pub open spec fn shadow_end(b: ShadowBatch) -> int {
    b.first_instance + b.instance_count
}

/// Every position of batch `b` holds its mesh id.
pub open spec fn run_of(ids: Seq<u32>, b: ShadowBatch) -> bool {
    forall|i: int| b.first_instance <= i < shadow_end(b) ==> #[trigger] ids[i] == b.mesh_id
}

/// `b` splits the positions of `ids` into maximal runs of one mesh id, in order: the batches are
/// non-empty, follow each other from 0 to the end, each run holds only its mesh id, and two
/// neighbouring runs have different ids.
pub open spec fn mesh_runs(ids: Seq<u32>, b: Seq<ShadowBatch>) -> bool {
    &&& (b.len() == 0 <==> ids.len() == 0)
    &&& b.len() > 0 ==> b[0].first_instance == 0 && shadow_end(b.last()) == ids.len()
    &&& forall|k: int|
        0 <= k < b.len() ==> (#[trigger] b[k]).instance_count > 0 && shadow_end(b[k]) <= ids.len() && run_of(ids, b[k])
    &&& forall|k: int| 0 <= k < b.len() - 1 ==> #[trigger] follows(b[k], b[k + 1])
}

/// Batch `b` starts where `a` ends, with another mesh id.
pub open spec fn follows(a: ShadowBatch, b: ShadowBatch) -> bool {
    shadow_end(a) == b.first_instance && a.mesh_id != b.mesh_id
}

proof fn lemma_extend_runs(ids: Seq<u32>, before: Seq<ShadowBatch>, first: int, i: int, mesh_id: u32)
    requires
        0 <= first < i <= ids.len() <= u32::MAX,
        mesh_runs(ids.subrange(0, first), before),
        before.len() > 0 ==> shadow_end(before.last()) == first,
        first > 0 ==> ids[first] != before.last().mesh_id,
        forall|j: int| first <= j < i ==> ids[j] == mesh_id,
    ensures
        mesh_runs(
            ids.subrange(0, i),
            before.push(ShadowBatch { mesh_id, first_instance: first as u32, instance_count: (i - first) as u32 }),
        ),
{
    let s = ids.subrange(0, i);
    let nb = ShadowBatch { mesh_id, first_instance: first as u32, instance_count: (i - first) as u32 };
    let b = before.push(nb);
    assert forall|k: int|
        0 <= k < b.len() implies (#[trigger] b[k]).instance_count > 0 && shadow_end(b[k]) <= s.len() && run_of(s, b[k]) by {
        if k < b.len() - 1 {
            assert(b[k] == before[k]);
            assert(run_of(ids.subrange(0, first), before[k]));
            assert forall|j: int| b[k].first_instance <= j < shadow_end(b[k]) implies #[trigger] s[j] == b[k].mesh_id by {
                assert(ids.subrange(0, first)[j] == before[k].mesh_id);
            }
        } else {
            assert forall|j: int| b[k].first_instance <= j < shadow_end(b[k]) implies #[trigger] s[j] == b[k].mesh_id by {
                assert(ids[j] == mesh_id);
            }
        }
    }
    assert forall|k: int| 0 <= k < b.len() - 1 implies #[trigger] follows(b[k], b[k + 1]) by {
        assert(b[k] == before[k]);
        if k < b.len() - 2 {
            assert(b[k + 1] == before[k + 1]);
            assert(follows(before[k], before[k + 1]));
        } else {
            assert(ids[first] != before.last().mesh_id);
        }
    }
}

/// Groups the mesh ids of the entity list (sorted by mesh, then material) into shadow batches:
/// one batch per maximal run of one mesh id, so that `first_instance` indexes the instance buffer.
pub fn derive_shadow_batches(mesh_ids: &Vec<u32>) -> (r: Vec<ShadowBatch>)
    requires
        mesh_ids@.len() <= u32::MAX,
    ensures
        mesh_runs(mesh_ids@, r@),
{
    let ghost ids = mesh_ids@;
    let n = mesh_ids.len();
    let mut batches: Vec<ShadowBatch> = Vec::new();
    let mut i: usize = 0;
    while i < n
        invariant
            ids == mesh_ids@,
            n == ids.len(),
            n <= u32::MAX,
            i <= n,
            mesh_runs(ids.subrange(0, i as int), batches@),
            0 < i < n ==> ids[i as int] != batches@.last().mesh_id,
            batches@.len() > 0 ==> shadow_end(batches@.last()) == i,
        decreases n - i,
    {
        let mesh_id = mesh_ids[i];
        let first = i;
        while i < n && mesh_ids[i] == mesh_id
            invariant
                ids == mesh_ids@,
                n == ids.len(),
                first < n,
                first < i <= n || (first == i),
                forall|j: int| first <= j < i ==> ids[j] == mesh_id,
                ids[first as int] == mesh_id,
            decreases n - i,
        {
            i = i + 1;
        }
        let ghost before = batches@;
        batches.push(ShadowBatch { mesh_id, first_instance: first as u32, instance_count: (i - first) as u32 });
        proof {
            lemma_extend_runs(ids, before, first as int, i as int, mesh_id);
        }
    }
    assert(ids.subrange(0, n as int) =~= ids);
    batches
}

/// What batching reads of a render command: its mesh, its material and whether it casts a shadow
/// (the world matrix stays with the caller, which lays matrices out in the returned order).
#[derive(Clone, Copy, Debug, PartialEq, Eq)]
pub struct BatchKey {
    pub mesh_id: u32,
    pub material_id: u32,
    pub cast_shadow: bool,
}

/// `a` comes no later than `b` in (mesh, material) order.
pub open spec fn key_le(a: BatchKey, b: BatchKey) -> bool {
    a.mesh_id < b.mesh_id || (a.mesh_id == b.mesh_id && a.material_id <= b.material_id)
}

/// `order` lists every position of `cmds` exactly once, sorted by mesh, then material.
pub open spec fn sorted_order(cmds: Seq<BatchKey>, order: Seq<usize>) -> bool {
    &&& order.len() == cmds.len()
    &&& forall|k: int| 0 <= k < order.len() ==> #[trigger] order[k] < cmds.len()
    &&& forall|k: int, l: int| 0 <= k < l < order.len() ==> #[trigger] order[k] != #[trigger] order[l]
    &&& forall|i: usize| (i as int) < cmds.len() ==> #[trigger] order.contains(i)
    &&& forall|k: int, l: int|
        0 <= k < l < order.len() ==> key_le(cmds[#[trigger] order[k] as int], cmds[#[trigger] order[l] as int])
}

/// The commands in instance order.
pub open spec fn laid_out(cmds: Seq<BatchKey>, order: Seq<usize>) -> Seq<BatchKey> {
    order.map_values(|i: usize| cmds[i as int])
}

/// End (excluded) of the instances of draw batch `b`.
pub open spec fn draw_end(b: DrawBatch) -> int {
    b.first_instance + b.instance_count
}

/// Every instance of `b` has its mesh and material, and `b` casts a shadow exactly when one of
/// them does.
pub open spec fn draw_run_of(ks: Seq<BatchKey>, b: DrawBatch) -> bool {
    &&& forall|i: int|
        b.first_instance <= i < draw_end(b) ==> (#[trigger] ks[i]).mesh_id == b.mesh_id && ks[i].material_id
            == b.material_id
    &&& b.cast_shadow == exists|i: int| b.first_instance <= i < draw_end(b) && (#[trigger] ks[i]).cast_shadow
}

/// Batch `b` starts where `a` ends, with another mesh or material.
pub open spec fn draw_follows(a: DrawBatch, b: DrawBatch) -> bool {
    draw_end(a) == b.first_instance && (a.mesh_id != b.mesh_id || a.material_id != b.material_id)
}

/// `b` splits `ks` into maximal runs of one (mesh, material) pair, in order.
pub open spec fn draw_runs(ks: Seq<BatchKey>, b: Seq<DrawBatch>) -> bool {
    &&& (b.len() == 0 <==> ks.len() == 0)
    &&& b.len() > 0 ==> b[0].first_instance == 0 && draw_end(b.last()) == ks.len()
    &&& forall|k: int|
        0 <= k < b.len() ==> (#[trigger] b[k]).instance_count > 0 && draw_end(b[k]) <= ks.len() && draw_run_of(ks, b[k])
    &&& forall|k: int| 0 <= k < b.len() - 1 ==> #[trigger] draw_follows(b[k], b[k + 1])
}

/// `slice::sort_unstable_by_key` keyed by the first two fields: afterwards the triples are in
/// ascending lexicographic order of (first, second) and are a permutation of the input; the order
/// of triples with equal keys is not specified.
#[verifier::external_body]
fn sort_by_mesh_material(v: &mut Vec<(u32, u32, usize)>)
    ensures
        final(v)@.to_multiset() == old(v)@.to_multiset(),
        forall|i: int, j: int|
            0 <= i < j < final(v)@.len() ==> final(v)@[i].0 < final(v)@[j].0 || (final(v)@[i].0 == final(v)@[j].0
                && final(v)@[i].1 <= final(v)@[j].1),
{
    v.sort_unstable_by_key(|e| (e.0, e.1))
}

/// The triple (mesh, material, position) of command `i`.
pub open spec fn keyed(cmds: Seq<BatchKey>, i: int) -> (u32, u32, usize) {
    (cmds[i].mesh_id, cmds[i].material_id, i as usize)
}

proof fn lemma_sorted_triples(cmds: Seq<BatchKey>, init: Seq<(u32, u32, usize)>, sorted: Seq<(u32, u32, usize)>)
    requires
        cmds.len() <= usize::MAX,
        init.len() == cmds.len(),
        forall|i: int| 0 <= i < init.len() ==> #[trigger] init[i] == keyed(cmds, i),
        sorted.to_multiset() == init.to_multiset(),
        forall|i: int, j: int|
            0 <= i < j < sorted.len() ==> sorted[i].0 < sorted[j].0 || (sorted[i].0 == sorted[j].0 && sorted[i].1
                <= sorted[j].1),
    ensures
        sorted.len() == cmds.len(),
        forall|k: int| 0 <= k < sorted.len() ==> #[trigger] sorted[k] == keyed(cmds, sorted[k].2 as int) && sorted[k].2
            < cmds.len(),
        sorted_order(cmds, sorted.map_values(|t: (u32, u32, usize)| t.2)),
{
    broadcast use vstd::seq_lib::group_to_multiset_ensures;

    assert(init.no_duplicates()) by {
        assert forall|i: int, j: int| 0 <= i < init.len() && 0 <= j < init.len() && i != j implies init[i] != init[j] by {
            assert(init[i].2 == i as usize);
            assert(init[j].2 == j as usize);
        }
    }
    init.lemma_multiset_has_no_duplicates();
    sorted.lemma_multiset_has_no_duplicates_conv();
    sorted.to_multiset_ensures();
    init.to_multiset_ensures();
    assert(sorted.to_multiset().len() == init.to_multiset().len());
    assert(sorted.len() == cmds.len());
    assert forall|k: int| 0 <= k < sorted.len() implies #[trigger] sorted[k] == keyed(cmds, sorted[k].2 as int)
        && sorted[k].2 < cmds.len() by {
        assert(sorted.contains(sorted[k]));
        assert(sorted.to_multiset().count(sorted[k]) > 0);
        assert(init.contains(sorted[k]));
        let i = choose|i: int| 0 <= i < init.len() && init[i] == sorted[k];
        assert(init[i] == keyed(cmds, i));
    }
    let order = sorted.map_values(|t: (u32, u32, usize)| t.2);
    assert forall|k: int, l: int| 0 <= k < l < order.len() implies #[trigger] order[k] != #[trigger] order[l] by {
        assert(sorted[k] != sorted[l]);
        assert(sorted[k] == keyed(cmds, sorted[k].2 as int));
        assert(sorted[l] == keyed(cmds, sorted[l].2 as int));
    }
    assert forall|i: usize| (i as int) < cmds.len() implies #[trigger] order.contains(i) by {
        let i = i as int;
        assert(init[i] == keyed(cmds, i));
        assert(init.contains(init[i]));
        assert(init.to_multiset().count(init[i]) > 0);
        assert(sorted.contains(init[i]));
        let k = choose|k: int| 0 <= k < sorted.len() && sorted[k] == init[i];
        assert(order[k] == i);
    }
    assert forall|k: int, l: int| 0 <= k < l < order.len() implies key_le(
        cmds[#[trigger] order[k] as int],
        cmds[#[trigger] order[l] as int],
    ) by {
        assert(sorted[k] == keyed(cmds, sorted[k].2 as int));
        assert(sorted[l] == keyed(cmds, sorted[l].2 as int));
    }
}

proof fn lemma_extend_draw_runs(ks: Seq<BatchKey>, before: Seq<DrawBatch>, first: int, i: int, nb: DrawBatch)
    requires
        0 <= first < i <= ks.len() <= u32::MAX,
        draw_runs(ks.subrange(0, first), before),
        before.len() > 0 ==> draw_end(before.last()) == first,
        first > 0 ==> (ks[first].mesh_id != before.last().mesh_id || ks[first].material_id != before.last().material_id),
        nb.first_instance == first,
        nb.instance_count == i - first,
        forall|j: int| first <= j < i ==> ks[j].mesh_id == nb.mesh_id && ks[j].material_id == nb.material_id,
        nb.cast_shadow == exists|j: int| first <= j < i && (#[trigger] ks[j]).cast_shadow,
    ensures
        draw_runs(ks.subrange(0, i), before.push(nb)),
{
    let s = ks.subrange(0, i);
    let b = before.push(nb);
    assert forall|k: int| 0 <= k < b.len() implies (#[trigger] b[k]).instance_count > 0 && draw_end(b[k]) <= s.len()
        && draw_run_of(s, b[k]) by {
        if k < b.len() - 1 {
            let old_s = ks.subrange(0, first);
            assert(b[k] == before[k]);
            assert(draw_run_of(old_s, before[k]));
            assert forall|j: int| b[k].first_instance <= j < draw_end(b[k]) implies #[trigger] s[j] == old_s[j] by {}
            assert(b[k].cast_shadow == exists|j: int| b[k].first_instance <= j < draw_end(b[k]) && (#[trigger] s[j]).cast_shadow) by {
                if b[k].cast_shadow {
                    let j = choose|j: int| b[k].first_instance <= j < draw_end(b[k]) && (#[trigger] old_s[j]).cast_shadow;
                    assert(s[j] == old_s[j]);
                }
            }
        } else {
            assert forall|j: int| first <= j < i implies #[trigger] s[j] == ks[j] by {}
            assert(nb.cast_shadow == exists|j: int| nb.first_instance <= j < draw_end(nb) && (#[trigger] s[j]).cast_shadow) by {
                if nb.cast_shadow {
                    let j = choose|j: int| first <= j < i && (#[trigger] ks[j]).cast_shadow;
                    assert(s[j] == ks[j]);
                }
            }
        }
    }
    assert forall|k: int| 0 <= k < b.len() - 1 implies #[trigger] draw_follows(b[k], b[k + 1]) by {
        assert(b[k] == before[k]);
        if k < b.len() - 2 {
            assert(b[k + 1] == before[k + 1]);
            assert(draw_follows(before[k], before[k + 1]));
        }
    }
}

/// Sorts render commands by (mesh, material) and groups consecutive equal pairs into instanced
/// draws. Returns the instance order (the position in `cmds` of each instance, which is where the
/// caller takes world matrices from) and the batches over it; a batch casts a shadow when one of
/// its commands does.
pub fn build_batches(cmds: &Vec<BatchKey>) -> (r: (Vec<usize>, Vec<DrawBatch>))
    requires
        cmds@.len() <= u32::MAX,
    ensures
        sorted_order(cmds@, r.0@),
        draw_runs(laid_out(cmds@, r.0@), r.1@),
{
    let n = cmds.len();
    let mut triples: Vec<(u32, u32, usize)> = Vec::new();
    let mut p: usize = 0;
    while p < n
        invariant
            n == cmds@.len(),
            p <= n,
            triples@.len() == p,
            forall|i: int| 0 <= i < p ==> #[trigger] triples@[i] == keyed(cmds@, i),
        decreases n - p,
    {
        triples.push((cmds[p].mesh_id, cmds[p].material_id, p));
        p = p + 1;
    }
    let ghost init = triples@;
    sort_by_mesh_material(&mut triples);
    proof {
        lemma_sorted_triples(cmds@, init, triples@);
    }
    let ghost order_view = triples@.map_values(|t: (u32, u32, usize)| t.2);
    let ghost ks = laid_out(cmds@, order_view);
    let mut order: Vec<usize> = Vec::new();
    let mut batches: Vec<DrawBatch> = Vec::new();
    let mut i: usize = 0;
    while i < n
        invariant
            n == cmds@.len(),
            n <= u32::MAX,
            triples@.len() == n,
            forall|k: int| 0 <= k < n ==> #[trigger] triples@[k] == keyed(cmds@, triples@[k].2 as int) && triples@[k].2 < n,
            order_view == triples@.map_values(|t: (u32, u32, usize)| t.2),
            ks == laid_out(cmds@, order_view),
            i <= n,
            order@ == order_view.subrange(0, i as int),
            draw_runs(ks.subrange(0, i as int), batches@),
            0 < i < n ==> (ks[i as int].mesh_id != batches@.last().mesh_id || ks[i as int].material_id
                != batches@.last().material_id),
            batches@.len() > 0 ==> draw_end(batches@.last()) == i,
        decreases n - i,
    {
        let mesh_id = triples[i].0;
        let mat_id = triples[i].1;
        let first = i;
        let mut shadow = false;
        while i < n && triples[i].0 == mesh_id && triples[i].1 == mat_id
            invariant
                n == cmds@.len(),
                triples@.len() == n,
                forall|k: int| 0 <= k < n ==> #[trigger] triples@[k] == keyed(cmds@, triples@[k].2 as int) && triples@[k].2 < n,
                order_view == triples@.map_values(|t: (u32, u32, usize)| t.2),
                ks == laid_out(cmds@, order_view),
                first < n,
                first <= i <= n,
                mesh_id == ks[first as int].mesh_id,
                mat_id == ks[first as int].material_id,
                order@ == order_view.subrange(0, i as int),
                forall|j: int| first <= j < i ==> ks[j].mesh_id == mesh_id && ks[j].material_id == mat_id,
                shadow == exists|j: int| first <= j < i && (#[trigger] ks[j]).cast_shadow,
            decreases n - i,
        {
            let c = triples[i].2;
            if cmds[c].cast_shadow {
                shadow = true;
            }
            order.push(c);
            proof {
                assert(ks[i as int] == cmds@[c as int]);
                assert(order@ =~= order_view.subrange(0, i + 1));
                if shadow {
                    if !cmds@[c as int].cast_shadow {
                        let j = choose|j: int| first <= j < i && (#[trigger] ks[j]).cast_shadow;
                        assert(first <= j < i + 1 && ks[j].cast_shadow);
                    } else {
                        assert(first <= i < i + 1 && ks[i as int].cast_shadow);
                    }
                }
            }
            i = i + 1;
        }
        let ghost before = batches@;
        let nb = DrawBatch {
            mesh_id,
            material_id: mat_id,
            first_instance: first as u32,
            instance_count: (i - first) as u32,
            cast_shadow: shadow,
        };
        batches.push(nb);
        proof {
            lemma_extend_draw_runs(ks, before, first as int, i as int, nb);
        }
    }
    assert(ks.subrange(0, n as int) =~= ks);
    assert(order_view.subrange(0, n as int) =~= order_view);
    (order, batches)
}

} // verus!
