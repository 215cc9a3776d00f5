//! Index topology of the built-in meshes.

use vstd::prelude::*;

use vstd::arithmetic::div_mod::{lemma_fundamental_div_mod, lemma_mod_bound};

verus! {

/// Latitude bands of a UV sphere (at least 2).
pub open spec fn sphere_stacks(stacks: u32) -> int {
    if stacks < 2 { 2 } else { stacks as int }
}

/// Longitude segments of a UV sphere (at least 3).
pub open spec fn sphere_sectors(sectors: u32) -> int {
    if sectors < 3 { 3 } else { sectors as int }
}

/// Corner `c` (0..6) of the two triangles of quad (`i`, `j`) of a grid whose rows hold `sw`
/// vertices: (k0, k0 + 1, k1) and (k1, k0 + 1, k1 + 1), with k0 = i·sw + j and k1 = k0 + sw.
pub open spec fn quad_corner(sw: int, i: int, j: int, c: int) -> int {
    let k0 = i * sw + j;
    let k1 = (i + 1) * sw + j;
    if c == 0 {
        k0
    } else if c == 1 {
        k0 + 1
    } else if c == 2 {
        k1
    } else if c == 3 {
        k1
    } else if c == 4 {
        k0 + 1
    } else {
        k1 + 1
    }
}

/// Indices of a UV sphere: quads row by row, six indices each (see [`quad_corner`]).
pub open spec fn sphere_indices(stacks: u32, sectors: u32) -> Seq<u32> {
    let st = sphere_stacks(stacks);
    let se = sphere_sectors(sectors);
    Seq::new((6 * (st * se)) as nat, |n: int| quad_corner(se + 1, (n / 6) / se, (n / 6) % se, n % 6) as u32)
}

/// What the sphere needs: its index and vertex counts fit in a `u32`.
pub open spec fn sphere_fits(stacks: u32, sectors: u32) -> bool {
    &&& 6 * (sphere_stacks(stacks) * sphere_sectors(sectors)) <= u32::MAX
    &&& (sphere_stacks(stacks) + 1) * (sphere_sectors(sectors) + 1) <= u32::MAX
}

proof fn lemma_corner_in_grid(st: int, se: int, i: int, j: int, c: int)
    requires
        2 <= st,
        3 <= se,
        0 <= i < st,
        0 <= j < se,
        0 <= c < 6,
    ensures
        0 <= quad_corner(se + 1, i, j, c) < (st + 1) * (se + 1),
{
    let sw = se + 1;
    assert(0 <= i * sw) by (nonlinear_arith)
        requires
            0 <= i,
            0 <= sw,
    ;
    assert((i + 1) * sw + j + 1 < (st + 1) * sw) by (nonlinear_arith)
        requires
            0 <= i < st,
            0 <= j < se,
            sw == se + 1,
    ;
    assert((i + 1) * sw == i * sw + sw) by (nonlinear_arith);
}

/// Triangle indices of a UV sphere with `stacks` latitude bands (at least 2) and `sectors`
/// longitude segments (at least 3), over its (stacks + 1) × (sectors + 1) vertex grid.
pub fn uv_sphere_indices(stacks: u32, sectors: u32) -> (r: Vec<u32>)
    requires
        sphere_fits(stacks, sectors),
    ensures
        r@ == sphere_indices(stacks, sectors),
        forall|n: int|
            0 <= n < r@.len() ==> (#[trigger] r@[n] as int) < (sphere_stacks(stacks) + 1) * (sphere_sectors(sectors)
                + 1),
{
    let st: u32 = if stacks < 2 { 2 } else { stacks };
    let se: u32 = if sectors < 3 { 3 } else { sectors };
    assert(se + 1 <= u32::MAX) by (nonlinear_arith)
        requires
            (st + 1) * (se + 1) <= u32::MAX,
            st >= 2,
    ;
    let sw = se + 1;
    let ghost vertices = (st + 1) * (se + 1);
    let mut indices: Vec<u32> = Vec::new();
    let mut i: u32 = 0;
    while i < st
        invariant
            st == sphere_stacks(stacks),
            se == sphere_sectors(sectors),
            sw == se + 1,
            sphere_fits(stacks, sectors),
            vertices == (st + 1) * (se + 1),
            i <= st,
            indices@.len() == 6 * (i * se),
            forall|n: int| 0 <= n < indices@.len() ==> #[trigger] indices@[n] == sphere_indices(stacks, sectors)[n],
        decreases st - i,
    {
        let mut j: u32 = 0;
        while j < se
            invariant
                st == sphere_stacks(stacks),
                se == sphere_sectors(sectors),
                sw == se + 1,
                sphere_fits(stacks, sectors),
                vertices == (st + 1) * (se + 1),
                i < st,
                j <= se,
                indices@.len() == 6 * (i * se + j),
                forall|n: int| 0 <= n < indices@.len() ==> #[trigger] indices@[n] == sphere_indices(stacks, sectors)[n],
            decreases se - j,
        {
            proof {
                lemma_corner_in_grid(st as int, se as int, i as int, j as int, 5);
                lemma_corner_in_grid(st as int, se as int, i as int, j as int, 0);
                assert((i + 1) * sw == i * sw + sw) by (nonlinear_arith);
                assert(i * se + j < st * se) by (nonlinear_arith)
                    requires
                        i < st,
                        j < se,
                ;
            }
            let k0 = i * sw + j;
            let k1 = (i + 1) * sw + j;
            let ghost before = indices@;
            indices.push(k0);
            indices.push(k0 + 1);
            indices.push(k1);
            indices.push(k1);
            indices.push(k0 + 1);
            indices.push(k1 + 1);
            proof {
                let q = i * se + j;
                assert forall|n: int| 0 <= n < indices@.len() implies #[trigger] indices@[n] == sphere_indices(
                    stacks,
                    sectors,
                )[n] by {
                    if n >= 6 * q {
                        assert(n / 6 == q);
                        lemma_fundamental_div_mod(q, se as int);
                        lemma_mod_bound(q, se as int);
                        assert(q / (se as int) == i && q % (se as int) == j) by (nonlinear_arith)
                            requires
                                q == i * se + j,
                                0 <= j < se,
                                q == se * (q / (se as int)) + q % (se as int),
                                0 <= q % (se as int) < se,
                        ;
                    } else {
                        assert(indices@[n] == before[n]);
                    }
                }
            }
            j = j + 1;
        }
        assert((i + 1) * se == i * se + se) by (nonlinear_arith);
        i = i + 1;
    }
    proof {
        assert(indices@ =~= sphere_indices(stacks, sectors));
        assert forall|n: int| 0 <= n < indices@.len() implies (#[trigger] indices@[n] as int) < (sphere_stacks(stacks) + 1)
            * (sphere_sectors(sectors) + 1) by {
            let q = n / 6;
            lemma_fundamental_div_mod(q, se as int);
            lemma_mod_bound(q, se as int);
            assert(q / (se as int) < st) by (nonlinear_arith)
                requires
                    0 <= q < st * se,
                    q == se * (q / (se as int)) + q % (se as int),
                    0 <= q % (se as int) < se,
            ;
            lemma_corner_in_grid(st as int, se as int, q / (se as int), q % (se as int), n % 6);
        }
    }
    indices
}

/// Vertex of face quad `f` (four vertices from `4·f`) used by corner `c` (0..6) of its two
/// triangles: (0, 1, 2) and (0, 2, 3).
pub open spec fn face_corner(f: int, c: int) -> int {
    let k: int = if c == 0 || c == 3 {
        0
    } else if c == 1 {
        1
    } else if c == 2 || c == 4 {
        2
    } else {
        3
    };
    4 * f + k
}

/// Indices of the cube: its six faces in order, two triangles each (see [`face_corner`]).
pub open spec fn cube_index_seq() -> Seq<u32> {
    Seq::new(36, |n: int| face_corner(n / 6, n % 6) as u32)
}

/// Index list of the single triangle (its three vertices, counter-clockwise as seen from +Z).
pub fn triangle_indices() -> (r: Vec<u32>)
    ensures
        r@ == seq![0u32, 1, 2],
{
    let mut r: Vec<u32> = Vec::new();
    r.push(0);
    r.push(1);
    r.push(2);
    r
}

/// Triangle indices of the cube: six faces of four vertices each, 24 vertices in all.
pub fn cube_indices() -> (r: Vec<u32>)
    ensures
        r@ == cube_index_seq(),
        forall|n: int| 0 <= n < r@.len() ==> r@[n] < 24,
{
    let mut indices: Vec<u32> = Vec::new();
    let mut f: u32 = 0;
    while f < 6
        invariant
            f <= 6,
            indices@ == cube_index_seq().subrange(0, 6 * f as int),
        decreases 6 - f,
    {
        let base = f * 4;
        let ghost before = indices@;
        indices.push(base);
        indices.push(base + 1);
        indices.push(base + 2);
        indices.push(base);
        indices.push(base + 2);
        indices.push(base + 3);
        proof {
            assert forall|k: int| 0 <= k < 6 implies #[trigger] cube_index_seq()[6 * f + k] == indices@[6 * f + k] by {
                assert((6 * f + k) / 6 == f as int) by (nonlinear_arith)
                    requires
                        0 <= k < 6,
                        0 <= f,
                ;
                assert((6 * f + k) % 6 == k) by (nonlinear_arith)
                    requires
                        0 <= k < 6,
                        0 <= f,
                ;
            }
            assert(indices@ =~= cube_index_seq().subrange(0, 6 * (f + 1)));
        }
        f = f + 1;
    }
    proof {
        assert(indices@ =~= cube_index_seq());
        assert forall|n: int| 0 <= n < 36 implies #[trigger] cube_index_seq()[n] < 24 by {
            assert(n / 6 < 6);
        }
    }
    indices
}

/// Quad (`i`, `j`) of the sphere's grid (row `i` of `stacks`, column `j` of `sectors`, rows of
/// `sectors + 1` vertices) is drawn by the six indices from `6 * (i * sectors + j)`: the triangles
/// (k0, k0 + 1, k1) and (k1, k0 + 1, k1 + 1), with k0 = i * (sectors + 1) + j its top-left corner
/// and k1 = k0 + sectors + 1 the corner below it; there are six indices per quad.
pub proof fn lemma_sphere_quad_indices(stacks: u32, sectors: u32, i: int, j: int)
    requires
        sphere_fits(stacks, sectors),
        0 <= i < sphere_stacks(stacks),
        0 <= j < sphere_sectors(sectors),
    ensures
        ({
            let st = sphere_stacks(stacks);
            let se = sphere_sectors(sectors);
            let q = i * se + j;
            let k0 = i * (se + 1) + j;
            let k1 = k0 + se + 1;
            let r = sphere_indices(stacks, sectors);
            &&& r.len() == 6 * (st * se)
            &&& 0 <= 6 * q && 6 * q + 6 <= r.len()
            &&& r[6 * q] as int == k0
            &&& r[6 * q + 1] as int == k0 + 1
            &&& r[6 * q + 2] as int == k1
            &&& r[6 * q + 3] as int == k1
            &&& r[6 * q + 4] as int == k0 + 1
            &&& r[6 * q + 5] as int == k1 + 1
        }),
{
    let st = sphere_stacks(stacks);
    let se = sphere_sectors(sectors);
    let q = i * se + j;
    assert(0 <= q < st * se) by (nonlinear_arith)
        requires
            0 <= i < st,
            0 <= j < se,
            q == i * se + j,
    ;
    assert(q / se == i && q % se == j) by (nonlinear_arith)
        requires
            0 <= j < se,
            0 <= i,
            q == i * se + j,
    ;
    assert forall|c: int| 0 <= c < 6 implies #[trigger] ((6 * q + c) / 6) == q && (6 * q + c) % 6 == c by {}
    assert((i + 1) * (se + 1) + j == i * (se + 1) + j + se + 1) by (nonlinear_arith);
    assert(6 * q + 6 <= 6 * (st * se));
    let r = sphere_indices(stacks, sectors);
    assert(r[6 * q] == quad_corner(se + 1, i, j, 0) as u32);
    assert(r[6 * q + 1] == quad_corner(se + 1, i, j, 1) as u32);
    assert(r[6 * q + 2] == quad_corner(se + 1, i, j, 2) as u32);
    assert(r[6 * q + 3] == quad_corner(se + 1, i, j, 3) as u32);
    assert(r[6 * q + 4] == quad_corner(se + 1, i, j, 4) as u32);
    assert(r[6 * q + 5] == quad_corner(se + 1, i, j, 5) as u32);
    assert forall|c: int| 0 <= c < 6 implies 0 <= #[trigger] quad_corner(se + 1, i, j, c) <= u32::MAX by {
        lemma_corner_in_grid(st, se, i, j, c);
    }
}

/// Face `f` (0..6) of the cube owns vertices `4f`..`4f+3` and is drawn by the six indices from
/// `6f`: the triangles (4f, 4f+1, 4f+2) and (4f, 4f+2, 4f+3).
pub proof fn lemma_cube_face_indices(f: int)
    requires
        0 <= f < 6,
    ensures
        cube_index_seq().len() == 36,
        cube_index_seq().subrange(6 * f, 6 * f + 6) == seq![
            (4 * f) as u32,
            (4 * f + 1) as u32,
            (4 * f + 2) as u32,
            (4 * f) as u32,
            (4 * f + 2) as u32,
            (4 * f + 3) as u32,
        ],
{
    assert forall|c: int| 0 <= c < 6 implies #[trigger] ((6 * f + c) / 6) == f && (6 * f + c) % 6 == c by {}
    assert(cube_index_seq().subrange(6 * f, 6 * f + 6) =~= seq![
        (4 * f) as u32,
        (4 * f + 1) as u32,
        (4 * f + 2) as u32,
        (4 * f) as u32,
        (4 * f + 2) as u32,
        (4 * f + 3) as u32,
    ]);
}

} // verus!
