//! Triangle meshes as flat buffers, and the operations that only move
//! indices and vertices about: validation, decimation and the placeholder
//! boolean operations.
use crate::error::OptimizerError;
use crate::scalar::{
    lemma_half_scaled, lemma_magnitude_order, lemma_one_scaled, power_of_two, unit_scale, Scalar,
    HALF_BITS, ONE_BITS,
};
use vstd::arithmetic::div_mod::{
    lemma_basic_div, lemma_div_is_ordered, lemma_div_multiples_vanish,
    lemma_div_multiples_vanish_quotient, lemma_fundamental_div_mod, lemma_multiply_divide_lt,
};
use vstd::arithmetic::power2::{lemma_pow2_adds, lemma_pow2_pos, lemma_pow2_strictly_increases, pow2};
use vstd::prelude::*;
use vstd::slice::{slice_subrange, slice_to_vec};

verus! {

/// A triangle mesh: `vertices` holds x, y, z of each vertex in turn, `indices`
/// names the three vertices of each triangle in turn.
#[derive(Clone, Debug)]
pub struct MeshData {
    pub vertices: Vec<Scalar>,
    pub indices: Vec<u32>,
}

/// Every index names a vertex below `vertex_count`.
pub open spec fn indices_in_range(indices: Seq<u32>, vertex_count: int) -> bool {
    forall|i: int| 0 <= i < indices.len() ==> (#[trigger] indices[i]) < vertex_count
}

/// The number of whole vertices in a buffer of coordinates.
pub open spec fn vertex_count(vertices: Seq<Scalar>) -> int {
    vertices.len() as int / 3
}

/// The number of whole triangles in a buffer of indices.
pub open spec fn triangle_count(indices: Seq<u32>) -> int {
    indices.len() as int / 3
}

/// Accepts an index buffer exactly when each of its indices names a vertex
/// of a buffer of `coordinates` scalars.
pub fn validate_indices(coordinates: usize, indices: &[u32]) -> (r: Result<(), OptimizerError>)
    ensures
        r is Ok <==> indices_in_range(indices@, coordinates as int / 3),
        r is Err ==> r->Err_0.is_index_out_of_range(),
{
    let count: usize = coordinates / 3;
    let mut i: usize = 0;
    while i < indices.len()
        invariant
            i <= indices@.len(),
            count == coordinates as int / 3,
            forall|j: int| 0 <= j < i ==> (#[trigger] indices@[j]) < count,
        decreases indices@.len() - i,
    {
        if indices[i] as usize >= count {
            return Err(OptimizerError::index_out_of_range());
        }
        i += 1;
    }
    Ok(())
}

impl MeshData {
    pub fn new(vertices: Vec<Scalar>, indices: Vec<u32>) -> (m: MeshData)
        ensures
            m.vertices == vertices,
            m.indices == indices,
    {
        MeshData { vertices, indices }
    }

    /// Both buffers hold whole triples and every index names a vertex.
    pub open spec fn well_formed(&self) -> bool {
        &&& self.vertices@.len() % 3 == 0
        &&& self.indices@.len() % 3 == 0
        &&& indices_in_range(self.indices@, vertex_count(self.vertices@))
    }

    /// Whether the mesh is well-formed.
    pub fn is_well_formed(&self) -> (r: bool)
        ensures
            r == self.well_formed(),
    {
        self.vertices.len() % 3 == 0 && self.indices.len() % 3 == 0 && validate_indices(
            self.vertices.len(),
            self.indices.as_slice(),
        ).is_ok()
    }
}

/// The number of triangles that decimation aims for: the triangle count
/// times the ratio, rounded to the nearest integer (halves upwards), and at
/// least 1. A ratio that is a NaN, zero or negative aims for 1.
pub open spec fn target_triangles(triangles: nat, ratio: Scalar) -> nat {
    if ratio.is_nan() || ratio.scaled() <= 0 {
        1
    } else {
        let rounded = (2 * triangles * ratio.scaled() + unit_scale()) / (2 * unit_scale() as int);
        if rounded < 1 {
            1
        } else {
            rounded as nat
        }
    }
}

/// The distance between two triangles that decimation keeps: the triangle
/// count divided by the target, rounded down, and at least 1.
pub open spec fn stride(triangles: nat, target: nat) -> nat {
    if target == 0 || triangles / target < 1 {
        1
    } else {
        triangles / target
    }
}

/// The number of triangles that decimation keeps: it takes the positions
/// 0, stride, 2 * stride, ... below the triangle count, and stops once it
/// holds `target` of them.
pub open spec fn kept_triangles(triangles: nat, target: nat) -> nat {
    let step = stride(triangles, target);
    let reachable = (triangles + step - 1) / (step as int);
    if target < reachable {
        target
    } else {
        reachable as nat
    }
}

/// The index buffer after decimation to `target` triangles: kept triangle
/// `k` is triangle `k * stride` of the input.
pub open spec fn decimated_indices(indices: Seq<u32>, target: nat) -> Seq<u32> {
    let triangles = triangle_count(indices) as nat;
    let step = stride(triangles, target);
    Seq::new(
        3 * kept_triangles(triangles, target),
        |j: int| indices[3 * ((j / 3) * step) + j % 3],
    )
}

/// Decimation keeps as many triangles as it aims for, or all of them where
/// the mesh has fewer.
pub proof fn lemma_kept_is_minimum(triangles: nat, target: nat)
    requires
        target >= 1,
    ensures
        kept_triangles(triangles, target) == if triangles < target {
            triangles
        } else {
            target
        },
        stride(triangles, target) >= 1,
        (kept_triangles(triangles, target) - 1) * stride(triangles, target) < triangles
            || triangles == 0,
{
    let step = stride(triangles, target);
    let n = triangles as int;
    let t = target as int;
    if n < t {
        lemma_basic_div(n, t);
        assert(step == 1);
    } else {
        lemma_fundamental_div_mod(n, t);
        lemma_div_is_ordered(t, n, t);
        vstd::arithmetic::div_mod::lemma_div_by_self(t);
        assert(step == n / t);
        assert(t * step <= n) by (nonlinear_arith)
            requires
                n == t * (n / t) + n % t,
                n % t >= 0,
                step == n / t,
        ;
        // `target` positions fit below the triangle count
        lemma_div_is_ordered(t * step, n + step - 1, step as int);
        lemma_div_multiples_vanish(t, step as int);
        assert(t * step == step * t) by (nonlinear_arith);
        assert((t - 1) * step < n) by (nonlinear_arith)
            requires
                t * step <= n,
                step >= 1,
        ;
    }
}

/// The target, held down to the triangle count (to 1 for an empty mesh).
pub open spec fn capped_target(triangles: nat, target: nat) -> nat {
    let most: nat = if triangles < 1 {
        1
    } else {
        triangles
    };
    if target < most {
        target
    } else {
        most
    }
}

/// A target beyond the triangle count keeps the same triangles as a target
/// equal to it.
pub proof fn lemma_capped_target(triangles: nat, target: nat)
    requires
        target >= 1,
    ensures
        stride(triangles, capped_target(triangles, target)) == stride(triangles, target),
        kept_triangles(triangles, capped_target(triangles, target)) == kept_triangles(
            triangles,
            target,
        ),
{
    let most = capped_target(triangles, target);
    if target > most {
        lemma_kept_is_minimum(triangles, target);
        lemma_kept_is_minimum(triangles, most);
        lemma_basic_div(triangles as int, target as int);
        if triangles >= 1 {
            vstd::arithmetic::div_mod::lemma_div_by_self(triangles as int);
        }
    }
}

/// A ratio of 1 keeps every whole triangle, in order.
pub proof fn lemma_full_ratio_keeps_every_triangle(indices: Seq<u32>)
    ensures
        decimated_indices(
            indices,
            target_triangles(triangle_count(indices) as nat, Scalar { bits: ONE_BITS }),
        ) == indices.subrange(0, 3 * triangle_count(indices)),
{
    let n = triangle_count(indices) as nat;
    let one = Scalar { bits: ONE_BITS };
    let target = target_triangles(n, one);
    lemma_one_scaled();
    lemma_pow2_pos(149);
    let u = unit_scale() as int;
    assert(2 * n * u + u == u * (2 * n + 1)) by (nonlinear_arith);
    assert(2 * u == u * 2) by (nonlinear_arith);
    lemma_div_multiples_vanish_quotient(u, 2 * n as int + 1, 2);
    assert((2 * n * u + u) / (2 * u) == (2 * n + 1) / 2);
    assert(target == if n < 1 {
        1
    } else {
        n
    });
    lemma_kept_is_minimum(n, target);
    if n >= 1 {
        vstd::arithmetic::div_mod::lemma_div_by_self(n as int);
    }
    assert(stride(n, target) == 1);
    assert(kept_triangles(n, target) == n);
    assert(decimated_indices(indices, target) =~= indices.subrange(0, 3 * triangle_count(indices)));
}

/// A ratio of one half keeps every second triangle of a mesh with an even
/// number of triangles: half of them.
pub proof fn lemma_half_ratio_keeps_every_second_triangle(indices: Seq<u32>)
    requires
        triangle_count(indices) % 2 == 0,
        triangle_count(indices) >= 2,
    ensures
        ({
            let kept = decimated_indices(
                indices,
                target_triangles(triangle_count(indices) as nat, Scalar { bits: HALF_BITS }),
            );
            &&& kept.len() == 3 * (triangle_count(indices) / 2)
            &&& forall|j: int|
                0 <= j < kept.len() ==> #[trigger] kept[j] == indices[3 * (2 * (j / 3)) + j % 3]
        }),
{
    let n = triangle_count(indices) as nat;
    let m = (n / 2) as int;
    let half = Scalar { bits: HALF_BITS };
    let target = target_triangles(n, half);
    lemma_half_scaled();
    lemma_pow2_pos(149);
    let u = unit_scale() as int;
    let x = half.scaled();
    assert(2 * n * x + u == u * (2 * m + 1)) by (nonlinear_arith)
        requires
            2 * x == u,
            n == 2 * m,
    ;
    assert(2 * u == u * 2);
    lemma_div_multiples_vanish_quotient(u, 2 * m + 1, 2);
    assert(target == m);
    lemma_kept_is_minimum(n, target);
    lemma_fundamental_div_mod(n as int, m);
    lemma_div_multiples_vanish(2, m);
    assert(n as int == m * 2);
    assert(stride(n, target) == 2);
    let kept = decimated_indices(indices, target);
    assert forall|j: int| 0 <= j < kept.len() implies #[trigger] kept[j] == indices[3 * (2 * (j
        / 3)) + j % 3] by {
        assert((j / 3) * 2 == 2 * (j / 3));
    }
}

/// For a positive ratio below 1 the scaled rounding comes down to a
/// rounding of `triangles * significand` by a power of two, and the result
/// does not exceed the triangle count.
pub proof fn lemma_rounding_below_one(triangles: nat, significand: nat, shift: nat)
    requires
        shift <= 125,
        significand < 0x100_0000,
    ensures
        ({
            let k = (149 - shift) as nat;
            let scaled = (significand * pow2(shift)) as int;
            let rounded = (2 * triangles * scaled + unit_scale()) / (2 * unit_scale() as int);
            &&& rounded == (triangles * significand + pow2((k - 1) as nat)) as int / (pow2(
                k,
            ) as int)
            &&& 0 <= rounded <= triangles
        }),
{
    let k = (149 - shift) as nat;
    let half = pow2((k - 1) as nat) as int;
    let whole = pow2(k) as int;
    let c = pow2(shift + 1) as int;
    let p = pow2(shift) as int;
    let n = triangles as int;
    let g = significand as int;
    let u = unit_scale() as int;
    vstd::arithmetic::power2::lemma2_to64();
    lemma_pow2_adds(1, shift);
    lemma_pow2_adds(shift + 1, (k - 1) as nat);
    lemma_pow2_adds(shift + 1, k);
    lemma_pow2_adds(1, 149);
    lemma_pow2_adds(1, (k - 1) as nat);
    lemma_pow2_pos(shift + 1);
    lemma_pow2_pos(k);
    lemma_pow2_pos((k - 1) as nat);
    assert(c == 2 * p);
    assert(u == c * half);
    assert(2 * u == c * whole);
    assert(whole == 2 * half);
    assert(2 * n * (g * p) + u == c * (n * g + half)) by (nonlinear_arith)
        requires
            c == 2 * p,
            u == c * half,
    ;
    lemma_div_multiples_vanish_quotient(c, n * g + half, whole);
    // the significand is below 2^24, and `k` is at least 24
    if 24 < k {
        lemma_pow2_strictly_increases(24, k);
    }
    assert(g < whole);
    assert(n * g + half < whole * (n + 1)) by (nonlinear_arith)
        requires
            0 <= g < whole,
            0 < half < whole,
            n >= 0,
    ;
    lemma_multiply_divide_lt(n * g + half, whole, n + 1);
    assert(n * g + half >= 0) by (nonlinear_arith)
        requires
            n >= 0,
            g >= 0,
            half > 0,
    ;
    vstd::arithmetic::div_mod::lemma_div_pos_is_pos(n * g + half, whole);
}

/// The target of decimation, held down to the triangle count: a higher
/// target keeps the same triangles.
pub fn target_triangle_count(triangles: usize, ratio: Scalar) -> (target: usize)
    ensures
        target == capped_target(triangles as nat, target_triangles(triangles as nat, ratio)),
{
    let ghost wanted = target_triangles(triangles as nat, ratio);
    proof {
        lemma_capped_target(triangles as nat, wanted);
        lemma_magnitude_order(0, ratio.magnitude());
        lemma_pow2_pos(149);
        lemma_pow2_adds(1, 149);
        vstd::arithmetic::power2::lemma2_to64();
    }
    if ratio.check_nan() || ratio.sign_bit() || ratio.bits == 0 {
        return 1;
    }
    if triangles == 0 {
        proof {
            lemma_rounding_zero();
        }
        return 1;
    }
    let ghost u = unit_scale() as int;
    let ghost n = triangles as int;
    if ratio.bits >= ONE_BITS {
        proof {
            // the ratio is at least 1, so the rounded product is at least the count
            lemma_magnitude_order(ONE_BITS as nat, ratio.magnitude());
            lemma_one_scaled();
            let x = ratio.scaled();
            assert(x >= u);
            assert((2 * u) * n <= 2 * n * x + u) by (nonlinear_arith)
                requires
                    x >= u,
                    u > 0,
                    n >= 0,
            ;
            lemma_div_is_ordered((2 * u) * n, 2 * n * x + u, 2 * u);
            lemma_div_multiples_vanish(n, 2 * u);
        }
        return triangles;
    }
    let significand = ratio.significand();
    let shift = ratio.shift();
    proof {
        assert(ratio.magnitude() / 0x80_0000 <= 126);
        lemma_rounding_below_one(triangles as nat, significand as nat, shift as nat);
    }
    let k: u32 = 149 - shift;
    proof {
        assert(triangles * significand < 0x100_0000 * 0x1_0000_0000_0000_0000) by (nonlinear_arith)
            requires
                0 <= triangles < 0x1_0000_0000_0000_0000,
                0 <= significand < 0x100_0000,
        ;
    }
    let product: u128 = (triangles as u128) * (significand as u128);
    if k >= 89 {
        proof {
            // the product is below 2^88, hence below half of 2^k
            vstd::arithmetic::power2::lemma2_to64_rest();
            lemma_pow2_adds(24, 64);
            if 88 < k - 1 {
                lemma_pow2_strictly_increases(88, (k - 1) as nat);
            }
            lemma_pow2_adds(1, (k - 1) as nat);
            lemma_basic_div(product + pow2((k - 1) as nat), pow2(k as nat) as int);
        }
        return 1;
    }
    let half = power_of_two(k - 1);
    let whole = power_of_two(k);
    proof {
        lemma_pow2_pos(k as nat);
    }
    let rounded: u128 = (product + half) / whole;
    if rounded < 1 {
        1
    } else {
        rounded as usize
    }
}

/// An empty mesh rounds to no triangle at all.
pub proof fn lemma_rounding_zero()
    ensures
        unit_scale() as int / (2 * unit_scale() as int) == 0,
{
    lemma_pow2_pos(149);
    lemma_basic_div(unit_scale() as int, 2 * unit_scale() as int);
}

/// Reduces the triangles of a mesh by keeping every `stride`-th one, up to
/// `round(triangles * ratio)` of them and at least one; the vertices are
/// left as they are. A trailing partial triangle is dropped.
pub fn perform_decimation(vertices: &[Scalar], indices: &[u32], ratio: Scalar) -> (mesh: MeshData)
    ensures
        mesh.vertices@ == vertices@,
        mesh.indices@ == decimated_indices(
            indices@,
            target_triangles(triangle_count(indices@) as nat, ratio),
        ),
{
    let triangles: usize = indices.len() / 3;
    let target: usize = target_triangle_count(triangles, ratio);
    let step: usize = if triangles / target < 1 {
        1
    } else {
        triangles / target
    };
    let ghost wanted = target_triangles(triangles as nat, ratio);
    let ghost kept = kept_triangles(triangles as nat, wanted);
    proof {
        lemma_capped_target(triangles as nat, wanted);
        lemma_kept_is_minimum(triangles as nat, target as nat);
        if triangles < target {
            lemma_basic_div(triangles as int, target as int);
        } else {
            lemma_div_is_ordered(target as int, triangles as int, target as int);
            vstd::arithmetic::div_mod::lemma_div_by_self(target as int);
            lemma_fundamental_div_mod(triangles as int, target as int);
            assert(step <= triangles) by (nonlinear_arith)
                requires
                    triangles == target * (triangles / target) + triangles % target,
                    triangles % target >= 0,
                    step == triangles / target,
                    target >= 1,
                    step >= 1,
            ;
        }
    }
    let mut kept_indices: Vec<u32> = Vec::new();
    let mut taken: usize = 0;
    let mut position: usize = 0;
    while position < triangles && taken < target
        invariant
            triangles == triangle_count(indices@),
            indices@.len() <= usize::MAX,
            target >= 1,
            1 <= step <= triangles || triangles == 0,
            step == stride(triangles as nat, target as nat),
            kept == kept_triangles(triangles as nat, target as nat),
            kept <= triangles,
            kept <= target,
            kept == triangles || kept == target,
            (kept - 1) * step < triangles || triangles == 0,
            position == taken * step,
            taken <= kept,
            taken < kept ==> position < triangles,
            kept_indices@.len() == 3 * taken,
            forall|j: int|
                0 <= j < 3 * taken ==> #[trigger] kept_indices@[j] == indices@[3 * ((j / 3) * step)
                    + j % 3],
        decreases kept - taken,
    {
        proof {
            if taken >= kept {
                // `taken == kept == triangles` would put the position past the end
                assert(taken * step >= kept * step) by (nonlinear_arith)
                    requires
                        taken >= kept,
                        step >= 1,
                ;
                assert(kept * step >= kept) by (nonlinear_arith)
                    requires
                        kept >= 0,
                        step >= 1,
                ;
            }
            assert(taken < kept);
        }
        let ghost before = kept_indices@;
        kept_indices.push(indices[position * 3]);
        kept_indices.push(indices[position * 3 + 1]);
        kept_indices.push(indices[position * 3 + 2]);
        proof {
            assert forall|j: int| 0 <= j < 3 * (taken + 1) implies #[trigger] kept_indices@[j]
                == indices@[3 * ((j / 3) * step) + j % 3] by {
                if j >= 3 * taken {
                    assert(j / 3 == taken);
                } else {
                    assert(kept_indices@[j] == before[j]);
                }
            }
            assert((taken + 1) * step == position + step) by (nonlinear_arith)
                requires
                    position == taken * step,
            ;
            if taken + 1 < kept {
                assert((taken + 1) * step <= (kept - 1) * step) by (nonlinear_arith)
                    requires
                        taken + 1 <= kept - 1,
                        step >= 1,
                ;
            }
        }
        taken += 1;
        position += step;
    }
    proof {
        if taken < kept {
            assert(position < triangles);
            assert(taken < target);
        }
        assert(taken == kept);
        assert(kept_indices@ =~= decimated_indices(indices@, wanted));
    }
    MeshData { vertices: slice_to_vec(vertices), indices: kept_indices }
}

/// The boolean operations that `boolean_operation` knows by name.
#[derive(Clone, Copy, PartialEq, Eq, Debug, Structural)]
pub enum BooleanOperation {
    Union,
    Subtract,
    Intersect,
}

/// The operation that a name stands for, if any.
pub open spec fn operation_named(name: Seq<char>) -> Option<BooleanOperation> {
    if name == "union"@ {
        Some(BooleanOperation::Union)
    } else if name == "subtract"@ {
        Some(BooleanOperation::Subtract)
    } else if name == "intersect"@ {
        Some(BooleanOperation::Intersect)
    } else {
        None
    }
}

/// Reads the name of a boolean operation; any name but "union", "subtract"
/// and "intersect" is an `InvalidOperation`.
pub fn parse_operation(name: &str) -> (r: Result<BooleanOperation, OptimizerError>)
    ensures
        match operation_named(name@) {
            Some(operation) => r == Ok::<BooleanOperation, OptimizerError>(operation),
            None => r is Err && r->Err_0.is_invalid_operation(),
        },
{
    let owned = name.to_owned();
    if owned == "union".to_owned() {
        Ok(BooleanOperation::Union)
    } else if owned == "subtract".to_owned() {
        Ok(BooleanOperation::Subtract)
    } else if owned == "intersect".to_owned() {
        Ok(BooleanOperation::Intersect)
    } else {
        Err(OptimizerError::invalid_operation())
    }
}

/// Every index of the second mesh, moved past the `offset` vertices of the
/// first, is still a 32-bit index.
pub open spec fn offsets_fit(indices: Seq<u32>, offset: int) -> bool {
    forall|i: int| 0 <= i < indices.len() ==> (#[trigger] indices[i]) + offset <= u32::MAX
}

/// The indices of the second mesh, each moved past `offset` vertices.
pub open spec fn offset_indices(indices: Seq<u32>, offset: int) -> Seq<u32> {
    Seq::new(indices.len(), |i: int| (indices[i] + offset) as u32)
}

/// The shorter of two lengths.
pub open spec fn shorter(a: nat, b: nat) -> int {
    if a < b {
        a as int
    } else {
        b as int
    }
}

/// Placeholder union: the vertices of `a` followed by those of `b`, and the
/// indices of `a` followed by those of `b` moved past the vertices of `a`.
/// No geometry is merged. Fails with `IndexOutOfRange` exactly when a moved
/// index would not fit in 32 bits.
pub fn perform_boolean_union(mesh_a: &MeshData, mesh_b: &MeshData) -> (r: Result<
    MeshData,
    OptimizerError,
>)
    ensures
        r is Ok <==> offsets_fit(mesh_b.indices@, vertex_count(mesh_a.vertices@)),
        r is Err ==> r->Err_0.is_index_out_of_range(),
        r is Ok ==> r->Ok_0.vertices@ == mesh_a.vertices@ + mesh_b.vertices@,
        r is Ok ==> r->Ok_0.indices@ == mesh_a.indices@ + offset_indices(
            mesh_b.indices@,
            vertex_count(mesh_a.vertices@),
        ),
{
    let offset: usize = mesh_a.vertices.len() / 3;
    let mut vertices: Vec<Scalar> = slice_to_vec(mesh_a.vertices.as_slice());
    let mut indices: Vec<u32> = slice_to_vec(mesh_a.indices.as_slice());
    let mut i: usize = 0;
    while i < mesh_b.vertices.len()
        invariant
            i <= mesh_b.vertices@.len(),
            vertices@ == mesh_a.vertices@ + mesh_b.vertices@.subrange(0, i as int),
        decreases mesh_b.vertices@.len() - i,
    {
        vertices.push(mesh_b.vertices[i]);
        i += 1;
        assert(vertices@ =~= mesh_a.vertices@ + mesh_b.vertices@.subrange(0, i as int));
    }
    assert(mesh_b.vertices@.subrange(0, i as int) =~= mesh_b.vertices@);
    let mut j: usize = 0;
    while j < mesh_b.indices.len()
        invariant
            j <= mesh_b.indices@.len(),
            offset == vertex_count(mesh_a.vertices@),
            forall|k: int| 0 <= k < j ==> (#[trigger] mesh_b.indices@[k]) + offset <= u32::MAX,
            indices@ == mesh_a.indices@ + offset_indices(
                mesh_b.indices@.subrange(0, j as int),
                offset as int,
            ),
        decreases mesh_b.indices@.len() - j,
    {
        let index = mesh_b.indices[j];
        if offset > (u32::MAX - index) as usize {
            return Err(OptimizerError::index_out_of_range());
        }
        indices.push(index + offset as u32);
        j += 1;
        assert(indices@ =~= mesh_a.indices@ + offset_indices(
            mesh_b.indices@.subrange(0, j as int),
            offset as int,
        ));
    }
    assert(mesh_b.indices@.subrange(0, j as int) =~= mesh_b.indices@);
    Ok(MeshData { vertices, indices })
}

/// Placeholder subtraction: the first mesh, unchanged.
pub fn perform_boolean_subtract(mesh_a: &MeshData, mesh_b: &MeshData) -> (mesh: MeshData)
    ensures
        mesh.vertices@ == mesh_a.vertices@,
        mesh.indices@ == mesh_a.indices@,
{
    MeshData {
        vertices: slice_to_vec(mesh_a.vertices.as_slice()),
        indices: slice_to_vec(mesh_a.indices.as_slice()),
    }
}

/// Placeholder intersection: each buffer of the first mesh, cut to the
/// length of the shorter of the two meshes' buffers of that kind.
pub fn perform_boolean_intersect(mesh_a: &MeshData, mesh_b: &MeshData) -> (mesh: MeshData)
    ensures
        mesh.vertices@ == mesh_a.vertices@.subrange(
            0,
            shorter(mesh_a.vertices@.len(), mesh_b.vertices@.len()),
        ),
        mesh.indices@ == mesh_a.indices@.subrange(
            0,
            shorter(mesh_a.indices@.len(), mesh_b.indices@.len()),
        ),
{
    let vertex_end: usize = if mesh_a.vertices.len() < mesh_b.vertices.len() {
        mesh_a.vertices.len()
    } else {
        mesh_b.vertices.len()
    };
    let index_end: usize = if mesh_a.indices.len() < mesh_b.indices.len() {
        mesh_a.indices.len()
    } else {
        mesh_b.indices.len()
    };
    MeshData {
        vertices: slice_to_vec(slice_subrange(mesh_a.vertices.as_slice(), 0, vertex_end)),
        indices: slice_to_vec(slice_subrange(mesh_a.indices.as_slice(), 0, index_end)),
    }
}

/// What a boolean operation makes of two meshes, where it succeeds.
pub open spec fn boolean_result(
    operation: BooleanOperation,
    mesh_a: &MeshData,
    mesh_b: &MeshData,
    mesh: MeshData,
) -> bool {
    match operation {
        BooleanOperation::Union => {
            &&& mesh.vertices@ == mesh_a.vertices@ + mesh_b.vertices@
            &&& mesh.indices@ == mesh_a.indices@ + offset_indices(
                mesh_b.indices@,
                vertex_count(mesh_a.vertices@),
            )
        },
        BooleanOperation::Subtract => {
            &&& mesh.vertices@ == mesh_a.vertices@
            &&& mesh.indices@ == mesh_a.indices@
        },
        BooleanOperation::Intersect => {
            &&& mesh.vertices@ == mesh_a.vertices@.subrange(
                0,
                shorter(mesh_a.vertices@.len(), mesh_b.vertices@.len()),
            )
            &&& mesh.indices@ == mesh_a.indices@.subrange(
                0,
                shorter(mesh_a.indices@.len(), mesh_b.indices@.len()),
            )
        },
    }
}

/// Whether a boolean operation succeeds on two meshes: only a union can
/// fail, where a moved index does not fit.
pub open spec fn boolean_possible(
    operation: BooleanOperation,
    mesh_a: &MeshData,
    mesh_b: &MeshData,
) -> bool {
    operation == BooleanOperation::Union ==> offsets_fit(
        mesh_b.indices@,
        vertex_count(mesh_a.vertices@),
    )
}

/// Applies the boolean operation of the given name to two meshes.
pub fn boolean_operation(operation: &str, mesh_a: &MeshData, mesh_b: &MeshData) -> (r: Result<
    MeshData,
    OptimizerError,
>)
    ensures
        match operation_named(operation@) {
            None => r is Err && r->Err_0.is_invalid_operation(),
            Some(known) => if boolean_possible(known, mesh_a, mesh_b) {
                r is Ok && boolean_result(known, mesh_a, mesh_b, r->Ok_0)
            } else {
                r is Err && r->Err_0.is_index_out_of_range()
            },
        },
{
    match parse_operation(operation) {
        Err(e) => Err(e),
        Ok(BooleanOperation::Union) => perform_boolean_union(mesh_a, mesh_b),
        Ok(BooleanOperation::Subtract) => Ok(perform_boolean_subtract(mesh_a, mesh_b)),
        Ok(BooleanOperation::Intersect) => Ok(perform_boolean_intersect(mesh_a, mesh_b)),
    }
}

/// The union of two well-formed meshes is well-formed: the moved indices
/// name the vertices that the second mesh brought.
pub proof fn lemma_union_well_formed(mesh_a: &MeshData, mesh_b: &MeshData, mesh: MeshData)
    requires
        mesh_a.well_formed(),
        mesh_b.well_formed(),
        offsets_fit(mesh_b.indices@, vertex_count(mesh_a.vertices@)),
        boolean_result(BooleanOperation::Union, mesh_a, mesh_b, mesh),
    ensures
        mesh.well_formed(),
{
    let offset = vertex_count(mesh_a.vertices@);
    let moved = offset_indices(mesh_b.indices@, offset);
    assert(vertex_count(mesh.vertices@) == offset + vertex_count(mesh_b.vertices@));
    assert forall|i: int| 0 <= i < mesh.indices@.len() implies (#[trigger] mesh.indices@[i])
        < vertex_count(mesh.vertices@) by {
        if i < mesh_a.indices@.len() {
            assert(mesh.indices@[i] == mesh_a.indices@[i]);
        } else {
            let k = i - mesh_a.indices@.len();
            assert(mesh.indices@[i] == moved[k]);
            assert(mesh_b.indices@[k] + offset <= u32::MAX);
            assert(mesh_b.indices@[k] < vertex_count(mesh_b.vertices@));
        }
    }
}

/// Decimation keeps a well-formed mesh well-formed.
pub proof fn lemma_decimation_well_formed(vertices: Seq<Scalar>, indices: Seq<u32>, target: nat)
    requires
        target >= 1,
        vertices.len() % 3 == 0,
        indices_in_range(indices, vertex_count(vertices)),
    ensures
        decimated_indices(indices, target).len() % 3 == 0,
        indices_in_range(decimated_indices(indices, target), vertex_count(vertices)),
{
    let triangles = triangle_count(indices) as nat;
    let step = stride(triangles, target);
    let kept = kept_triangles(triangles, target);
    let out = decimated_indices(indices, target);
    lemma_kept_is_minimum(triangles, target);
    assert forall|j: int| 0 <= j < out.len() implies (#[trigger] out[j]) < vertex_count(
        vertices,
    ) by {
        let k = j / 3;
        assert(k * step <= (kept - 1) * step) by (nonlinear_arith)
            requires
                0 <= k <= kept - 1,
                step >= 1,
        ;
        let source = 3 * (k * step) + j % 3;
        assert(0 <= source < indices.len()) by (nonlinear_arith)
            requires
                0 <= k * step < triangles,
                triangles == indices.len() as int / 3,
                0 <= j % 3 < 3,
                source == 3 * (k * step) + j % 3,
        ;
        assert(out[j] == indices[source]);
    }
}

} // verus!
