//! Per-vertex smooth normals by accumulation of face normals.
//!
//! The rounded arithmetic comes from the caller: `arithmetic` performs one
//! operation on two scalars, `face_normal` gives the unit normal of a
//! triangle (the zero vector for a triangle without area). The loops, the
//! slots that each triangle feeds and the guard against a zero length are
//! the library's, and the contract states them for whatever the two
//! functions return.
use crate::error::OptimizerError;
use crate::mesh::{indices_in_range, triangle_count, validate_indices, vertex_count};
use crate::scalar::{accepts_all, single_valued, Operation, Scalar, Vector3};
use vstd::prelude::*;

verus! {

/// The vertex (or accumulated normal) that occupies slots `3v..3v+3`.
pub open spec fn vertex_at(buffer: Seq<Scalar>, v: int) -> Vector3 {
    Vector3 { x: buffer[3 * v], y: buffer[3 * v + 1], z: buffer[3 * v + 2] }
}

/// The function accepts every triangle.
pub open spec fn accepts_all_triangles<N: Fn(Vector3, Vector3, Vector3) -> Vector3>(
    face_normal: &N,
) -> bool {
    forall|a: Vector3, b: Vector3, c: Vector3| face_normal.requires((a, b, c))
}

/// `after` is `before` with `normal` added, component by component, into the
/// slots of vertex `v`; all other slots are unchanged.
pub open spec fn slot_added<K: Fn(Operation, Scalar, Scalar) -> Scalar>(
    arithmetic: &K,
    before: Seq<Scalar>,
    v: int,
    normal: Vector3,
    after: Seq<Scalar>,
) -> bool {
    &&& after.len() == before.len()
    &&& arithmetic.ensures((Operation::Add, before[3 * v], normal.x), after[3 * v])
    &&& arithmetic.ensures((Operation::Add, before[3 * v + 1], normal.y), after[3 * v + 1])
    &&& arithmetic.ensures((Operation::Add, before[3 * v + 2], normal.z), after[3 * v + 2])
    &&& forall|j: int|
        0 <= j < before.len() && !(3 * v <= j < 3 * v + 3) ==> #[trigger] after[j] == before[j]
}

/// One triangle's contribution, with its intermediate results named:
/// `normal` is the face normal of the triangle over vertices `a`, `b`, `c`,
/// and adding it to the slots of `a`, then `b`, then `c` leads from `before`
/// over `first` and `second` to `after`.
pub open spec fn triangle_steps<
    K: Fn(Operation, Scalar, Scalar) -> Scalar,
    N: Fn(Vector3, Vector3, Vector3) -> Vector3,
>(
    arithmetic: &K,
    face_normal: &N,
    vertices: Seq<Scalar>,
    corners: (int, int, int),
    normal: Vector3,
    states: (Seq<Scalar>, Seq<Scalar>, Seq<Scalar>, Seq<Scalar>),
) -> bool {
    &&& face_normal.ensures(
        (
            vertex_at(vertices, corners.0),
            vertex_at(vertices, corners.1),
            vertex_at(vertices, corners.2),
        ),
        normal,
    )
    &&& slot_added(arithmetic, states.0, corners.0, normal, states.1)
    &&& slot_added(arithmetic, states.1, corners.1, normal, states.2)
    &&& slot_added(arithmetic, states.2, corners.2, normal, states.3)
}

/// The three vertices that triangle `t` names.
pub open spec fn corners_of(indices: Seq<u32>, t: int) -> (int, int, int) {
    (indices[3 * t] as int, indices[3 * t + 1] as int, indices[3 * t + 2] as int)
}

/// `after` is `before` with the face normal of triangle `t` added to the
/// slots of its first, then its second, then its third vertex.
pub open spec fn triangle_added<
    K: Fn(Operation, Scalar, Scalar) -> Scalar,
    N: Fn(Vector3, Vector3, Vector3) -> Vector3,
>(
    arithmetic: &K,
    face_normal: &N,
    vertices: Seq<Scalar>,
    indices: Seq<u32>,
    t: int,
    before: Seq<Scalar>,
    after: Seq<Scalar>,
) -> bool {
    exists|normal: Vector3, first: Seq<Scalar>, second: Seq<Scalar>|
        #[trigger] triangle_steps(
            arithmetic,
            face_normal,
            vertices,
            corners_of(indices, t),
            normal,
            (before, first, second, after),
        )
}

/// `sums` is what the accumulator holds once the first `done` triangles
/// have been added, in order, to a buffer of zeros.
pub open spec fn accumulated<
    K: Fn(Operation, Scalar, Scalar) -> Scalar,
    N: Fn(Vector3, Vector3, Vector3) -> Vector3,
>(
    arithmetic: &K,
    face_normal: &N,
    vertices: Seq<Scalar>,
    indices: Seq<u32>,
    done: nat,
    sums: Seq<Scalar>,
) -> bool
    decreases done,
{
    if done == 0 {
        sums == Seq::new(vertices.len(), |i: int| Scalar { bits: 0 })
    } else {
        exists|earlier: Seq<Scalar>|
            {
                &&& accumulated(
                    arithmetic,
                    face_normal,
                    vertices,
                    indices,
                    (done - 1) as nat,
                    earlier,
                )
                &&& #[trigger] triangle_added(
                    arithmetic,
                    face_normal,
                    vertices,
                    indices,
                    done - 1,
                    earlier,
                    sums,
                )
            }
    }
}

/// The length of `v`, with its intermediate results named: the three
/// squares, their sum from x to z, then the square root.
pub open spec fn length_steps<K: Fn(Operation, Scalar, Scalar) -> Scalar>(
    arithmetic: &K,
    v: Vector3,
    squares: Vector3,
    xy: Scalar,
    xyz: Scalar,
    length: Scalar,
) -> bool {
    &&& arithmetic.ensures((Operation::Multiply, v.x, v.x), squares.x)
    &&& arithmetic.ensures((Operation::Multiply, v.y, v.y), squares.y)
    &&& arithmetic.ensures((Operation::Multiply, v.z, v.z), squares.z)
    &&& arithmetic.ensures((Operation::Add, squares.x, squares.y), xy)
    &&& arithmetic.ensures((Operation::Add, xy, squares.z), xyz)
    &&& arithmetic.ensures((Operation::SquareRoot, xyz, Scalar { bits: 0 }), length)
}

/// `length` is the Euclidean length of `v` as the arithmetic computes it.
pub open spec fn length_of<K: Fn(Operation, Scalar, Scalar) -> Scalar>(
    arithmetic: &K,
    v: Vector3,
    length: Scalar,
) -> bool {
    exists|squares: Vector3, xy: Scalar, xyz: Scalar| #[trigger]
        length_steps(arithmetic, v, squares, xy, xyz, length)
}

/// `unit` is `v` divided by its length where that length is above zero, and
/// `v` itself where it is not (a zero vector, or a length that is a NaN).
pub open spec fn unit_or_unchanged<K: Fn(Operation, Scalar, Scalar) -> Scalar>(
    arithmetic: &K,
    v: Vector3,
    unit: Vector3,
) -> bool {
    exists|length: Scalar|
        {
            &&& #[trigger] length_of(arithmetic, v, length)
            &&& if (Scalar { bits: 0 }).spec_lt(length) {
                &&& arithmetic.ensures((Operation::Divide, v.x, length), unit.x)
                &&& arithmetic.ensures((Operation::Divide, v.y, length), unit.y)
                &&& arithmetic.ensures((Operation::Divide, v.z, length), unit.z)
            } else {
                unit == v
            }
        }
}

/// `normals` holds, for each whole vertex, the unit vector of its sum, and
/// leaves the scalars after the last whole vertex as they are.
pub open spec fn normalized<K: Fn(Operation, Scalar, Scalar) -> Scalar>(
    arithmetic: &K,
    sums: Seq<Scalar>,
    normals: Seq<Scalar>,
) -> bool {
    &&& normals.len() == sums.len()
    &&& forall|v: int|
        0 <= v < vertex_count(sums) ==> #[trigger] unit_or_unchanged(
            arithmetic,
            vertex_at(sums, v),
            vertex_at(normals, v),
        )
    &&& forall|j: int| 3 * vertex_count(sums) <= j < sums.len() ==> #[trigger] normals[j] == sums[j]
}

/// `normals` is the smooth-normal buffer of the mesh: every whole triangle
/// accumulated in order, then every vertex normalized.
pub open spec fn smooth_normals<
    K: Fn(Operation, Scalar, Scalar) -> Scalar,
    N: Fn(Vector3, Vector3, Vector3) -> Vector3,
>(
    arithmetic: &K,
    face_normal: &N,
    vertices: Seq<Scalar>,
    indices: Seq<u32>,
    normals: Seq<Scalar>,
) -> bool {
    exists|sums: Seq<Scalar>|
        {
            &&& #[trigger] accumulated(
                arithmetic,
                face_normal,
                vertices,
                indices,
                triangle_count(indices) as nat,
                sums,
            )
            &&& normalized(arithmetic, sums, normals)
        }
}

/// Adding triangle `done` to what the first `done` triangles gave yields
/// what the first `done + 1` triangles give.
pub proof fn lemma_accumulated_next<
    K: Fn(Operation, Scalar, Scalar) -> Scalar,
    N: Fn(Vector3, Vector3, Vector3) -> Vector3,
>(
    arithmetic: &K,
    face_normal: &N,
    vertices: Seq<Scalar>,
    indices: Seq<u32>,
    done: nat,
    before: Seq<Scalar>,
    after: Seq<Scalar>,
)
    requires
        accumulated(arithmetic, face_normal, vertices, indices, done, before),
        triangle_added(arithmetic, face_normal, vertices, indices, done as int, before, after),
    ensures
        accumulated(arithmetic, face_normal, vertices, indices, done + 1, after),
{
    let next = done + 1;
    assert((next - 1) as nat == done);
    assert(accumulated(arithmetic, face_normal, vertices, indices, (next - 1) as nat, before));
    assert(triangle_added(arithmetic, face_normal, vertices, indices, next - 1, before, after));
}

/// The sums fill a buffer as long as the vertex buffer, and a vertex that
/// none of the accumulated triangles names keeps sums of zero.
pub proof fn lemma_unnamed_vertex_keeps_zero<
    K: Fn(Operation, Scalar, Scalar) -> Scalar,
    N: Fn(Vector3, Vector3, Vector3) -> Vector3,
>(
    arithmetic: &K,
    face_normal: &N,
    vertices: Seq<Scalar>,
    indices: Seq<u32>,
    done: nat,
    sums: Seq<Scalar>,
    v: int,
)
    requires
        accumulated(arithmetic, face_normal, vertices, indices, done, sums),
        0 <= v < vertex_count(vertices),
        forall|j: int| 0 <= j < 3 * done ==> indices[j] != v,
    ensures
        sums.len() == vertices.len(),
        vertex_at(sums, v) == (Vector3 {
            x: Scalar { bits: 0 },
            y: Scalar { bits: 0 },
            z: Scalar { bits: 0 },
        }),
    decreases done,
{
    if done > 0 {
        let t = done - 1;
        let earlier = choose|earlier: Seq<Scalar>|
            {
                &&& accumulated(arithmetic, face_normal, vertices, indices, t as nat, earlier)
                &&& #[trigger] triangle_added(
                    arithmetic,
                    face_normal,
                    vertices,
                    indices,
                    t,
                    earlier,
                    sums,
                )
            };
        lemma_unnamed_vertex_keeps_zero(
            arithmetic,
            face_normal,
            vertices,
            indices,
            t as nat,
            earlier,
            v,
        );
        let (normal, first, second) = choose|
            normal: Vector3,
            first: Seq<Scalar>,
            second: Seq<Scalar>,
        | #[trigger]
            triangle_steps(
                arithmetic,
                face_normal,
                vertices,
                corners_of(indices, t),
                normal,
                (earlier, first, second, sums),
            );
        let corners = corners_of(indices, t);
        assert(indices[3 * t] != v && indices[3 * t + 1] != v && indices[3 * t + 2] != v);
        assert(slot_added(arithmetic, earlier, corners.0, normal, first));
        assert(slot_added(arithmetic, first, corners.1, normal, second));
        assert(slot_added(arithmetic, second, corners.2, normal, sums));
        assert(vertex_at(first, v) == vertex_at(earlier, v));
        assert(vertex_at(second, v) == vertex_at(first, v));
        assert(vertex_at(sums, v) == vertex_at(second, v));
    }
}

/// The face normal is a function: one triangle has one normal.
pub open spec fn single_valued_normal<N: Fn(Vector3, Vector3, Vector3) -> Vector3>(
    face_normal: &N,
) -> bool {
    forall|a: Vector3, b: Vector3, c: Vector3, first: Vector3, second: Vector3|
        #[trigger] face_normal.ensures((a, b, c), first) && #[trigger] face_normal.ensures(
            (a, b, c),
            second,
        ) ==> first == second
}

/// Under an arithmetic that is a function, adding a normal into a slot has
/// one outcome.
pub proof fn lemma_slot_is_determined<K: Fn(Operation, Scalar, Scalar) -> Scalar>(
    arithmetic: &K,
    before: Seq<Scalar>,
    v: int,
    normal: Vector3,
    first: Seq<Scalar>,
    second: Seq<Scalar>,
)
    requires
        single_valued(arithmetic),
        slot_added(arithmetic, before, v, normal, first),
        slot_added(arithmetic, before, v, normal, second),
    ensures
        first == second,
{
    assert forall|j: int| 0 <= j < first.len() implies first[j] == second[j] by {
        if 3 * v <= j < 3 * v + 3 {
            assert(j == 3 * v || j == 3 * v + 1 || j == 3 * v + 2);
        } else {
            assert(first[j] == before[j]);
            assert(second[j] == before[j]);
        }
    }
    assert(first =~= second);
}

/// Under an arithmetic and a face normal that are functions, the sums of
/// the first `done` triangles have one outcome.
pub proof fn lemma_sums_are_determined<
    K: Fn(Operation, Scalar, Scalar) -> Scalar,
    N: Fn(Vector3, Vector3, Vector3) -> Vector3,
>(
    arithmetic: &K,
    face_normal: &N,
    vertices: Seq<Scalar>,
    indices: Seq<u32>,
    done: nat,
    first: Seq<Scalar>,
    second: Seq<Scalar>,
)
    requires
        single_valued(arithmetic),
        single_valued_normal(face_normal),
        accumulated(arithmetic, face_normal, vertices, indices, done, first),
        accumulated(arithmetic, face_normal, vertices, indices, done, second),
    ensures
        first == second,
    decreases done,
{
    if done > 0 {
        let t = done - 1;
        let earlier1 = choose|earlier: Seq<Scalar>|
            {
                &&& accumulated(arithmetic, face_normal, vertices, indices, t as nat, earlier)
                &&& #[trigger] triangle_added(
                    arithmetic,
                    face_normal,
                    vertices,
                    indices,
                    t,
                    earlier,
                    first,
                )
            };
        let earlier2 = choose|earlier: Seq<Scalar>|
            {
                &&& accumulated(arithmetic, face_normal, vertices, indices, t as nat, earlier)
                &&& #[trigger] triangle_added(
                    arithmetic,
                    face_normal,
                    vertices,
                    indices,
                    t,
                    earlier,
                    second,
                )
            };
        lemma_sums_are_determined(
            arithmetic,
            face_normal,
            vertices,
            indices,
            t as nat,
            earlier1,
            earlier2,
        );
        let corners = corners_of(indices, t);
        let (n1, a1, b1) = choose|normal: Vector3, a: Seq<Scalar>, b: Seq<Scalar>| #[trigger]
            triangle_steps(
                arithmetic,
                face_normal,
                vertices,
                corners,
                normal,
                (earlier1, a, b, first),
            );
        let (n2, a2, b2) = choose|normal: Vector3, a: Seq<Scalar>, b: Seq<Scalar>| #[trigger]
            triangle_steps(
                arithmetic,
                face_normal,
                vertices,
                corners,
                normal,
                (earlier2, a, b, second),
            );
        assert(n1 == n2);
        lemma_slot_is_determined(arithmetic, earlier1, corners.0, n1, a1, a2);
        lemma_slot_is_determined(arithmetic, a1, corners.1, n1, b1, b2);
        lemma_slot_is_determined(arithmetic, b1, corners.2, n1, first, second);
    }
}

/// Under an arithmetic that is a function, a vector has one unit vector.
pub proof fn lemma_unit_is_determined<K: Fn(Operation, Scalar, Scalar) -> Scalar>(
    arithmetic: &K,
    v: Vector3,
    first: Vector3,
    second: Vector3,
)
    requires
        single_valued(arithmetic),
        unit_or_unchanged(arithmetic, v, first),
        unit_or_unchanged(arithmetic, v, second),
    ensures
        first == second,
{
    let length1 = choose|length: Scalar|
        {
            &&& #[trigger] length_of(arithmetic, v, length)
            &&& if (Scalar { bits: 0 }).spec_lt(length) {
                &&& arithmetic.ensures((Operation::Divide, v.x, length), first.x)
                &&& arithmetic.ensures((Operation::Divide, v.y, length), first.y)
                &&& arithmetic.ensures((Operation::Divide, v.z, length), first.z)
            } else {
                first == v
            }
        };
    let length2 = choose|length: Scalar|
        {
            &&& #[trigger] length_of(arithmetic, v, length)
            &&& if (Scalar { bits: 0 }).spec_lt(length) {
                &&& arithmetic.ensures((Operation::Divide, v.x, length), second.x)
                &&& arithmetic.ensures((Operation::Divide, v.y, length), second.y)
                &&& arithmetic.ensures((Operation::Divide, v.z, length), second.z)
            } else {
                second == v
            }
        };
    let (squares1, xy1, xyz1) = choose|squares: Vector3, xy: Scalar, xyz: Scalar| #[trigger]
        length_steps(arithmetic, v, squares, xy, xyz, length1);
    let (squares2, xy2, xyz2) = choose|squares: Vector3, xy: Scalar, xyz: Scalar| #[trigger]
        length_steps(arithmetic, v, squares, xy, xyz, length2);
    assert(squares1.x == squares2.x && squares1.y == squares2.y && squares1.z == squares2.z);
    assert(xy1 == xy2);
    assert(xyz1 == xyz2);
    assert(length1 == length2);
}

/// Under an arithmetic and a face normal that are functions, a mesh has one
/// buffer of smooth normals: the contract of `compute_smooth_normals`
/// leaves nothing open.
pub proof fn lemma_smooth_normals_are_determined<
    K: Fn(Operation, Scalar, Scalar) -> Scalar,
    N: Fn(Vector3, Vector3, Vector3) -> Vector3,
>(
    arithmetic: &K,
    face_normal: &N,
    vertices: Seq<Scalar>,
    indices: Seq<u32>,
    first: Seq<Scalar>,
    second: Seq<Scalar>,
)
    requires
        single_valued(arithmetic),
        single_valued_normal(face_normal),
        smooth_normals(arithmetic, face_normal, vertices, indices, first),
        smooth_normals(arithmetic, face_normal, vertices, indices, second),
    ensures
        first == second,
{
    let done = triangle_count(indices) as nat;
    let sums1 = choose|sums: Seq<Scalar>|
        {
            &&& #[trigger] accumulated(arithmetic, face_normal, vertices, indices, done, sums)
            &&& normalized(arithmetic, sums, first)
        };
    let sums2 = choose|sums: Seq<Scalar>|
        {
            &&& #[trigger] accumulated(arithmetic, face_normal, vertices, indices, done, sums)
            &&& normalized(arithmetic, sums, second)
        };
    lemma_sums_are_determined(arithmetic, face_normal, vertices, indices, done, sums1, sums2);
    assert forall|j: int| 0 <= j < first.len() implies first[j] == second[j] by {
        if j < 3 * vertex_count(sums1) {
            let v = j / 3;
            assert(unit_or_unchanged(arithmetic, vertex_at(sums1, v), vertex_at(first, v)));
            assert(unit_or_unchanged(arithmetic, vertex_at(sums1, v), vertex_at(second, v)));
            lemma_unit_is_determined(
                arithmetic,
                vertex_at(sums1, v),
                vertex_at(first, v),
                vertex_at(second, v),
            );
            assert(j == 3 * v || j == 3 * v + 1 || j == 3 * v + 2);
        } else {
            assert(first[j] == sums1[j]);
            assert(second[j] == sums1[j]);
        }
    }
    assert(first =~= second);
}

/// Reads vertex `v` out of a buffer.
pub fn read_vertex(buffer: &[Scalar], v: usize) -> (r: Vector3)
    requires
        v < vertex_count(buffer@),
    ensures
        r == vertex_at(buffer@, v as int),
{
    let coordinates = buffer.len();
    assert(3 * v + 2 < coordinates);
    Vector3 { x: buffer[v * 3], y: buffer[v * 3 + 1], z: buffer[v * 3 + 2] }
}

/// Adds `normal` into the slots of vertex `v`.
pub fn add_to_slot<K: Fn(Operation, Scalar, Scalar) -> Scalar>(
    arithmetic: &K,
    sums: &mut Vec<Scalar>,
    v: usize,
    normal: Vector3,
)
    requires
        accepts_all(arithmetic),
        v < vertex_count(old(sums)@),
    ensures
        slot_added(arithmetic, old(sums)@, v as int, normal, final(sums)@),
{
    let coordinates = sums.len();
    assert(3 * v + 2 < coordinates);
    let x = arithmetic(Operation::Add, sums[v * 3], normal.x);
    let y = arithmetic(Operation::Add, sums[v * 3 + 1], normal.y);
    let z = arithmetic(Operation::Add, sums[v * 3 + 2], normal.z);
    sums.set(v * 3, x);
    sums.set(v * 3 + 1, y);
    sums.set(v * 3 + 2, z);
}

/// The Euclidean length of `v`.
pub fn length<K: Fn(Operation, Scalar, Scalar) -> Scalar>(arithmetic: &K, v: Vector3) -> (r: Scalar)
    requires
        accepts_all(arithmetic),
    ensures
        length_of(arithmetic, v, r),
{
    let xx = arithmetic(Operation::Multiply, v.x, v.x);
    let yy = arithmetic(Operation::Multiply, v.y, v.y);
    let zz = arithmetic(Operation::Multiply, v.z, v.z);
    let xy = arithmetic(Operation::Add, xx, yy);
    let xyz = arithmetic(Operation::Add, xy, zz);
    let root = arithmetic(Operation::SquareRoot, xyz, Scalar::zero());
    assert(length_steps(arithmetic, v, Vector3 { x: xx, y: yy, z: zz }, xy, xyz, root));
    root
}

/// `v` scaled to unit length; `v` itself where its length is not above zero.
pub fn normalize_or_keep<K: Fn(Operation, Scalar, Scalar) -> Scalar>(
    arithmetic: &K,
    v: Vector3,
) -> (r: Vector3)
    requires
        accepts_all(arithmetic),
    ensures
        unit_or_unchanged(arithmetic, v, r),
{
    let len = length(arithmetic, v);
    if Scalar::zero().lt(len) {
        let x = arithmetic(Operation::Divide, v.x, len);
        let y = arithmetic(Operation::Divide, v.y, len);
        let z = arithmetic(Operation::Divide, v.z, len);
        Vector3 { x, y, z }
    } else {
        v
    }
}

/// Smooth normals of a mesh, one x, y, z triple per vertex.
///
/// Fails with `IndexOutOfRange` exactly when some index names no vertex.
/// Otherwise every whole triangle adds its face normal to the sums of its
/// three vertices, and every sum is then scaled to unit length, or kept
/// where its length is not above zero. A trailing partial triangle is
/// ignored.
pub fn compute_smooth_normals<
    K: Fn(Operation, Scalar, Scalar) -> Scalar,
    N: Fn(Vector3, Vector3, Vector3) -> Vector3,
>(vertices: &[Scalar], indices: &[u32], arithmetic: &K, face_normal: &N) -> (r: Result<
    Vec<Scalar>,
    OptimizerError,
>)
    requires
        accepts_all(arithmetic),
        accepts_all_triangles(face_normal),
    ensures
        r is Ok <==> indices_in_range(indices@, vertex_count(vertices@)),
        r is Err ==> r->Err_0.is_index_out_of_range(),
        r is Ok ==> r->Ok_0@.len() == vertices@.len(),
        r is Ok ==> smooth_normals(arithmetic, face_normal, vertices@, indices@, r->Ok_0@),
{
    match validate_indices(vertices.len(), indices) {
        Err(e) => {
            return Err(e);
        },
        Ok(_) => {},
    }
    let mut sums: Vec<Scalar> = Vec::new();
    let mut i: usize = 0;
    while i < vertices.len()
        invariant
            i <= vertices@.len(),
            sums@ == Seq::new(i as nat, |j: int| Scalar { bits: 0 }),
        decreases vertices@.len() - i,
    {
        sums.push(Scalar::zero());
        i += 1;
        assert(sums@ =~= Seq::new(i as nat, |j: int| Scalar { bits: 0 }));
    }
    let triangles: usize = indices.len() / 3;
    let mut t: usize = 0;
    while t < triangles
        invariant
            t <= triangles,
            triangles == triangle_count(indices@),
            accepts_all(arithmetic),
            accepts_all_triangles(face_normal),
            indices_in_range(indices@, vertex_count(vertices@)),
            indices@.len() <= usize::MAX,
            sums@.len() == vertices@.len(),
            accumulated(arithmetic, face_normal, vertices@, indices@, t as nat, sums@),
        decreases triangles - t,
    {
        let a = indices[t * 3] as usize;
        let b = indices[t * 3 + 1] as usize;
        let c = indices[t * 3 + 2] as usize;
        let normal = face_normal(
            read_vertex(vertices, a),
            read_vertex(vertices, b),
            read_vertex(vertices, c),
        );
        let ghost before = sums@;
        add_to_slot(arithmetic, &mut sums, a, normal);
        let ghost first = sums@;
        add_to_slot(arithmetic, &mut sums, b, normal);
        let ghost second = sums@;
        add_to_slot(arithmetic, &mut sums, c, normal);
        proof {
            assert(triangle_steps(
                arithmetic,
                face_normal,
                vertices@,
                corners_of(indices@, t as int),
                normal,
                (before, first, second, sums@),
            ));
            assert(triangle_added(
                arithmetic,
                face_normal,
                vertices@,
                indices@,
                t as int,
                before,
                sums@,
            ));
            lemma_accumulated_next(
                arithmetic,
                face_normal,
                vertices@,
                indices@,
                t as nat,
                before,
                sums@,
            );
        }
        t += 1;
    }
    let ghost totals = sums@;
    let count: usize = vertices.len() / 3;
    let mut v: usize = 0;
    while v < count
        invariant
            v <= count,
            count == vertex_count(totals),
            totals.len() <= usize::MAX,
            accepts_all(arithmetic),
            sums@.len() == totals.len(),
            forall|u: int|
                0 <= u < v ==> #[trigger] unit_or_unchanged(
                    arithmetic,
                    vertex_at(totals, u),
                    vertex_at(sums@, u),
                ),
            forall|j: int| 3 * v <= j < totals.len() ==> #[trigger] sums@[j] == totals[j],
        decreases count - v,
    {
        let ghost earlier = sums@;
        let unit = normalize_or_keep(arithmetic, read_vertex(sums.as_slice(), v));
        sums.set(v * 3, unit.x);
        sums.set(v * 3 + 1, unit.y);
        sums.set(v * 3 + 2, unit.z);
        proof {
            assert(vertex_at(earlier, v as int) == vertex_at(totals, v as int));
            assert(vertex_at(sums@, v as int) == unit);
            assert forall|u: int| 0 <= u < v implies #[trigger] unit_or_unchanged(
                arithmetic,
                vertex_at(totals, u),
                vertex_at(sums@, u),
            ) by {
                assert(vertex_at(sums@, u) == vertex_at(earlier, u));
            }
        }
        v += 1;
    }
    proof {
        assert(normalized(arithmetic, totals, sums@));
        assert(accumulated(
            arithmetic,
            face_normal,
            vertices@,
            indices@,
            triangle_count(indices@) as nat,
            totals,
        ));
    }
    Ok(sums)
}

} // verus!
