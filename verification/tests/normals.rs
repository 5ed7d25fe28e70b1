use cad_optimizer::error::ErrorKind;
use cad_optimizer::normals::{
    add_to_slot, compute_smooth_normals, length, normalize_or_keep, read_vertex,
};
use cad_optimizer::scalar::{Operation, Scalar, Vector3};
use glam::Vec3;

fn s(x: f32) -> Scalar {
    Scalar::from_bits(x.to_bits())
}

fn f(x: Scalar) -> f32 {
    f32::from_bits(x.to_bits())
}

fn scalars(values: &[f32]) -> Vec<Scalar> {
    values.iter().map(|x| s(*x)).collect()
}

fn floats(values: &[Scalar]) -> Vec<f32> {
    values.iter().map(|x| f(*x)).collect()
}

fn arithmetic(op: Operation, a: Scalar, b: Scalar) -> Scalar {
    let (x, y) = (f(a), f(b));
    s(match op {
        Operation::Add => x + y,
        Operation::Subtract => x - y,
        Operation::Multiply => x * y,
        Operation::Divide => x / y,
        Operation::SquareRoot => x.sqrt(),
    })
}

fn to_glam(v: Vector3) -> Vec3 {
    Vec3::new(f(v.x), f(v.y), f(v.z))
}

fn from_glam(v: Vec3) -> Vector3 {
    Vector3 { x: s(v.x), y: s(v.y), z: s(v.z) }
}

fn face_normal(a: Vector3, b: Vector3, c: Vector3) -> Vector3 {
    let (a, b, c) = (to_glam(a), to_glam(b), to_glam(c));
    from_glam((b - a).cross(c - a).normalize_or_zero())
}

fn smooth(vertices: &[f32], indices: &[u32]) -> Vec<f32> {
    floats(&compute_smooth_normals(&scalars(vertices), indices, &arithmetic, &face_normal).unwrap())
}

#[test]
fn single_triangle_has_the_face_normal_at_each_vertex() {
    let normals = smooth(&[0.0, 0.0, 0.0, 1.0, 0.0, 0.0, 0.0, 1.0, 0.0], &[0, 1, 2]);
    assert_eq!(normals, vec![0.0, 0.0, 1.0, 0.0, 0.0, 1.0, 0.0, 0.0, 1.0]);
}

#[test]
fn reversed_winding_reverses_the_normal() {
    let normals = smooth(&[0.0, 0.0, 0.0, 1.0, 0.0, 0.0, 0.0, 1.0, 0.0], &[0, 2, 1]);
    assert_eq!(normals, vec![0.0, 0.0, -1.0, 0.0, 0.0, -1.0, 0.0, 0.0, -1.0]);
}

#[test]
fn flat_quad_has_one_normal() {
    let vertices = [0.0, 0.0, 0.0, 2.0, 0.0, 0.0, 2.0, 2.0, 0.0, 0.0, 2.0, 0.0];
    let normals = smooth(&vertices, &[0, 1, 2, 0, 2, 3]);
    for v in 0..4 {
        assert_eq!(&normals[3 * v..3 * v + 3], &[0.0, 0.0, 1.0]);
    }
}

#[test]
fn shared_edge_of_two_faces_gets_the_bisecting_normal() {
    // one face in the plane z = 0, one in the plane x = 0, sharing the edge from 0 to 1
    let vertices = [0.0, 0.0, 0.0, 0.0, 1.0, 0.0, -1.0, 0.0, 0.0, 0.0, 0.0, -1.0];
    let normals = smooth(&vertices, &[0, 1, 2, 0, 3, 1]);
    let diagonal = 1.0f32 / (1.0f32 * 1.0 + 0.0 + 1.0 * 1.0).sqrt();
    assert_eq!(&normals[0..3], &[diagonal, 0.0, diagonal]);
    assert_eq!(&normals[3..6], &[diagonal, 0.0, diagonal]);
    assert_eq!(&normals[6..9], &[0.0, 0.0, 1.0]);
    assert_eq!(&normals[9..12], &[1.0, 0.0, 0.0]);
}

#[test]
fn isolated_vertex_keeps_the_zero_vector() {
    let vertices = [0.0, 0.0, 0.0, 1.0, 0.0, 0.0, 0.0, 1.0, 0.0, 9.0, 9.0, 9.0];
    let normals = smooth(&vertices, &[0, 1, 2]);
    assert_eq!(&normals[9..12], &[0.0, 0.0, 0.0]);
    assert_eq!(&normals[0..3], &[0.0, 0.0, 1.0]);
}

#[test]
fn degenerate_triangle_adds_nothing() {
    // the second triangle names one vertex twice, the third lies on a line
    let vertices = [
        0.0, 0.0, 0.0, 1.0, 0.0, 0.0, 0.0, 1.0, 0.0, 2.0, 0.0, 0.0, 3.0, 0.0, 0.0,
    ];
    let normals = smooth(&vertices, &[0, 1, 2, 0, 0, 1, 0, 1, 3]);
    assert_eq!(&normals[0..9], &[0.0, 0.0, 1.0, 0.0, 0.0, 1.0, 0.0, 0.0, 1.0]);
    assert_eq!(&normals[9..15], &[0.0, 0.0, 0.0, 0.0, 0.0, 0.0]);
    assert!(normals.iter().all(|x| !x.is_nan()));
}

#[test]
fn opposite_faces_cancel_to_zero() {
    let vertices = [0.0, 0.0, 0.0, 1.0, 0.0, 0.0, 0.0, 1.0, 0.0];
    let normals = smooth(&vertices, &[0, 1, 2, 0, 2, 1]);
    assert_eq!(normals, vec![0.0; 9]);
}

#[test]
fn vertex_named_twice_by_a_triangle_is_added_twice() {
    let vertices = [0.0, 0.0, 0.0, 1.0, 0.0, 0.0, 0.0, 1.0, 0.0];
    let twice = |_: Vector3, _: Vector3, _: Vector3| Vector3 { x: s(0.0), y: s(3.0), z: s(4.0) };
    let normals = floats(
        &compute_smooth_normals(&scalars(&vertices), &[1, 1, 2], &arithmetic, &twice).unwrap(),
    );
    assert_eq!(&normals[0..3], &[0.0, 0.0, 0.0]);
    assert_eq!(&normals[3..6], &[0.0, 6.0 / 10.0, 8.0 / 10.0]);
    assert_eq!(&normals[6..9], &[0.0, 3.0 / 5.0, 4.0 / 5.0]);
}

#[test]
fn normals_have_the_length_of_the_vertex_buffer() {
    let normals = smooth(&[0.0, 0.0, 0.0, 1.0, 0.0, 0.0, 0.0, 1.0, 0.0, 7.0, 7.0], &[0, 1, 2]);
    assert_eq!(normals.len(), 11);
    assert_eq!(&normals[9..11], &[0.0, 0.0]);
    assert!(smooth(&[], &[]).is_empty());
    assert_eq!(smooth(&[1.0, 2.0], &[]), vec![0.0, 0.0]);
}

#[test]
fn trailing_partial_triangle_is_ignored() {
    let normals = smooth(&[0.0, 0.0, 0.0, 1.0, 0.0, 0.0, 0.0, 1.0, 0.0], &[0, 1, 2, 0, 1]);
    assert_eq!(normals, vec![0.0, 0.0, 1.0, 0.0, 0.0, 1.0, 0.0, 0.0, 1.0]);
}

#[test]
fn index_past_the_vertices_is_rejected() {
    let vertices = scalars(&[0.0, 0.0, 0.0, 1.0, 0.0, 0.0, 0.0, 1.0, 0.0]);
    let error = compute_smooth_normals(&vertices, &[0, 1, 3], &arithmetic, &face_normal).unwrap_err();
    assert_eq!(error.kind(), ErrorKind::IndexOutOfRange);
    assert!(compute_smooth_normals(&vertices[0..8], &[0, 1, 2], &arithmetic, &face_normal).is_err());
    assert!(compute_smooth_normals(&[], &[0], &arithmetic, &face_normal).is_err());
    assert!(compute_smooth_normals(&vertices, &[0, 1, 2, 5], &arithmetic, &face_normal).is_err());
}

#[test]
fn read_vertex_takes_three_scalars() {
    let buffer = scalars(&[1.0, 2.0, 3.0, 4.0, 5.0, 6.0, 7.0]);
    assert_eq!(read_vertex(&buffer, 0), Vector3 { x: s(1.0), y: s(2.0), z: s(3.0) });
    assert_eq!(read_vertex(&buffer, 1), Vector3 { x: s(4.0), y: s(5.0), z: s(6.0) });
}

#[test]
fn add_to_slot_changes_one_vertex() {
    let mut sums = scalars(&[1.0, 2.0, 3.0, 4.0, 5.0, 6.0, 7.0]);
    add_to_slot(&arithmetic, &mut sums, 1, Vector3 { x: s(0.5), y: s(-5.0), z: s(10.0) });
    assert_eq!(floats(&sums), vec![1.0, 2.0, 3.0, 4.5, 0.0, 16.0, 7.0]);
}

#[test]
fn length_is_the_root_of_the_summed_squares() {
    assert_eq!(f(length(&arithmetic, Vector3 { x: s(3.0), y: s(4.0), z: s(0.0) })), 5.0);
    assert_eq!(f(length(&arithmetic, Vector3 { x: s(1.0), y: s(2.0), z: s(2.0) })), 3.0);
    assert_eq!(f(length(&arithmetic, Vector3 { x: s(0.0), y: s(0.0), z: s(0.0) })), 0.0);
    let v = Vector3 { x: s(0.3), y: s(-0.7), z: s(1.9) };
    let expected = (0.3f32 * 0.3 + -0.7f32 * -0.7 + 1.9f32 * 1.9).sqrt();
    assert_eq!(f(length(&arithmetic, v)), expected);
}

#[test]
fn normalize_or_keep_guards_the_zero_length() {
    let unit = normalize_or_keep(&arithmetic, Vector3 { x: s(0.0), y: s(3.0), z: s(4.0) });
    assert_eq!(unit, Vector3 { x: s(0.0), y: s(3.0 / 5.0), z: s(4.0 / 5.0) });
    let zero = Vector3 { x: s(0.0), y: s(0.0), z: s(0.0) };
    assert_eq!(normalize_or_keep(&arithmetic, zero), zero);
    let nan = Vector3 { x: s(f32::NAN), y: s(1.0), z: s(0.0) };
    assert_eq!(normalize_or_keep(&arithmetic, nan), nan);
    // squares that underflow give a zero length, and the vector is kept
    let tiny = Vector3 { x: s(1.0e-30), y: s(0.0), z: s(0.0) };
    assert_eq!(normalize_or_keep(&arithmetic, tiny), tiny);
}
