//! Visibility of an axis-aligned box by corner sampling.
//!
//! The eight corners of the box are carried into clip space by the caller's
//! transform, and the box counts as visible as soon as one of them lies in
//! the clip volume. A corner lies in it when `-z <= x <= z`, `-z <= y <= z`
//! and `-1 <= z <= 1`: the transformed z stands where a homogeneous w would,
//! and no perspective divide is made. A box that crosses the frustum with
//! no corner inside is therefore reported as not visible; this is the
//! accepted approximation, not a six-plane test.
use crate::scalar::{unit_scale, Scalar, Vector3};
use vstd::prelude::*;

verus! {

/// Corner `k` of the box: bit 0 of `k` picks the maximum in x, bit 1 in y,
/// bit 2 in z.
pub open spec fn corner(min: Vector3, max: Vector3, k: int) -> Vector3 {
    Vector3 {
        x: if k % 2 == 1 {
            max.x
        } else {
            min.x
        },
        y: if (k / 2) % 2 == 1 {
            max.y
        } else {
            min.y
        },
        z: if (k / 4) % 2 == 1 {
            max.z
        } else {
            min.z
        },
    }
}

/// The clip-space position lies in the clip volume. A NaN in any component
/// puts it outside.
pub open spec fn in_clip_volume(p: Vector3) -> bool {
    &&& !p.x.is_nan() && !p.y.is_nan() && !p.z.is_nan()
    &&& -p.z.scaled() <= p.x.scaled() <= p.z.scaled()
    &&& -p.z.scaled() <= p.y.scaled() <= p.z.scaled()
    &&& -unit_scale() <= p.z.scaled() <= unit_scale()
}

/// The transform accepts every point.
pub open spec fn accepts_all_points<T: Fn(Vector3) -> Vector3>(transform: &T) -> bool {
    forall|p: Vector3| transform.requires((p,))
}

/// The transform carried corner `k` to a position that lies in the clip
/// volume (`inside`) or does not.
pub open spec fn corner_seen<T: Fn(Vector3) -> Vector3>(
    transform: &T,
    min: Vector3,
    max: Vector3,
    k: int,
    inside: bool,
) -> bool {
    exists|clip: Vector3| #[trigger]
        transform.ensures((corner(min, max, k),), clip) && in_clip_volume(clip) == inside
}

/// What the visibility test answers: `true` when some corner was seen
/// inside and every corner before it outside, `false` when all eight
/// corners were seen outside.
pub open spec fn box_seen<T: Fn(Vector3) -> Vector3>(
    transform: &T,
    min: Vector3,
    max: Vector3,
    visible: bool,
) -> bool {
    if visible {
        exists|k: int|
            0 <= k < 8 && #[trigger] corner_seen(transform, min, max, k, true) && forall|j: int|
                0 <= j < k ==> #[trigger] corner_seen(transform, min, max, j, false)
    } else {
        forall|k: int| 0 <= k < 8 ==> #[trigger] corner_seen(transform, min, max, k, false)
    }
}

/// The eight corners of the box, in the order of `corner`.
pub fn box_corners(min: Vector3, max: Vector3) -> (corners: [Vector3; 8])
    ensures
        forall|k: int| 0 <= k < 8 ==> #[trigger] corners@[k] == corner(min, max, k),
{
    [
        Vector3 { x: min.x, y: min.y, z: min.z },
        Vector3 { x: max.x, y: min.y, z: min.z },
        Vector3 { x: min.x, y: max.y, z: min.z },
        Vector3 { x: max.x, y: max.y, z: min.z },
        Vector3 { x: min.x, y: min.y, z: max.z },
        Vector3 { x: max.x, y: min.y, z: max.z },
        Vector3 { x: min.x, y: max.y, z: max.z },
        Vector3 { x: max.x, y: max.y, z: max.z },
    ]
}

/// Whether a clip-space position lies in the clip volume.
pub fn corner_in_clip_volume(clip: Vector3) -> (inside: bool)
    ensures
        inside == in_clip_volume(clip),
{
    let low = clip.z.negated();
    low.le(clip.x) && clip.x.le(clip.z) && low.le(clip.y) && clip.y.le(clip.z)
        && Scalar::one().negated().le(clip.z) && clip.z.le(Scalar::one())
}

/// Whether the box from `min` to `max` is visible: whether `transform`
/// carries one of its corners into the clip volume. The corners are taken
/// in order and the search ends at the first one inside.
pub fn check_box_in_frustum<T: Fn(Vector3) -> Vector3>(
    min: Vector3,
    max: Vector3,
    transform: &T,
) -> (visible: bool)
    requires
        accepts_all_points(transform),
    ensures
        box_seen(transform, min, max, visible),
{
    let corners = box_corners(min, max);
    let mut k: usize = 0;
    while k < 8
        invariant
            k <= 8,
            accepts_all_points(transform),
            forall|j: int| 0 <= j < 8 ==> #[trigger] corners@[j] == corner(min, max, j),
            forall|j: int| 0 <= j < k ==> #[trigger] corner_seen(transform, min, max, j, false),
        decreases 8 - k,
    {
        let clip = transform(corners[k]);
        if corner_in_clip_volume(clip) {
            assert(corner_seen(transform, min, max, k as int, true));
            return true;
        }
        assert(corner_seen(transform, min, max, k as int, false));
        k += 1;
    }
    false
}

/// A position behind the camera, one whose z is negative, lies outside the
/// clip volume whatever its x and y are.
pub proof fn lemma_behind_camera_is_outside(clip: Vector3)
    requires
        clip.z.scaled() < 0,
    ensures
        !in_clip_volume(clip),
{
}

/// A box whose corners the transform can only carry behind the camera is
/// not visible.
pub proof fn lemma_box_behind_camera_not_visible<T: Fn(Vector3) -> Vector3>(
    transform: &T,
    min: Vector3,
    max: Vector3,
    visible: bool,
)
    requires
        box_seen(transform, min, max, visible),
        forall|p: Vector3, clip: Vector3| #[trigger]
            transform.ensures((p,), clip) ==> clip.z.scaled() < 0,
    ensures
        !visible,
{
    if visible {
        let k = choose|k: int| 0 <= k < 8 && #[trigger] corner_seen(transform, min, max, k, true);
        let clip = choose|clip: Vector3| #[trigger]
            transform.ensures((corner(min, max, k),), clip) && in_clip_volume(clip) == true;
        lemma_behind_camera_is_outside(clip);
    }
}

/// Under a transform that is a function, the box is visible exactly when
/// the transform carries one of its eight corners into the clip volume.
pub proof fn lemma_visible_iff_some_corner_inside<T: Fn(Vector3) -> Vector3>(
    transform: &T,
    min: Vector3,
    max: Vector3,
    visible: bool,
)
    requires
        box_seen(transform, min, max, visible),
        forall|p: Vector3, first: Vector3, second: Vector3|
            #[trigger] transform.ensures((p,), first) && #[trigger] transform.ensures(
                (p,),
                second,
            ) ==> first == second,
    ensures
        visible <==> exists|k: int, clip: Vector3|
            0 <= k < 8 && #[trigger] transform.ensures((corner(min, max, k),), clip)
                && in_clip_volume(clip),
{
    if visible {
        let k = choose|k: int| 0 <= k < 8 && #[trigger] corner_seen(transform, min, max, k, true);
        let clip = choose|clip: Vector3| #[trigger]
            transform.ensures((corner(min, max, k),), clip) && in_clip_volume(clip) == true;
        assert(0 <= k < 8 && transform.ensures((corner(min, max, k),), clip) && in_clip_volume(
            clip,
        ));
    } else {
        assert forall|k: int, clip: Vector3|
            0 <= k < 8 && #[trigger] transform.ensures(
                (corner(min, max, k),),
                clip,
            ) implies !in_clip_volume(clip) by {
            assert(corner_seen(transform, min, max, k, false));
            let seen = choose|seen: Vector3| #[trigger]
                transform.ensures((corner(min, max, k),), seen) && in_clip_volume(seen) == false;
            assert(seen == clip);
        }
    }
}

} // verus!
