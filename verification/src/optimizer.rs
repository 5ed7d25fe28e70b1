//! The optimizer: one set of quality settings, the latest frame statistics,
//! and the controller that tunes the first by the second.
//!
//! The controller looks at one sample at a time. It holds the frame rate
//! against the target in exact arithmetic: below four fifths of the target
//! it lowers the quality, above six fifths it raises it, and in between it
//! changes nothing. How often it is asked is the caller's affair.
use crate::error::{ErrorKind, OptimizerError};
use crate::frustum::{accepts_all_points, box_seen, check_box_in_frustum};
use crate::lod::{level_computed, level_count, plan_lod_levels, LodLevel};
use crate::mesh::{
    boolean_possible, boolean_result, decimated_indices, indices_in_range, operation_named,
    perform_decimation, target_triangles, triangle_count, vertex_count, MeshData,
};
use crate::normals::{accepts_all_triangles, compute_smooth_normals, smooth_normals};
use crate::scalar::{
    accepts_all, lemma_half_scaled, lemma_magnitude_order, lemma_one_scaled, single_valued,
    unit_scale,
    Operation, Scalar, Standing, Vector3, HALF_BITS, ONE_BITS,
};
use vstd::prelude::*;

verus! {

/// The pattern of 0.9, the factor that lowers the resolution scale.
pub const LOWER_SCALE_BITS: u32 = 0x3f66_6666;

/// The pattern of 1.1, the factor that raises the resolution scale.
pub const RAISE_SCALE_BITS: u32 = 0x3f8c_cccd;

/// The pattern of 0.1, the step by which the level-of-detail bias grows.
pub const GROW_BIAS_BITS: u32 = 0x3dcc_cccd;

/// The pattern of 0.05, the step by which the level-of-detail bias shrinks.
pub const SHRINK_BIAS_BITS: u32 = 0x3d4c_cccd;

/// The rendering quality that the host is asked to use.
#[derive(Clone, Copy, PartialEq, Eq, Debug, Structural)]
pub struct PerformanceSettings {
    pub target_fps: u32,
    /// Kept between 0.5 and 1.0 by the controller.
    pub resolution_scale: Scalar,
    /// Kept at or above 0.0 by the controller; it has no upper limit.
    pub lod_bias: Scalar,
    /// Advisory: no operation of this library enforces it.
    pub max_triangles: u32,
    /// Advisory: read by the host's renderer, not by the frustum test.
    pub frustum_culling: bool,
}

/// What the host measured over its last sampling interval.
#[derive(Clone, Copy, PartialEq, Eq, Debug, Structural)]
pub struct PerformanceStats {
    pub fps: Scalar,
    pub frame_time: Scalar,
    pub triangle_count: u32,
    pub draw_calls: u32,
    pub memory_usage: Scalar,
    pub gpu_usage: Scalar,
}

/// Where the frame rate stands to the target.
#[derive(Clone, Copy, PartialEq, Eq, Debug, Structural)]
pub enum Zone {
    /// Below four fifths of the target.
    Low,
    /// From four fifths to six fifths of the target, both included.
    Steady,
    /// Above six fifths of the target.
    High,
}

/// The settings that a new optimizer starts with.
pub open spec fn default_settings() -> PerformanceSettings {
    PerformanceSettings {
        target_fps: 60,
        resolution_scale: Scalar { bits: ONE_BITS },
        lod_bias: Scalar { bits: 0 },
        max_triangles: 1_000_000,
        frustum_culling: true,
    }
}

/// The statistics that a new optimizer starts with: all zero.
pub open spec fn zeroed_stats() -> PerformanceStats {
    PerformanceStats {
        fps: Scalar { bits: 0 },
        frame_time: Scalar { bits: 0 },
        triangle_count: 0,
        draw_calls: 0,
        memory_usage: Scalar { bits: 0 },
        gpu_usage: Scalar { bits: 0 },
    }
}

/// The zone of a frame rate. `fps / target < 0.8` is held as
/// `5 * fps < 4 * target`, and `fps / target > 1.2` as `5 * fps > 6 * target`,
/// which also gives a target of 0 a meaning. A frame rate that is a NaN is
/// in no outer zone.
pub open spec fn zone_of(fps: Scalar, target_fps: u32) -> Zone {
    if fps.is_nan() {
        Zone::Steady
    } else if 5 * fps.scaled() < 4 * target_fps * unit_scale() {
        Zone::Low
    } else if 5 * fps.scaled() > 6 * target_fps * unit_scale() {
        Zone::High
    } else {
        Zone::Steady
    }
}

/// The adjustment of one zone, with its intermediate results named:
/// `scaled` is the resolution scale times its factor, `shifted` the bias
/// moved by its step, before either is clamped.
pub open spec fn adjustment_steps<K: Fn(Operation, Scalar, Scalar) -> Scalar>(
    arithmetic: &K,
    zone: Zone,
    before: PerformanceSettings,
    scaled: Scalar,
    shifted: Scalar,
    after: PerformanceSettings,
) -> bool {
    &&& after.target_fps == before.target_fps
    &&& after.max_triangles == before.max_triangles
    &&& after.frustum_culling == before.frustum_culling
    &&& match zone {
        Zone::Low => {
            &&& arithmetic.ensures(
                (Operation::Multiply, before.resolution_scale, Scalar { bits: LOWER_SCALE_BITS }),
                scaled,
            )
            &&& arithmetic.ensures(
                (Operation::Add, before.lod_bias, Scalar { bits: GROW_BIAS_BITS }),
                shifted,
            )
            &&& after.resolution_scale == scaled.spec_at_least(Scalar { bits: HALF_BITS })
            &&& after.lod_bias == shifted
        },
        Zone::High => {
            &&& arithmetic.ensures(
                (Operation::Multiply, before.resolution_scale, Scalar { bits: RAISE_SCALE_BITS }),
                scaled,
            )
            &&& arithmetic.ensures(
                (Operation::Subtract, before.lod_bias, Scalar { bits: SHRINK_BIAS_BITS }),
                shifted,
            )
            &&& after.resolution_scale == scaled.spec_at_most(Scalar { bits: ONE_BITS })
            &&& after.lod_bias == shifted.spec_at_least(Scalar { bits: 0 })
        },
        Zone::Steady => after == before,
    }
}

/// `after` is what the controller makes of `before` in the given zone.
/// Low: the resolution scale times 0.9, not below 0.5, and the bias plus
/// 0.1. High: the resolution scale times 1.1, not above 1.0, and the bias
/// minus 0.05, not below 0. Steady: no change.
pub open spec fn adjusted<K: Fn(Operation, Scalar, Scalar) -> Scalar>(
    arithmetic: &K,
    zone: Zone,
    before: PerformanceSettings,
    after: PerformanceSettings,
) -> bool {
    exists|scaled: Scalar, shifted: Scalar| #[trigger]
        adjustment_steps(arithmetic, zone, before, scaled, shifted, after)
}

/// The zone of a frame rate against a target.
pub fn zone(fps: Scalar, target_fps: u32) -> (z: Zone)
    ensures
        z == zone_of(fps, target_fps),
{
    if fps.check_nan() {
        return Zone::Steady;
    }
    let target: u64 = target_fps as u64;
    match fps.compare_product(5, 4 * target) {
        Standing::Below => Zone::Low,
        _ => match fps.compare_product(5, 6 * target) {
            Standing::Above => Zone::High,
            _ => Zone::Steady,
        },
    }
}

/// Applies the adjustment of a zone to the settings.
pub fn adjust<K: Fn(Operation, Scalar, Scalar) -> Scalar>(
    settings: PerformanceSettings,
    zone: Zone,
    arithmetic: &K,
) -> (after: PerformanceSettings)
    requires
        accepts_all(arithmetic),
    ensures
        adjusted(arithmetic, zone, settings, after),
{
    match zone {
        Zone::Low => {
            let scaled = arithmetic(
                Operation::Multiply,
                settings.resolution_scale,
                Scalar::from_bits(LOWER_SCALE_BITS),
            );
            let shifted = arithmetic(
                Operation::Add,
                settings.lod_bias,
                Scalar::from_bits(GROW_BIAS_BITS),
            );
            let after = PerformanceSettings {
                target_fps: settings.target_fps,
                resolution_scale: scaled.at_least(Scalar::half()),
                lod_bias: shifted,
                max_triangles: settings.max_triangles,
                frustum_culling: settings.frustum_culling,
            };
            assert(adjustment_steps(arithmetic, zone, settings, scaled, shifted, after));
            after
        },
        Zone::High => {
            let scaled = arithmetic(
                Operation::Multiply,
                settings.resolution_scale,
                Scalar::from_bits(RAISE_SCALE_BITS),
            );
            let shifted = arithmetic(
                Operation::Subtract,
                settings.lod_bias,
                Scalar::from_bits(SHRINK_BIAS_BITS),
            );
            let after = PerformanceSettings {
                target_fps: settings.target_fps,
                resolution_scale: scaled.at_most(Scalar::one()),
                lod_bias: shifted.at_least(Scalar::zero()),
                max_triangles: settings.max_triangles,
                frustum_culling: settings.frustum_culling,
            };
            assert(adjustment_steps(arithmetic, zone, settings, scaled, shifted, after));
            after
        },
        Zone::Steady => {
            assert(adjustment_steps(
                arithmetic,
                zone,
                settings,
                Scalar { bits: 0 },
                Scalar { bits: 0 },
                settings,
            ));
            settings
        },
    }
}

/// The controller never leaves the limits: after a lowering the resolution
/// scale is a number not below 0.5, after a raising it is a number not above
/// 1.0 and the bias a number not below 0, and in the steady zone nothing
/// changes.
pub proof fn lemma_adjustment_within_limits<K: Fn(Operation, Scalar, Scalar) -> Scalar>(
    arithmetic: &K,
    zone: Zone,
    before: PerformanceSettings,
    after: PerformanceSettings,
)
    requires
        adjusted(arithmetic, zone, before, after),
    ensures
        zone == Zone::Low ==> !after.resolution_scale.is_nan() && 2
            * after.resolution_scale.scaled() >= unit_scale(),
        zone == Zone::High ==> !after.resolution_scale.is_nan()
            && after.resolution_scale.scaled() <= unit_scale(),
        zone == Zone::High ==> !after.lod_bias.is_nan() && after.lod_bias.scaled() >= 0,
        zone == Zone::Steady ==> after == before,
{
    lemma_half_scaled();
    lemma_one_scaled();
    lemma_magnitude_order(0, 0);
}

/// Under an arithmetic that is a function, the adjustment of a zone has one
/// outcome.
pub proof fn lemma_adjustment_is_determined<K: Fn(Operation, Scalar, Scalar) -> Scalar>(
    arithmetic: &K,
    zone: Zone,
    before: PerformanceSettings,
    first: PerformanceSettings,
    second: PerformanceSettings,
)
    requires
        single_valued(arithmetic),
        adjusted(arithmetic, zone, before, first),
        adjusted(arithmetic, zone, before, second),
    ensures
        first == second,
{
    let (scaled1, shifted1) = choose|scaled: Scalar, shifted: Scalar| #[trigger]
        adjustment_steps(arithmetic, zone, before, scaled, shifted, first);
    let (scaled2, shifted2) = choose|scaled: Scalar, shifted: Scalar| #[trigger]
        adjustment_steps(arithmetic, zone, before, scaled, shifted, second);
    if zone != Zone::Steady {
        assert(scaled1 == scaled2);
        assert(shifted1 == shifted2);
    }
}

/// A frame rate equal to the target is in the steady zone.
pub proof fn lemma_on_target_is_steady(fps: Scalar, target_fps: u32)
    requires
        fps.denotes_integer(target_fps as nat),
    ensures
        zone_of(fps, target_fps) == Zone::Steady,
{
    vstd::arithmetic::power2::lemma_pow2_pos(149);
    let u = unit_scale() as int;
    let t = target_fps as int;
    assert(4 * t * u <= 5 * (t * u) <= 6 * t * u) by (nonlinear_arith)
        requires
            t >= 0,
            u > 0,
    ;
}

/// The optimizer of one host session.
#[derive(Debug)]
pub struct CADOptimizer {
    pub settings: PerformanceSettings,
    pub stats: PerformanceStats,
}

impl CADOptimizer {
    /// An optimizer with the default settings and zeroed statistics.
    pub fn new() -> (optimizer: CADOptimizer)
        ensures
            optimizer.settings == default_settings(),
            optimizer.stats == zeroed_stats(),
    {
        let settings = PerformanceSettings {
            target_fps: 60,
            resolution_scale: Scalar::one(),
            lod_bias: Scalar::zero(),
            max_triangles: 1_000_000,
            frustum_culling: true,
        };
        let stats = PerformanceStats {
            fps: Scalar::zero(),
            frame_time: Scalar::zero(),
            triangle_count: 0,
            draw_calls: 0,
            memory_usage: Scalar::zero(),
            gpu_usage: Scalar::zero(),
        };
        CADOptimizer { settings, stats }
    }

    /// Replaces the settings by what the host's decoder made of a settings
    /// payload. Any field values are taken as they are. Where the decoder
    /// failed, the settings stay as they were and the failure is reported
    /// with the decoder's own account.
    pub fn configure(&mut self, decoded: Result<PerformanceSettings, String>) -> (r: Result<
        (),
        OptimizerError,
    >)
        ensures
            final(self).stats == old(self).stats,
            match decoded {
                Ok(settings) => r is Ok && final(self).settings == settings,
                Err(detail) => {
                    &&& r is Err
                    &&& r->Err_0.kind == ErrorKind::ConfigParseError
                    &&& r->Err_0.message@ == crate::error::parse_message("config"@, detail@)
                    &&& final(self).settings == old(self).settings
                },
            },
    {
        match decoded {
            Ok(settings) => {
                self.settings = settings;
                Ok(())
            },
            Err(detail) => Err(OptimizerError::parse_failure("config", detail.as_str())),
        }
    }

    /// The latest statistics.
    pub fn get_stats(&self) -> (stats: PerformanceStats)
        ensures
            stats == self.stats,
    {
        self.stats
    }

    /// The current settings.
    pub fn get_settings(&self) -> (settings: PerformanceSettings)
        ensures
            settings == self.settings,
    {
        self.settings
    }

    /// Takes over the four measurements of a sampling interval; the memory
    /// and GPU usage are not among them and stay as they are.
    pub fn update_stats(&mut self, fps: Scalar, frame_time: Scalar, triangles: u32, draw_calls: u32)
        ensures
            final(self).settings == old(self).settings,
            final(self).stats == (PerformanceStats {
                fps,
                frame_time,
                triangle_count: triangles,
                draw_calls,
                memory_usage: old(self).stats.memory_usage,
                gpu_usage: old(self).stats.gpu_usage,
            }),
    {
        self.stats.fps = fps;
        self.stats.frame_time = frame_time;
        self.stats.triangle_count = triangles;
        self.stats.draw_calls = draw_calls;
    }

    /// Tunes the settings by the latest frame rate and returns them.
    pub fn calculate_optimal_settings<K: Fn(Operation, Scalar, Scalar) -> Scalar>(
        &mut self,
        arithmetic: &K,
    ) -> (settings: PerformanceSettings)
        requires
            accepts_all(arithmetic),
        ensures
            final(self).stats == old(self).stats,
            final(self).settings == settings,
            adjusted(
                arithmetic,
                zone_of(old(self).stats.fps, old(self).settings.target_fps),
                old(self).settings,
                settings,
            ),
    {
        let z = zone(self.stats.fps, self.settings.target_fps);
        let settings = adjust(self.settings, z, arithmetic);
        self.settings = settings;
        settings
    }

    /// Decimates a mesh to about `ratio` of its triangles.
    pub fn decimate_mesh(&self, vertices: &[Scalar], indices: &[u32], ratio: Scalar) -> (mesh:
        MeshData)
        ensures
            mesh.vertices@ == vertices@,
            mesh.indices@ == decimated_indices(
                indices@,
                target_triangles(triangle_count(indices@) as nat, ratio),
            ),
    {
        perform_decimation(vertices, indices, ratio)
    }

    /// Applies the boolean operation of the given name to two meshes.
    pub fn boolean_operation(&self, operation: &str, mesh_a: &MeshData, mesh_b: &MeshData) -> (r:
        Result<MeshData, OptimizerError>)
        ensures
            match operation_named(operation@) {
                None => r is Err && r->Err_0.is_invalid_operation(),
                Some(known) => if boolean_possible(known, mesh_a, mesh_b) {
                    r is Ok && boolean_result(known, mesh_a, mesh_b, r->Ok_0)
                } else {
                    r is Err && r->Err_0.is_index_out_of_range()
                },
            },
    {
        crate::mesh::boolean_operation(operation, mesh_a, mesh_b)
    }

    /// Plans the levels of detail for a mesh of the given complexity, under
    /// the current level-of-detail bias.
    pub fn calculate_lod_levels<K: Fn(Operation, Scalar, Scalar) -> Scalar>(
        &self,
        complexity: u32,
        arithmetic: &K,
    ) -> (levels: Vec<LodLevel>)
        requires
            accepts_all(arithmetic),
        ensures
            levels@.len() == level_count(complexity),
            forall|i: int|
                0 <= i < levels@.len() ==> level_computed(
                    arithmetic,
                    i as nat,
                    level_count(complexity),
                    self.settings.lod_bias,
                    #[trigger] levels@[i],
                ),
    {
        plan_lod_levels(complexity, self.settings.lod_bias, arithmetic)
    }

    /// The smooth normals of a mesh.
    pub fn calculate_normals<
        K: Fn(Operation, Scalar, Scalar) -> Scalar,
        N: Fn(Vector3, Vector3, Vector3) -> Vector3,
    >(&self, vertices: &[Scalar], indices: &[u32], arithmetic: &K, face_normal: &N) -> (r: Result<
        Vec<Scalar>,
        OptimizerError,
    >)
        requires
            accepts_all(arithmetic),
            accepts_all_triangles(face_normal),
        ensures
            r is Ok <==> indices_in_range(indices@, vertex_count(vertices@)),
            r is Err ==> r->Err_0.is_index_out_of_range(),
            r is Ok ==> r->Ok_0@.len() == vertices@.len(),
            r is Ok ==> smooth_normals(arithmetic, face_normal, vertices@, indices@, r->Ok_0@),
    {
        compute_smooth_normals(vertices, indices, arithmetic, face_normal)
    }

    /// Whether the box between the two corners is visible under the
    /// transform into clip space.
    pub fn is_in_frustum<T: Fn(Vector3) -> Vector3>(
        &self,
        bbox_min_x: Scalar,
        bbox_min_y: Scalar,
        bbox_min_z: Scalar,
        bbox_max_x: Scalar,
        bbox_max_y: Scalar,
        bbox_max_z: Scalar,
        transform: &T,
    ) -> (visible: bool)
        requires
            accepts_all_points(transform),
        ensures
            box_seen(
                transform,
                Vector3 { x: bbox_min_x, y: bbox_min_y, z: bbox_min_z },
                Vector3 { x: bbox_max_x, y: bbox_max_y, z: bbox_max_z },
                visible,
            ),
    {
        let min = Vector3 { x: bbox_min_x, y: bbox_min_y, z: bbox_min_z };
        let max = Vector3 { x: bbox_max_x, y: bbox_max_y, z: bbox_max_z };
        check_box_in_frustum(min, max, transform)
    }
}

} // verus!
