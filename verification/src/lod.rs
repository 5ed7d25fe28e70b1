//! Level-of-detail planning: a short list of viewing distances, each with
//! the share of detail to show from there on.
use crate::scalar::{accepts_all, single_valued, small_integer, Operation, Scalar, ONE_BITS};
use vstd::prelude::*;

verus! {

/// One level of detail: from `distance` on, show `detail_ratio` of the mesh.
#[derive(Clone, Copy, PartialEq, Eq, Debug, Structural)]
pub struct LodLevel {
    pub distance: Scalar,
    pub detail_ratio: Scalar,
}

/// A planned scene: its size and the levels of detail to draw it with.
#[derive(Debug)]
pub struct OptimizedScene {
    pub draw_calls: u32,
    pub triangles: u32,
    pub lod_levels: Vec<LodLevel>,
}

/// The number of levels for a mesh of the given complexity: four above
/// 100 000, three above 10 000, two otherwise.
pub open spec fn level_count(complexity: u32) -> nat {
    if complexity > 100_000 {
        4
    } else if complexity > 10_000 {
        3
    } else {
        2
    }
}

/// The distance of level `index` before the bias is applied: 50 for the
/// first level and 50 more for each further one.
pub open spec fn base_distance(index: nat) -> nat {
    50 * (index + 1)
}

/// Level `index` of `count`, with the intermediate results named:
/// `quotient` is `index / count`, the detail ratio is `1 - quotient`,
/// `spread` is `1 + lod_bias`, and the distance is the base distance times
/// `spread`.
pub open spec fn level_steps<K: Fn(Operation, Scalar, Scalar) -> Scalar>(
    arithmetic: &K,
    index: nat,
    count: nat,
    lod_bias: Scalar,
    quotient: Scalar,
    spread: Scalar,
    level: LodLevel,
) -> bool {
    let one = Scalar { bits: ONE_BITS };
    &&& arithmetic.ensures(
        (Operation::Divide, small_integer(index), small_integer(count)),
        quotient,
    )
    &&& arithmetic.ensures((Operation::Subtract, one, quotient), level.detail_ratio)
    &&& arithmetic.ensures((Operation::Add, one, lod_bias), spread)
    &&& arithmetic.ensures(
        (Operation::Multiply, small_integer(base_distance(index)), spread),
        level.distance,
    )
}

/// `level` is level `index` of `count` as the arithmetic computes it.
pub open spec fn level_computed<K: Fn(Operation, Scalar, Scalar) -> Scalar>(
    arithmetic: &K,
    index: nat,
    count: nat,
    lod_bias: Scalar,
    level: LodLevel,
) -> bool {
    exists|quotient: Scalar, spread: Scalar| #[trigger]
        level_steps(arithmetic, index, count, lod_bias, quotient, spread, level)
}

/// The number of levels for a mesh of the given complexity.
pub fn count_levels(complexity: u32) -> (count: u32)
    ensures
        count == level_count(complexity),
{
    if complexity > 100_000 {
        4
    } else if complexity > 10_000 {
        3
    } else {
        2
    }
}

/// Plans the levels of detail of a mesh: `level_count(complexity)` levels,
/// nearest first, level `i` of `n` with detail ratio `1 - i / n` at distance
/// `50 * (i + 1) * (1 + lod_bias)`.
pub fn plan_lod_levels<K: Fn(Operation, Scalar, Scalar) -> Scalar>(
    complexity: u32,
    lod_bias: Scalar,
    arithmetic: &K,
) -> (levels: Vec<LodLevel>)
    requires
        accepts_all(arithmetic),
    ensures
        levels@.len() == level_count(complexity),
        forall|i: int|
            0 <= i < levels@.len() ==> level_computed(
                arithmetic,
                i as nat,
                level_count(complexity),
                lod_bias,
                #[trigger] levels@[i],
            ),
{
    let count = count_levels(complexity);
    let mut levels: Vec<LodLevel> = Vec::new();
    let mut index: u32 = 0;
    while index < count
        invariant
            index <= count <= 4,
            count == level_count(complexity),
            accepts_all(arithmetic),
            levels@.len() == index,
            forall|i: int|
                0 <= i < index ==> level_computed(
                    arithmetic,
                    i as nat,
                    count as nat,
                    lod_bias,
                    #[trigger] levels@[i],
                ),
        decreases count - index,
    {
        let quotient = arithmetic(
            Operation::Divide,
            Scalar::from_small(index),
            Scalar::from_small(count),
        );
        let detail_ratio = arithmetic(Operation::Subtract, Scalar::one(), quotient);
        let spread = arithmetic(Operation::Add, Scalar::one(), lod_bias);
        let distance = arithmetic(
            Operation::Multiply,
            Scalar::from_small(50 * (index + 1)),
            spread,
        );
        let level = LodLevel { distance, detail_ratio };
        assert(level_steps(
            arithmetic,
            index as nat,
            count as nat,
            lod_bias,
            quotient,
            spread,
            level,
        ));
        levels.push(level);
        index += 1;
    }
    levels
}

/// Under an arithmetic that is a function, a level has one outcome.
pub proof fn lemma_level_is_determined<K: Fn(Operation, Scalar, Scalar) -> Scalar>(
    arithmetic: &K,
    index: nat,
    count: nat,
    lod_bias: Scalar,
    first: LodLevel,
    second: LodLevel,
)
    requires
        single_valued(arithmetic),
        level_computed(arithmetic, index, count, lod_bias, first),
        level_computed(arithmetic, index, count, lod_bias, second),
    ensures
        first == second,
{
    let (quotient1, spread1) = choose|quotient: Scalar, spread: Scalar| #[trigger]
        level_steps(arithmetic, index, count, lod_bias, quotient, spread, first);
    let (quotient2, spread2) = choose|quotient: Scalar, spread: Scalar| #[trigger]
        level_steps(arithmetic, index, count, lod_bias, quotient, spread, second);
    assert(quotient1 == quotient2);
    assert(spread1 == spread2);
}

} // verus!
