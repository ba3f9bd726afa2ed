//! Finding the catalog entry nearest to a colour.

use vstd::prelude::*;
use crate::catalog::StandardColor;
use crate::color::{color_at, num_to_color, Color};
use crate::metric::{distance_squared, euclidean_distance_squared};

verus! {

/// Why a colour could not be classified.
#[derive(Clone, Copy, Debug, PartialEq, Eq, Structural)]
pub enum ClassifyError {
    /// The catalog holds no reference colour, so nothing is nearest.
    EmptyCatalog,
}

/// Entry `i` is the nearest match of `target`: no entry of the catalog is
/// closer, and every entry before it is strictly farther away. Among
/// entries at the same smallest distance this holds of the first only.
pub open spec fn is_nearest_at(catalog: Seq<StandardColor>, target: Color, i: int) -> bool {
    &&& 0 <= i < catalog.len()
    &&& forall|j: int|
        0 <= j < catalog.len() ==> distance_squared(catalog[i].color, target) <= distance_squared(
            (#[trigger] catalog[j]).color,
            target,
        )
    &&& forall|j: int|
        0 <= j < i ==> distance_squared(catalog[i].color, target) < distance_squared(
            (#[trigger] catalog[j]).color,
            target,
        )
}

/// The position of the nearest match of `target` in a non-empty catalog.
pub open spec fn nearest_index(catalog: Seq<StandardColor>, target: Color) -> int {
    choose|i: int| is_nearest_at(catalog, target, i)
}

/// The name under which the colour at position `index` of the colour space
/// is counted: that of its nearest match.
pub open spec fn nearest_name(catalog: Seq<StandardColor>, index: int) -> Seq<char> {
    catalog[nearest_index(catalog, color_at(index))].name@
}

/// The first nearest match among the first `n` entries.
proof fn lemma_nearest_in_prefix(catalog: Seq<StandardColor>, target: Color, n: int) -> (i: int)
    requires
        0 < n <= catalog.len(),
    ensures
        is_nearest_at(catalog.take(n), target, i),
    decreases n,
{
    if n == 1 {
        0
    } else {
        let p = lemma_nearest_in_prefix(catalog, target, n - 1);
        let prefix = catalog.take(n - 1);
        let longer = catalog.take(n);
        assert forall|j: int| 0 <= j < n - 1 implies longer[j] == prefix[j] by {}
        if distance_squared(catalog[n - 1].color, target) < distance_squared(
            catalog[p].color,
            target,
        ) {
            assert forall|j: int| 0 <= j < n - 1 implies distance_squared(
                longer[n - 1].color,
                target,
            ) < distance_squared((#[trigger] longer[j]).color, target) by {
                assert(longer[j] == prefix[j]);
            }
            n - 1
        } else {
            assert forall|j: int| 0 <= j < n implies distance_squared(longer[p].color, target)
                <= distance_squared((#[trigger] longer[j]).color, target) by {
                if j < n - 1 {
                    assert(longer[j] == prefix[j]);
                }
            }
            assert forall|j: int| 0 <= j < p implies distance_squared(longer[p].color, target)
                < distance_squared((#[trigger] longer[j]).color, target) by {
                assert(longer[j] == prefix[j]);
            }
            p
        }
    }
}

/// Every colour has a nearest match in a non-empty catalog.
pub proof fn lemma_nearest_exists(catalog: Seq<StandardColor>, target: Color)
    requires
        catalog.len() > 0,
    ensures
        is_nearest_at(catalog, target, nearest_index(catalog, target)),
{
    let i = lemma_nearest_in_prefix(catalog, target, catalog.len() as int);
    assert(catalog.take(catalog.len() as int) =~= catalog);
}

/// The nearest match is determined by the catalog and the colour alone: no
/// two entries can both be it.
pub proof fn lemma_nearest_unique(catalog: Seq<StandardColor>, target: Color, i: int, j: int)
    requires
        is_nearest_at(catalog, target, i),
        is_nearest_at(catalog, target, j),
    ensures
        i == j,
        i == nearest_index(catalog, target),
{
    let k = nearest_index(catalog, target);
    assert(is_nearest_at(catalog, target, k));
    assert(i == j) by {
        if i < j {
            assert(distance_squared(catalog[j].color, target) < distance_squared(
                catalog[i].color,
                target,
            ));
            assert(distance_squared(catalog[i].color, target) <= distance_squared(
                catalog[j].color,
                target,
            ));
        } else if j < i {
            assert(distance_squared(catalog[i].color, target) < distance_squared(
                catalog[j].color,
                target,
            ));
            assert(distance_squared(catalog[j].color, target) <= distance_squared(
                catalog[i].color,
                target,
            ));
        }
    }
    assert(i == k) by {
        if i < k {
            assert(distance_squared(catalog[k].color, target) < distance_squared(
                catalog[i].color,
                target,
            ));
            assert(distance_squared(catalog[i].color, target) <= distance_squared(
                catalog[k].color,
                target,
            ));
        } else if k < i {
            assert(distance_squared(catalog[i].color, target) < distance_squared(
                catalog[k].color,
                target,
            ));
            assert(distance_squared(catalog[k].color, target) <= distance_squared(
                catalog[i].color,
                target,
            ));
        }
    }
}

/// Scans the whole catalog for the nearest match of `color` and returns its
/// position, or `None` for an empty catalog.
pub fn nearest_position(standard_colors: &Vec<StandardColor>, color: Color) -> (found: Option<usize>)
    ensures
        found is None <==> standard_colors.len() == 0,
        found matches Some(i) ==> i == nearest_index(standard_colors@, color),
        found matches Some(i) ==> is_nearest_at(standard_colors@, color, i as int),
{
    if standard_colors.len() == 0 {
        return None;
    }
    let mut best: usize = 0;
    let mut best_distance: u32 = euclidean_distance_squared(&standard_colors[0].color, &color);
    let mut k: usize = 1;
    while k < standard_colors.len()
        invariant
            1 <= k <= standard_colors.len(),
            best < k,
            best_distance == distance_squared(standard_colors@[best as int].color, color),
            forall|j: int|
                0 <= j < k ==> best_distance <= distance_squared(
                    (#[trigger] standard_colors@[j]).color,
                    color,
                ),
            forall|j: int|
                0 <= j < best ==> best_distance < distance_squared(
                    (#[trigger] standard_colors@[j]).color,
                    color,
                ),
        decreases standard_colors.len() - k,
    {
        let d = euclidean_distance_squared(&standard_colors[k].color, &color);
        if d < best_distance {
            best = k;
            best_distance = d;
        }
        k = k + 1;
    }
    proof {
        lemma_nearest_unique(standard_colors@, color, best as int, best as int);
    }
    Some(best)
}

/// The nearest match of `color`: the catalog entry at the smallest distance,
/// and the first such entry in catalog order where several are equally
/// near. An empty catalog has no nearest match and is rejected.
pub fn nearest_color_single(standard_colors: &Vec<StandardColor>, color: Color) -> (result: Result<
    StandardColor,
    ClassifyError,
>)
    ensures
        standard_colors.len() == 0 <==> result == Err::<StandardColor, ClassifyError>(
            ClassifyError::EmptyCatalog,
        ),
        standard_colors.len() > 0 <==> result == Ok::<StandardColor, ClassifyError>(
            standard_colors@[nearest_index(standard_colors@, color)],
        ),
{
    match nearest_position(standard_colors, color) {
        None => Err(ClassifyError::EmptyCatalog),
        Some(i) => {
            let entry = &standard_colors[i];
            Ok(StandardColor { name: entry.name.clone(), color: entry.color })
        },
    }
}

/// The name under which the colour at position `index` is counted.
pub fn classify(standard_colors: &Vec<StandardColor>, index: u32) -> (name: String)
    requires
        standard_colors.len() > 0,
    ensures
        name@ == nearest_name(standard_colors@, index as int),
{
    let i = nearest_position(standard_colors, num_to_color(index)).unwrap();
    standard_colors[i].name.clone()
}

} // verus!
