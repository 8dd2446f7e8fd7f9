//! Narrowing the space left for a new room by the rooms already there.
use vstd::prelude::*;
use crate::dir::Dir;
use crate::geom::{Aabb, Aabr, Vec2};
use crate::place::{aabr_in_plot_limit, in_plot_limit};

verus! {

/// The part of `max_bounds` beyond `inter` on the side that `dir` faces,
/// reaching back across at least to `limit` when one is given.
fn shrink_candidate(max_bounds: Aabr, inter: Aabr, dir: Dir, limit: Option<i32>) -> (r: Aabr)
    requires
        aabr_in_plot_limit(max_bounds),
        aabr_in_plot_limit(inter),
        limit matches Some(l) ==> in_plot_limit(l as int),
    ensures
        r.valid(),
        aabr_in_plot_limit(r),
{
    let min = dir.select_aabr_with(
        &max_bounds,
        Vec2 {
            x: dir.rotated_ccw().select_aabr(&max_bounds),
            y: dir.rotated_ccw().select_aabr(&max_bounds),
        },
    );
    let far = dir.select_aabr_with(
        &inter,
        Vec2 {
            x: dir.rotated_cw().select_aabr(&max_bounds),
            y: dir.rotated_cw().select_aabr(&max_bounds),
        },
    );
    let max = match limit {
        Some(l) => {
            let a = dir.select(far);
            // Keep whichever of the two lies further back against `dir`.
            let v = if dir.signum() > 0 {
                if a <= l {
                    a
                } else {
                    l
                }
            } else {
                if a >= l {
                    a
                } else {
                    l
                }
            };
            if dir.is_x() {
                Vec2 { x: v, y: far.y }
            } else {
                Vec2 { x: far.x, y: v }
            }
        },
        None => far,
    };
    Aabr { min, max }.made_valid()
}

/// Room `i` of `rooms` is one the new room must keep clear of: not `skip`, and
/// its altitude range comes within one of `min_z..=max_z`.
pub open spec fn obstacle(rooms: Seq<Aabb>, i: int, skip: usize, min_z: int, max_z: int) -> bool {
    i != skip && rooms[i].min.z - 1 <= max_z && rooms[i].max.z + 1 >= min_z
}

/// Shrinks `max_bounds` past every room of `rooms` but `skip` whose altitude
/// range comes within one of `min_z..=max_z`: for each, the largest part of
/// the current bounds that stays clear of it on one of its sides, where
/// `limits` (one per direction, in the order of `Dir::from_index`) lets that
/// side move. `None` when some room leaves no such part.
pub fn fit_room(
    rooms: &Vec<Aabb>,
    skip: usize,
    min_z: i32,
    max_z: i32,
    max_bounds: Aabr,
    limits: &Vec<Option<i32>>,
) -> (r: Option<Aabr>)
    requires
        aabr_in_plot_limit(max_bounds),
        max_bounds.valid(),
        forall|i: int| 0 <= i < rooms@.len() ==> aabr_in_plot_limit(#[trigger] rooms@[i].xy()),
        forall|i: int|
            0 <= i < rooms@.len() ==> in_plot_limit(#[trigger] rooms@[i].min.z as int)
                && in_plot_limit(rooms@[i].max.z as int),
        limits@.len() == 4,
        forall|i: int|
            0 <= i < 4 ==> (#[trigger] limits@[i] matches Some(l) ==> in_plot_limit(l as int)),
    ensures
        r matches Some(b) ==> b.valid() && aabr_in_plot_limit(b) && b.within(max_bounds),
        r matches Some(b) ==> forall|i: int|
            0 <= i < rooms@.len() && obstacle(rooms@, i, skip, min_z as int, max_z as int)
                ==> !b.meets(#[trigger] rooms@[i].xy()),
        (forall|i: int|
            0 <= i < rooms@.len() ==> !#[trigger] obstacle(rooms@, i, skip, min_z as int, max_z as int))
            ==> r == Some(max_bounds),
{
    let mut mb = max_bounds;
    let mut i: usize = 0;
    while i < rooms.len()
        invariant
            i <= rooms@.len(),
            aabr_in_plot_limit(mb),
            mb.valid(),
            mb.within(max_bounds),
            (forall|i: int|
                0 <= i < rooms@.len() ==> !#[trigger] obstacle(rooms@, i, skip, min_z as int, max_z as int))
                ==> mb == max_bounds,
            forall|i: int|
                0 <= i < rooms@.len() ==> aabr_in_plot_limit(#[trigger] rooms@[i].xy()),
            forall|i: int|
                0 <= i < rooms@.len() ==> in_plot_limit(#[trigger] rooms@[i].min.z as int)
                    && in_plot_limit(rooms@[i].max.z as int),
            limits@.len() == 4,
            forall|i: int|
                0 <= i < 4 ==> (#[trigger] limits@[i] matches Some(l) ==> in_plot_limit(
                    l as int,
                )),
        decreases rooms@.len() - i,
    {
        let room = rooms[i];
        if i != skip && room.min.z - 1 <= max_z && room.max.z + 1 >= min_z {
            assert(obstacle(rooms@, i as int, skip, min_z as int, max_z as int));
            let test = room.footprint();
            assert(aabr_in_plot_limit(rooms@[i as int].xy()));
            let inter = test.extend(2).intersection(&mb);
            if inter.is_valid() {
                let mut best: Option<Aabr> = None;
                let mut best_area: i64 = 0;
                let mut d: usize = 0;
                while d < 4
                    invariant
                        d <= 4,
                        aabr_in_plot_limit(mb),
                        aabr_in_plot_limit(inter),
                        mb.valid(),
                        mb.within(max_bounds),
                        limits@.len() == 4,
                        forall|i: int|
                            0 <= i < 4 ==> (#[trigger] limits@[i] matches Some(l)
                                ==> in_plot_limit(l as int)),
                        best matches Some(b) ==> b.valid() && aabr_in_plot_limit(b) && b.within(
                            max_bounds,
                        ),
                    decreases 4 - d,
                {
                    let dir = Dir::from_index(d);
                    let s = dir.signum();
                    if dir.select_aabr(&inter) * s < dir.select_aabr(&mb) * s {
                        let cand = shrink_candidate(mb, inter, dir, limits[d]).intersection(&mb);
                        if cand.is_valid() && !cand.intersection(&test).is_valid() {
                            let area = cand.area();
                            if best.is_none() || area >= best_area {
                                best = Some(cand);
                                best_area = area;
                            }
                        }
                    }
                    d = d + 1;
                }
                match best {
                    Some(b) => {
                        mb = b;
                    },
                    None => {
                        return None;
                    },
                }
            }
        }
        i = i + 1;
    }
    // Where a later room moved a side back over an earlier one, nothing is left.
    let mut i: usize = 0;
    while i < rooms.len()
        invariant
            i <= rooms@.len(),
            aabr_in_plot_limit(mb),
            mb.valid(),
            mb.within(max_bounds),
            (forall|i: int|
                0 <= i < rooms@.len() ==> !#[trigger] obstacle(rooms@, i, skip, min_z as int, max_z as int))
                ==> mb == max_bounds,
            forall|i: int|
                0 <= i < rooms@.len() ==> in_plot_limit(#[trigger] rooms@[i].min.z as int)
                    && in_plot_limit(rooms@[i].max.z as int),
            forall|j: int|
                0 <= j < i && obstacle(rooms@, j, skip, min_z as int, max_z as int) ==> !mb.meets(
                    #[trigger] rooms@[j].xy(),
                ),
        decreases rooms@.len() - i,
    {
        let room = rooms[i];
        if i != skip && room.min.z - 1 <= max_z && room.max.z + 1 >= min_z && mb.overlaps(
            &room.footprint(),
        ) {
            assert(obstacle(rooms@, i as int, skip, min_z as int, max_z as int));
            return None;
        }
        i = i + 1;
    }
    Some(mb)
}

} // verus!
