//! Sizing and placing a single new room inside the space left for it.
use vstd::prelude::*;
use rand::rngs::StdRng;
use crate::dir::Dir;
use crate::geom::{Aabr, Vec2};
use crate::kind::RoomKind;
use crate::random::{gen_index, gen_between};

verus! {

/// Plots lie within this bound, which leaves room around them for every
/// intermediate point of the generator.
pub const PLOT_LIMIT: i32 = 524288;

pub open spec fn in_plot_limit(v: int) -> bool {
    -PLOT_LIMIT <= v <= PLOT_LIMIT
}

pub open spec fn aabr_in_plot_limit(a: Aabr) -> bool {
    in_plot_limit(a.min.x as int) && in_plot_limit(a.min.y as int) && in_plot_limit(
        a.max.x as int,
    ) && in_plot_limit(a.max.y as int)
}

/// `p` lies on the side of `mb` facing away from `in_dir`, or right outside
/// it, at least `m` cells from either end of that side.
pub open spec fn door_spot(mb: Aabr, in_dir: Dir, p: Vec2, m: int) -> bool {
    &&& (in_dir.opp().side(mb) == in_dir.pick(p) || in_dir.opp().side(mb) == in_dir.pick(p)
        + in_dir.sign())
    &&& in_dir.orth().pick(mb.min) + m <= in_dir.orth().pick(p) <= in_dir.orth().pick(mb.max) - m
}

/// The room `b` lies on or right next to the cell `p`, which is strictly
/// between its ends across `in_dir`.
pub open spec fn holds_door(b: Aabr, in_dir: Dir, p: Vec2) -> bool {
    &&& b.min.x - 1 <= p.x <= b.max.x + 1
    &&& b.min.y - 1 <= p.y <= b.max.y + 1
    &&& in_dir.orth().pick(b.min) < in_dir.orth().pick(p) < in_dir.orth().pick(b.max)
}

/// `mb` leaves `k` cells around `from` on every side.
pub open spec fn leaves_around(mb: Aabr, from: Aabr, k: int) -> bool {
    &&& mb.min.x + k <= from.min.x
    &&& from.max.x + k <= mb.max.x
    &&& mb.min.y + k <= from.min.y
    &&& from.max.y + k <= mb.max.y
}

/// What `gen_range_snap` returns for the drawn value `res`: `snap_max` when it
/// is the range's end and within two of `res`.
pub open spec fn snapped(res: int, hi: int, snap_max: int) -> int {
    if snap_max <= hi && snap_max - res <= 2 {
        snap_max
    } else {
        res
    }
}

/// Draws from `lo..=hi`, rounding up to `snap_max` when that is the end of the
/// range and at most two away, so that no sliver of one or two cells is left.
pub fn gen_range_snap(rng: &mut StdRng, lo: i32, hi: i32, snap_max: i32) -> (r: i32)
    requires
        0 <= lo <= hi <= snap_max,
        hi <= 1024,
    ensures
        lo <= r <= hi,
        exists|res: int| lo <= res <= hi && r == snapped(res, hi as int, snap_max as int),
{
    let res = gen_between(rng, lo, hi);
    let r = if snap_max <= hi && snap_max - res <= 2 {
        snap_max
    } else {
        res
    };
    assert(r == snapped(res as int, hi as int, snap_max as int));
    r
}

proof fn lemma_area_bounds(x: int, y: int, amin: int, amax: int)
    requires
        x > 0,
        y >= (amin + x - 1) / x,
        y <= amax / x,
        amin >= 0,
    ensures
        amin <= x * y <= amax,
{
    assert(x * y >= amin) by (nonlinear_arith)
        requires
            x > 0,
            y >= (amin + x - 1) / x,
            amin >= 0,
    ;
    assert(x * y <= amax) by (nonlinear_arith)
        requires
            x > 0,
            y <= amax / x,
    ;
}

proof fn lemma_ceil_below(a: int, x: int, c: int)
    requires
        x > 0,
        a >= 0,
        c * x >= a,
    ensures
        (a + x - 1) / x <= c,
{
    assert((a + x - 1) / x <= c) by (nonlinear_arith)
        requires
            x > 0,
            a >= 0,
            c * x >= a,
    ;
}

proof fn lemma_floor_above(b: int, x: int, d: int)
    requires
        x > 0,
        d >= 0,
        d * x <= b,
    ensures
        b / x >= d,
{
    assert(b / x >= d) by (nonlinear_arith)
        requires
            x > 0,
            d >= 0,
            d * x <= b,
    ;
}

/// For every first side a kind allows, some second side completes a room of
/// the kind: the shorter side and area ranges are compatible.
proof fn lemma_sizes_exist(kind: RoomKind, x: int)
    requires
        kind.side_min() <= x <= kind.side_max(),
    ensures
        (kind.area_min() + x - 1) / x <= kind.side_max(),
        (kind.area_min() + x - 1) / x <= kind.area_max() / x,
        kind.side_min() <= kind.area_max() / x,
{
    let (c, d): (int, int) = match kind {
        RoomKind::Entrance => (4, 5),
        RoomKind::Garden => (7, 12),
        RoomKind::Seating => (9, 12),
        RoomKind::Cellar => (6, 9),
        RoomKind::Stage => (14, 18),
        RoomKind::Bar => (9, 12),
    };
    assert(c * x >= c * kind.side_min()) by (nonlinear_arith)
        requires
            x >= kind.side_min(),
            c >= 0,
    ;
    assert(d * x <= d * kind.side_max()) by (nonlinear_arith)
        requires
            x <= kind.side_max(),
            d >= 0,
    ;
    lemma_ceil_below(kind.area_min(), x, c);
    lemma_floor_above(kind.area_max(), x, d);
}

/// Draws the sides of a room of kind `kind`: `size_x` at most `along`, then
/// `size_y` at most `across` and within the area range given `size_x`.
fn size_side_room(kind: RoomKind, along: i32, across: i32, rng: &mut StdRng) -> (r: Option<
    (i32, i32),
>)
    requires
        0 <= along,
        0 <= across,
    ensures
        r matches Some(s) ==> {
            &&& kind.side_min() <= s.0 <= kind.side_max()
            &&& kind.side_min() <= s.1 <= kind.side_max()
            &&& kind.area_min() <= s.0 * s.1 <= kind.area_max()
            &&& s.0 <= along
            &&& s.1 <= across
        },
        along >= kind.side_max() && across >= kind.side_max() ==> r is Some,
{
    let (side_min, side_max, area_min, area_max) = kind.size_range();
    let max = if along < side_max {
        along
    } else {
        side_max
    };
    if max < side_min {
        return None;
    }
    let size_x = gen_range_snap(rng, side_min, max, along);
    proof {
        lemma_sizes_exist(kind, size_x as int);
    }
    let lo = (area_min + size_x - 1) / size_x;
    let min = if lo > side_min {
        lo
    } else {
        side_min
    };
    let by_area = area_max / size_x;
    let mut max = if across < side_max {
        across
    } else {
        side_max
    };
    if by_area < max {
        max = by_area;
    }
    if max < min {
        return None;
    }
    let size_y = gen_range_snap(rng, min, max, across);
    proof {
        lemma_area_bounds(size_x as int, size_y as int, area_min as int, area_max as int);
    }
    Some((size_x, size_y))
}

/// The box of `size_x` cells along `in_dir` and `size_y` across it, that
/// starts one cell beyond `in_pos` with `half` of it on the clockwise side,
/// moved into `max_bounds` where it sticks out.
fn side_room_box(max_bounds: Aabr, in_dir: Dir, in_pos: Vec2, size_x: i32, size_y: i32, half: i32) -> (r: Aabr)
    requires
        aabr_in_plot_limit(max_bounds),
        max_bounds.valid(),
        in_plot_limit(in_pos.x as int),
        in_plot_limit(in_pos.y as int),
        0 <= size_x <= 64,
        0 <= size_y <= 64,
        0 <= half <= 64,
    ensures
        r.valid(),
        r.wf(),
        r.width() == (if in_dir.on_x() { size_x } else { size_y }),
        r.height() == (if in_dir.on_x() { size_y } else { size_x }),
        size_x <= in_dir.pick(Vec2 { x: max_bounds.width() as i32, y: max_bounds.height() as i32 })
            && size_y <= in_dir.orth().pick(
            Vec2 { x: max_bounds.width() as i32, y: max_bounds.height() as i32 },
        ) ==> r.within(max_bounds),
        size_x <= in_dir.pick(Vec2 { x: max_bounds.width() as i32, y: max_bounds.height() as i32 })
            && door_spot(max_bounds, in_dir, in_pos, 11) && 1 <= half <= 11 && 1 <= size_y - half
            <= 11
            ==> holds_door(r, in_dir, in_pos),
{
    let a = in_dir.step(in_pos, 1);
    let a = in_dir.rotated_cw().step(a, half);
    let min = max_bounds.projected_point(a);
    let b = in_dir.step(min, size_x);
    let b = in_dir.rotated_ccw().step(b, size_y);
    let max = max_bounds.projected_point(b);
    let c = in_dir.opposite().step(max, size_x);
    let min = in_dir.rotated_cw().step(c, size_y);
    Aabr { min, max }.made_valid()
}

/// Sizes a room of kind `kind` that grows in direction `in_dir` from the door
/// cell `in_pos`, and places it against that cell within `max_bounds`.
/// Its side along `in_dir` is drawn first, then the other within the area range.
pub fn place_side_room(
    kind: RoomKind,
    max_bounds: Aabr,
    in_dir: Dir,
    in_pos: Vec2,
    rng: &mut StdRng,
) -> (r: Option<Aabr>)
    requires
        aabr_in_plot_limit(max_bounds),
        max_bounds.valid(),
        in_plot_limit(in_pos.x as int),
        in_plot_limit(in_pos.y as int),
    ensures
        r matches Some(b) ==> b.valid() && b.wf() && kind.conforms(b) && b.within(max_bounds),
        max_bounds.width() >= kind.side_max() && max_bounds.height() >= kind.side_max() ==> r is Some,
        door_spot(max_bounds, in_dir, in_pos, 11) && kind.side_max() <= 22 ==> (r matches Some(b)
            ==> holds_door(b, in_dir, in_pos)),
{
    let size = max_bounds.size();
    let (size_x, size_y) = match size_side_room(
        kind,
        in_dir.select(size),
        in_dir.orthogonal().select(size),
        rng,
    ) {
        Some(s) => s,
        None => {
            return None;
        },
    };
    let half = size_y / 2 + (size_y % 2) * gen_between(rng, 0, 1);
    let bounds = side_room_box(max_bounds, in_dir, in_pos, size_x, size_y, half);
    assert(bounds.area_of() == size_x * size_y) by (nonlinear_arith)
        requires
            bounds.width() == (if in_dir.on_x() { size_x } else { size_y }),
            bounds.height() == (if in_dir.on_x() { size_y } else { size_x }),
    ;
    Some(bounds)
}

/// Draws the sides of a basement room of kind `kind` within a `w` by `h` space.
fn size_down_room(kind: RoomKind, w: i32, h: i32, rng: &mut StdRng) -> (r: Option<(i32, i32)>)
    requires
        0 <= w,
        0 <= h,
    ensures
        r matches Some(s) ==> kind.side_min() <= s.0 <= kind.side_max() && kind.side_min() <= s.1
            <= kind.side_max() && s.1 <= kind.area_max() / (s.0 as int),
        w >= kind.side_max() && h >= kind.side_max() ==> r is Some,
{
    let (side_min, side_max, area_min, area_max) = kind.size_range();
    let max_x = if w < side_max {
        w
    } else {
        side_max
    };
    if max_x < side_min {
        return None;
    }
    let size_x = gen_range_snap(rng, side_min, max_x, w);
    proof {
        lemma_sizes_exist(kind, size_x as int);
        assert(kind.area_min() / size_x as int <= (kind.area_min() + size_x - 1) / size_x as int)
            by (nonlinear_arith)
            requires
                size_x > 0,
                kind.area_min() >= 0,
        ;
    }
    let lo = if area_min / size_x > side_min {
        area_min / size_x
    } else {
        side_min
    };
    let mut hi = if h < side_max {
        h
    } else {
        side_max
    };
    if area_max / size_x < hi {
        hi = area_max / size_x;
    }
    if hi < lo {
        return None;
    }
    let size_y = gen_range_snap(rng, lo, hi, h);
    Some((size_x, size_y))
}

/// A box of the given size against the corner of `from_bounds` that `dir` and
/// `orth` face, reaching back under `from_bounds`, then moved by what sticks
/// out of `max_bounds` and cut to it.
fn down_room_box(max_bounds: Aabr, from_bounds: Aabr, dir: Dir, orth: Dir, size_x: i32, size_y: i32) -> (r: Aabr)
    requires
        aabr_in_plot_limit(max_bounds),
        aabr_in_plot_limit(from_bounds),
        max_bounds.valid(),
        0 <= size_x <= 64,
        0 <= size_y <= 64,
        orth.on_x() != dir.on_x(),
    ensures
        r.valid() ==> r.within(max_bounds),
        from_bounds.valid() && leaves_around(max_bounds, from_bounds, size_x as int)
            && leaves_around(max_bounds, from_bounds, size_y as int) ==> r.valid() && r.width()
            == size_x && r.height() == size_y,
{
    let corner = dir.select_aabr_with(
        &from_bounds,
        Vec2 { x: orth.select_aabr(&from_bounds), y: orth.select_aabr(&from_bounds) },
    );
    let x_back = if dir.is_x() {
        dir.signum() > 0
    } else {
        orth.signum() > 0
    };
    let y_back = if dir.is_x() {
        orth.signum() > 0
    } else {
        dir.signum() > 0
    };
    let far = Vec2 {
        x: if x_back { corner.x - size_x } else { corner.x + size_x },
        y: if y_back { corner.y - size_y } else { corner.y + size_y },
    };
    let aabr = Aabr { min: corner, max: far }.made_valid();
    proof {
        if from_bounds.valid() && leaves_around(max_bounds, from_bounds, size_x as int)
            && leaves_around(max_bounds, from_bounds, size_y as int) {
            assert(from_bounds.min.x <= corner.x <= from_bounds.max.x);
            assert(from_bounds.min.y <= corner.y <= from_bounds.max.y);
            assert(aabr.within(max_bounds));
            assert(aabr.width() == size_x && aabr.height() == size_y);
            assert(aabr.meet(max_bounds) == aabr);
        }
    }
    let inside = aabr.intersection(&max_bounds);
    let inside_size = inside.size();
    let mvx = size_x - inside_size.x;
    let mvy = size_y - inside_size.y;
    let sx = if x_back { mvx } else { -mvx };
    let sy = if y_back { mvy } else { -mvy };
    let moved = Aabr {
        min: Vec2 { x: aabr.min.x + sx, y: aabr.min.y + sy },
        max: Vec2 { x: aabr.max.x + sx, y: aabr.max.y + sy },
    };
    moved.intersection(&max_bounds)
}

/// Sizes a room of kind `kind` and places it within `max_bounds`, against a
/// corner of `from_bounds` picked at random, as a basement beneath that room.
/// `None` where the result would not conform to the kind.
pub fn place_down_room(kind: RoomKind, max_bounds: Aabr, from_bounds: Aabr, rng: &mut StdRng) -> (r:
    Option<Aabr>)
    requires
        aabr_in_plot_limit(max_bounds),
        aabr_in_plot_limit(from_bounds),
        max_bounds.valid(),
    ensures
        r matches Some(b) ==> b.valid() && b.wf() && b.within(max_bounds) && kind.area_min()
            <= b.area_of() <= kind.area_max() && kind.side_min() <= b.min_side()
            <= kind.side_max(),
        from_bounds.valid() && leaves_around(max_bounds, from_bounds, kind.side_max())
            && kind.side_min() * kind.side_min() >= kind.area_min() ==> r is Some,
{
    let size = max_bounds.size();
    let (size_x, size_y) = match size_down_room(kind, size.x, size.y, rng) {
        Some(s) => s,
        None => {
            return None;
        },
    };
    let dir = Dir::from_index(gen_index(rng, 4));
    let orth = if gen_index(rng, 2) == 0 {
        dir.orthogonal()
    } else {
        dir.orthogonal().opposite()
    };
    let aabr = down_room_box(max_bounds, from_bounds, dir, orth, size_x, size_y);
    if !aabr.is_valid() {
        return None;
    }
    proof {
        if from_bounds.valid() && leaves_around(max_bounds, from_bounds, kind.side_max())
            && kind.side_min() * kind.side_min() >= kind.area_min() {
            assert(size_x * size_y >= kind.side_min() * kind.side_min()) by (nonlinear_arith)
                requires
                    size_x >= kind.side_min(),
                    size_y >= kind.side_min(),
                    kind.side_min() >= 0,
            ;
            assert(size_x * size_y <= kind.area_max()) by (nonlinear_arith)
                requires
                    size_y <= kind.area_max() / size_x as int,
                    size_x > 0,
            ;
            assert(aabr.area_of() == size_x * size_y);
        }
    }
    let (side_min, side_max, area_min, area_max) = kind.size_range();
    let area = aabr.area();
    let shortest = aabr.shortest_side();
    if area_min as i64 <= area && area <= area_max as i64 && side_min <= shortest && shortest
        <= side_max {
        Some(aabr)
    } else {
        None
    }
}

} // verus!
