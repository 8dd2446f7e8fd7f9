//! Growing the rooms: the entrance against the door, then room after room from
//! a frontier of rooms that may still grow sideways or downwards.
use vstd::prelude::*;
use rand::rngs::StdRng;
use crate::dir::Dir;
use crate::fit::{fit_room, obstacle};
use crate::geom::{Aabb, Aabr, Vec2, Vec3};
use crate::kind::{RoomCounts, RoomKind, TEMPERATURE_LIMIT};
use crate::place::{
    PLOT_LIMIT,
    aabr_in_plot_limit,
    door_spot,
    leaves_around,
    place_down_room,
    place_side_room,
};
use crate::random::{gen_index, gen_between, gen_ratio, gen_seed};
use crate::structure::{ALT_LIMIT, TavernError, TerrainSample, Wall, door_fits, door_in_span};

verus! {

/// Upper bound on the number of rooms of one building.
pub const MAX_ROOMS: usize = 256;

/// Bound on the absolute value of the altitude of every room.
pub const Z_LIMIT: i32 = 262144;

/// Margin kept between a plot and `PLOT_LIMIT`.
pub const PLOT_MARGIN: i32 = 64;

/// A plot the generator can work in: a valid rectangle well within the limits.
pub open spec fn plot_ok(p: Aabr) -> bool {
    &&& p.valid()
    &&& -PLOT_LIMIT + PLOT_MARGIN <= p.min.x
    &&& -PLOT_LIMIT + PLOT_MARGIN <= p.min.y
    &&& p.max.x <= PLOT_LIMIT - PLOT_MARGIN
    &&& p.max.y <= PLOT_LIMIT - PLOT_MARGIN
}

/// The altitude ranges of two boxes share a level.
pub open spec fn z_meets(a: Aabb, b: Aabb) -> bool {
    a.min.z <= b.max.z && b.min.z <= a.max.z
}

/// A room's box lies in the plot, within the altitude limit, and its footprint
/// conforms to its kind.
pub open spec fn room_ok(b: Aabb, k: RoomKind, plot: Aabr) -> bool {
    &&& b.xy().valid()
    &&& b.xy().within(plot)
    &&& k.conforms(b.xy())
    &&& b.min.z <= b.max.z
    &&& -Z_LIMIT <= b.min.z
    &&& b.max.z <= Z_LIMIT
}

/// No two rooms whose altitude ranges share a level share a cell of their footprints.
pub open spec fn rooms_apart(rooms: Seq<Aabb>) -> bool {
    forall|i: int, j: int|
        0 <= i < rooms.len() && 0 <= j < rooms.len() && i != j && #[trigger] z_meets(
            rooms[i],
            rooms[j],
        ) ==> !rooms[i].xy().meets(rooms[j].xy())
}

/// `p` lies on the footprint `a` or right next to it.
pub open spec fn touches(a: Aabr, p: Vec2) -> bool {
    a.min.x - 1 <= p.x <= a.max.x + 1 && a.min.y - 1 <= p.y <= a.max.y + 1
}

/// How many of `kinds` are `k`.
pub open spec fn kind_count(kinds: Seq<RoomKind>, k: RoomKind) -> int
    decreases kinds.len(),
{
    if kinds.len() == 0 {
        0
    } else {
        kind_count(kinds.drop_last(), k) + if kinds.last() == k {
            1int
        } else {
            0
        }
    }
}

proof fn lemma_kind_count_bound(kinds: Seq<RoomKind>, k: RoomKind)
    ensures
        0 <= kind_count(kinds, k) <= kinds.len(),
    decreases kinds.len(),
{
    if kinds.len() > 0 {
        lemma_kind_count_bound(kinds.drop_last(), k);
    }
}

/// The rooms and walls grown so far.
pub struct Layout {
    pub rooms: Vec<Aabb>,
    pub kinds: Vec<RoomKind>,
    pub walls: Vec<Wall>,
    pub counts: RoomCounts,
}

/// A room of the frontier: the sides it may still grow from, and whether it
/// may still grow a basement.
pub struct RoomMeta {
    pub id: usize,
    pub free_walls: Vec<Dir>,
    pub can_add_basement: bool,
}

impl Layout {
    pub open spec fn wf(&self, plot: Aabr) -> bool {
        &&& plot_ok(plot)
        &&& self.rooms@.len() == self.kinds@.len()
        &&& 1 <= self.rooms@.len() <= MAX_ROOMS
        &&& forall|i: int|
            0 <= i < self.rooms@.len() ==> room_ok(
                #[trigger] self.rooms@[i],
                self.kinds@[i],
                plot,
            )
        &&& rooms_apart(self.rooms@)
        &&& (self.kinds@[0] is Entrance || self.kinds@[0] is Garden)
        &&& forall|i: int| 0 < i < self.kinds@.len() ==> !(#[trigger] self.kinds@[i] is Entrance)
        &&& forall|i: int|
            0 <= i < self.kinds@.len() && (#[trigger] self.kinds@[i] is Cellar) ==> exists|j: int|
                0 <= j < self.kinds@.len() && #[trigger] self.kinds@[j] is Bar
        &&& forall|w: int|
            0 <= w < self.walls@.len() ==> (#[trigger] self.walls@[w]).wf(
                self.rooms@.len() as int,
            )
        &&& forall|k: RoomKind| #[trigger] self.counts.count(k) == kind_count(self.kinds@, k)
    }

    /// Whether a room of kind `k` with box `b` may join: it lies in the plot,
    /// conforms to its kind and shares no cell with a room on its levels.
    pub fn can_place(&self, b: Aabb, k: RoomKind, plot: Aabr) -> (r: bool)
        requires
            plot_ok(plot),
        ensures
            r ==> room_ok(b, k, plot),
            r ==> self.rooms@.len() < MAX_ROOMS,
            r ==> forall|i: int|
                0 <= i < self.rooms@.len() ==> !(z_meets(b, #[trigger] self.rooms@[i]) && b.xy().meets(
                    self.rooms@[i].xy(),
                )),
            room_ok(b, k, plot) && self.rooms@.len() < MAX_ROOMS && (forall|i: int|
                0 <= i < self.rooms@.len() ==> !(z_meets(b, #[trigger] self.rooms@[i])
                    && b.xy().meets(self.rooms@[i].xy()))) ==> r,
    {
        if self.rooms.len() >= MAX_ROOMS {
            return false;
        }
        let f = b.footprint();
        if !(f.is_valid() && plot.contains_aabr(&f)) {
            return false;
        }
        if !(b.min.z <= b.max.z && -Z_LIMIT <= b.min.z && b.max.z <= Z_LIMIT) {
            return false;
        }
        let (side_min, side_max, area_min, area_max) = k.size_range();
        let side = f.shortest_side();
        let area = f.area();
        if !(side_min <= side && side <= side_max && area_min as i64 <= area && area
            <= area_max as i64) {
            return false;
        }
        let mut i: usize = 0;
        while i < self.rooms.len()
            invariant
                i <= self.rooms@.len(),
                f == b.xy(),
                forall|j: int|
                    0 <= j < i ==> !(z_meets(b, #[trigger] self.rooms@[j]) && b.xy().meets(
                        self.rooms@[j].xy(),
                    )),
            decreases self.rooms@.len() - i,
        {
            let o = self.rooms[i];
            let of = o.footprint();
            if b.min.z <= o.max.z && o.min.z <= b.max.z && f.overlaps(&of) {
                return false;
            }
            i = i + 1;
        }
        true
    }

    /// Adds a room that `can_place` accepted, grown from room `parent`.
    pub fn add_room(&mut self, b: Aabb, k: RoomKind, parent: usize, plot: Aabr)
        requires
            old(self).wf(plot),
            room_ok(b, k, plot),
            old(self).rooms@.len() < MAX_ROOMS,
            forall|i: int|
                0 <= i < old(self).rooms@.len() ==> !(z_meets(b, #[trigger] old(self).rooms@[i])
                    && b.xy().meets(old(self).rooms@[i].xy())),
            !(k is Entrance),
            parent < old(self).rooms@.len(),
            k is Cellar ==> (old(self).kinds@[parent as int] is Bar || old(self).kinds@[
                parent as int
            ] is Cellar),
        ensures
            final(self).wf(plot),
            final(self).rooms@ == old(self).rooms@.push(b),
            final(self).kinds@ == old(self).kinds@.push(k),
            final(self).walls@ == old(self).walls@,
    {
        let ghost old_kinds = self.kinds@;
        let ghost n = self.rooms@.len();
        proof {
            lemma_kind_count_bound(old_kinds, k);
        }
        self.rooms.push(b);
        self.kinds.push(k);
        self.counts.add(k);
        proof {
            assert(self.kinds@.drop_last() == old_kinds);
            assert forall|j: RoomKind| #[trigger] self.counts.count(j) == kind_count(
                self.kinds@,
                j,
            ) by {}
            assert forall|i: int|
                0 <= i < self.kinds@.len() && (#[trigger] self.kinds@[i] is Cellar) implies exists|
                j: int,
            | 0 <= j < self.kinds@.len() && #[trigger] self.kinds@[j] is Bar by {
                if i < n {
                    assert(old_kinds[i] is Cellar);
                    let j = choose|j: int| 0 <= j < old_kinds.len() && #[trigger] old_kinds[j] is Bar;
                    assert(self.kinds@[j] is Bar);
                } else if old_kinds[parent as int] is Bar {
                    assert(self.kinds@[parent as int] is Bar);
                } else {
                    assert(old_kinds[parent as int] is Cellar);
                    let j = choose|j: int| 0 <= j < old_kinds.len() && #[trigger] old_kinds[j] is Bar;
                    assert(self.kinds@[j] is Bar);
                }
            }
            assert forall|w: int| 0 <= w < self.walls@.len() implies (#[trigger] self.walls@[w]).wf(
                self.rooms@.len() as int,
            ) by {
                assert(self.walls@[w].wf(n as int));
            }
            assert(rooms_apart(self.rooms@));
        }
    }

    /// Adds a wall between rooms that exist.
    pub fn add_wall(&mut self, w: Wall, plot: Aabr)
        requires
            old(self).wf(plot),
            w.wf(old(self).rooms@.len() as int),
        ensures
            final(self).wf(plot),
            final(self).rooms@ == old(self).rooms@,
            final(self).kinds@ == old(self).kinds@,
            final(self).walls@ == old(self).walls@.push(w),
    {
        self.walls.push(w);
    }
}

/// The entrance room, right behind the door at `door` in the plot's side that
/// `door_dir` faces, and the outer wall with the front door. Its kind comes
/// from the entrance lottery.
pub fn place_entrance(plot: Aabr, door_dir: Dir, door: Vec3, temperature: i32, rng: &mut StdRng) -> (r:
    Result<Layout, TavernError>)
    requires
        plot_ok(plot),
        -PLOT_LIMIT <= door.x <= PLOT_LIMIT,
        -PLOT_LIMIT <= door.y <= PLOT_LIMIT,
        -ALT_LIMIT <= door.z <= ALT_LIMIT,
        -TEMPERATURE_LIMIT <= temperature <= TEMPERATURE_LIMIT,
    ensures
        r matches Ok(l) ==> {
            &&& l.wf(plot)
            &&& l.rooms@.len() == 1
            &&& l.walls@.len() == 1
            &&& touches(l.rooms@[0].xy(), Vec2 { x: door.x, y: door.y })
            &&& l.rooms@[0].min.z == door.z
        },
        plot.width() >= 22 && plot.height() >= 22 && door_spot(
            plot,
            door_dir.opp(),
            Vec2 { x: door.x, y: door.y },
            11,
        ) ==> r is Ok,
{
    let lottery = RoomKind::entrance_room_lottery(temperature, &plot);
    let kind = lottery.choose_seeded(gen_seed(rng));
    proof {
        let i = choose|i: int|
            0 <= i < lottery.items@.len() && lottery.offers(i) && #[trigger] lottery.items@[i]
                == kind;
        assert(kind is Garden || kind is Entrance);
    }
    let hgt = gen_between(rng, 3, 4);
    let door_xy = Vec2 { x: door.x, y: door.y };
    let aabr = match place_side_room(kind, plot, door_dir.opposite(), door_xy, rng) {
        Some(a) => a,
        None => {
            return Err(TavernError::NoRoomForEntrance);
        },
    };
    let b = Aabb {
        min: Vec3 { x: aabr.min.x, y: aabr.min.y, z: door.z },
        max: Vec3 { x: aabr.max.x, y: aabr.max.y, z: door.z + hgt },
    };
    let mut layout = Layout {
        rooms: Vec::new(),
        kinds: Vec::new(),
        walls: Vec::new(),
        counts: RoomCounts::new(),
    };
    if !layout.can_place(b, kind, plot) || !aabr.extend(1).contains_point(door_xy) {
        return Err(TavernError::NoRoomForEntrance);
    }
    layout.rooms.push(b);
    layout.kinds.push(kind);
    layout.counts.add(kind);
    proof {
        reveal_with_fuel(kind_count, 2);
        assert(layout.kinds@.drop_last() == Seq::<RoomKind>::empty());
        assert forall|j: RoomKind| #[trigger] layout.counts.count(j) == kind_count(
            layout.kinds@,
            j,
        ) by {}
    }
    let cw = door_dir.rotated_cw();
    let ccw = door_dir.rotated_ccw();
    let s = door_dir.select_aabr_with(
        &aabr,
        Vec2 { x: cw.select_aabr(&aabr), y: cw.select_aabr(&aabr) },
    );
    let s = door_dir.step(cw.step(s, 1), 1);
    let e = door_dir.select_aabr_with(
        &aabr,
        Vec2 { x: ccw.select_aabr(&aabr), y: ccw.select_aabr(&aabr) },
    );
    let e = door_dir.step(ccw.step(e, 1), 1);
    let along = door_dir.orthogonal();
    let (start, end) = if along.select(s) <= along.select(e) {
        (s, e)
    } else {
        (e, s)
    };
    let c = along.select(door_xy) - along.select(start);
    if !door_fits(
        start,
        end,
        door_dir.opposite(),
        c - 1,
        c + 1,
    ) {
        return Err(TavernError::NoRoomForEntrance);
    }
    let wall = Wall {
        start,
        end,
        base_alt: b.min.z,
        top_alt: b.max.z,
        from: None,
        to: Some(0),
        to_dir: door_dir.opposite(),
        door: Some((c - 1, c + 1)),
    };
    layout.walls.push(wall);
    assert(layout.walls@[0].wf(1));
    Ok(layout)
}

/// The directions other than `d`, in the order of `Dir::from_index`.
fn dirs_except(d: Dir) -> (r: Vec<Dir>)
    ensures
        1 <= r@.len() <= 4,
        forall|k: int| 0 <= k < r@.len() ==> r@[k] != d,
{
    let mut v: Vec<Dir> = Vec::new();
    let mut i: usize = 0;
    while i < 4
        invariant
            i <= 4,
            v@.len() <= i,
            i >= 2 ==> v@.len() >= 1,
            i == 1 && v@.len() == 0 ==> d == Dir::X,
            forall|k: int| 0 <= k < v@.len() ==> v@[k] != d,
        decreases 4 - i,
    {
        let e = Dir::from_index(i);
        if e != d {
            v.push(e);
        }
        i = i + 1;
    }
    v
}

fn all_dirs_vec() -> (r: Vec<Dir>)
    ensures
        r@.len() == 4,
{
    vec![Dir::X, Dir::Y, Dir::NegX, Dir::NegY]
}

/// Altitude of a new room grown sideways from a room whose floor is at
/// `from_min_z`: near the terrain's `wanted_alt`, but reachable by a stair of
/// at most `max_stair`.
pub fn side_room_alt(wanted_alt: i32, from_min_z: i32, max_stair: i32) -> (r: i32)
    requires
        0 <= max_stair <= 5,
        -Z_LIMIT <= from_min_z <= Z_LIMIT,
    ensures
        from_min_z - max_stair <= r <= from_min_z + max_stair,
        from_min_z - max_stair <= wanted_alt <= from_min_z + max_stair ==> r == wanted_alt,
        wanted_alt < from_min_z - max_stair ==> r == from_min_z - max_stair,
        wanted_alt > from_min_z + max_stair ==> r == from_min_z + max_stair,
{
    if wanted_alt < from_min_z - max_stair {
        from_min_z - max_stair
    } else if wanted_alt > from_min_z + max_stair {
        from_min_z + max_stair
    } else {
        wanted_alt
    }
}

/// Beside side `in_dir` of room `from_id` there is ample, clear space: the
/// plot reaches at least 24 cells past that side and past both ends of it, the
/// room is well within the altitude limit, there is room for one more room,
/// and no other room reaches into the levels from eight below its floor to
/// twelve above its top.
pub open spec fn side_clear(layout: &Layout, plot: Aabr, from_id: usize, in_dir: Dir) -> bool {
    let from = layout.rooms@[from_id as int];
    let fb = from.xy();
    &&& layout.rooms@.len() < MAX_ROOMS
    &&& -Z_LIMIT + 16 <= from.min.z
    &&& from.max.z <= Z_LIMIT - 16
    &&& in_dir.sign() * (in_dir.side(plot) - in_dir.side(fb)) >= 24
    &&& in_dir.orth().pick(plot.min) + 24 <= in_dir.orth().pick(fb.min)
    &&& in_dir.orth().pick(fb.max) + 24 <= in_dir.orth().pick(plot.max)
    &&& forall|i: int|
        0 <= i < layout.rooms@.len() && i != from_id ==> (#[trigger] layout.rooms@[i]).min.z
            > from.max.z + 12 || layout.rooms@[i].max.z < from.min.z - 8
}

/// The space a room grown sideways from room `from_id` through its side
/// `in_dir` may take, and the altitude range it spans: from the floor of
/// either room to the top of either. `None` where rooms leave no space.
fn side_space(
    layout: &Layout,
    plot: Aabr,
    terrain: &TerrainSample,
    from_id: usize,
    in_dir: Dir,
    rng: &mut StdRng,
) -> (r: Option<(Aabr, i32, i32)>)
    requires
        layout.wf(plot),
        from_id < layout.rooms@.len(),
        terrain.wf(),
    ensures
        r matches Some(s) ==> s.0.valid() && aabr_in_plot_limit(s.0) && -PLOT_LIMIT <= s.1
            <= PLOT_LIMIT && -PLOT_LIMIT <= s.2 <= PLOT_LIMIT,
        r matches Some(s) ==> s.1 >= layout.rooms@[from_id as int].min.z - 5 && s.2
            <= layout.rooms@[from_id as int].max.z + 10 && s.1 <= s.2,
        side_clear(layout, plot, from_id, in_dir) ==> (r matches Some(s) && {
            let fb = layout.rooms@[from_id as int].xy();
            &&& in_dir.opp().side(s.0) == in_dir.side(fb) + 2 * in_dir.sign()
            &&& in_dir.side(s.0) == in_dir.side(plot)
            &&& in_dir.orth().pick(s.0.min) == in_dir.orth().pick(plot.min)
            &&& in_dir.orth().pick(s.0.max) == in_dir.orth().pick(plot.max)
        }),
{
    let from = layout.rooms[from_id];
    let from_b = from.footprint();
    assert(room_ok(layout.rooms@[from_id as int], layout.kinds@[from_id as int], plot));
    let max_bounds = Aabr {
        min: in_dir.step(in_dir.select_aabr_with(&from_b, plot.min), 2),
        max: in_dir.select_aabr_with(&plot, plot.max),
    }.made_valid();
    let room_hgt = gen_between(rng, 3, 5);
    let wanted_alt = terrain.alt_at(max_bounds.center()) + 1;
    let span = if wanted_alt < from.min.z {
        from_b.size()
    } else {
        max_bounds.size()
    };
    let half_span = in_dir.select(span) / 2;
    let max_stair = if half_span < 5 {
        half_span
    } else {
        5
    };
    let alt = side_room_alt(wanted_alt, from.min.z, max_stair);
    let min_z = if from.min.z < alt {
        from.min.z
    } else {
        alt
    };
    let max_z = if from.max.z > alt + room_hgt {
        from.max.z
    } else {
        alt + room_hgt
    };
    // The side with the door stays against the room it grows from; the sides
    // across it keep touching that room.
    let inner = from_b.extend(-1);
    let mut limits: Vec<Option<i32>> = Vec::new();
    let mut d: usize = 0;
    while d < 4
        invariant
            d <= 4,
            limits@.len() == d,
            aabr_in_plot_limit(max_bounds),
            aabr_in_plot_limit(inner),
            forall|i: int|
                0 <= i < d ==> (#[trigger] limits@[i] matches Some(l) ==> -PLOT_LIMIT <= l
                    <= PLOT_LIMIT),
        decreases 4 - d,
    {
        let dir = Dir::from_index(d);
        if dir == in_dir {
            limits.push(Some(dir.opposite().select_aabr(&max_bounds)));
        } else if dir == in_dir.opposite() {
            limits.push(None);
        } else {
            limits.push(Some(dir.select_aabr(&inner)));
        }
        d = d + 1;
    }
    assert forall|i: int| 0 <= i < layout.rooms@.len() implies aabr_in_plot_limit(
        #[trigger] layout.rooms@[i].xy(),
    ) && -PLOT_LIMIT <= layout.rooms@[i].min.z && layout.rooms@[i].max.z <= PLOT_LIMIT by {
        assert(room_ok(layout.rooms@[i], layout.kinds@[i], plot));
    }
    proof {
        if side_clear(layout, plot, from_id, in_dir) {
            assert(from_b == layout.rooms@[from_id as int].xy());
            assert(in_dir.opp().side(max_bounds) == in_dir.side(from_b) + 2 * in_dir.sign());
            assert(in_dir.side(max_bounds) == in_dir.side(plot));
            assert(in_dir.orth().pick(max_bounds.min) == in_dir.orth().pick(plot.min));
            assert(in_dir.orth().pick(max_bounds.max) == in_dir.orth().pick(plot.max));
            assert forall|i: int| 0 <= i < layout.rooms@.len() implies !#[trigger] obstacle(
                layout.rooms@,
                i,
                from_id,
                min_z as int,
                max_z as int,
            ) by {}
        }
    }
    match fit_room(&layout.rooms, from_id, min_z, max_z, max_bounds, &limits) {
        Some(b) => Some((b, min_z, max_z)),
        None => None,
    }
}

/// The connecting wall between a room with footprint `from_b` and the room
/// `bounds` grown from it through its side `in_dir`, with a door of two cells
/// next to `in_pos` (one more cell on a side drawn at random). `None` where
/// that door would not lie strictly inside the wall.
fn side_wall(from_b: Aabr, bounds: Aabr, in_dir: Dir, in_pos: Vec2, rng: &mut StdRng) -> (r:
    Option<(Vec2, Vec2, i32, i32)>)
    requires
        aabr_in_plot_limit(from_b),
        aabr_in_plot_limit(bounds),
        -PLOT_LIMIT <= in_pos.x <= PLOT_LIMIT,
        -PLOT_LIMIT <= in_pos.y <= PLOT_LIMIT,
    ensures
        r matches Some(w) ==> w.0.wf() && w.1.wf() && door_in_span(
            w.0,
            w.1,
            in_dir,
            w.2 as int,
            w.3 as int,
        ),
        in_dir.orth().pick(from_b.min) < in_dir.orth().pick(in_pos) < in_dir.orth().pick(
            from_b.max,
        ) && in_dir.orth().pick(bounds.min) < in_dir.orth().pick(in_pos) < in_dir.orth().pick(
            bounds.max,
        ) ==> r is Some,
{
    let right = in_dir.orthogonal();
    let left = right.opposite();
    let a = left.select_aabr(&from_b);
    let b = left.select_aabr(&bounds);
    let wall_lo = if a > b {
        a
    } else {
        b
    };
    let a = right.select_aabr(&from_b);
    let b = right.select_aabr(&bounds);
    let wall_hi = if a < b {
        a
    } else {
        b
    };
    let start = left.step(
        in_dir.step(in_dir.select_aabr_with(&from_b, Vec2 { x: wall_lo, y: wall_lo }), 1),
        1,
    );
    let end = right.step(
        in_dir.step(in_dir.select_aabr_with(&from_b, Vec2 { x: wall_hi, y: wall_hi }), 1),
        1,
    );
    let c = right.select(in_pos) - right.select(start);
    let (d0, d1) = if gen_ratio(rng, 1, 2) {
        (c - 1, c)
    } else {
        (c, c + 1)
    };
    if door_fits(start, end, in_dir, d0, d1) {
        Some((start, end, d0, d1))
    } else {
        None
    }
}

/// Tries to grow a room sideways from room `from_id` through its side
/// `in_dir`, with the connecting wall and its door. Returns the new room's
/// frontier entry, or `None` where no room fits (nothing is then added).
#[verifier::rlimit(60)]
pub fn grow_side(
    layout: &mut Layout,
    plot: Aabr,
    terrain: &TerrainSample,
    from_id: usize,
    in_dir: Dir,
    rng: &mut StdRng,
) -> (r: Option<RoomMeta>)
    requires
        old(layout).wf(plot),
        from_id < old(layout).rooms@.len(),
        terrain.wf(),
    ensures
        final(layout).wf(plot),
        final(layout).rooms@.len() >= old(layout).rooms@.len(),
        forall|i: int|
            0 <= i < old(layout).rooms@.len() ==> final(layout).rooms@[i] == old(layout).rooms@[i]
                && final(layout).kinds@[i] == old(layout).kinds@[i],
        r matches Some(m) ==> m.id < final(layout).rooms@.len() && m.free_walls@.len() <= 4,
        r is None ==> final(layout).rooms@ == old(layout).rooms@ && final(layout).kinds@ == old(
            layout,
        ).kinds@ && final(layout).walls@ == old(layout).walls@,
        r matches Some(m) ==> {
            &&& m.id == old(layout).rooms@.len()
            &&& final(layout).rooms@.len() == old(layout).rooms@.len() + 1
            &&& final(layout).kinds@.len() == old(layout).kinds@.len() + 1
            &&& final(layout).walls@.len() == old(layout).walls@.len() + 1
            &&& final(layout).walls@.drop_last() == old(layout).walls@
            &&& final(layout).walls@.last().from == Some(from_id)
            &&& final(layout).walls@.last().to == Some(m.id)
            &&& final(layout).walls@.last().to_dir == in_dir
            &&& final(layout).walls@.last().door is Some
        },
        side_clear(&*old(layout), plot, from_id, in_dir) ==> r is Some,
{
    let ghost clear = side_clear(&*layout, plot, from_id, in_dir);
    let from_b = layout.rooms[from_id].footprint();
    assert(room_ok(layout.rooms@[from_id as int], layout.kinds@[from_id as int], plot));
    let (max_bounds, min_z, max_z) = match side_space(
        layout,
        plot,
        terrain,
        from_id,
        in_dir,
        rng,
    ) {
        Some(s) => s,
        None => {
            return None;
        },
    };
    proof {
        if clear {
            let parent = layout.kinds@[from_id as int];
            assert(max_bounds.min_side() >= 22);
            assert(max_bounds.area_of() >= 22 * 22) by (nonlinear_arith)
                requires
                    max_bounds.width() >= 22,
                    max_bounds.height() >= 22,
            ;
            lemma_kind_count_bound(layout.kinds@, RoomKind::Seating);
            assert(layout.counts.count(RoomKind::Seating) <= 256);
            if parent is Cellar {
                assert(parent.side_candidates()[0] == RoomKind::Cellar);
                assert(RoomKind::Cellar.fits_in(max_bounds));
            } else {
                assert(parent.side_candidates()[3] == RoomKind::Seating);
                assert(RoomKind::Seating.fits_in(max_bounds));
                assert(400000int / (1 + layout.counts.count(RoomKind::Seating)) > 0) by (nonlinear_arith)
                    requires
                        0 <= layout.counts.count(RoomKind::Seating) <= 256,
                ;
            }
        }
    }
    let lottery = match layout.kinds[from_id].side_room_lottery(
        &max_bounds,
        &layout.counts,
        terrain.temperature,
    ) {
        Some(l) => l,
        None => {
            return None;
        },
    };
    let kind = lottery.choose_seeded(gen_seed(rng));
    proof {
        let i = choose|i: int|
            0 <= i < lottery.items@.len() && lottery.offers(i) && #[trigger] lottery.items@[i]
                == kind;
        assert(layout.kinds@[from_id as int].side_candidates().contains(kind));
        assert(kind.side_max() <= 22);
    }
    // The door lies where the two rooms' spans overlap, off their ends.
    let right = in_dir.orthogonal();
    let left = right.opposite();
    let a = left.select_aabr(&from_b);
    let b = left.select_aabr(&max_bounds);
    let mut lo = if a > b {
        a
    } else {
        b
    };
    let a = right.select_aabr(&from_b);
    let b = right.select_aabr(&max_bounds);
    let mut hi = if a < b {
        a
    } else {
        b
    };
    if hi < lo {
        let t = lo;
        lo = hi;
        hi = t;
    }
    if lo + 2 > hi {
        return None;
    }
    let p = gen_between(rng, lo + 1, hi - 1);
    let in_pos = in_dir.step(in_dir.select_aabr_with(&from_b, Vec2 { x: p, y: p }), 1);
    proof {
        if clear {
            assert(in_dir.orth().pick(in_pos) == p);
            assert(in_dir.opp().side(max_bounds) == in_dir.pick(in_pos) + in_dir.sign());
            assert(door_spot(max_bounds, in_dir, in_pos, 11));
        }
    }
    let bounds = match place_side_room(kind, max_bounds, in_dir, in_pos, rng) {
        Some(b) => b,
        None => {
            return None;
        },
    };
    let b3 = Aabb {
        min: Vec3 { x: bounds.min.x, y: bounds.min.y, z: min_z },
        max: Vec3 { x: bounds.max.x, y: bounds.max.y, z: max_z },
    };
    proof {
        if clear {
            assert(max_bounds.within(plot));
            assert(bounds.within(plot));
            assert(b3.xy() == bounds);
            assert(room_ok(b3, kind, plot));
            assert forall|i: int| 0 <= i < layout.rooms@.len() implies !(z_meets(
                b3,
                #[trigger] layout.rooms@[i],
            ) && b3.xy().meets(layout.rooms@[i].xy())) by {
                if i == from_id {
                    assert(!bounds.meets(from_b));
                }
            }
        }
    }
    if !layout.can_place(b3, kind, plot) {
        return None;
    }
    let (start, end, d0, d1) = match side_wall(from_b, bounds, in_dir, in_pos, rng) {
        Some(w) => w,
        None => {
            return None;
        },
    };
    proof {
        let i = choose|i: int|
            0 <= i < lottery.items@.len() && lottery.offers(i) && #[trigger] lottery.items@[i]
                == kind;
        assert(layout.kinds@[from_id as int].side_candidates().contains(kind));
    }
    let id = layout.rooms.len();
    layout.add_room(b3, kind, from_id, plot);
    let wall = Wall {
        start,
        end,
        base_alt: min_z,
        top_alt: max_z,
        from: Some(from_id),
        to: Some(id),
        to_dir: in_dir,
        door: Some((d0, d1)),
    };
    layout.add_wall(wall, plot);
    Some(
        RoomMeta {
            id,
            free_walls: dirs_except(in_dir.opposite()),
            can_add_basement: kind.basement_rooms().len() > 0,
        },
    )
}

/// Room `from_id` is a bar with clear, ample space beneath it: the plot
/// leaves a cellar's largest side around it, it is well above the altitude
/// limit, there is room for one more room, and no other room reaches into the
/// eight levels below its floor.
pub open spec fn basement_space(layout: &Layout, plot: Aabr, from_id: usize) -> bool {
    let from = layout.rooms@[from_id as int];
    &&& layout.kinds@[from_id as int] is Bar
    &&& layout.rooms@.len() < MAX_ROOMS
    &&& from.min.z >= -Z_LIMIT + 8
    &&& leaves_around(plot, from.xy(), RoomKind::Cellar.side_max())
    &&& forall|i: int|
        0 <= i < layout.rooms@.len() && i != from_id ==> (#[trigger] layout.rooms@[i]).min.z
            >= from.min.z || layout.rooms@[i].max.z < from.min.z - 8
}

/// Tries to grow a basement beneath room `from_id`, from the kinds its kind
/// allows there. Returns the new room's frontier entry, or `None` where no
/// room fits (nothing is then added).
pub fn grow_basement(layout: &mut Layout, plot: Aabr, from_id: usize, rng: &mut StdRng) -> (r:
    Option<RoomMeta>)
    requires
        old(layout).wf(plot),
        from_id < old(layout).rooms@.len(),
    ensures
        final(layout).wf(plot),
        final(layout).rooms@.len() >= old(layout).rooms@.len(),
        forall|i: int|
            0 <= i < old(layout).rooms@.len() ==> final(layout).rooms@[i] == old(layout).rooms@[i]
                && final(layout).kinds@[i] == old(layout).kinds@[i],
        r matches Some(m) ==> m.id < final(layout).rooms@.len() && m.free_walls@.len() <= 4,
        r is None ==> final(layout).rooms@ == old(layout).rooms@ && final(layout).kinds@ == old(
            layout,
        ).kinds@ && final(layout).walls@ == old(layout).walls@,
        r matches Some(m) ==> {
            &&& m.id == old(layout).rooms@.len()
            &&& final(layout).rooms@.len() == old(layout).rooms@.len() + 1
            &&& final(layout).kinds@[m.id as int] is Cellar
            &&& old(layout).kinds@[from_id as int] is Bar
            &&& final(layout).rooms@[m.id as int].max.z == old(layout).rooms@[from_id as int].min.z - 2
            &&& final(layout).walls@ == old(layout).walls@
        },
        basement_space(&*old(layout), plot, from_id) ==> r is Some,
{
    let from = layout.rooms[from_id];
    let from_b = from.footprint();
    assert(room_ok(layout.rooms@[from_id as int], layout.kinds@[from_id as int], plot));
    let room_hgt = gen_between(rng, 3, 5);
    let max_z = from.min.z - 2;
    let min_z = max_z - room_hgt;
    // Every side may move up to two cells inside the room above.
    let inner = from_b.extend(-2);
    let mut limits: Vec<Option<i32>> = Vec::new();
    let mut d: usize = 0;
    while d < 4
        invariant
            d <= 4,
            limits@.len() == d,
            aabr_in_plot_limit(inner),
            forall|i: int|
                0 <= i < d ==> (#[trigger] limits@[i] matches Some(l) ==> -PLOT_LIMIT <= l
                    <= PLOT_LIMIT),
        decreases 4 - d,
    {
        limits.push(Some(Dir::from_index(d).opposite().select_aabr(&inner)));
        d = d + 1;
    }
    proof {
        if basement_space(&*layout, plot, from_id) {
            assert forall|i: int| 0 <= i < layout.rooms@.len() implies !#[trigger] obstacle(
                layout.rooms@,
                i,
                from_id,
                min_z as int,
                max_z as int,
            ) by {}
            assert(plot.min_side() >= 24);
            assert(plot.area_of() >= 576) by (nonlinear_arith)
                requires
                    plot.width() >= 24,
                    plot.height() >= 24,
            ;
        }
    }
    let max_bounds = match fit_room(&layout.rooms, from_id, min_z, max_z, plot, &limits) {
        Some(b) => b,
        None => {
            return None;
        },
    };
    let lottery = match layout.kinds[from_id].basement_lottery(&max_bounds, &layout.counts) {
        Some(l) => l,
        None => {
            return None;
        },
    };
    let kind = lottery.choose_seeded(gen_seed(rng));
    proof {
        let i = choose|i: int|
            0 <= i < lottery.items@.len() && lottery.offers(i) && #[trigger] lottery.items@[i]
                == kind;
        assert(kind is Cellar);
    }
    let bounds = match place_down_room(kind, max_bounds, from_b, rng) {
        Some(b) => b,
        None => {
            return None;
        },
    };
    let b3 = Aabb {
        min: Vec3 { x: bounds.min.x, y: bounds.min.y, z: min_z },
        max: Vec3 { x: bounds.max.x, y: bounds.max.y, z: max_z },
    };
    proof {
        if basement_space(&*layout, plot, from_id) {
            assert forall|i: int| 0 <= i < layout.rooms@.len() implies !(z_meets(
                b3,
                #[trigger] layout.rooms@[i],
            ) && b3.xy().meets(layout.rooms@[i].xy())) by {}
        }
    }
    if !layout.can_place(b3, kind, plot) {
        return None;
    }
    let id = layout.rooms.len();
    proof {
        let i = choose|i: int|
            0 <= i < lottery.items@.len() && lottery.offers(i) && #[trigger] lottery.items@[i]
                == kind;
        assert(kind is Cellar);
    }
    layout.add_room(b3, kind, from_id, plot);
    Some(
        RoomMeta {
            id,
            free_walls: all_dirs_vec(),
            can_add_basement: kind.basement_rooms().len() > 0,
        },
    )
}

/// Grows rooms from the entrance until no room of the frontier can grow any
/// more: each round takes a frontier room at random and tries one of its free
/// sides, or, with none left, a basement.
pub fn grow(layout: &mut Layout, plot: Aabr, terrain: &TerrainSample, door_dir: Dir, rng: &mut StdRng)
    requires
        old(layout).wf(plot),
        old(layout).rooms@.len() == 1,
        terrain.wf(),
    ensures
        final(layout).wf(plot),
        final(layout).rooms@[0] == old(layout).rooms@[0],
        final(layout).kinds@[0] == old(layout).kinds@[0],
        (forall|d: Dir| d != door_dir ==> #[trigger] side_clear(&*old(layout), plot, 0, d))
            ==> final(layout).rooms@.len() > 1,
{
    let ghost ample = forall|d: Dir| d != door_dir ==> #[trigger] side_clear(&*layout, plot, 0, d);
    let ghost rooms0 = layout.rooms@;
    let mut metas: Vec<RoomMeta> = Vec::new();
    metas.push(RoomMeta { id: 0, free_walls: dirs_except(door_dir), can_add_basement: false });
    // Every room takes at most five rounds: four sides and a basement.
    let mut fuel: usize = 5 * MAX_ROOMS + 8;
    let ghost first = layout.rooms@[0];
    let ghost first_kind = layout.kinds@[0];
    while metas.len() > 0 && fuel > 0
        invariant
            layout.wf(plot),
            terrain.wf(),
            layout.rooms@[0] == first,
            layout.kinds@[0] == first_kind,
            forall|i: int|
                0 <= i < metas@.len() ==> (#[trigger] metas@[i]).id < layout.rooms@.len()
                    && metas@[i].free_walls@.len() <= 4,
            layout.rooms@.len() == 1 ==> layout.rooms@ == rooms0,
            rooms0 == old(layout).rooms@,
            ample == (forall|d: Dir| d != door_dir ==> #[trigger] side_clear(
                &*old(layout),
                plot,
                0,
                d,
            )),
            ample ==> layout.rooms@.len() > 1 || (metas@.len() == 1 && metas@[0].id == 0
                && metas@[0].free_walls@.len() >= 1 && fuel > 0 && (forall|k: int|
                0 <= k < metas@[0].free_walls@.len() ==> metas@[0].free_walls@[k] != door_dir)),
        decreases fuel,
    {
        fuel = fuel - 1;
        let idx = gen_index(rng, metas.len());
        let mut meta = metas.swap_remove(idx);
        assert(meta.id < layout.rooms@.len());
        let ghost n = layout.rooms@.len();
        let grown = if meta.free_walls.len() > 0 {
            let k = gen_index(rng, meta.free_walls.len());
            let ghost fw = meta.free_walls@;
            let in_dir = meta.free_walls.remove(k);
            proof {
                if ample && layout.rooms@.len() == 1 {
                    assert(in_dir == fw[k as int]);
                    assert(in_dir != door_dir);
                    assert(side_clear(&*old(layout), plot, 0, in_dir));
                    assert(side_clear(&*layout, plot, 0, in_dir));
                }
            }
            grow_side(layout, plot, terrain, meta.id, in_dir, rng)
        } else if meta.can_add_basement {
            meta.can_add_basement = false;
            grow_basement(layout, plot, meta.id, rng)
        } else {
            None
        };
        assert forall|i: int| 0 <= i < metas@.len() implies (#[trigger] metas@[i]).id
            < layout.rooms@.len() && metas@[i].free_walls@.len() <= 4 by {}
        if let Some(m) = grown {
            metas.push(m);
        }
        if meta.free_walls.len() > 0 || meta.can_add_basement {
            metas.push(meta);
        }
    }
}

} // verus!
