//! Generating a whole tavern: rooms, walls, roofs, then the furniture.
use vstd::prelude::*;
use rand::rngs::StdRng;
use crate::detail::{all_within, detail_areas, furnish, partitions};
use crate::dir::Dir;
use crate::geom::{Aabb, Aabr, Vec2, Vec3};
use crate::growth::{Layout, grow, place_entrance, room_ok, touches, z_meets};
use crate::kind::RoomKind;
use crate::partition::{partition_walls, sides_walled, wall_of};
use crate::roof::{all_gardens, assign_roofs, roof_ok, roofed};
use crate::structure::{
    ALT_LIMIT,
    Roof,
    RoofStyle,
    Room,
    Tavern,
    TavernError,
    TerrainSample,
    Wall,
    WallRef,
    door_ok,
};

verus! {

/// Bound on the absolute value of the plot corners handed to the generator.
pub const PLOT_CORNER_LIMIT: i32 = 262144;

/// No two rooms whose altitude ranges share a level share a cell of their footprints.
pub open spec fn rooms_disjoint(rooms: Seq<Room>) -> bool {
    forall|i: int, j: int|
        0 <= i < rooms.len() && 0 <= j < rooms.len() && i != j && #[trigger] z_meets(
            rooms[i].bounds,
            rooms[j].bounds,
        ) ==> !rooms[i].bounds.xy().meets(rooms[j].bounds.xy())
}

/// The boxes of the rooms, in order.
pub open spec fn room_boxes(rooms: Seq<Room>) -> Seq<Aabb> {
    rooms.map_values(|room: Room| room.bounds)
}

/// The kinds of the rooms, in order.
pub open spec fn room_kinds(rooms: Seq<Room>) -> Seq<RoomKind> {
    rooms.map_values(|room: Room| room.kind)
}

/// The rooms a roof covers from above are all gardens.
pub open spec fn covers_gardens_only(rooms: Seq<Room>, over: Seq<usize>) -> bool {
    forall|k: int| 0 <= k < over.len() ==> #[trigger] rooms[over[k] as int].kind is Garden
}

/// Where the front door goes: on the side of the building area that `door_dir`
/// faces, level with the centre of the door tile.
pub fn door_position(bounds: Aabr, door_dir: Dir, door_tile_center: Vec2) -> (r: Vec2)
    requires
        -PLOT_CORNER_LIMIT <= bounds.min.x <= PLOT_CORNER_LIMIT,
        -PLOT_CORNER_LIMIT <= bounds.min.y <= PLOT_CORNER_LIMIT,
        -PLOT_CORNER_LIMIT <= bounds.max.x <= PLOT_CORNER_LIMIT,
        -PLOT_CORNER_LIMIT <= bounds.max.y <= PLOT_CORNER_LIMIT,
    ensures
        r == door_dir.side_with(inner_bounds_of(bounds), door_tile_center),
{
    let ib = inner_bounds(bounds);
    door_dir.select_aabr_with(&ib, door_tile_center)
}

/// A plot where the entrance always fits, whatever is drawn: the area the
/// rooms may take is at least 22 cells each way, and the door tile lies at
/// least 11 cells from either end of the side the door is in.
pub open spec fn entrance_fits(bounds: Aabr, door_dir: Dir, door_tile_center: Vec2) -> bool {
    let inner = inner_bounds_of(bounds);
    &&& inner.width() >= 22
    &&& inner.height() >= 22
    &&& door_dir.orth().pick(inner.min) + 11 <= door_dir.orth().pick(door_tile_center)
        <= door_dir.orth().pick(inner.max) - 11
}

/// The area the rooms may take: the plot's area without its outer cells.
pub open spec fn inner_bounds_of(bounds: Aabr) -> Aabr {
    Aabr {
        min: Vec2 { x: (bounds.min.x + 1) as i32, y: (bounds.min.y + 1) as i32 },
        max: Vec2 { x: (bounds.max.x - 2) as i32, y: (bounds.max.y - 2) as i32 },
    }
}

pub fn inner_bounds(bounds: Aabr) -> (r: Aabr)
    requires
        -PLOT_CORNER_LIMIT <= bounds.min.x <= PLOT_CORNER_LIMIT,
        -PLOT_CORNER_LIMIT <= bounds.min.y <= PLOT_CORNER_LIMIT,
        -PLOT_CORNER_LIMIT <= bounds.max.x <= PLOT_CORNER_LIMIT,
        -PLOT_CORNER_LIMIT <= bounds.max.y <= PLOT_CORNER_LIMIT,
    ensures
        r == inner_bounds_of(bounds),
{
    Aabr {
        min: Vec2 { x: bounds.min.x + 1, y: bounds.min.y + 1 },
        max: Vec2 { x: bounds.max.x - 2, y: bounds.max.y - 2 },
    }
}

/// What the furniture of room `id` must keep clear of: the swing of each of
/// its doors, from the wall to the middle of the room, and its stairs; each
/// cut to the room.
fn avoid_rects(layout: &Layout, plot: Aabr, roofs: &Vec<Roof>, id: usize) -> (r: Vec<Aabr>)
    requires
        layout.wf(plot),
        id < layout.rooms@.len(),
    ensures
        all_within(r@, layout.rooms@[id as int].xy()),
{
    assert(room_ok(layout.rooms@[id as int], layout.kinds@[id as int], plot));
    let fp = layout.rooms[id].footprint();
    let center = fp.center();
    let mut avoid: Vec<Aabr> = Vec::new();
    let mut w: usize = 0;
    while w < layout.walls.len()
        invariant
            layout.wf(plot),
            w <= layout.walls@.len(),
            id < layout.rooms@.len(),
            fp == layout.rooms@[id as int].xy(),
            all_within(avoid@, fp),
        decreases layout.walls@.len() - w,
    {
        let wall = layout.walls[w];
        assert(layout.walls@[w as int].wf(layout.rooms@.len() as int));
        let side = match (wall.from, wall.to) {
            (Some(f), _) if f == id => Some(wall.to_dir),
            (_, Some(t)) if t == id => Some(wall.to_dir.opposite()),
            _ => None,
        };
        if let Some(dir) = side {
            if let Some(db) = wall.door_bounds() {
                let zone = Aabr {
                    min: dir.select_aabr_with(&fp, db.min),
                    max: dir.select_with(center, db.max),
                }.made_valid().intersection(&fp);
                if zone.is_valid() {
                    avoid.push(zone);
                }
            }
        }
        w = w + 1;
    }
    let mut k: usize = 0;
    while k < roofs.len()
        invariant
            k <= roofs@.len(),
            all_within(avoid@, fp),
        decreases roofs@.len() - k,
    {
        let roof = &roofs[k];
        if let Some(st) = roof.stairs {
            let mut touches_room = false;
            let mut j: usize = 0;
            while j < roof.over.len()
                invariant
                    j <= roof.over@.len(),
                decreases roof.over@.len() - j,
            {
                if roof.over[j] == id {
                    touches_room = true;
                }
                j = j + 1;
            }
            let mut j: usize = 0;
            while j < roof.under.len()
                invariant
                    j <= roof.under@.len(),
                decreases roof.under@.len() - j,
            {
                if roof.under[j] == id {
                    touches_room = true;
                }
                j = j + 1;
            }
            if touches_room {
                let cut = st.bounds.footprint().intersection(&fp);
                if cut.is_valid() {
                    avoid.push(cut);
                }
            }
        }
        k = k + 1;
    }
    avoid
}

/// The wall reference `r` names a wall of room `id` on the side it says.
pub open spec fn wall_ref_ok(walls: Seq<Wall>, id: usize, r: WallRef) -> bool {
    r.id < walls.len() && wall_of(walls[r.id as int], id, r.dir)
}

/// The references to the walls of room `id`, each with the side of the room
/// it is on.
fn room_walls(walls: &Vec<Wall>, id: usize) -> (r: Vec<WallRef>)
    ensures
        forall|k: int| 0 <= k < r@.len() ==> wall_ref_ok(walls@, id, #[trigger] r@[k]),
        forall|w: int|
            0 <= w < walls@.len() && (#[trigger] walls@[w]).from == Some(id) ==> r@.contains(
                WallRef { dir: walls@[w].to_dir, id: w as usize },
            ),
        forall|w: int|
            0 <= w < walls@.len() && (#[trigger] walls@[w]).to == Some(id) ==> r@.contains(
                WallRef { dir: walls@[w].to_dir.opp(), id: w as usize },
            ),
{
    let mut r: Vec<WallRef> = Vec::new();
    let mut w: usize = 0;
    while w < walls.len()
        invariant
            w <= walls@.len(),
            forall|k: int| 0 <= k < r@.len() ==> wall_ref_ok(walls@, id, #[trigger] r@[k]),
            forall|v: int|
                0 <= v < w && (#[trigger] walls@[v]).from == Some(id) ==> r@.contains(
                    WallRef { dir: walls@[v].to_dir, id: v as usize },
                ),
            forall|v: int|
                0 <= v < w && (#[trigger] walls@[v]).to == Some(id) ==> r@.contains(
                    WallRef { dir: walls@[v].to_dir.opp(), id: v as usize },
                ),
        decreases walls@.len() - w,
    {
        let wall = walls[w];
        let ghost r0 = r@;
        if let Some(f) = wall.from {
            if f == id {
                r.push(WallRef { dir: wall.to_dir, id: w });
                assert(r@[r@.len() - 1] == (WallRef { dir: wall.to_dir, id: w }));
            }
        }
        let ghost r1 = r@;
        if let Some(t) = wall.to {
            if t == id {
                r.push(WallRef { dir: wall.to_dir.opposite(), id: w });
                assert(r@[r@.len() - 1] == (WallRef { dir: wall.to_dir.opp(), id: w }));
            }
        }
        proof {
            assert forall|x: WallRef| r0.contains(x) implies r@.contains(x) by {
                let k = choose|k: int| 0 <= k < r0.len() && r0[k] == x;
                assert(r1[k] == x);
                assert(r@[k] == x);
            }
            assert forall|x: WallRef| r1.contains(x) implies r@.contains(x) by {
                let k = choose|k: int| 0 <= k < r1.len() && r1[k] == x;
                assert(r@[k] == x);
            }
            if wall.from == Some(id) {
                assert(r1[r1.len() - 1] == (WallRef { dir: wall.to_dir, id: w }));
                assert(r1.contains(WallRef { dir: wall.to_dir, id: w }));
            }
        }
        w = w + 1;
    }
    r
}

/// The indices of the roofs over room `id` (`over`) or under it.
fn roofs_with(roofs: &Vec<Roof>, id: usize, over: bool) -> (r: Vec<usize>)
    ensures
        forall|k: int|
            0 <= k < r@.len() ==> (#[trigger] r@[k]) < roofs@.len() && (if over {
                roofs@[r@[k] as int].over@.contains(id)
            } else {
                roofs@[r@[k] as int].under@.contains(id)
            }),
        forall|i: int|
            0 <= i < roofs@.len() && (if over {
                (#[trigger] roofs@[i]).over@.contains(id)
            } else {
                roofs@[i].under@.contains(id)
            }) ==> r@.contains(i as usize),
{
    let mut r: Vec<usize> = Vec::new();
    let mut k: usize = 0;
    while k < roofs.len()
        invariant
            k <= roofs@.len(),
            forall|j: int|
                0 <= j < r@.len() ==> (#[trigger] r@[j]) < roofs@.len() && (if over {
                    roofs@[r@[j] as int].over@.contains(id)
                } else {
                    roofs@[r@[j] as int].under@.contains(id)
                }),
            forall|i: int|
                0 <= i < k && (if over {
                    (#[trigger] roofs@[i]).over@.contains(id)
                } else {
                    roofs@[i].under@.contains(id)
                }) ==> r@.contains(i as usize),
        decreases roofs@.len() - k,
    {
        let list = if over {
            &roofs[k].over
        } else {
            &roofs[k].under
        };
        let ghost r0 = r@;
        if contains_id(list, id) {
            r.push(k);
            assert(r@[r@.len() - 1] == k);
        }
        proof {
            assert forall|x: usize| r0.contains(x) implies r@.contains(x) by {
                let j = choose|j: int| 0 <= j < r0.len() && r0[j] == x;
                assert(r@[j] == x);
            }
        }
        k = k + 1;
    }
    r
}

fn contains_id(v: &Vec<usize>, id: usize) -> (r: bool)
    ensures
        r == v@.contains(id),
{
    let mut k: usize = 0;
    while k < v.len()
        invariant
            k <= v@.len(),
            forall|j: int| 0 <= j < k ==> v@[j] != id,
        decreases v@.len() - k,
    {
        if v[k] == id {
            assert(v@[k as int] == id);
            return true;
        }
        k = k + 1;
    }
    false
}

/// What the final record of room `id` holds: its box and kind; references to
/// exactly its walls, each with its side; exactly the roofs over it and under
/// it; its free floor split into areas that, with what they keep clear of,
/// make up its footprint; and the furniture placed on some of those areas.
pub open spec fn room_record_ok(r: Room, id: usize, rooms: Seq<Aabb>, kinds: Seq<RoomKind>, walls: Seq<Wall>, roofs: Seq<Roof>) -> bool {
    &&& r.bounds == rooms[id as int]
    &&& r.kind == kinds[id as int]
    &&& forall|k: int| 0 <= k < r.walls@.len() ==> wall_ref_ok(walls, id, #[trigger] r.walls@[k])
    &&& forall|w: int|
        0 <= w < walls.len() && (#[trigger] walls[w]).from == Some(id) ==> r.walls@.contains(
            WallRef { dir: walls[w].to_dir, id: w as usize },
        )
    &&& forall|w: int|
        0 <= w < walls.len() && (#[trigger] walls[w]).to == Some(id) ==> r.walls@.contains(
            WallRef { dir: walls[w].to_dir.opp(), id: w as usize },
        )
    &&& forall|k: int|
        0 <= k < r.roofs@.len() ==> (#[trigger] r.roofs@[k]) < roofs.len() && roofs[r.roofs@[k] as int].over@.contains(id)
    &&& forall|i: int| 0 <= i < roofs.len() && (#[trigger] roofs[i]).over@.contains(id) ==> r.roofs@.contains(i as usize)
    &&& forall|k: int|
        0 <= k < r.floors@.len() ==> (#[trigger] r.floors@[k]) < roofs.len() && roofs[r.floors@[k] as int].under@.contains(id)
    &&& forall|i: int| 0 <= i < roofs.len() && (#[trigger] roofs[i]).under@.contains(id) ==> r.floors@.contains(i as usize)
    &&& all_within(r.avoid@, r.bounds.xy())
    &&& partitions(r.floor_areas@, r.avoid@, r.bounds.xy())
    &&& r.detail_areas@.len() + r.details@.len() == r.floor_areas@.len()
    &&& forall|k: int| 0 <= k < r.detail_areas@.len() ==> r.floor_areas@.contains(#[trigger] r.detail_areas@[k])
}

/// The final record of room `id`: its walls (each with the side of the room
/// it is on), the roofs over it and under it, its free areas and furniture.
fn build_room(layout: &Layout, plot: Aabr, roofs: &Vec<Roof>, id: usize, rng: &mut StdRng) -> (r:
    Room)
    requires
        layout.wf(plot),
        id < layout.rooms@.len(),
    ensures
        room_record_ok(r, id, layout.rooms@, layout.kinds@, layout.walls@, roofs@),
{
    assert(room_ok(layout.rooms@[id as int], layout.kinds@[id as int], plot));
    let mut room = Room::new(layout.rooms[id], layout.kinds[id]);
    room.walls = room_walls(&layout.walls, id);
    room.roofs = roofs_with(roofs, id, true);
    room.floors = roofs_with(roofs, id, false);
    let fp = layout.rooms[id].footprint();
    let avoid = avoid_rects(layout, plot, roofs, id);
    let areas = detail_areas(fp, &avoid);
    let all = areas.clone();
    let (left, details) = furnish(room.kind, fp, areas, rng);
    room.detail_areas = left;
    room.details = details;
    room.floor_areas = all;
    room.avoid = avoid;
    room
}

impl Tavern {
    /// Generates a tavern on the plot `bounds` (world coordinates of its
    /// corner tiles), with its front door in the side that `door_dir` faces,
    /// level with `door_tile_center`, at altitude `door_alt`. Fails where the
    /// plot leaves no room for the entrance behind that door.
    pub fn generate(
        rng: &mut StdRng,
        name: String,
        bounds: Aabr,
        door_tile: Vec2,
        door_tile_center: Vec2,
        door_dir: Dir,
        door_alt: i32,
        terrain: &TerrainSample,
    ) -> (r: Result<Tavern, TavernError>)
        requires
            -PLOT_CORNER_LIMIT <= bounds.min.x <= PLOT_CORNER_LIMIT,
            -PLOT_CORNER_LIMIT <= bounds.min.y <= PLOT_CORNER_LIMIT,
            -PLOT_CORNER_LIMIT <= bounds.max.x <= PLOT_CORNER_LIMIT,
            -PLOT_CORNER_LIMIT <= bounds.max.y <= PLOT_CORNER_LIMIT,
            -PLOT_CORNER_LIMIT <= door_tile_center.x <= PLOT_CORNER_LIMIT,
            -PLOT_CORNER_LIMIT <= door_tile_center.y <= PLOT_CORNER_LIMIT,
            -ALT_LIMIT <= door_alt <= ALT_LIMIT,
            terrain.wf(),
        ensures
            !inner_bounds_of(bounds).valid() ==> r is Err,
            entrance_fits(bounds, door_dir, door_tile_center) ==> r is Ok,
            r matches Ok(t) ==> {
                &&& t.bounds == bounds
                &&& t.door_tile == door_tile
                &&& t.door_wpos.z == door_alt
                &&& t.door_wpos.x == door_dir.side_with(inner_bounds_of(bounds), door_tile_center).x
                &&& t.door_wpos.y == door_dir.side_with(inner_bounds_of(bounds), door_tile_center).y
                &&& t.rooms@.len() >= 1
                &&& rooms_disjoint(t.rooms@)
                &&& forall|i: int|
                    0 <= i < t.rooms@.len() ==> (#[trigger] t.rooms@[i]).kind.conforms(
                        t.rooms@[i].bounds.xy(),
                    ) && t.rooms@[i].bounds.xy().within(inner_bounds_of(bounds))
                &&& (t.rooms@[0].kind is Entrance || t.rooms@[0].kind is Garden)
                &&& forall|i: int| 0 < i < t.rooms@.len() ==> !((#[trigger] t.rooms@[i]).kind is Entrance)
                &&& touches(t.rooms@[0].bounds.xy(), Vec2 { x: t.door_wpos.x, y: t.door_wpos.y })
                &&& forall|i: int|
                    0 <= i < t.rooms@.len() && (#[trigger] t.rooms@[i]).kind is Cellar ==> exists|
                        j: int,
                    | 0 <= j < t.rooms@.len() && (#[trigger] t.rooms@[j]).kind is Bar
                &&& forall|w: int| 0 <= w < t.walls@.len() ==> door_ok(#[trigger] t.walls@[w])
                &&& forall|w: int|
                    0 <= w < t.walls@.len() ==> (#[trigger] t.walls@[w]).wf(t.rooms@.len() as int)
                &&& t.rooms@[0].bounds.min.z == t.door_wpos.z
                &&& forall|k: int|
                    0 <= k < t.roofs@.len() && (#[trigger] t.roofs@[k]).under@.len() > 0
                        ==> t.roofs@[k].style == RoofStyle::Floor
                &&& forall|id: int|
                    0 <= id < t.rooms@.len() ==> room_record_ok(
                        #[trigger] t.rooms@[id],
                        id as usize,
                        room_boxes(t.rooms@),
                        room_kinds(t.rooms@),
                        t.walls@,
                        t.roofs@,
                    )
                &&& forall|id: int|
                    0 <= id < t.rooms@.len() ==> sides_walled(
                        t.walls@,
                        id as usize,
                        #[trigger] t.rooms@[id].bounds.xy(),
                    )
                &&& forall|k: int|
                    0 <= k < t.roofs@.len() ==> roof_ok(
                        &#[trigger] t.roofs@[k],
                        room_boxes(t.rooms@),
                    )
                &&& forall|id: int|
                    0 <= id < t.rooms@.len() ==> #[trigger] roofed(
                        t.roofs@,
                        room_boxes(t.rooms@),
                        id,
                    )
                &&& forall|k: int|
                    0 <= k < t.roofs@.len() && (#[trigger] t.roofs@[k]).style is FlatBars
                        ==> covers_gardens_only(t.rooms@, t.roofs@[k].over@)
            },
    {
        let plot = inner_bounds(bounds);
        if !plot.is_valid() {
            return Err(TavernError::NoRoomForEntrance);
        }
        let door_xy = door_dir.select_aabr_with(&plot, door_tile_center);
        let door_wpos = Vec3 { x: door_xy.x, y: door_xy.y, z: door_alt };
        let mut layout = match place_entrance(plot, door_dir, door_wpos, terrain.temperature, rng) {
            Ok(l) => l,
            Err(e) => {
                return Err(e);
            },
        };
        let ghost first = layout.rooms@[0];
        grow(&mut layout, plot, terrain, door_dir, rng);
        partition_walls(&mut layout, plot, rng);
        let roofs = assign_roofs(&layout, plot, rng);
        let mut rooms: Vec<Room> = Vec::new();
        let mut i: usize = 0;
        while i < layout.rooms.len()
            invariant
                layout.wf(plot),
                i <= layout.rooms@.len(),
                rooms@.len() == i,
                forall|j: int|
                    0 <= j < i ==> (#[trigger] rooms@[j]).bounds == layout.rooms@[j]
                        && rooms@[j].kind == layout.kinds@[j],
                forall|j: int|
                    0 <= j < i ==> room_record_ok(
                        #[trigger] rooms@[j],
                        j as usize,
                        layout.rooms@,
                        layout.kinds@,
                        layout.walls@,
                        roofs@,
                    ),
            decreases layout.rooms@.len() - i,
        {
            let room = build_room(&layout, plot, &roofs, i, rng);
            rooms.push(room);
            i = i + 1;
        }
        let ghost views = room_boxes(rooms@);
        proof {
            assert(views =~= layout.rooms@);
            assert(room_kinds(rooms@) =~= layout.kinds@);
            assert forall|id: int| 0 <= id < rooms@.len() implies room_record_ok(
                #[trigger] rooms@[id],
                id as usize,
                room_boxes(rooms@),
                room_kinds(rooms@),
                layout.walls@,
                roofs@,
            ) by {
                assert(room_record_ok(
                    rooms@[id],
                    id as usize,
                    layout.rooms@,
                    layout.kinds@,
                    layout.walls@,
                    roofs@,
                ));
            }
            assert forall|w: int| 0 <= w < layout.walls@.len() implies (
            #[trigger] layout.walls@[w]).wf(rooms@.len() as int) by {}
            assert forall|i: int, j: int|
                0 <= i < rooms@.len() && 0 <= j < rooms@.len() && i != j && #[trigger] z_meets(
                    rooms@[i].bounds,
                    rooms@[j].bounds,
                ) implies !rooms@[i].bounds.xy().meets(rooms@[j].bounds.xy()) by {
                assert(z_meets(layout.rooms@[i], layout.rooms@[j]));
            }
            assert forall|i: int|
                0 <= i < rooms@.len() implies (#[trigger] rooms@[i]).kind.conforms(
                    rooms@[i].bounds.xy(),
                ) && rooms@[i].bounds.xy().within(plot) by {
                assert(room_ok(layout.rooms@[i], layout.kinds@[i], plot));
            }
            assert forall|i: int|
                0 <= i < rooms@.len() && (#[trigger] rooms@[i]).kind is Cellar implies exists|
                j: int,
            | 0 <= j < rooms@.len() && (#[trigger] rooms@[j]).kind is Bar by {
                assert(layout.kinds@[i] is Cellar);
                let j = choose|j: int|
                    0 <= j < layout.kinds@.len() && #[trigger] layout.kinds@[j] is Bar;
                assert(rooms@[j].kind is Bar);
            }
            assert forall|i: int| 0 < i < rooms@.len() implies !((#[trigger] rooms@[i]).kind is Entrance) by {
                assert(!(layout.kinds@[i] is Entrance));
            }
            assert forall|k: int|
                0 <= k < roofs@.len() && (#[trigger] roofs@[k]).style is FlatBars implies covers_gardens_only(
                rooms@,
                roofs@[k].over@,
            ) by {
                assert(all_gardens(layout.kinds@, roofs@[k].over@));
                assert forall|m: int| 0 <= m < roofs@[k].over@.len() implies #[trigger] rooms@[
                    roofs@[k].over@[m] as int
                ].kind is Garden by {
                    assert(roof_ok(&roofs@[k], layout.rooms@));
                    assert(layout.kinds@[roofs@[k].over@[m] as int] is Garden);
                }
            }
            assert forall|id: int| 0 <= id < rooms@.len() implies sides_walled(
                layout.walls@,
                id as usize,
                #[trigger] rooms@[id].bounds.xy(),
            ) by {
                assert(sides_walled(layout.walls@, id as usize, layout.rooms@[id].xy()));
            }
            assert forall|w: int| 0 <= w < layout.walls@.len() implies door_ok(
                #[trigger] layout.walls@[w],
            ) by {
                assert(layout.walls@[w].wf(layout.rooms@.len() as int));
            }
        }
        Ok(
            Tavern {
                name,
                rooms,
                walls: layout.walls,
                roofs,
                door_tile,
                door_wpos,
                bounds,
            },
        )
    }
}

} // verus!
