//! The generated building: rooms, walls, roofs and furniture, and the terrain
//! the generator reads.
use vstd::prelude::*;
use crate::dir::Dir;
use crate::geom::{Aabb, Aabr, Vec2, Vec3};
use crate::kind::{RoomKind, TEMPERATURE_LIMIT};

verus! {

/// Bound on the absolute value of the terrain altitudes handed to the generator.
pub const ALT_LIMIT: i32 = 65536;

/// Largest side of the terrain sample, in cells.
pub const SAMPLE_SIDE_LIMIT: i32 = 4096;

/// A straight wall. It runs from `start` to `end` along the axis orthogonal to
/// `to_dir`, with `start` on the lower side; `to_dir` points from `from` to `to`.
#[derive(Clone, Copy, Debug)]
pub struct Wall {
    pub start: Vec2,
    pub end: Vec2,
    pub base_alt: i32,
    pub top_alt: i32,
    pub from: Option<usize>,
    pub to: Option<usize>,
    pub to_dir: Dir,
    /// Offsets from `start` of the first and last cell of the opening.
    pub door: Option<(i32, i32)>,
}

pub open spec fn door_in_span(start: Vec2, end: Vec2, to_dir: Dir, d0: int, d1: int) -> bool {
    let len = to_dir.orth().pick(end) - to_dir.orth().pick(start);
    &&& 0 < d0
    &&& d1 < len
    &&& (d1 - d0 == 1 || d1 - d0 == 2)
}

/// The opening of a door, if any, lies strictly inside the span of the wall
/// and is two or three cells wide.
pub open spec fn door_ok(w: Wall) -> bool {
    match w.door {
        Some(d) => door_in_span(w.start, w.end, w.to_dir, d.0 as int, d.1 as int),
        None => true,
    }
}

impl Wall {
    pub open spec fn wf(self, n_rooms: int) -> bool {
        &&& self.start.wf()
        &&& self.end.wf()
        &&& door_ok(self)
        &&& (self.from matches Some(f) ==> f < n_rooms)
        &&& (self.to matches Some(t) ==> t < n_rooms)
    }

    /// The cells of the door opening.
    pub fn door_bounds(&self) -> (r: Option<Aabr>)
        requires
            self.start.wf(),
            self.end.wf(),
            door_ok(*self),
        ensures
            r is Some <==> self.door is Some,
            r matches Some(a) ==> a.valid() && a.wf(),
            r matches Some(a) ==> self.door matches Some(d) && (if self.to_dir.on_x() {
                a.min.x == self.start.x && a.max.x == self.start.x && a.min.y == self.start.y
                    + d.0 && a.max.y == self.start.y + d.1
            } else {
                a.min.y == self.start.y && a.max.y == self.start.y && a.min.x == self.start.x
                    + d.0 && a.max.x == self.start.x + d.1
            }),
    {
        match self.door {
            Some((d0, d1)) => {
                let along = self.to_dir.orthogonal();
                let a = Aabr {
                    min: along.step(self.start, d0),
                    max: along.step(self.start, d1),
                };
                Some(a)
            },
            None => None,
        }
    }
}

/// Checks that a door `(d0, d1)` fits strictly inside a wall from `start` to `end`.
pub fn door_fits(start: Vec2, end: Vec2, to_dir: Dir, d0: i32, d1: i32) -> (r: bool)
    requires
        start.wf(),
        end.wf(),
        -4194304 <= d0 <= 4194304,
        -4194304 <= d1 <= 4194304,
    ensures
        r == door_in_span(start, end, to_dir, d0 as int, d1 as int),
{
    let along = to_dir.orthogonal();
    let len = along.select(end) - along.select(start);
    0 < d0 && d1 < len && (d1 - d0 == 1 || d1 - d0 == 2)
}

#[derive(Clone, Copy, Debug, PartialEq, Eq, Structural)]
pub enum RoofStyle {
    Flat,
    FlatBars { dir: Dir },
    LeanTo { dir: Dir, max_z: i32 },
    Gable { dir: Dir, max_z: i32 },
    Hip { max_z: i32 },
    Floor,
}

/// A stair: its box and the direction it runs in.
#[derive(Clone, Copy, Debug, PartialEq, Eq, Structural)]
pub struct Stairs {
    pub bounds: Aabb,
    pub dir: Dir,
}

pub struct Roof {
    pub bounds: Aabr,
    pub min_z: i32,
    pub style: RoofStyle,
    pub stairs: Option<Stairs>,
    /// Rooms the roof covers from above.
    pub over: Vec<usize>,
    /// Rooms for which the roof is the floor.
    pub under: Vec<usize>,
}

#[derive(Clone, Debug)]
pub enum Detail {
    Bar { aabr: Aabr },
    Table { pos: Vec2, chairs: Vec<Dir> },
    Stage { aabr: Aabr },
}

/// A wall reference of a room: the wall's index and the side of the room it is on.
#[derive(Clone, Copy, Debug, PartialEq, Eq, Structural)]
pub struct WallRef {
    pub dir: Dir,
    pub id: usize,
}

pub struct Room {
    /// Inclusive.
    pub bounds: Aabb,
    pub kind: RoomKind,
    pub walls: Vec<WallRef>,
    pub floors: Vec<usize>,
    pub roofs: Vec<usize>,
    /// The free areas left once the furniture is placed.
    pub detail_areas: Vec<Aabr>,
    pub details: Vec<Detail>,
    /// All free areas of the floor, before the furniture took some.
    pub floor_areas: Vec<Aabr>,
    /// What the free areas keep clear of: door swings and stairs.
    pub avoid: Vec<Aabr>,
}

impl Room {
    pub fn new(bounds: Aabb, kind: RoomKind) -> (r: Room)
        ensures
            r.bounds == bounds,
            r.kind == kind,
            r.walls@.len() == 0,
            r.floors@.len() == 0,
            r.roofs@.len() == 0,
            r.detail_areas@.len() == 0,
            r.details@.len() == 0,
            r.floor_areas@.len() == 0,
            r.avoid@.len() == 0,
    {
        Room {
            bounds,
            kind,
            walls: Vec::new(),
            floors: Vec::new(),
            roofs: Vec::new(),
            detail_areas: Vec::new(),
            details: Vec::new(),
            floor_areas: Vec::new(),
            avoid: Vec::new(),
        }
    }
}

/// Why a tavern could not be generated.
#[derive(Clone, Copy, Debug, PartialEq, Eq, Structural)]
pub enum TavernError {
    /// The plot is too small, or the door badly placed, for the entrance room.
    NoRoomForEntrance,
}

/// What the generator reads of the terrain: the altitude of every column of
/// `area` (row by row), and the temperature at the door in thousandths.
pub struct TerrainSample {
    pub area: Aabr,
    pub alts: Vec<i32>,
    pub temperature: i32,
}

impl TerrainSample {
    pub open spec fn wf(&self) -> bool {
        &&& self.area.wf()
        &&& self.area.valid()
        &&& self.area.width() < SAMPLE_SIDE_LIMIT
        &&& self.area.height() < SAMPLE_SIDE_LIMIT
        &&& self.alts@.len() == (self.area.width() + 1) * (self.area.height() + 1)
        &&& forall|i: int|
            0 <= i < self.alts@.len() ==> -ALT_LIMIT <= #[trigger] self.alts@[i] <= ALT_LIMIT
        &&& -TEMPERATURE_LIMIT <= self.temperature <= TEMPERATURE_LIMIT
    }

    /// The altitude at the column of `area` nearest to `p`.
    pub fn alt_at(&self, p: Vec2) -> (r: i32)
        requires
            self.wf(),
        ensures
            -ALT_LIMIT <= r <= ALT_LIMIT,
    {
        let q = self.area.projected_point(p);
        let w = (self.area.max.x - self.area.min.x + 1) as usize;
        let dx = (q.x - self.area.min.x) as usize;
        let dy = (q.y - self.area.min.y) as usize;
        assert(dy * w + dx < (self.area.width() + 1) * (self.area.height() + 1)) by (nonlinear_arith)
            requires
                dx < w,
                w == self.area.width() + 1,
                dy <= self.area.height(),
        ;
        assert(dy * w + dx < 4096 * 4096) by (nonlinear_arith)
            requires
                dx < w,
                w <= 4096,
                dy < 4096,
        ;
        self.alts[dy * w + dx]
    }
}

pub struct Tavern {
    pub name: String,
    pub rooms: Vec<Room>,
    pub walls: Vec<Wall>,
    pub roofs: Vec<Roof>,
    /// Tile position of the door tile.
    pub door_tile: Vec2,
    pub door_wpos: Vec3,
    /// Axis aligned bounding region for the house.
    pub bounds: Aabr,
}

} // verus!
