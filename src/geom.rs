//! Integer plane geometry: points, inclusive rectangles, boxes and the four
//! cardinal directions.
use vstd::prelude::*;

verus! {

/// Bound on the absolute value of every world coordinate the generator handles.
pub const COORD_LIMIT: i32 = 1048576;

pub open spec fn in_limit(v: int) -> bool {
    -COORD_LIMIT <= v <= COORD_LIMIT
}

pub open spec fn imin(a: int, b: int) -> int {
    if a <= b { a } else { b }
}

pub open spec fn imax(a: int, b: int) -> int {
    if a >= b { a } else { b }
}

pub open spec fn iclamp(v: int, lo: int, hi: int) -> int {
    imax(lo, imin(v, hi))
}

#[derive(Clone, Copy, Debug, PartialEq, Eq, Structural)]
pub struct Vec2 {
    pub x: i32,
    pub y: i32,
}

impl Vec2 {
    pub open spec fn wf(self) -> bool {
        in_limit(self.x as int) && in_limit(self.y as int)
    }
}

/// A point in space; `z` is the altitude.
#[derive(Clone, Copy, Debug, PartialEq, Eq, Structural)]
pub struct Vec3 {
    pub x: i32,
    pub y: i32,
    pub z: i32,
}

/// An axis-aligned rectangle. Its size along an axis is `max - min`.
#[derive(Clone, Copy, Debug, PartialEq, Eq, Structural)]
pub struct Aabr {
    pub min: Vec2,
    pub max: Vec2,
}

/// An axis-aligned box: a rectangle with an altitude range.
#[derive(Clone, Copy, Debug, PartialEq, Eq, Structural)]
pub struct Aabb {
    pub min: Vec3,
    pub max: Vec3,
}

impl Aabb {
    /// The footprint of the box.
    pub open spec fn xy(self) -> Aabr {
        Aabr { min: Vec2 { x: self.min.x, y: self.min.y }, max: Vec2 { x: self.max.x, y: self.max.y } }
    }

    pub fn footprint(&self) -> (r: Aabr)
        ensures
            r == self.xy(),
    {
        Aabr { min: Vec2 { x: self.min.x, y: self.min.y }, max: Vec2 { x: self.max.x, y: self.max.y } }
    }
}

impl Aabr {
    pub open spec fn wf(self) -> bool {
        self.min.wf() && self.max.wf()
    }

    pub open spec fn valid(self) -> bool {
        self.min.x <= self.max.x && self.min.y <= self.max.y
    }

    pub open spec fn width(self) -> int {
        self.max.x - self.min.x
    }

    pub open spec fn height(self) -> int {
        self.max.y - self.min.y
    }

    pub open spec fn area_of(self) -> int {
        self.width() * self.height()
    }

    pub open spec fn min_side(self) -> int {
        imin(self.width(), self.height())
    }

    pub open spec fn has_cell(self, x: int, y: int) -> bool {
        self.min.x <= x <= self.max.x && self.min.y <= y <= self.max.y
    }

    /// The two rectangles share at least one cell.
    pub open spec fn meets(self, o: Aabr) -> bool {
        self.min.x <= o.max.x && o.min.x <= self.max.x && self.min.y <= o.max.y && o.min.y
            <= self.max.y
    }

    pub open spec fn within(self, o: Aabr) -> bool {
        o.min.x <= self.min.x && self.max.x <= o.max.x && o.min.y <= self.min.y && self.max.y
            <= o.max.y
    }

    pub open spec fn meet(self, o: Aabr) -> Aabr {
        Aabr {
            min: Vec2 {
                x: if self.min.x >= o.min.x { self.min.x } else { o.min.x },
                y: if self.min.y >= o.min.y { self.min.y } else { o.min.y },
            },
            max: Vec2 {
                x: if self.max.x <= o.max.x { self.max.x } else { o.max.x },
                y: if self.max.y <= o.max.y { self.max.y } else { o.max.y },
            },
        }
    }

    pub open spec fn normalized(self) -> Aabr {
        Aabr {
            min: Vec2 {
                x: if self.min.x <= self.max.x { self.min.x } else { self.max.x },
                y: if self.min.y <= self.max.y { self.min.y } else { self.max.y },
            },
            max: Vec2 {
                x: if self.min.x <= self.max.x { self.max.x } else { self.min.x },
                y: if self.min.y <= self.max.y { self.max.y } else { self.min.y },
            },
        }
    }

    pub open spec fn grown(self, amount: int) -> Aabr
        recommends
            -4096 <= amount <= 4096,
    {
        Aabr {
            min: Vec2 { x: (self.min.x - amount) as i32, y: (self.min.y - amount) as i32 },
            max: Vec2 { x: (self.max.x + amount) as i32, y: (self.max.y + amount) as i32 },
        }
    }

    pub fn is_valid(&self) -> (r: bool)
        ensures
            r == self.valid(),
    {
        self.min.x <= self.max.x && self.min.y <= self.max.y
    }

    /// Width and height, as `x` and `y`.
    pub fn size(&self) -> (r: Vec2)
        requires
            self.wf(),
        ensures
            r.x == self.width(),
            r.y == self.height(),
    {
        Vec2 { x: self.max.x - self.min.x, y: self.max.y - self.min.y }
    }

    pub fn area(&self) -> (r: i64)
        requires
            self.wf(),
        ensures
            r == self.area_of(),
            -4398046511104 <= r <= 4398046511104,
    {
        let w = (self.max.x - self.min.x) as i64;
        let h = (self.max.y - self.min.y) as i64;
        assert(-4398046511104 <= w * h <= 4398046511104) by (nonlinear_arith)
            requires
                -2097152 <= w <= 2097152,
                -2097152 <= h <= 2097152,
        ;
        w * h
    }

    /// The shorter of the two sides.
    pub fn shortest_side(&self) -> (r: i32)
        requires
            self.wf(),
        ensures
            r == self.min_side(),
    {
        let w = self.max.x - self.min.x;
        let h = self.max.y - self.min.y;
        if w <= h {
            w
        } else {
            h
        }
    }

    pub fn intersection(&self, o: &Aabr) -> (r: Aabr)
        ensures
            r == self.meet(*o),
    {
        Aabr {
            min: Vec2 {
                x: if self.min.x >= o.min.x { self.min.x } else { o.min.x },
                y: if self.min.y >= o.min.y { self.min.y } else { o.min.y },
            },
            max: Vec2 {
                x: if self.max.x <= o.max.x { self.max.x } else { o.max.x },
                y: if self.max.y <= o.max.y { self.max.y } else { o.max.y },
            },
        }
    }

    pub fn made_valid(&self) -> (r: Aabr)
        ensures
            r == self.normalized(),
    {
        Aabr {
            min: Vec2 {
                x: if self.min.x <= self.max.x { self.min.x } else { self.max.x },
                y: if self.min.y <= self.max.y { self.min.y } else { self.max.y },
            },
            max: Vec2 {
                x: if self.min.x <= self.max.x { self.max.x } else { self.min.x },
                y: if self.min.y <= self.max.y { self.max.y } else { self.min.y },
            },
        }
    }

    /// Moves every side outwards by `amount` (inwards when negative).
    pub fn extend(&self, amount: i32) -> (r: Aabr)
        requires
            self.wf(),
            -4096 <= amount <= 4096,
        ensures
            r == self.grown(amount as int),
    {
        Aabr {
            min: Vec2 { x: self.min.x - amount, y: self.min.y - amount },
            max: Vec2 { x: self.max.x + amount, y: self.max.y + amount },
        }
    }

    /// The point of the rectangle nearest to `p`.
    pub fn projected_point(&self, p: Vec2) -> (r: Vec2)
        requires
            self.valid(),
        ensures
            r.x == iclamp(p.x as int, self.min.x as int, self.max.x as int),
            r.y == iclamp(p.y as int, self.min.y as int, self.max.y as int),
    {
        let x = if p.x > self.max.x {
            self.max.x
        } else if p.x < self.min.x {
            self.min.x
        } else {
            p.x
        };
        let y = if p.y > self.max.y {
            self.max.y
        } else if p.y < self.min.y {
            self.min.y
        } else {
            p.y
        };
        Vec2 { x, y }
    }

    /// The middle point, rounded towards `min`.
    pub fn center(&self) -> (r: Vec2)
        requires
            self.wf(),
            self.valid(),
        ensures
            r.x == self.min.x + self.width() / 2,
            r.y == self.min.y + self.height() / 2,
            self.has_cell(r.x as int, r.y as int),
    {
        Vec2 {
            x: self.min.x + (self.max.x - self.min.x) / 2,
            y: self.min.y + (self.max.y - self.min.y) / 2,
        }
    }

    pub fn contains_aabr(&self, o: &Aabr) -> (r: bool)
        ensures
            r == o.within(*self),
    {
        self.min.x <= o.min.x && o.max.x <= self.max.x && self.min.y <= o.min.y && o.max.y
            <= self.max.y
    }

    pub fn contains_point(&self, p: Vec2) -> (r: bool)
        ensures
            r == self.has_cell(p.x as int, p.y as int),
    {
        self.min.x <= p.x && p.x <= self.max.x && self.min.y <= p.y && p.y <= self.max.y
    }

    /// The rectangles overlap with a positive area.
    pub fn collides_with_aabr(&self, o: &Aabr) -> (r: bool)
        ensures
            r == (self.max.x > o.min.x && self.min.x < o.max.x && self.max.y > o.min.y
                && self.min.y < o.max.y),
    {
        self.max.x > o.min.x && self.min.x < o.max.x && self.max.y > o.min.y && self.min.y
            < o.max.y
    }

    /// The rectangles share at least one cell.
    pub fn overlaps(&self, o: &Aabr) -> (r: bool)
        ensures
            r == self.meets(*o),
    {
        self.min.x <= o.max.x && o.min.x <= self.max.x && self.min.y <= o.max.y && o.min.y
            <= self.max.y
    }
}

} // verus!
