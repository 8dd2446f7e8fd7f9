//! The four horizontal directions and how they pick sides of a rectangle.
use vstd::prelude::*;
use crate::geom::{Aabr, Vec2};

verus! {

#[derive(Clone, Copy, Debug, PartialEq, Eq, Structural)]
pub enum Dir {
    X,
    Y,
    NegX,
    NegY,
}

/// All four directions, in a fixed order.
pub open spec fn all_dirs() -> Seq<Dir> {
    seq![Dir::X, Dir::Y, Dir::NegX, Dir::NegY]
}

impl Dir {
    pub open spec fn on_x(self) -> bool {
        self is X || self is NegX
    }

    pub open spec fn sign(self) -> int {
        if self is X || self is Y { 1 } else { -1 }
    }

    pub open spec fn opp(self) -> Dir {
        match self {
            Dir::X => Dir::NegX,
            Dir::Y => Dir::NegY,
            Dir::NegX => Dir::X,
            Dir::NegY => Dir::Y,
        }
    }

    pub open spec fn orth(self) -> Dir {
        if self.on_x() { Dir::Y } else { Dir::X }
    }

    pub open spec fn cw(self) -> Dir {
        match self {
            Dir::X => Dir::NegY,
            Dir::NegY => Dir::NegX,
            Dir::NegX => Dir::Y,
            Dir::Y => Dir::X,
        }
    }

    pub open spec fn ccw(self) -> Dir {
        match self {
            Dir::X => Dir::Y,
            Dir::Y => Dir::NegX,
            Dir::NegX => Dir::NegY,
            Dir::NegY => Dir::X,
        }
    }

    /// Component of `v` on this direction's axis (unsigned).
    pub open spec fn pick(self, v: Vec2) -> int {
        if self.on_x() { v.x as int } else { v.y as int }
    }

    /// The cell next to `p` in this direction: its x and its y.
    pub open spec fn next_x(self, p: Vec2) -> int {
        match self {
            Dir::X => p.x + 1,
            Dir::NegX => p.x - 1,
            _ => p.x as int,
        }
    }

    pub open spec fn next_y(self, p: Vec2) -> int {
        match self {
            Dir::Y => p.y + 1,
            Dir::NegY => p.y - 1,
            _ => p.y as int,
        }
    }

    /// The coordinate of the side of `a` that this direction faces.
    pub open spec fn side(self, a: Aabr) -> int {
        match self {
            Dir::X => a.max.x as int,
            Dir::Y => a.max.y as int,
            Dir::NegX => a.min.x as int,
            Dir::NegY => a.min.y as int,
        }
    }

    /// The point with this direction's side of `a` on its axis and `other` on the other.
    pub open spec fn side_with(self, a: Aabr, other: Vec2) -> Vec2 {
        if self.on_x() {
            Vec2 { x: self.side(a) as i32, y: other.y }
        } else {
            Vec2 { x: other.x, y: self.side(a) as i32 }
        }
    }

    /// `a` with the side that this direction faces moved outwards by `amount`.
    pub open spec fn pushed(self, a: Aabr, amount: int) -> Aabr {
        match self {
            Dir::X => Aabr { max: Vec2 { x: (a.max.x + amount) as i32, ..a.max }, ..a },
            Dir::Y => Aabr { max: Vec2 { y: (a.max.y + amount) as i32, ..a.max }, ..a },
            Dir::NegX => Aabr { min: Vec2 { x: (a.min.x - amount) as i32, ..a.min }, ..a },
            Dir::NegY => Aabr { min: Vec2 { y: (a.min.y - amount) as i32, ..a.min }, ..a },
        }
    }

    pub fn index(self) -> (r: usize)
        ensures
            r < 4,
            all_dirs()[r as int] == self,
    {
        match self {
            Dir::X => 0,
            Dir::Y => 1,
            Dir::NegX => 2,
            Dir::NegY => 3,
        }
    }

    pub fn from_index(i: usize) -> (r: Dir)
        requires
            i < 4,
        ensures
            r == all_dirs()[i as int],
    {
        if i == 0 {
            Dir::X
        } else if i == 1 {
            Dir::Y
        } else if i == 2 {
            Dir::NegX
        } else {
            Dir::NegY
        }
    }

    pub fn is_x(self) -> (r: bool)
        ensures
            r == self.on_x(),
    {
        match self {
            Dir::X | Dir::NegX => true,
            _ => false,
        }
    }

    pub fn signum(self) -> (r: i32)
        ensures
            r == self.sign(),
    {
        match self {
            Dir::X | Dir::Y => 1,
            _ => -1,
        }
    }

    pub fn opposite(self) -> (r: Dir)
        ensures
            r == self.opp(),
    {
        match self {
            Dir::X => Dir::NegX,
            Dir::Y => Dir::NegY,
            Dir::NegX => Dir::X,
            Dir::NegY => Dir::Y,
        }
    }

    /// The positive direction of the other axis.
    pub fn orthogonal(self) -> (r: Dir)
        ensures
            r == self.orth(),
    {
        if self.is_x() {
            Dir::Y
        } else {
            Dir::X
        }
    }

    pub fn rotated_cw(self) -> (r: Dir)
        ensures
            r == self.cw(),
    {
        match self {
            Dir::X => Dir::NegY,
            Dir::NegY => Dir::NegX,
            Dir::NegX => Dir::Y,
            Dir::Y => Dir::X,
        }
    }

    pub fn rotated_ccw(self) -> (r: Dir)
        ensures
            r == self.ccw(),
    {
        match self {
            Dir::X => Dir::Y,
            Dir::Y => Dir::NegX,
            Dir::NegX => Dir::NegY,
            Dir::NegY => Dir::X,
        }
    }

    /// The unit step in this direction.
    pub fn to_vec2(self) -> (r: Vec2)
        ensures
            r.x == (if self.on_x() { self.sign() } else { 0 }),
            r.y == (if self.on_x() { 0 } else { self.sign() }),
    {
        match self {
            Dir::X => Vec2 { x: 1, y: 0 },
            Dir::Y => Vec2 { x: 0, y: 1 },
            Dir::NegX => Vec2 { x: -1, y: 0 },
            Dir::NegY => Vec2 { x: 0, y: -1 },
        }
    }

    /// `p` moved by `n` steps in this direction.
    pub fn step(self, p: Vec2, n: i32) -> (r: Vec2)
        requires
            p.wf(),
            -4194304 <= n <= 4194304,
        ensures
            self is X ==> r.x == p.x + n && r.y == p.y,
            self is NegX ==> r.x == p.x - n && r.y == p.y,
            self is Y ==> r.x == p.x && r.y == p.y + n,
            self is NegY ==> r.x == p.x && r.y == p.y - n,
    {
        match self {
            Dir::X => Vec2 { x: p.x + n, y: p.y },
            Dir::Y => Vec2 { x: p.x, y: p.y + n },
            Dir::NegX => Vec2 { x: p.x - n, y: p.y },
            Dir::NegY => Vec2 { x: p.x, y: p.y - n },
        }
    }

    pub fn select(self, v: Vec2) -> (r: i32)
        ensures
            r == self.pick(v),
    {
        if self.is_x() {
            v.x
        } else {
            v.y
        }
    }

    /// This direction's axis component from `v`, the other from `other`.
    pub fn select_with(self, v: Vec2, other: Vec2) -> (r: Vec2)
        ensures
            r.x == (if self.on_x() { v.x } else { other.x }),
            r.y == (if self.on_x() { other.y } else { v.y }),
    {
        if self.is_x() {
            Vec2 { x: v.x, y: other.y }
        } else {
            Vec2 { x: other.x, y: v.y }
        }
    }

    pub fn select_aabr(self, a: &Aabr) -> (r: i32)
        ensures
            r == self.side(*a),
    {
        match self {
            Dir::X => a.max.x,
            Dir::Y => a.max.y,
            Dir::NegX => a.min.x,
            Dir::NegY => a.min.y,
        }
    }

    /// The side of `a` that this direction faces on its axis, `other` on the other axis.
    pub fn select_aabr_with(self, a: &Aabr, other: Vec2) -> (r: Vec2)
        ensures
            r.x == (if self.on_x() { self.side(*a) } else { other.x as int }),
            r.y == (if self.on_x() { other.y as int } else { self.side(*a) }),
            r == self.side_with(*a, other),
    {
        match self {
            Dir::X => Vec2 { x: a.max.x, y: other.y },
            Dir::Y => Vec2 { x: other.x, y: a.max.y },
            Dir::NegX => Vec2 { x: a.min.x, y: other.y },
            Dir::NegY => Vec2 { x: other.x, y: a.min.y },
        }
    }

    /// Moves the side of `a` that this direction faces outwards by `amount`.
    pub fn extend_aabr(self, a: &Aabr, amount: i32) -> (r: Aabr)
        requires
            a.wf(),
            -4194304 <= amount <= 4194304,
        ensures
            r == self.pushed(*a, amount as int),
    {
        match self {
            Dir::X => Aabr { min: a.min, max: Vec2 { x: a.max.x + amount, y: a.max.y } },
            Dir::Y => Aabr { min: a.min, max: Vec2 { x: a.max.x, y: a.max.y + amount } },
            Dir::NegX => Aabr { min: Vec2 { x: a.min.x - amount, y: a.min.y }, max: a.max },
            Dir::NegY => Aabr { min: Vec2 { x: a.min.x, y: a.min.y - amount }, max: a.max },
        }
    }

    /// The direction in which `v` mostly points.
    pub fn from_vec2(v: Vec2) -> (r: Dir)
        requires
            v.wf(),
        ensures
            (if v.x >= 0 { v.x as int } else { -v.x }) > (if v.y >= 0 { v.y as int } else { -v.y })
                ==> r.on_x() && (r is X <==> v.x > 0),
            (if v.x >= 0 { v.x as int } else { -v.x }) <= (if v.y >= 0 { v.y as int } else { -v.y })
                ==> !r.on_x() && (r is Y <==> v.y > 0),
    {
        let ax = if v.x >= 0 { v.x } else { -v.x };
        let ay = if v.y >= 0 { v.y } else { -v.y };
        if ax > ay {
            if v.x > 0 { Dir::X } else { Dir::NegX }
        } else {
            if v.y > 0 { Dir::Y } else { Dir::NegY }
        }
    }
}

} // verus!
