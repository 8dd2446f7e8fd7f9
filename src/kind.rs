//! The kinds of room, their size rules and how likely each is to be grown.
use vstd::prelude::*;
use crate::geom::Aabr;
use crate::lottery::{Lottery, prefix};

verus! {

#[derive(Clone, Copy, Debug, PartialEq, Eq, Structural)]
pub enum RoomKind {
    Garden,
    Stage,
    Bar,
    Seating,
    Entrance,
    Cellar,
}

/// Weights are in millionths.
pub const WEIGHT_ONE: u32 = 1000000;

/// Temperatures are in thousandths and lie within this bound.
pub const TEMPERATURE_LIMIT: i32 = 1000000;

/// How many rooms of each kind exist so far.
#[derive(Clone, Copy, Debug, PartialEq, Eq, Structural)]
pub struct RoomCounts {
    pub garden: u32,
    pub stage: u32,
    pub bar: u32,
    pub seating: u32,
    pub entrance: u32,
    pub cellar: u32,
}

impl RoomCounts {
    pub open spec fn count(&self, k: RoomKind) -> int {
        match k {
            RoomKind::Garden => self.garden as int,
            RoomKind::Stage => self.stage as int,
            RoomKind::Bar => self.bar as int,
            RoomKind::Seating => self.seating as int,
            RoomKind::Entrance => self.entrance as int,
            RoomKind::Cellar => self.cellar as int,
        }
    }

    pub fn new() -> (r: RoomCounts)
        ensures
            forall|k: RoomKind| r.count(k) == 0,
    {
        RoomCounts { garden: 0, stage: 0, bar: 0, seating: 0, entrance: 0, cellar: 0 }
    }

    pub fn get(&self, k: RoomKind) -> (r: u32)
        ensures
            r == self.count(k),
    {
        match k {
            RoomKind::Garden => self.garden,
            RoomKind::Stage => self.stage,
            RoomKind::Bar => self.bar,
            RoomKind::Seating => self.seating,
            RoomKind::Entrance => self.entrance,
            RoomKind::Cellar => self.cellar,
        }
    }

    /// Counts one more room of kind `k` (the count stays at its maximum).
    pub fn add(&mut self, k: RoomKind)
        ensures
            forall|j: RoomKind|
                j != k ==> #[trigger] final(self).count(j) == old(self).count(j),
            final(self).count(k) == (if old(self).count(k) < u32::MAX {
                old(self).count(k) + 1
            } else {
                old(self).count(k)
            }),
    {
        match k {
            RoomKind::Garden => self.garden = self.garden.saturating_add(1),
            RoomKind::Stage => self.stage = self.stage.saturating_add(1),
            RoomKind::Bar => self.bar = self.bar.saturating_add(1),
            RoomKind::Seating => self.seating = self.seating.saturating_add(1),
            RoomKind::Entrance => self.entrance = self.entrance.saturating_add(1),
            RoomKind::Cellar => self.cellar = self.cellar.saturating_add(1),
        }
    }
}

impl RoomKind {
    pub open spec fn side_min(self) -> int {
        match self {
            RoomKind::Garden => 5,
            RoomKind::Seating => 4,
            RoomKind::Cellar => 6,
            RoomKind::Stage => 11,
            RoomKind::Bar => 9,
            RoomKind::Entrance => 3,
        }
    }

    pub open spec fn side_max(self) -> int {
        match self {
            RoomKind::Garden => 20,
            RoomKind::Seating => 20,
            RoomKind::Cellar => 12,
            RoomKind::Stage => 22,
            RoomKind::Bar => 16,
            RoomKind::Entrance => 7,
        }
    }

    pub open spec fn area_min(self) -> int {
        match self {
            RoomKind::Garden => 35,
            RoomKind::Seating => 35,
            RoomKind::Cellar => 35,
            RoomKind::Stage => 150,
            RoomKind::Bar => 80,
            RoomKind::Entrance => 12,
        }
    }

    pub open spec fn area_max(self) -> int {
        match self {
            RoomKind::Garden => 250,
            RoomKind::Seating => 250,
            RoomKind::Cellar => 110,
            RoomKind::Stage => 400,
            RoomKind::Bar => 196,
            RoomKind::Entrance => 40,
        }
    }

    /// A footprint conforms to this kind: its shorter side and its area lie in
    /// the kind's ranges.
    pub open spec fn conforms(self, a: Aabr) -> bool {
        &&& self.side_min() <= a.min_side() <= self.side_max()
        &&& self.area_min() <= a.area_of() <= self.area_max()
    }

    /// Weight of growing one more room of this kind, in millionths.
    pub open spec fn chance_of(self, counts: RoomCounts) -> int {
        let n = counts.count(self);
        match self {
            RoomKind::Garden => 50000int / ((1 + n) * (1 + n)),
            RoomKind::Seating => 400000int / (1 + n),
            RoomKind::Stage => if n == 0 { 1000000 } else { 0 },
            RoomKind::Bar => if n == 0 { 1000000 } else if n == 1 { 10000 } else { 0 },
            RoomKind::Entrance => 0,
            RoomKind::Cellar => 1000000,
        }
    }

    /// The footprint `max_bounds` leaves space for this kind's smallest room.
    pub open spec fn fits_in(self, max_bounds: Aabr) -> bool {
        self.side_min() <= max_bounds.min_side() && self.area_min() <= max_bounds.area_of()
    }

    /// Kinds that may be grown sideways from a room of this kind.
    pub open spec fn side_candidates(self) -> Seq<RoomKind> {
        if self is Cellar {
            seq![RoomKind::Cellar]
        } else {
            seq![RoomKind::Stage, RoomKind::Garden, RoomKind::Bar, RoomKind::Seating]
        }
    }

    /// Kinds that may be grown beneath a room of this kind.
    pub open spec fn basement_candidates(self) -> Seq<RoomKind> {
        if self is Bar {
            seq![RoomKind::Cellar]
        } else {
            seq![]
        }
    }

    /// Weight of a sideways candidate: gardens scale with the temperature.
    pub open spec fn side_weight(self, counts: RoomCounts, temperature: int) -> int {
        if self is Garden {
            if temperature <= 0 {
                0
            } else {
                self.chance_of(counts) * temperature / 1000
            }
        } else {
            self.chance_of(counts)
        }
    }

    /// The candidates of `c` that fit `max_bounds` with a positive weight, in order.
    pub open spec fn side_pick(
        c: Seq<RoomKind>,
        max_bounds: Aabr,
        counts: RoomCounts,
        temperature: int,
    ) -> Seq<RoomKind>
        decreases c.len(),
    {
        if c.len() == 0 {
            seq![]
        } else {
            let p = RoomKind::side_pick(c.drop_last(), max_bounds, counts, temperature);
            if c.last().fits_in(max_bounds) && c.last().side_weight(counts, temperature) > 0 {
                p.push(c.last())
            } else {
                p
            }
        }
    }

    /// Returns (smallest side, largest side, smallest area, largest area).
    pub fn size_range(&self) -> (r: (i32, i32, i32, i32))
        ensures
            r.0 == self.side_min(),
            r.1 == self.side_max(),
            r.2 == self.area_min(),
            r.3 == self.area_max(),
    {
        match self {
            RoomKind::Garden => (5, 20, 35, 250),
            RoomKind::Seating => (4, 20, 35, 250),
            RoomKind::Cellar => (6, 12, 35, 110),
            RoomKind::Stage => (11, 22, 150, 400),
            RoomKind::Bar => (9, 16, 80, 196),
            RoomKind::Entrance => (3, 7, 12, 40),
        }
    }

    pub fn chance(&self, counts: &RoomCounts) -> (r: u32)
        ensures
            r == self.chance_of(*counts),
    {
        let n = counts.get(*self) as u64;
        match self {
            RoomKind::Garden => {
                if n >= 65536 {
                    assert(50000int / ((1 + n) * (1 + n)) == 0) by (nonlinear_arith)
                        requires
                            n >= 65536,
                    ;
                    0
                } else {
                    assert(0 < (1 + n) * (1 + n) <= 65537 * 65537) by (nonlinear_arith)
                        requires
                            n < 65536,
                    ;
                    (50000 / ((1 + n) * (1 + n))) as u32
                }
            },
            RoomKind::Seating => (400000 / (1 + n)) as u32,
            RoomKind::Stage => if n == 0 {
                1000000
            } else {
                0
            },
            RoomKind::Bar => if n == 0 {
                1000000
            } else if n == 1 {
                10000
            } else {
                0
            },
            RoomKind::Entrance => 0,
            RoomKind::Cellar => 1000000,
        }
    }

    pub fn fits(&self, max_bounds: &Aabr) -> (r: bool)
        requires
            max_bounds.wf(),
        ensures
            r == self.fits_in(*max_bounds),
    {
        let (side_min, _, area_min, _) = self.size_range();
        side_min <= max_bounds.shortest_side() && area_min as i64 <= max_bounds.area()
    }

    pub fn side_weight_of(&self, counts: &RoomCounts, temperature: i32) -> (r: i64)
        requires
            -TEMPERATURE_LIMIT <= temperature <= TEMPERATURE_LIMIT,
        ensures
            r == self.side_weight(*counts, temperature as int),
            0 <= r <= 50 * WEIGHT_ONE,
    {
        let c = self.chance(counts) as i64;
        match self {
            RoomKind::Garden => {
                if temperature <= 0 {
                    return 0;
                }
                assert(c <= 50000) by (nonlinear_arith)
                    requires
                        c == 50000int / ((1 + counts.count(*self)) * (1 + counts.count(*self))),
                        counts.count(*self) >= 0,
                ;
                assert(0 <= c * temperature <= 50000000000) by (nonlinear_arith)
                    requires
                        0 <= c <= 50000,
                        0 < temperature <= 1000000,
                ;
                let r = c * (temperature as i64) / 1000;
                r
            },
            _ => {
                assert(c <= 1000000);
                c
            },
        }
    }

    /// The kinds that may be grown beneath this one.
    pub fn basement_rooms(&self) -> (r: Vec<RoomKind>)
        ensures
            r@ == self.basement_candidates(),
    {
        match self {
            RoomKind::Bar => {
                let v = vec![RoomKind::Cellar];
                assert(v@ =~= seq![RoomKind::Cellar]);
                v
            },
            _ => {
                let v: Vec<RoomKind> = Vec::new();
                assert(v@ =~= Seq::<RoomKind>::empty());
                v
            },
        }
    }

    fn side_rooms(&self) -> (r: Vec<RoomKind>)
        ensures
            r@ == self.side_candidates(),
    {
        match self {
            RoomKind::Cellar => {
                let v = vec![RoomKind::Cellar];
                assert(v@ =~= seq![RoomKind::Cellar]);
                v
            },
            _ => {
                let v = vec![RoomKind::Stage, RoomKind::Garden, RoomKind::Bar, RoomKind::Seating];
                assert(v@ =~= seq![
                    RoomKind::Stage,
                    RoomKind::Garden,
                    RoomKind::Bar,
                    RoomKind::Seating,
                ]);
                v
            },
        }
    }

    /// The room right behind the front door: a garden, when it is warm and a
    /// garden fits in `max_bounds`, weighted by the temperature; or a plain
    /// entrance, which is always offered.
    pub fn entrance_room_lottery(temperature: i32, max_bounds: &Aabr) -> (r: Lottery<RoomKind>)
        requires
            -TEMPERATURE_LIMIT <= temperature <= TEMPERATURE_LIMIT,
            max_bounds.wf(),
        ensures
            r.wf(),
            r.total > 0,
            temperature > 0 && RoomKind::Garden.fits_in(*max_bounds) ==> r.items@ == seq![
                RoomKind::Garden,
                RoomKind::Entrance,
            ] && r.weights@ == seq![(500 * temperature) as u32, 2000000u32],
            !(temperature > 0 && RoomKind::Garden.fits_in(*max_bounds)) ==> r.items@ == seq![
                RoomKind::Entrance,
            ] && r.weights@ == seq![2000000u32],
            forall|i: int| 0 <= i < r.items@.len() ==> r.offers(i),
    {
        let mut l = Lottery::new();
        let garden = 500 * (temperature as i64);
        let warm = garden > 0 && RoomKind::Garden.fits(max_bounds);
        if warm {
            l.push(garden as u32, RoomKind::Garden);
        }
        l.push(2 * WEIGHT_ONE, RoomKind::Entrance);
        proof {
            reveal_with_fuel(prefix, 3);
            if warm {
                assert(l.items@ =~= seq![RoomKind::Garden, RoomKind::Entrance]);
                assert(l.weights@ =~= seq![(500 * temperature) as u32, 2000000u32]);
            } else {
                assert(l.items@ =~= seq![RoomKind::Entrance]);
                assert(l.weights@ =~= seq![2000000u32]);
            }
        }
        l
    }

    /// The kinds that may be grown sideways from this room into `max_bounds`:
    /// those that fit there, each with a positive weight. `None` when there are none.
    pub fn side_room_lottery(
        &self,
        max_bounds: &Aabr,
        counts: &RoomCounts,
        temperature: i32,
    ) -> (r: Option<Lottery<RoomKind>>)
        requires
            max_bounds.wf(),
            -TEMPERATURE_LIMIT <= temperature <= TEMPERATURE_LIMIT,
        ensures
            r is None <==> (forall|j: int|
                0 <= j < self.side_candidates().len() ==> !(#[trigger] self.side_candidates()[
                    j
                ].fits_in(*max_bounds)) || self.side_candidates()[j].side_weight(
                    *counts,
                    temperature as int,
                ) <= 0),
            r is Some ==> {
                let l = r->Some_0;
                &&& l.wf()
                &&& l.total > 0
                &&& l.items@ == RoomKind::side_pick(
                    self.side_candidates(),
                    *max_bounds,
                    *counts,
                    temperature as int,
                )
                &&& forall|i: int|
                    0 <= i < l.items@.len() ==> {
                        let k = #[trigger] l.items@[i];
                        &&& self.side_candidates().contains(k)
                        &&& k.fits_in(*max_bounds)
                        &&& l.weights@[i] == k.side_weight(*counts, temperature as int)
                        &&& l.weights@[i] > 0
                    }
                &&& forall|j: int|
                    0 <= j < self.side_candidates().len() && (#[trigger] self.side_candidates()[
                        j
                    ].fits_in(*max_bounds)) && self.side_candidates()[j].side_weight(
                        *counts,
                        temperature as int,
                    ) > 0 ==> l.items@.contains(self.side_candidates()[j])
            },
    {
        let cands = self.side_rooms();
        let mut l = Lottery::new();
        let mut j: usize = 0;
        while j < cands.len()
            invariant
                cands@ == self.side_candidates(),
                j <= cands@.len(),
                l.wf(),
                l.items@.len() <= j,
                l.items@ == RoomKind::side_pick(
                    cands@.take(j as int),
                    *max_bounds,
                    *counts,
                    temperature as int,
                ),
                l.total <= j * 50 * WEIGHT_ONE,
                l.items@.len() == 0 <==> l.total == 0,
                max_bounds.wf(),
                -TEMPERATURE_LIMIT <= temperature <= TEMPERATURE_LIMIT,
                forall|i: int|
                    0 <= i < l.items@.len() ==> {
                        let k = #[trigger] l.items@[i];
                        &&& self.side_candidates().contains(k)
                        &&& k.fits_in(*max_bounds)
                        &&& l.weights@[i] == k.side_weight(*counts, temperature as int)
                        &&& l.weights@[i] > 0
                    },
                forall|jj: int|
                    0 <= jj < j && (#[trigger] self.side_candidates()[jj].fits_in(*max_bounds))
                        && self.side_candidates()[jj].side_weight(*counts, temperature as int) > 0
                        ==> l.items@.contains(self.side_candidates()[jj]),
            decreases cands@.len() - j,
        {
            let k = cands[j];
            proof {
                assert(cands@.take(j + 1).drop_last() =~= cands@.take(j as int));
                assert(cands@.take(j + 1).last() == k);
            }
            if k.fits(max_bounds) {
                let w = k.side_weight_of(counts, temperature);
                if w > 0 {
                    proof {
                        crate::lottery::lemma_prefix_push(l.weights@, w as u32);
                    }
                    let ghost old_items = l.items@;
                    l.push(w as u32, k);
                    assert(l.items@[l.items@.len() - 1] == k);
                    assert forall|jj: int|
                        0 <= jj < j + 1 && (#[trigger] self.side_candidates()[jj].fits_in(
                            *max_bounds,
                        )) && self.side_candidates()[jj].side_weight(*counts, temperature as int)
                            > 0 implies l.items@.contains(self.side_candidates()[jj]) by {
                        if jj < j {
                            assert(old_items.contains(self.side_candidates()[jj]));
                            let t = choose|t: int|
                                0 <= t < old_items.len() && old_items[t]
                                    == self.side_candidates()[jj];
                            assert(l.items@[t] == old_items[t]);
                        } else {
                            assert(l.items@[l.items@.len() - 1] == self.side_candidates()[jj]);
                        }
                    }
                }
            }
            j = j + 1;
        }
        proof {
            assert(cands@.take(cands@.len() as int) =~= cands@);
        }
        if l.items.len() == 0 {
            None
        } else {
            proof {
                let k = l.items@[0];
                let j = choose|j: int|
                    0 <= j < self.side_candidates().len() && self.side_candidates()[j] == k;
                assert(self.side_candidates()[j].fits_in(*max_bounds));
            }
            Some(l)
        }
    }

    /// The kinds that may be grown beneath this room into `max_bounds`: those
    /// that fit there, each with its chance. `None` when none fits.
    pub fn basement_lottery(&self, max_bounds: &Aabr, counts: &RoomCounts) -> (r: Option<
        Lottery<RoomKind>,
    >)
        requires
            max_bounds.wf(),
        ensures
            r is None <==> !(self is Bar && RoomKind::Cellar.fits_in(*max_bounds)),
            r is Some ==> {
                let l = r->Some_0;
                &&& l.wf()
                &&& l.total > 0
                &&& l.items@ == seq![RoomKind::Cellar]
                &&& l.weights@ == seq![WEIGHT_ONE]
            },
    {
        if self.basement_rooms().len() > 0 && RoomKind::Cellar.fits(max_bounds) {
            let mut l = Lottery::new();
            l.push(RoomKind::Cellar.chance(counts), RoomKind::Cellar);
            proof {
                reveal_with_fuel(prefix, 2);
            }
            Some(l)
        } else {
            None
        }
    }
}

} // verus!
