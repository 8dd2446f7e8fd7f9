//! Splitting the free floor of a room into rectangles, and furnishing them.
use vstd::prelude::*;
use rand::rngs::StdRng;
use crate::dir::{Dir, all_dirs};
use crate::geom::{Aabr, Vec2};
use crate::kind::RoomKind;
use crate::place::aabr_in_plot_limit;
use crate::random::gen_ratio;
use crate::structure::Detail;

verus! {

/// Some rectangle of `rects` holds the cell `(x, y)`.
pub open spec fn covered(rects: Seq<Aabr>, x: int, y: int) -> bool {
    exists|i: int| 0 <= i < rects.len() && #[trigger] rects[i].has_cell(x, y)
}

/// Every rectangle of `rects` is valid and lies in `bounds`.
pub open spec fn all_within(rects: Seq<Aabr>, bounds: Aabr) -> bool {
    forall|i: int| 0 <= i < rects.len() ==> (#[trigger] rects[i]).valid() && rects[i].within(bounds)
}

/// The rectangles `areas` split the cells of `bounds` that `avoid` leaves free:
/// they lie in `bounds`, share no cell with each other nor with `avoid`, and
/// together with `avoid` cover every cell of `bounds`.
pub open spec fn partitions(areas: Seq<Aabr>, avoid: Seq<Aabr>, bounds: Aabr) -> bool {
    &&& all_within(areas, bounds)
    &&& forall|k: int, l: int|
        0 <= k < areas.len() && 0 <= l < areas.len() && k != l ==> !(#[trigger] areas[k]).meets(
            #[trigger] areas[l],
        )
    &&& forall|k: int, i: int|
        0 <= k < areas.len() && 0 <= i < avoid.len() ==> !(#[trigger] areas[k]).meets(
            #[trigger] avoid[i],
        )
    &&& forall|x: int, y: int|
        bounds.has_cell(x, y) ==> #[trigger] covered(areas, x, y) || covered(avoid, x, y)
}

proof fn lemma_covered_push(s: Seq<Aabr>, a: Aabr, x: int, y: int)
    ensures
        covered(s.push(a), x, y) == (covered(s, x, y) || a.has_cell(x, y)),
{
    if covered(s, x, y) {
        let i = choose|i: int| 0 <= i < s.len() && #[trigger] s[i].has_cell(x, y);
        assert(s.push(a)[i] == s[i]);
    }
    if a.has_cell(x, y) {
        assert(s.push(a)[s.len() as int] == a);
    }
    if covered(s.push(a), x, y) {
        let i = choose|i: int| 0 <= i < s.len() + 1 && #[trigger] s.push(a)[i].has_cell(x, y);
        if i < s.len() {
            assert(s[i] == s.push(a)[i]);
        }
    }
}

proof fn lemma_covered_append(a: Seq<Aabr>, b: Seq<Aabr>, x: int, y: int)
    ensures
        covered(a + b, x, y) == (covered(a, x, y) || covered(b, x, y)),
{
    if covered(a, x, y) {
        let i = choose|i: int| 0 <= i < a.len() && #[trigger] a[i].has_cell(x, y);
        assert((a + b)[i] == a[i]);
    }
    if covered(b, x, y) {
        let i = choose|i: int| 0 <= i < b.len() && #[trigger] b[i].has_cell(x, y);
        assert((a + b)[a.len() + i] == b[i]);
    }
    if covered(a + b, x, y) {
        let i = choose|i: int| 0 <= i < a.len() + b.len() && #[trigger] (a + b)[i].has_cell(x, y);
        if i < a.len() {
            assert(a[i] == (a + b)[i]);
        } else {
            assert(b[i - a.len()] == (a + b)[i]);
        }
    }
}

/// The first rectangle of `all` that holds the cell `(x, y)`.
fn first_containing(all: &Vec<Aabr>, x: i32, y: i32) -> (r: Option<usize>)
    ensures
        r matches Some(i) ==> i < all@.len() && all@[i as int].has_cell(x as int, y as int),
        r is None ==> forall|i: int| 0 <= i < all@.len() ==> !(#[trigger] all@[i]).has_cell(
            x as int,
            y as int,
        ),
{
    let mut i: usize = 0;
    while i < all.len()
        invariant
            i <= all@.len(),
            forall|j: int| 0 <= j < i ==> !(#[trigger] all@[j]).has_cell(x as int, y as int),
        decreases all@.len() - i,
    {
        if all[i].contains_point(Vec2 { x, y }) {
            return Some(i);
        }
        i = i + 1;
    }
    None
}

/// How far down column `x` the free run starting at the free cell `(x, y)` goes.
fn column_end(all: &Vec<Aabr>, bounds: &Aabr, x: i32, y: i32) -> (r: i32)
    requires
        bounds.has_cell(x as int, y as int),
        forall|i: int| 0 <= i < all@.len() ==> !(#[trigger] all@[i]).has_cell(x as int, y as int),
    ensures
        y <= r <= bounds.max.y,
        forall|i: int|
            0 <= i < all@.len() && (#[trigger] all@[i]).min.x <= x <= all@[i].max.x ==> all@[i].max.y
                < y || all@[i].min.y > r,
{
    let mut max_y = bounds.max.y;
    let mut i: usize = 0;
    while i < all.len()
        invariant
            i <= all@.len(),
            y <= max_y <= bounds.max.y,
            forall|i: int|
                0 <= i < all@.len() ==> !(#[trigger] all@[i]).has_cell(x as int, y as int),
            forall|j: int|
                0 <= j < i && (#[trigger] all@[j]).min.x <= x <= all@[j].max.x ==> all@[j].max.y < y
                    || all@[j].min.y > max_y,
        decreases all@.len() - i,
    {
        let a = all[i];
        if a.min.x <= x && x <= a.max.x && y < a.min.y && a.min.y - 1 < max_y {
            max_y = a.min.y - 1;
        }
        i = i + 1;
    }
    max_y
}

/// How far right the free rectangle over rows `y..=max_y` from column `x` goes.
fn row_end(all: &Vec<Aabr>, bounds: &Aabr, x: i32, y: i32, max_y: i32) -> (r: i32)
    requires
        bounds.min.x <= x <= bounds.max.x,
    ensures
        x <= r <= bounds.max.x,
        forall|i: int|
            0 <= i < all@.len() && (#[trigger] all@[i]).min.x > x && all@[i].min.y <= max_y
                && all@[i].max.y >= y ==> all@[i].min.x > r,
{
    let mut max_x = bounds.max.x;
    let mut i: usize = 0;
    while i < all.len()
        invariant
            i <= all@.len(),
            x <= max_x <= bounds.max.x,
            forall|j: int|
                0 <= j < i && (#[trigger] all@[j]).min.x > x && all@[j].min.y <= max_y
                    && all@[j].max.y >= y ==> all@[j].min.x > max_x,
        decreases all@.len() - i,
    {
        let a = all[i];
        if a.min.x > x && a.min.y <= max_y && a.max.y >= y && a.min.x - 1 < max_x {
            max_x = a.min.x - 1;
        }
        i = i + 1;
    }
    max_x
}

/// Splits the cells of `bounds` not in `avoid` into rectangles, column by
/// column: from each free cell not yet taken, the run down the column as far
/// as it is free, widened to the right as far as all its rows are free.
pub fn detail_areas(bounds: Aabr, avoid: &Vec<Aabr>) -> (r: Vec<Aabr>)
    requires
        bounds.valid(),
        aabr_in_plot_limit(bounds),
        all_within(avoid@, bounds),
    ensures
        partitions(r@, avoid@, bounds),
{
    let mut all: Vec<Aabr> = avoid.clone();
    let mut areas: Vec<Aabr> = Vec::new();
    assert(all@ == avoid@ + areas@);
    let mut x = bounds.min.x;
    while x <= bounds.max.x
        invariant
            bounds.valid(),
            aabr_in_plot_limit(bounds),
            bounds.min.x <= x <= bounds.max.x + 1,
            all@ == avoid@ + areas@,
            all_within(avoid@, bounds),
            all_within(areas@, bounds),
            forall|k: int, l: int|
                0 <= k < areas@.len() && 0 <= l < areas@.len() && k != l ==> !(
                #[trigger] areas@[k]).meets(#[trigger] areas@[l]),
            forall|k: int, i: int|
                0 <= k < areas@.len() && 0 <= i < avoid@.len() ==> !(#[trigger] areas@[k]).meets(
                    #[trigger] avoid@[i],
                ),
            forall|cx: int, cy: int|
                bounds.min.x <= cx < x && bounds.min.y <= cy <= bounds.max.y ==> #[trigger] covered(
                    all@,
                    cx,
                    cy,
                ),
        decreases bounds.max.x + 1 - x,
    {
        let mut y = bounds.min.y;
        while y <= bounds.max.y
            invariant
                bounds.valid(),
                aabr_in_plot_limit(bounds),
                bounds.min.x <= x <= bounds.max.x,
                bounds.min.y <= y <= bounds.max.y + 1,
                all@ == avoid@ + areas@,
                all_within(avoid@, bounds),
                all_within(areas@, bounds),
                forall|k: int, l: int|
                    0 <= k < areas@.len() && 0 <= l < areas@.len() && k != l ==> !(
                    #[trigger] areas@[k]).meets(#[trigger] areas@[l]),
                forall|k: int, i: int|
                    0 <= k < areas@.len() && 0 <= i < avoid@.len() ==> !(
                    #[trigger] areas@[k]).meets(#[trigger] avoid@[i]),
                forall|cx: int, cy: int|
                    bounds.min.x <= cx < x && bounds.min.y <= cy <= bounds.max.y
                        ==> #[trigger] covered(all@, cx, cy),
                forall|cy: int| bounds.min.y <= cy < y ==> #[trigger] covered(all@, x as int, cy),
            decreases bounds.max.y + 1 - y,
        {
            proof {
                assert forall|i: int| 0 <= i < all@.len() implies (#[trigger] all@[i]).valid()
                    && all@[i].within(bounds) by {
                    if i < avoid@.len() {
                        assert(all@[i] == avoid@[i]);
                    } else {
                        assert(all@[i] == areas@[i - avoid@.len()]);
                    }
                }
            }
            match first_containing(&all, x, y) {
                Some(i) => {
                    let a = all[i];
                    proof {
                        assert forall|cy: int| bounds.min.y <= cy < a.max.y + 1 implies #[trigger] covered(
                            all@,
                            x as int,
                            cy,
                        ) by {
                            if cy >= y {
                                assert(all@[i as int].has_cell(x as int, cy));
                            }
                        }
                    }
                    y = a.max.y + 1;
                },
                None => {
                    let max_y = column_end(&all, &bounds, x, y);
                    let max_x = row_end(&all, &bounds, x, y, max_y);
                    let area = Aabr { min: Vec2 { x, y }, max: Vec2 { x: max_x, y: max_y } };
                    proof {
                        assert forall|i: int| 0 <= i < all@.len() implies !area.meets(
                            #[trigger] all@[i],
                        ) by {
                            let b = all@[i];
                            if b.min.x > x {
                                if b.min.y <= max_y && b.max.y >= y {
                                    assert(b.min.x > max_x);
                                }
                            } else if b.max.x >= x {
                                assert(!b.has_cell(x as int, y as int));
                            }
                        }
                    }
                    let ghost old_all = all@;
                    let ghost old_areas = areas@;
                    all.push(area);
                    areas.push(area);
                    proof {
                        assert(all@ == avoid@ + areas@);
                        assert forall|k: int, l: int|
                            0 <= k < areas@.len() && 0 <= l < areas@.len() && k != l implies !(
                            #[trigger] areas@[k]).meets(#[trigger] areas@[l]) by {
                            if k == old_areas.len() {
                                assert(old_all[avoid@.len() + l] == areas@[l]);
                            } else if l == old_areas.len() {
                                assert(old_all[avoid@.len() + k] == areas@[k]);
                            }
                        }
                        assert forall|k: int, i: int|
                            0 <= k < areas@.len() && 0 <= i < avoid@.len() implies !(
                            #[trigger] areas@[k]).meets(#[trigger] avoid@[i]) by {
                            if k == old_areas.len() {
                                assert(old_all[i] == avoid@[i]);
                            }
                        }
                        assert forall|cx: int, cy: int|
                            bounds.min.x <= cx < x && bounds.min.y <= cy <= bounds.max.y
                                implies #[trigger] covered(all@, cx, cy) by {
                            lemma_covered_push(old_all, area, cx, cy);
                        }
                        assert forall|cy: int| bounds.min.y <= cy < max_y + 1 implies #[trigger] covered(
                            all@,
                            x as int,
                            cy,
                        ) by {
                            lemma_covered_push(old_all, area, x as int, cy);
                        }
                    }
                    y = max_y + 1;
                },
            }
        }
        x = x + 1;
    }
    proof {
        assert forall|cx: int, cy: int| bounds.has_cell(cx, cy) implies #[trigger] covered(
            areas@,
            cx,
            cy,
        ) || covered(avoid@, cx, cy) by {
            lemma_covered_append(avoid@, areas@, cx, cy);
        }
    }
    areas
}

/// A table in the middle of `aabr`, with a chair on each side of it whose
/// next cell is still in `aabr`.
pub fn table(aabr: Aabr) -> (r: Detail)
    requires
        aabr.valid(),
        aabr_in_plot_limit(aabr),
    ensures
        r matches Detail::Table { pos, chairs } && pos.x == aabr.min.x + aabr.width() / 2 && pos.y
            == aabr.min.y + aabr.height() / 2 && chairs@.len() <= 4 && (forall|k: int|
            0 <= k < chairs@.len() ==> aabr.has_cell(
                (#[trigger] chairs@[k]).next_x(pos),
                chairs@[k].next_y(pos),
            )) && (forall|d: Dir|
            aabr.has_cell(#[trigger] d.next_x(pos), d.next_y(pos)) ==> chairs@.contains(d)),
{
    let pos = aabr.center();
    let mut chairs: Vec<Dir> = Vec::new();
    let mut d: usize = 0;
    while d < 4
        invariant
            d <= 4,
            chairs@.len() <= d,
            aabr.has_cell(pos.x as int, pos.y as int),
            aabr_in_plot_limit(aabr),
            forall|k: int|
                0 <= k < chairs@.len() ==> aabr.has_cell(
                    (#[trigger] chairs@[k]).next_x(pos),
                    chairs@[k].next_y(pos),
                ),
            forall|k: int|
                0 <= k < d && aabr.has_cell(all_dirs()[k].next_x(pos), all_dirs()[k].next_y(pos))
                    ==> chairs@.contains(#[trigger] all_dirs()[k]),
        decreases 4 - d,
    {
        let dir = Dir::from_index(d);
        let ghost c0 = chairs@;
        if aabr.contains_point(dir.step(pos, 1)) {
            chairs.push(dir);
            assert(chairs@[chairs@.len() - 1] == dir);
        }
        proof {
            assert forall|x: Dir| c0.contains(x) implies chairs@.contains(x) by {
                let k = choose|k: int| 0 <= k < c0.len() && c0[k] == x;
                assert(chairs@[k] == x);
            }
        }
        d = d + 1;
    }
    proof {
        assert forall|x: Dir| aabr.has_cell(#[trigger] x.next_x(pos), x.next_y(pos)) implies chairs@.contains(x) by {
            match x {
                Dir::X => assert(all_dirs()[0] == x),
                Dir::Y => assert(all_dirs()[1] == x),
                Dir::NegX => assert(all_dirs()[2] == x),
                Dir::NegY => assert(all_dirs()[3] == x),
            }
        }
    }
    Detail::Table { pos, chairs }
}

/// Puts a table, with chance `num / den`, in each area wider than one cell;
/// returns the areas left.
fn place_tables(
    areas: Vec<Aabr>,
    details: &mut Vec<Detail>,
    num: u32,
    den: u32,
    bounds: Aabr,
    rng: &mut StdRng,
) -> (r: Vec<Aabr>)
    requires
        0 < den,
        num <= den,
        all_within(areas@, bounds),
        aabr_in_plot_limit(bounds),
    ensures
        r@.len() + final(details)@.len() == areas@.len() + old(details)@.len(),
        forall|k: int| 0 <= k < r@.len() ==> areas@.contains(#[trigger] r@[k]),
        final(details)@.len() >= old(details)@.len(),
        forall|k: int|
            0 <= k < old(details)@.len() ==> #[trigger] final(details)@[k] == old(details)@[k],
        forall|k: int|
            old(details)@.len() <= k < final(details)@.len() ==> #[trigger] final(details)@[k] is Table,
        forall|j: int|
            0 <= j < areas@.len() && (#[trigger] areas@[j]).width() <= 1 && areas@[j].height() <= 1
                ==> r@.contains(areas@[j]),
{
    let mut kept: Vec<Aabr> = Vec::new();
    let mut i: usize = 0;
    while i < areas.len()
        invariant
            0 < den,
            num <= den,
            i <= areas@.len(),
            all_within(areas@, bounds),
            aabr_in_plot_limit(bounds),
            kept@.len() + details@.len() == i + old(details)@.len(),
            forall|k: int| 0 <= k < kept@.len() ==> areas@.contains(#[trigger] kept@[k]),
            details@.len() >= old(details)@.len(),
            forall|k: int| 0 <= k < old(details)@.len() ==> #[trigger] details@[k] == old(details)@[k],
            forall|k: int| old(details)@.len() <= k < details@.len() ==> #[trigger] details@[k] is Table,
            forall|j: int|
                0 <= j < i && (#[trigger] areas@[j]).width() <= 1 && areas@[j].height() <= 1
                    ==> kept@.contains(areas@[j]),
        decreases areas@.len() - i,
    {
        let a = areas[i];
        let ghost k0 = kept@;
        assert(a.valid() && a.within(bounds));
        let size = a.size();
        let widest = if size.x > size.y {
            size.x
        } else {
            size.y
        };
        if widest > 1 && gen_ratio(rng, num, den) {
            details.push(table(a));
        } else {
            kept.push(a);
            assert(kept@.last() == areas@[i as int]);
            assert(kept@[kept@.len() - 1] == areas@[i as int]);
        }
        proof {
            assert forall|x: Aabr| k0.contains(x) implies kept@.contains(x) by {
                let k = choose|k: int| 0 <= k < k0.len() && k0[k] == x;
                assert(kept@[k] == x);
            }
        }
        i = i + 1;
    }
    kept
}

/// How many sides `a` shares with `room`.
pub open spec fn edge_count(a: Aabr, room: Aabr) -> int {
    (if a.max.x == room.max.x { 1int } else { 0 }) + (if a.max.y == room.max.y { 1int } else { 0 })
        + (if a.min.x == room.min.x { 1int } else { 0 }) + (if a.min.y == room.min.y {
        1int
    } else {
        0
    })
}

/// How an area suits a stage (`by_edges`: its area times the sides it shares
/// with the room) or a bar counter (its area, if it shares a side at all).
pub open spec fn area_score(a: Aabr, room: Aabr, by_edges: bool) -> int {
    if by_edges {
        edge_count(a, room) * a.area_of()
    } else if edge_count(a, room) > 0 {
        a.area_of()
    } else {
        0
    }
}

fn edges(aabr: &Aabr, room: &Aabr) -> (r: i64)
    ensures
        r == edge_count(*aabr, *room),
        0 <= r <= 4,
{
    let mut n: i64 = 0;
    if aabr.max.x == room.max.x {
        n = n + 1;
    }
    if aabr.max.y == room.max.y {
        n = n + 1;
    }
    if aabr.min.x == room.min.x {
        n = n + 1;
    }
    if aabr.min.y == room.min.y {
        n = n + 1;
    }
    n
}

/// The index of the area scoring highest (the first of equals), if any scores
/// above zero.
fn best_area(areas: &Vec<Aabr>, room: &Aabr, by_edges: bool) -> (r: Option<usize>)
    requires
        forall|i: int| 0 <= i < areas@.len() ==> (#[trigger] areas@[i]).wf(),
    ensures
        r matches Some(i) ==> i < areas@.len() && area_score(areas@[i as int], *room, by_edges) > 0
            && forall|j: int|
            0 <= j < areas@.len() ==> area_score(#[trigger] areas@[j], *room, by_edges)
                <= area_score(areas@[i as int], *room, by_edges),
        r is None ==> forall|j: int|
            0 <= j < areas@.len() ==> area_score(#[trigger] areas@[j], *room, by_edges) <= 0,
{
    let mut best: Option<usize> = None;
    let mut best_score: i64 = 0;
    let mut i: usize = 0;
    while i < areas.len()
        invariant
            i <= areas@.len(),
            forall|i: int| 0 <= i < areas@.len() ==> (#[trigger] areas@[i]).wf(),
            best is None ==> best_score == 0,
            best matches Some(b) ==> b < i && best_score == area_score(areas@[b as int], *room, by_edges)
                && best_score > 0,
            forall|j: int|
                0 <= j < i ==> area_score(#[trigger] areas@[j], *room, by_edges) <= best_score,
        decreases areas@.len() - i,
    {
        let a = areas[i];
        assert(areas@[i as int].wf());
        let e = edges(&a, room);
        let area = a.area();
        let score = if by_edges {
            assert(-4 * 4398046511104 <= e * area <= 4 * 4398046511104) by (nonlinear_arith)
                requires
                    0 <= e <= 4,
                    -4398046511104 <= area <= 4398046511104,
            ;
            e * area
        } else if e > 0 {
            area
        } else {
            0
        };
        assert(score == area_score(areas@[i as int], *room, by_edges));
        if best_score < score {
            best_score = score;
            best = Some(i);
        }
        i = i + 1;
    }
    best
}

/// Furnishes a room of kind `kind` with footprint `room` from its free
/// `areas`: gardens and seating get tables; a stage its platform on the best
/// area along its walls, then tables; a bar its counter likewise, then a few
/// tables. Cellars and entrances keep their areas. Returns the areas left and
/// the furniture; each area is either left or furnished.
pub fn furnish(kind: RoomKind, room: Aabr, areas: Vec<Aabr>, rng: &mut StdRng) -> (r: (
    Vec<Aabr>,
    Vec<Detail>,
))
    requires
        all_within(areas@, room),
        aabr_in_plot_limit(room),
    ensures
        r.0@.len() + r.1@.len() == areas@.len(),
        forall|k: int| 0 <= k < r.0@.len() ==> areas@.contains(#[trigger] r.0@[k]),
        (kind is Cellar || kind is Entrance) ==> r.0@ == areas@ && r.1@.len() == 0,
        (kind is Garden || kind is Seating) ==> forall|k: int| 0 <= k < r.1@.len() ==> #[trigger] r.1@[k] is Table,
        forall|j: int|
            0 <= j < areas@.len() && (#[trigger] areas@[j]).width() <= 1 && areas@[j].height() <= 1
                && !(kind is Stage || kind is Bar) ==> r.0@.contains(areas@[j]),
        (kind is Stage || kind is Bar) ==> ((exists|j: int|
            0 <= j < areas@.len() && area_score(#[trigger] areas@[j], room, kind is Stage) > 0)
            <==> (r.1@.len() > 0 && (r.1@[0] is Stage || r.1@[0] is Bar))),
        (kind is Stage || kind is Bar) && r.1@.len() > 0 && (r.1@[0] is Stage || r.1@[0] is Bar)
            ==> {
            let a = if r.1@[0] is Stage { r.1@[0]->Stage_aabr } else { r.1@[0]->Bar_aabr };
            &&& (r.1@[0] is Stage <==> kind is Stage)
            &&& areas@.contains(a)
            &&& forall|j: int|
                0 <= j < areas@.len() ==> area_score(#[trigger] areas@[j], room, kind is Stage)
                    <= area_score(a, room, kind is Stage)
        },
{
    let mut details: Vec<Detail> = Vec::new();
    match kind {
        RoomKind::Garden | RoomKind::Seating => {
            let kept = place_tables(areas, &mut details, 7, 10, room, rng);
            (kept, details)
        },
        RoomKind::Stage | RoomKind::Bar => {
            let by_edges = kind == RoomKind::Stage;
            let mut areas = areas;
            let ghost given = areas@;
            assert forall|i: int| 0 <= i < areas@.len() implies (#[trigger] areas@[i]).wf() by {
                assert(areas@[i].valid() && areas@[i].within(room));
            }
            let best = best_area(&areas, &room, by_edges);
            if let Some(i) = best {
                let aabr = areas.swap_remove(i);
                assert(aabr == given[i as int]);
                if by_edges {
                    details.push(Detail::Stage { aabr });
                } else {
                    details.push(Detail::Bar { aabr });
                }
                proof {
                    assert forall|k: int| 0 <= k < areas@.len() implies given.contains(
                        #[trigger] areas@[k],
                    ) && areas@[k].valid() && areas@[k].within(room) by {
                        if k == i {
                            assert(areas@[k] == given[given.len() - 1]);
                        } else {
                            assert(areas@[k] == given[k]);
                        }
                    }
                }
            }
            let (num, den) = if by_edges {
                (8, 10)
            } else {
                (1, 10)
            };
            let ghost mid = areas@;
            let ghost first = details@;
            let kept = place_tables(areas, &mut details, num, den, room, rng);
            proof {
                if best is None {
                    assert(first.len() == 0);
                    if details@.len() > 0 {
                        assert(details@[0] is Table);
                    }
                } else {
                    let i = best->Some_0 as int;
                    assert(first.len() == 1);
                    assert(details@[0] == first[0]);
                    assert(given.contains(given[i]));
                    assert(area_score(given[i], room, kind is Stage) > 0);
                    assert(details@[0] is Stage || details@[0] is Bar);
                }
                assert forall|k: int| 0 <= k < kept@.len() implies given.contains(
                    #[trigger] kept@[k],
                ) by {
                    assert(mid.contains(kept@[k]));
                    let j = choose|j: int| 0 <= j < mid.len() && mid[j] == kept@[k];
                    assert(given.contains(mid[j]));
                }
            }
            (kept, details)
        },
        RoomKind::Cellar | RoomKind::Entrance => (areas, details),
    }
}

} // verus!
