//! Roofs: each room not yet under a roof gets one, grown over the neighbouring
//! rooms of the same height, with a style drawn from those that suit it and a
//! stair down from the rooms above when it is the floor of other rooms.
use vstd::prelude::*;
use rand::rngs::StdRng;
use crate::dir::{Dir, all_dirs};
use crate::geom::{Aabb, Aabr, Vec2, Vec3};
use crate::growth::{Layout, Z_LIMIT, room_ok};
use crate::kind::{RoomKind, WEIGHT_ONE};
use crate::lottery::{Lottery, prefix};
use crate::place::{PLOT_LIMIT, aabr_in_plot_limit};
use crate::random::{gen_index, gen_seed};
use crate::structure::{Roof, RoofStyle, Stairs, Wall};

verus! {

/// Every room that `over` lists is a garden.
pub open spec fn all_gardens(kinds: Seq<RoomKind>, over: Seq<usize>) -> bool {
    forall|k: int| 0 <= k < over.len() ==> #[trigger] kinds[over[k] as int] is Garden
}

/// A roof sits right above the rooms it covers: it covers at least one, each
/// of them ends one below it (so it lies one above the highest), it only lists
/// rooms that exist, and its stair leads from a room it covers to one it floors.
pub open spec fn roof_ok(r: &Roof, rooms: Seq<Aabb>) -> bool {
    &&& r.over@.len() >= 1
    &&& (r.stairs matches Some(s) ==> stair_links(s, rooms, r.over@, r.under@))
    &&& forall|k: int|
        0 <= k < r.over@.len() ==> (#[trigger] r.over@[k]) < rooms.len() && rooms[r.over@[k] as int].max.z
            + 1 == r.min_z
    &&& forall|k: int| 0 <= k < r.under@.len() ==> (#[trigger] r.under@[k]) < rooms.len()
    &&& r.bounds.valid()
    &&& aabr_in_plot_limit(r.bounds)
}

/// Room `id` lies under a roof of `roofs` that covers it and its whole footprint.
pub open spec fn roofed(roofs: Seq<Roof>, rooms: Seq<Aabb>, id: int) -> bool {
    exists|i: int|
        0 <= i < roofs.len() && (#[trigger] roofs[i]).over@.contains(id as usize)
            && rooms[id].xy().within(roofs[i].bounds)
}

/// A roof's altitude is one above the highest top among the rooms it covers:
/// none of them reaches it, and the highest ends right below it.
pub proof fn lemma_roof_over_highest(r: &Roof, rooms: Seq<Aabb>)
    requires
        roof_ok(r, rooms),
    ensures
        forall|k: int|
            0 <= k < r.over@.len() ==> rooms[(#[trigger] r.over@[k]) as int].max.z < r.min_z,
        exists|k: int|
            0 <= k < r.over@.len() && rooms[(#[trigger] r.over@[k]) as int].max.z + 1 == r.min_z,
{
    assert(rooms[r.over@[0] as int].max.z + 1 == r.min_z);
}

fn lists_room(roof: &Roof, id: usize) -> (r: bool)
    ensures
        r == roof.over@.contains(id),
{
    let mut k: usize = 0;
    while k < roof.over.len()
        invariant
            k <= roof.over@.len(),
            forall|kk: int| 0 <= kk < k ==> roof.over@[kk] != id,
        decreases roof.over@.len() - k,
    {
        if roof.over[k] == id {
            assert(roof.over@[k as int] == id);
            return true;
        }
        k = k + 1;
    }
    false
}

/// Room `id`, with footprint `fp`, already lies wholly under a roof of `roofs`
/// that covers it.
pub fn covered_by_roof(roofs: &Vec<Roof>, id: usize, fp: Aabr) -> (r: bool)
    ensures
        r == exists|i: int|
            0 <= i < roofs@.len() && (#[trigger] roofs@[i]).over@.contains(id) && fp.within(
                roofs@[i].bounds,
            ),
{
    let mut i: usize = 0;
    while i < roofs.len()
        invariant
            i <= roofs@.len(),
            forall|ii: int|
                0 <= ii < i ==> !((#[trigger] roofs@[ii]).over@.contains(id) && fp.within(
                    roofs@[ii].bounds,
                )),
        decreases roofs@.len() - i,
    {
        if roofs[i].bounds.contains_aabr(&fp) && lists_room(&roofs[i], id) {
            assert(roofs@[i as int].over@.contains(id));
            return true;
        }
        i = i + 1;
    }
    false
}

/// The room `ra` lies next to side `dir` of `rb`, just past it, and spans
/// what `rb` spans across `dir` give or take two cells.
pub open spec fn abuts(rb: Aabr, ra: Aabr, dir: Dir) -> bool {
    &&& dir.side(rb) + dir.sign() == dir.opp().side(ra)
    &&& dir.orth().side(rb) <= dir.orth().side(ra) + 2
    &&& dir.orth().opp().side(rb) >= dir.orth().opp().side(ra) - 2
}

fn abuts_exec(rb: &Aabr, ra: &Aabr, dir: Dir, gap: i32) -> (r: bool)
    requires
        aabr_in_plot_limit(*rb),
        aabr_in_plot_limit(*ra),
        gap == 0 || gap == dir.sign(),
    ensures
        gap == dir.sign() ==> r == abuts(*rb, *ra, dir),
        gap == 0 ==> r == (dir.side(*rb) == dir.opp().side(*ra) && dir.orth().side(*rb)
            <= dir.orth().side(*ra) + 2 && dir.orth().opp().side(*rb) >= dir.orth().opp().side(
            *ra,
        ) - 2),
{
    let orth = dir.orthogonal();
    dir.select_aabr(rb) + gap == dir.opposite().select_aabr(ra) && orth.select_aabr(rb)
        <= orth.select_aabr(ra) + 2 && orth.opposite().select_aabr(rb) >= orth.opposite().select_aabr(
        ra,
    ) - 2
}

/// The first room whose top is one below `min_z` and that abuts side `dir` of `rb`.
fn find_abutting(layout: &Layout, plot: Aabr, rb: Aabr, min_z: i32, dir: Dir) -> (r: Option<usize>)
    requires
        layout.wf(plot),
        aabr_in_plot_limit(rb),
    ensures
        r matches Some(j) ==> j < layout.rooms@.len() && layout.rooms@[j as int].max.z + 1
            == min_z && abuts(rb, layout.rooms@[j as int].xy(), dir),
{
    let mut j: usize = 0;
    while j < layout.rooms.len()
        invariant
            layout.wf(plot),
            aabr_in_plot_limit(rb),
            j <= layout.rooms@.len(),
        decreases layout.rooms@.len() - j,
    {
        let other = layout.rooms[j];
        assert(room_ok(layout.rooms@[j as int], layout.kinds@[j as int], plot));
        let ra = other.footprint();
        if other.max.z + 1 == min_z && abuts_exec(&rb, &ra, dir, dir.signum()) {
            return Some(j);
        }
        j = j + 1;
    }
    None
}

/// Grows a roof from room `id`: its footprint widened by two, one above the
/// room's top, then pushed over each neighbour of the same top that abuts it
/// and is not under a roof yet, in directions drawn at random until none is
/// left. Returns the footprint, the altitude and the rooms covered.
pub fn grow_roof(layout: &Layout, plot: Aabr, roofs: &Vec<Roof>, id: usize, rng: &mut StdRng) -> (r: (
    Aabr,
    i32,
    Vec<usize>,
))
    requires
        layout.wf(plot),
        id < layout.rooms@.len(),
    ensures
        r.0.valid(),
        aabr_in_plot_limit(r.0),
        layout.rooms@[id as int].xy().within(r.0),
        r.1 == layout.rooms@[id as int].max.z + 1,
        r.2@.len() >= 1,
        r.2@[0] == id,
        forall|k: int|
            0 <= k < r.2@.len() ==> (#[trigger] r.2@[k]) < layout.rooms@.len()
                && layout.rooms@[r.2@[k] as int].max.z + 1 == r.1,
{
    let n = layout.rooms.len();
    let room = layout.rooms[id];
    assert(room_ok(layout.rooms@[id as int], layout.kinds@[id as int], plot));
    let min_z = room.max.z + 1;
    let mut rb = room.footprint().extend(2);
    let mut dirs: Vec<Dir> = vec![Dir::X, Dir::Y, Dir::NegX, Dir::NegY];
    let mut over: Vec<usize> = vec![id];
    assert forall|i: int| 0 <= i < layout.rooms@.len() implies aabr_in_plot_limit(
        #[trigger] layout.rooms@[i].xy(),
    ) && layout.rooms@[i].xy().valid() by {
        assert(room_ok(layout.rooms@[i], layout.kinds@[i], plot));
    }
    while dirs.len() > 0 && over.len() <= n
        invariant
            layout.wf(plot),
            n == layout.rooms@.len(),
            id < n,
            min_z == layout.rooms@[id as int].max.z + 1,
            forall|i: int|
                0 <= i < layout.rooms@.len() ==> aabr_in_plot_limit(
                    #[trigger] layout.rooms@[i].xy(),
                ) && layout.rooms@[i].xy().valid(),
            rb.valid(),
            aabr_in_plot_limit(rb),
            layout.rooms@[id as int].xy().within(rb),
            dirs@.len() <= 4,
            over@.len() >= 1,
            over@[0] == id,
            forall|k: int|
                0 <= k < over@.len() ==> (#[trigger] over@[k]) < n && layout.rooms@[over@[k] as int].max.z
                    + 1 == min_z,
        decreases (n + 1 - over@.len()) * 5 + dirs@.len(),
    {
        let k = gen_index(rng, dirs.len());
        let dir = dirs.swap_remove(k);
        if let Some(j) = find_abutting(layout, plot, rb, min_z, dir) {
            let ra = layout.rooms[j].footprint();
            assert(aabr_in_plot_limit(layout.rooms@[j as int].xy()));
            if !covered_by_roof(roofs, j, ra) {
                let size = ra.size();
                rb = dir.extend_aabr(&rb, dir.select(size));
                dirs.push(dir);
                over.push(j);
            }
        }
    }
    (rb, min_z, over)
}

/// Room `b` stands on a roof at altitude `min_z` over `rb`: its floor is one
/// above it and its footprint overlaps `rb` with a positive area.
pub open spec fn stands_on(b: Aabb, rb: Aabr, min_z: int) -> bool {
    b.min.z - 1 == min_z && b.max.x > rb.min.x && b.min.x < rb.max.x && b.max.y > rb.min.y
        && b.min.y < rb.max.y
}

/// The rooms with their floor one above the roof at altitude `min_z` over `rb`,
/// whose footprint overlaps it.
pub fn under_rooms(layout: &Layout, plot: Aabr, rb: Aabr, min_z: i32) -> (r: Vec<usize>)
    requires
        layout.wf(plot),
    ensures
        forall|k: int|
            0 <= k < r@.len() ==> (#[trigger] r@[k]) < layout.rooms@.len() && stands_on(
                layout.rooms@[r@[k] as int],
                rb,
                min_z as int,
            ),
        forall|i: int|
            0 <= i < layout.rooms@.len() && stands_on(#[trigger] layout.rooms@[i], rb, min_z as int)
                ==> r@.contains(i as usize),
{
    let mut under: Vec<usize> = Vec::new();
    let mut j: usize = 0;
    while j < layout.rooms.len()
        invariant
            layout.wf(plot),
            j <= layout.rooms@.len(),
            forall|k: int|
                0 <= k < under@.len() ==> (#[trigger] under@[k]) < layout.rooms@.len()
                    && stands_on(layout.rooms@[under@[k] as int], rb, min_z as int),
            forall|i: int|
                0 <= i < j && stands_on(#[trigger] layout.rooms@[i], rb, min_z as int)
                    ==> under@.contains(i as usize),
        decreases layout.rooms@.len() - j,
    {
        let other = layout.rooms[j];
        assert(room_ok(layout.rooms@[j as int], layout.kinds@[j as int], plot));
        let ghost before = under@;
        if other.min.z - 1 == min_z && other.footprint().collides_with_aabr(&rb) {
            under.push(j);
            assert(under@[under@.len() - 1] == j);
        }
        proof {
            assert forall|i: int|
                0 <= i < j + 1 && stands_on(#[trigger] layout.rooms@[i], rb, min_z as int)
                    implies under@.contains(i as usize) by {
                if i < j {
                    let k = choose|k: int| 0 <= k < before.len() && before[k] == i as usize;
                    assert(under@[k] == before[k]);
                }
            }
        }
        j = j + 1;
    }
    under
}

/// The top of the first room that rises above `min_z` right next to each
/// side of `rb` (in the order of `Dir::from_index`).
fn neighbour_tops(layout: &Layout, plot: Aabr, rb: Aabr, min_z: i32) -> (r: Vec<Option<i32>>)
    requires
        layout.wf(plot),
        aabr_in_plot_limit(rb),
    ensures
        r@.len() == 4,
        forall|d: int|
            0 <= d < 4 ==> (#[trigger] r@[d] matches Some(h) ==> min_z < h <= Z_LIMIT),
{
    let mut tops: Vec<Option<i32>> = Vec::new();
    let mut d: usize = 0;
    while d < 4
        invariant
            layout.wf(plot),
            aabr_in_plot_limit(rb),
            d <= 4,
            tops@.len() == d,
            forall|dd: int|
                0 <= dd < d ==> (#[trigger] tops@[dd] matches Some(h) ==> min_z < h <= Z_LIMIT),
        decreases 4 - d,
    {
        let dir = Dir::from_index(d);
        let mut found: Option<i32> = None;
        let mut j: usize = 0;
        while j < layout.rooms.len()
            invariant
                layout.wf(plot),
                aabr_in_plot_limit(rb),
                j <= layout.rooms@.len(),
                found matches Some(h) ==> min_z < h <= Z_LIMIT,
            decreases layout.rooms@.len() - j,
        {
            let other = layout.rooms[j];
            assert(room_ok(layout.rooms@[j as int], layout.kinds@[j as int], plot));
            if other.max.z > min_z && abuts_exec(&rb, &other.footprint(), dir, 0) {
                found = Some(other.max.z);
                break ;
            }
            j = j + 1;
        }
        tops.push(found);
        d = d + 1;
    }
    tops
}

/// Whether every room of `over` is a garden.
fn only_gardens(kinds: &Vec<RoomKind>, over: &Vec<usize>) -> (r: bool)
    requires
        forall|k: int| 0 <= k < over@.len() ==> (#[trigger] over@[k]) < kinds@.len(),
    ensures
        r == all_gardens(kinds@, over@),
{
    let mut k: usize = 0;
    while k < over.len()
        invariant
            k <= over@.len(),
            forall|kk: int| 0 <= kk < over@.len() ==> (#[trigger] over@[kk]) < kinds@.len(),
            forall|kk: int| 0 <= kk < k ==> #[trigger] kinds@[over@[kk] as int] is Garden,
        decreases over@.len() - k,
    {
        match kinds[over[k]] {
            RoomKind::Garden => {},
            _ => {
                return false;
            },
        }
        k = k + 1;
    }
    true
}

/// Adds `style` with weight `w` for every peak altitude in `lo..=hi`.
fn push_peaks(
    l: &mut Lottery<RoofStyle>,
    w: u32,
    lo: i32,
    hi: i32,
    gable: Option<Dir>,
    lean: Option<Dir>,
) requires
        old(l).wf(),
        old(l).items@.len() >= 1,
        -Z_LIMIT - 16 <= lo,
        hi <= Z_LIMIT + 16,
    ensures
        final(l).wf(),
        final(l).total >= old(l).total,
        final(l).items@.len() >= old(l).items@.len(),
        forall|i: int|
            0 <= i < old(l).items@.len() ==> final(l).items@[i] == old(l).items@[i]
                && final(l).weights@[i] == old(l).weights@[i],
        forall|i: int|
            old(l).items@.len() <= i < final(l).items@.len() ==> !(
            #[trigger] final(l).items@[i] is FlatBars),
{
    let mut z = lo;
    while z <= hi
        invariant
            l.wf(),
            l.total >= old(l).total,
            l.items@.len() >= old(l).items@.len(),
            forall|i: int|
                0 <= i < old(l).items@.len() ==> l.items@[i] == old(l).items@[i] && l.weights@[i]
                    == old(l).weights@[i],
            forall|i: int|
                old(l).items@.len() <= i < l.items@.len() ==> !(#[trigger] l.items@[i] is FlatBars),
            lo <= z,
            hi <= Z_LIMIT + 16,
        decreases hi + 1 - z,
    {
        let style = match gable {
            Some(dir) => RoofStyle::Gable { dir, max_z: z },
            None => match lean {
                Some(dir) => RoofStyle::LeanTo { dir, max_z: z },
                None => RoofStyle::Hip { max_z: z },
            },
        };
        l.push(w, style);
        z = z + 1;
    }
}

/// The styles a roof over `rb` at altitude `min_z`, covering the rooms `over`,
/// may take, with their weights. A roof that is the floor of other rooms is a
/// floor. Otherwise: flat; slatted along either axis when it covers gardens
/// only; gables along an axis with no taller room beside its long sides;
/// lean-tos towards a single taller neighbour; hips when no taller room is
/// beside it. Each peak altitude is an entry of its own.
pub fn style_lottery(
    layout: &Layout,
    plot: Aabr,
    rb: Aabr,
    min_z: i32,
    over: &Vec<usize>,
    has_under: bool,
) -> (r: Lottery<RoofStyle>)
    requires
        layout.wf(plot),
        aabr_in_plot_limit(rb),
        rb.valid(),
        -Z_LIMIT <= min_z <= Z_LIMIT + 1,
        forall|k: int| 0 <= k < over@.len() ==> (#[trigger] over@[k]) < layout.rooms@.len(),
    ensures
        r.wf(),
        r.total > 0,
        has_under ==> r.items@ == seq![RoofStyle::Floor],
        !has_under ==> r.offers(0) && r.items@[0] == RoofStyle::Flat,
        !has_under && all_gardens(layout.kinds@, over@) ==> r.offers(1) && r.items@[1]
            == (RoofStyle::FlatBars { dir: Dir::X }) && r.offers(2) && r.items@[2]
            == (RoofStyle::FlatBars { dir: Dir::Y }),
        forall|i: int|
            0 <= i < r.items@.len() && (#[trigger] r.items@[i] is FlatBars) ==> !has_under
                && all_gardens(layout.kinds@, over@),
{
    let mut l: Lottery<RoofStyle> = Lottery::new();
    if has_under {
        l.push(WEIGHT_ONE, RoofStyle::Floor);
        proof {
            reveal_with_fuel(prefix, 2);
        }
        assert(l.items@ == seq![RoofStyle::Floor]);
        return l;
    }
    l.push(WEIGHT_ONE / 2, RoofStyle::Flat);
    proof {
        reveal_with_fuel(prefix, 2);
    }
    assert(l.total == WEIGHT_ONE / 2);
    let gardens = only_gardens(&layout.kinds, over);
    if gardens {
        let size = rb.size();
        let w = if size.x > 1 {
            size.x as i64
        } else {
            1
        };
        let h = if size.y > 1 {
            size.y as i64
        } else {
            1
        };
        assert(5000000 * w <= 5000000 * 4194304 && 5000000 * h <= 5000000 * 4194304)
            by (nonlinear_arith)
            requires
                1 <= w <= 4194304,
                1 <= h <= 4194304,
        ;
        let wx = 5 * (WEIGHT_ONE as i64) * w / h;
        let wy = 5 * (WEIGHT_ONE as i64) * h / w;
        let wx = if wx < 1 {
            1
        } else if wx > 1000000000 {
            1000000000
        } else {
            wx
        };
        let wy = if wy < 1 {
            1
        } else if wy > 1000000000 {
            1000000000
        } else {
            wy
        };
        l.push(wx as u32, RoofStyle::FlatBars { dir: Dir::X });
        l.push(wy as u32, RoofStyle::FlatBars { dir: Dir::Y });
        assert(l.items@[1] == (RoofStyle::FlatBars { dir: Dir::X }) && l.weights@[1] > 0);
        assert(l.items@[2] == (RoofStyle::FlatBars { dir: Dir::Y }) && l.weights@[2] > 0);
    }
    let ghost base = l;
    let tops = neighbour_tops(layout, plot, rb, min_z);
    let size = rb.size();
    // Gables, along either axis.
    let mut a: usize = 0;
    while a < 2
        invariant
            a <= 2,
            l.wf(),
            l.total >= base.total,
            l.items@.len() >= base.items@.len(),
            base.items@.len() >= 1,
            forall|i: int|
                0 <= i < base.items@.len() ==> l.items@[i] == base.items@[i] && l.weights@[i]
                    == base.weights@[i],
            forall|i: int|
                base.items@.len() <= i < l.items@.len() ==> !(#[trigger] l.items@[i] is FlatBars),
            tops@.len() == 4,
            forall|d: int|
                0 <= d < 4 ==> (#[trigger] tops@[d] matches Some(h) ==> min_z < h <= Z_LIMIT),
            aabr_in_plot_limit(rb),
            size.x == rb.width(),
            size.y == rb.height(),
            rb.valid(),
            -Z_LIMIT <= min_z <= Z_LIMIT + 1,
        decreases 2 - a,
    {
        let dir = Dir::from_index(a);
        let orth = dir.orthogonal();
        if tops[orth.index()].is_none() && tops[orth.opposite().index()].is_none() {
            let half = orth.select(size) / 2 - 1;
            let peak = min_z + if half < 7 {
                half
            } else {
                7
            };
            let peak = match (tops[dir.index()], tops[dir.opposite().index()]) {
                (Some(p), Some(q)) => {
                    let low = if p < q {
                        p
                    } else {
                        q
                    };
                    if low >= min_z + 3 && low < peak {
                        Some(low)
                    } else {
                        Some(peak)
                    }
                },
                (None, None) => Some(peak),
                _ => None,
            };
            if let Some(peak) = peak {
                push_peaks(&mut l, WEIGHT_ONE, min_z + 3, peak, Some(dir), None);
            }
        }
        a = a + 1;
    }
    // Lean-tos, towards a single taller neighbour.
    let mut d: usize = 0;
    while d < 4
        invariant
            d <= 4,
            l.wf(),
            l.total >= base.total,
            l.items@.len() >= base.items@.len(),
            base.items@.len() >= 1,
            forall|i: int|
                0 <= i < base.items@.len() ==> l.items@[i] == base.items@[i] && l.weights@[i]
                    == base.weights@[i],
            forall|i: int|
                base.items@.len() <= i < l.items@.len() ==> !(#[trigger] l.items@[i] is FlatBars),
            tops@.len() == 4,
            forall|d: int|
                0 <= d < 4 ==> (#[trigger] tops@[d] matches Some(h) ==> min_z < h <= Z_LIMIT),
            -Z_LIMIT <= min_z <= Z_LIMIT + 1,
        decreases 4 - d,
    {
        let dir = Dir::from_index(d);
        if let Some(h) = tops[d] {
            if tops[dir.opposite().index()].is_none() {
                push_peaks(&mut l, WEIGHT_ONE, min_z + 2, h, None, Some(dir));
            }
        }
        d = d + 1;
    }
    // Hips, with no taller room on any side.
    if tops[0].is_none() && tops[1].is_none() && tops[2].is_none() && tops[3].is_none() {
        push_peaks(&mut l, WEIGHT_ONE / 5 * 4, min_z + 3, min_z + 7, None, None);
    }
    proof {
        assert(l.items@[0] == base.items@[0]);
        assert(l.weights@[0] == base.weights@[0]);
        if gardens {
            assert(l.items@[1] == base.items@[1]);
            assert(l.items@[2] == base.items@[2]);
            assert(l.weights@[1] == base.weights@[1]);
            assert(l.weights@[2] == base.weights@[2]);
        }
    }
    l
}

/// The stair `s` climbs from the floor of a room of `over` to the floor of a
/// room of `under`, within the footprint both share.
pub open spec fn stair_links(s: Stairs, rooms: Seq<Aabb>, over: Seq<usize>, under: Seq<usize>) -> bool {
    exists|a: int, b: int|
        0 <= a < over.len() && 0 <= b < under.len() && #[trigger] over[a] < rooms.len()
            && #[trigger] under[b] < rooms.len() && s.bounds.min.z == rooms[over[a] as int].min.z
            && s.bounds.max.z == rooms[under[b] as int].min.z - 1 && s.bounds.xy().within(
            rooms[over[a] as int].xy(),
        ) && s.bounds.xy().within(rooms[under[b] as int].xy())
}

/// The cells of the door `d` of wall `w`, as `Wall::door_bounds` gives them.
pub open spec fn door_rect(w: Wall, d: (i32, i32)) -> Aabr {
    if w.to_dir.on_x() {
        Aabr {
            min: Vec2 { x: w.start.x, y: (w.start.y + d.0) as i32 },
            max: Vec2 { x: w.start.x, y: (w.start.y + d.1) as i32 },
        }
    } else {
        Aabr {
            min: Vec2 { x: (w.start.x + d.0) as i32, y: w.start.y },
            max: Vec2 { x: (w.start.x + d.1) as i32, y: w.start.y },
        }
    }
}

/// Wall `w` belongs to room `a` or room `b`.
pub open spec fn wall_of_either(w: Wall, a: usize, b: usize) -> bool {
    (w.from matches Some(f) && (f == a || f == b)) || (w.to matches Some(t) && (t == a || t == b))
}

/// A door of a wall of room `a` or room `b` overlaps `test` with a positive area.
pub open spec fn door_blocked(walls: Seq<Wall>, a: usize, b: usize, test: Aabr) -> bool {
    exists|w: int|
        0 <= w < walls.len() && wall_of_either(#[trigger] walls[w], a, b) && (walls[w].door matches Some(
            d,
        ) && {
            let r = door_rect(walls[w], d);
            test.max.x > r.min.x && test.min.x < r.max.x && test.max.y > r.min.y && test.min.y
                < r.max.y
        })
}

/// Whether a door of a wall of room `a` or room `b` touches `test`.
fn door_near(layout: &Layout, plot: Aabr, a: usize, b: usize, test: Aabr) -> (r: bool)
    requires
        layout.wf(plot),
    ensures
        r == door_blocked(layout.walls@, a, b, test),
{
    let mut w: usize = 0;
    while w < layout.walls.len()
        invariant
            layout.wf(plot),
            w <= layout.walls@.len(),
            forall|v: int| 0 <= v < w ==> !(wall_of_either(#[trigger] layout.walls@[v], a, b) && (
            layout.walls@[v].door matches Some(d) && {
                let r = door_rect(layout.walls@[v], d);
                test.max.x > r.min.x && test.min.x < r.max.x && test.max.y > r.min.y
                    && test.min.y < r.max.y
            })),
        decreases layout.walls@.len() - w,
    {
        let wall = layout.walls[w];
        assert(layout.walls@[w as int].wf(layout.rooms@.len() as int));
        let of_room = match (wall.from, wall.to) {
            (Some(f), Some(t)) => f == a || f == b || t == a || t == b,
            (Some(f), None) => f == a || f == b,
            (None, Some(t)) => t == a || t == b,
            (None, None) => false,
        };
        if of_room {
            if let Some(db) = wall.door_bounds() {
                assert(db == door_rect(wall, wall.door->Some_0));
                if test.collides_with_aabr(&db) {
                    return true;
                }
            }
        }
        w = w + 1;
    }
    false
}

/// The sides of `mb` that `dir` may take for a stair's run: those against a
/// wall of either room.
pub open spec fn run_side(in_a: Aabr, to_a: Aabr, mb: Aabr, dir: Dir) -> bool {
    dir.side(in_a) == dir.side(mb) || dir.side(to_a) == dir.side(mb)
}

/// The stair from room `i` up to room `t` that runs along `dir` with its
/// width along `orth`, over the footprint both share: its footprint.
pub open spec fn stair_rect(rooms: Seq<Aabb>, i: usize, t: usize, dir: Dir, orth: Dir) -> Aabr {
    let mb = rooms[t as int].xy().meet(rooms[i as int].xy());
    let len = rooms[t as int].min.z - 1 - rooms[i as int].min.z;
    let size = Vec2 { x: mb.width() as i32, y: mb.height() as i32 };
    let run = dir.pushed(mb, -(dir.pick(size) - len));
    orth.pushed(run, -(orth.pick(size) - 1))
}

/// There is such a stair: the shared footprint is wider than the climb, both
/// directions are run sides on different axes, and the stair is clear of the
/// doors of both rooms.
pub open spec fn stair_fits(rooms: Seq<Aabb>, walls: Seq<Wall>, i: usize, t: usize, dir: Dir, orth: Dir) -> bool {
    let mb = rooms[t as int].xy().meet(rooms[i as int].xy());
    let len = rooms[t as int].min.z - 1 - rooms[i as int].min.z;
    let size = Vec2 { x: mb.width() as i32, y: mb.height() as i32 };
    let run = dir.pushed(mb, -(dir.pick(size) - len));
    let sa = stair_rect(rooms, i, t, dir, orth);
    &&& mb.valid()
    &&& mb.min_side() > len
    &&& run_side(rooms[i as int].xy(), rooms[t as int].xy(), mb, dir)
    &&& run_side(rooms[i as int].xy(), rooms[t as int].xy(), mb, orth)
    &&& orth.on_x() != dir.on_x()
    &&& aabr_in_plot_limit(run)
    &&& sa.valid()
    &&& aabr_in_plot_limit(sa)
    &&& !door_blocked(
        walls,
        i,
        t,
        Aabr {
            min: Vec2 { x: (sa.min.x - 1) as i32, y: (sa.min.y - 1) as i32 },
            max: Vec2 { x: (sa.max.x - 1) as i32, y: (sa.max.y - 1) as i32 },
        },
    )
}

/// The stair from room `i` up to room `t` running along `dir` with its width
/// along `orth`, where it fits.
#[verifier::rlimit(100)]
fn stair_candidate(layout: &Layout, plot: Aabr, i: usize, t: usize, dir: Dir, orth: Dir) -> (r: Option<Stairs>)
    requires
        layout.wf(plot),
        i < layout.rooms@.len(),
        t < layout.rooms@.len(),
    ensures
        r is Some <==> stair_fits(layout.rooms@, layout.walls@, i, t, dir, orth),
        r matches Some(s) ==> {
            &&& s.bounds.xy() == stair_rect(layout.rooms@, i, t, dir, orth)
            &&& s.bounds.min.z == layout.rooms@[i as int].min.z
            &&& s.bounds.max.z == layout.rooms@[t as int].min.z - 1
            &&& s.bounds.xy().within(layout.rooms@[i as int].xy())
            &&& s.bounds.xy().within(layout.rooms@[t as int].xy())
            &&& s.dir == dir
        },
{
    let ib = layout.rooms[i];
    let tb = layout.rooms[t];
    assert(room_ok(layout.rooms@[i as int], layout.kinds@[i as int], plot));
    assert(room_ok(layout.rooms@[t as int], layout.kinds@[t as int], plot));
    let in_a = ib.footprint();
    let to_a = tb.footprint();
    let mb = to_a.intersection(&in_a);
    let stair_length = tb.min.z - 1 - ib.min.z;
    if !(mb.is_valid() && mb.shortest_side() > stair_length) {
        return None;
    }
    let dir_ok = dir.select_aabr(&in_a) == dir.select_aabr(&mb) || dir.select_aabr(&to_a)
        == dir.select_aabr(&mb);
    let orth_ok = orth.select_aabr(&in_a) == orth.select_aabr(&mb) || orth.select_aabr(&to_a)
        == orth.select_aabr(&mb);
    if !(dir_ok && orth_ok && orth.is_x() != dir.is_x()) {
        return None;
    }
    let size = mb.size();
    // Trim the shared footprint to the stair's run and its width of two.
    let run = dir.extend_aabr(&mb, -(dir.select(size) - stair_length));
    if !aabr_in_plot_limit_exec(&run) {
        return None;
    }
    let sa = orth.extend_aabr(&run, -(orth.select(size) - 1));
    if !(sa.is_valid() && aabr_in_plot_limit_exec(&sa)) {
        return None;
    }
    let test = Aabr {
        min: Vec2 { x: sa.min.x - 1, y: sa.min.y - 1 },
        max: Vec2 { x: sa.max.x - 1, y: sa.max.y - 1 },
    };
    if door_near(layout, plot, i, t, test) {
        return None;
    }
    assert(sa.within(mb));
    Some(
        Stairs {
            bounds: Aabb {
                min: Vec3 { x: sa.min.x, y: sa.min.y, z: ib.min.z },
                max: Vec3 { x: sa.max.x, y: sa.max.y, z: tb.min.z - 1 },
            },
            dir,
        },
    )
}

/// Some room of `over` and some room of `under` have a stair between them.
pub open spec fn some_stair_fits(rooms: Seq<Aabb>, walls: Seq<Wall>, over: Seq<usize>, under: Seq<usize>) -> bool {
    exists|o: int, t: int, dir: Dir, orth: Dir|
        0 <= o < over.len() && 0 <= t < under.len() && #[trigger] stair_fits(
            rooms,
            walls,
            over[o],
            under[t],
            dir,
            orth,
        )
}

/// The stairs from a room of `over` up to a room of `under` (whose floor the
/// roof is): over the footprint both share, wider than the climb, running
/// along a side of it against a wall of either room, with its width along
/// another such side, clear of every door of both rooms. One of them is
/// drawn; `None` exactly where there is none.
pub fn find_stairs(
    layout: &Layout,
    plot: Aabr,
    over: &Vec<usize>,
    under: &Vec<usize>,
    rng: &mut StdRng,
) -> (r: Option<Stairs>)
    requires
        layout.wf(plot),
        forall|k: int| 0 <= k < over@.len() ==> (#[trigger] over@[k]) < layout.rooms@.len(),
        forall|k: int| 0 <= k < under@.len() ==> (#[trigger] under@[k]) < layout.rooms@.len(),
    ensures
        r matches Some(s) ==> s.bounds.xy().valid() && stair_links(
            s,
            layout.rooms@,
            over@,
            under@,
        ),
        r is None <==> !some_stair_fits(layout.rooms@, layout.walls@, over@, under@),
{
    let mut cands: Vec<Stairs> = Vec::new();
    let mut t: usize = 0;
    while t < under.len()
        invariant
            layout.wf(plot),
            t <= under@.len(),
            forall|k: int| 0 <= k < over@.len() ==> (#[trigger] over@[k]) < layout.rooms@.len(),
            forall|k: int| 0 <= k < under@.len() ==> (#[trigger] under@[k]) < layout.rooms@.len(),
            forall|k: int|
                0 <= k < cands@.len() ==> (#[trigger] cands@[k]).bounds.xy().valid() && stair_links(
                    cands@[k],
                    layout.rooms@,
                    over@,
                    under@,
                ),
            cands@.len() > 0 ==> some_stair_fits(layout.rooms@, layout.walls@, over@, under@),
            cands@.len() == 0 ==> forall|o: int, tt: int, dir: Dir, orth: Dir|
                0 <= o < over@.len() && 0 <= tt < t ==> !#[trigger] stair_fits(
                    layout.rooms@,
                    layout.walls@,
                    over@[o],
                    under@[tt],
                    dir,
                    orth,
                ),
        decreases under@.len() - t,
    {
        let to_room = under[t];
        let mut o: usize = 0;
        while o < over.len()
            invariant
                layout.wf(plot),
                o <= over@.len(),
                t < under@.len(),
                to_room == under@[t as int],
                forall|k: int| 0 <= k < over@.len() ==> (#[trigger] over@[k]) < layout.rooms@.len(),
                forall|k: int| 0 <= k < under@.len() ==> (#[trigger] under@[k]) < layout.rooms@.len(),
                forall|k: int|
                    0 <= k < cands@.len() ==> (#[trigger] cands@[k]).bounds.xy().valid()
                        && stair_links(cands@[k], layout.rooms@, over@, under@),
                cands@.len() > 0 ==> some_stair_fits(layout.rooms@, layout.walls@, over@, under@),
                cands@.len() == 0 ==> forall|oo: int, tt: int, dir: Dir, orth: Dir|
                    0 <= oo < over@.len() && 0 <= tt < t ==> !#[trigger] stair_fits(
                        layout.rooms@,
                        layout.walls@,
                        over@[oo],
                        under@[tt],
                        dir,
                        orth,
                    ),
                cands@.len() == 0 ==> forall|oo: int, dir: Dir, orth: Dir|
                    0 <= oo < o ==> !#[trigger] stair_fits(
                        layout.rooms@,
                        layout.walls@,
                        over@[oo],
                        to_room,
                        dir,
                        orth,
                    ),
            decreases over@.len() - o,
        {
            let in_room = over[o];
            let mut x: usize = 0;
            while x < 4
                invariant
                    layout.wf(plot),
                    x <= 4,
                    t < under@.len(),
                    o < over@.len(),
                    to_room == under@[t as int],
                    in_room == over@[o as int],
                    forall|k: int| 0 <= k < over@.len() ==> (#[trigger] over@[k]) < layout.rooms@.len(),
                    forall|k: int| 0 <= k < under@.len() ==> (#[trigger] under@[k]) < layout.rooms@.len(),
                    forall|k: int|
                        0 <= k < cands@.len() ==> (#[trigger] cands@[k]).bounds.xy().valid()
                            && stair_links(cands@[k], layout.rooms@, over@, under@),
                    cands@.len() > 0 ==> some_stair_fits(layout.rooms@, layout.walls@, over@, under@),
                    cands@.len() == 0 ==> forall|oo: int, tt: int, dir: Dir, orth: Dir|
                        0 <= oo < over@.len() && 0 <= tt < t ==> !#[trigger] stair_fits(
                            layout.rooms@,
                            layout.walls@,
                            over@[oo],
                            under@[tt],
                            dir,
                            orth,
                        ),
                    cands@.len() == 0 ==> forall|oo: int, dir: Dir, orth: Dir|
                        0 <= oo < o ==> !#[trigger] stair_fits(
                            layout.rooms@,
                            layout.walls@,
                            over@[oo],
                            to_room,
                            dir,
                            orth,
                        ),
                    cands@.len() == 0 ==> forall|xx: int, orth: Dir|
                        0 <= xx < x ==> !#[trigger] stair_fits(
                            layout.rooms@,
                            layout.walls@,
                            in_room,
                            to_room,
                            all_dirs()[xx],
                            orth,
                        ),
                decreases 4 - x,
            {
                let dir = Dir::from_index(x);
                let mut y: usize = 0;
                while y < 4
                    invariant
                        layout.wf(plot),
                        x < 4,
                        y <= 4,
                        dir == all_dirs()[x as int],
                        t < under@.len(),
                        o < over@.len(),
                        to_room == under@[t as int],
                        in_room == over@[o as int],
                        forall|k: int| 0 <= k < over@.len() ==> (#[trigger] over@[k]) < layout.rooms@.len(),
                        forall|k: int| 0 <= k < under@.len() ==> (#[trigger] under@[k]) < layout.rooms@.len(),
                        forall|k: int|
                            0 <= k < cands@.len() ==> (#[trigger] cands@[k]).bounds.xy().valid()
                                && stair_links(cands@[k], layout.rooms@, over@, under@),
                        cands@.len() > 0 ==> some_stair_fits(layout.rooms@, layout.walls@, over@, under@),
                        cands@.len() == 0 ==> forall|oo: int, tt: int, dir: Dir, orth: Dir|
                            0 <= oo < over@.len() && 0 <= tt < t ==> !#[trigger] stair_fits(
                                layout.rooms@,
                                layout.walls@,
                                over@[oo],
                                under@[tt],
                                dir,
                                orth,
                            ),
                        cands@.len() == 0 ==> forall|oo: int, dir: Dir, orth: Dir|
                            0 <= oo < o ==> !#[trigger] stair_fits(
                                layout.rooms@,
                                layout.walls@,
                                over@[oo],
                                to_room,
                                dir,
                                orth,
                            ),
                        cands@.len() == 0 ==> forall|xx: int, orth: Dir|
                            0 <= xx < x ==> !#[trigger] stair_fits(
                                layout.rooms@,
                                layout.walls@,
                                in_room,
                                to_room,
                                all_dirs()[xx],
                                orth,
                            ),
                        cands@.len() == 0 ==> forall|yy: int|
                            0 <= yy < y ==> !#[trigger] stair_fits(
                                layout.rooms@,
                                layout.walls@,
                                in_room,
                                to_room,
                                dir,
                                all_dirs()[yy],
                            ),
                    decreases 4 - y,
                {
                    let orth = Dir::from_index(y);
                    if let Some(st) = stair_candidate(layout, plot, in_room, to_room, dir, orth) {
                        proof {
                            assert(stair_fits(layout.rooms@, layout.walls@, over@[o as int], under@[t as int], dir, orth));
                            assert(stair_links(st, layout.rooms@, over@, under@)) by {
                                assert(over@[o as int] < layout.rooms@.len());
                                assert(under@[t as int] < layout.rooms@.len());
                            }
                        }
                        cands.push(st);
                    }
                    y = y + 1;
                }
                proof {
                    if cands@.len() == 0 {
                        assert forall|orth: Dir| !#[trigger] stair_fits(
                            layout.rooms@,
                            layout.walls@,
                            in_room,
                            to_room,
                            dir,
                            orth,
                        ) by {
                            match orth {
                                Dir::X => assert(all_dirs()[0] == orth),
                                Dir::Y => assert(all_dirs()[1] == orth),
                                Dir::NegX => assert(all_dirs()[2] == orth),
                                Dir::NegY => assert(all_dirs()[3] == orth),
                            }
                        }
                    }
                }
                x = x + 1;
            }
            proof {
                if cands@.len() == 0 {
                    assert forall|dir: Dir, orth: Dir| !#[trigger] stair_fits(
                        layout.rooms@,
                        layout.walls@,
                        in_room,
                        to_room,
                        dir,
                        orth,
                    ) by {
                        match dir {
                            Dir::X => assert(all_dirs()[0] == dir),
                            Dir::Y => assert(all_dirs()[1] == dir),
                            Dir::NegX => assert(all_dirs()[2] == dir),
                            Dir::NegY => assert(all_dirs()[3] == dir),
                        }
                    }
                }
            }
            o = o + 1;
        }
        t = t + 1;
    }
    if cands.len() == 0 {
        None
    } else {
        let k = gen_index(rng, cands.len());
        Some(cands[k])
    }
}

fn aabr_in_plot_limit_exec(a: &Aabr) -> (r: bool)
    ensures
        r == aabr_in_plot_limit(*a),
{
    -PLOT_LIMIT <= a.min.x && a.min.x <= PLOT_LIMIT && -PLOT_LIMIT <= a.min.y && a.min.y
        <= PLOT_LIMIT && -PLOT_LIMIT <= a.max.x && a.max.x <= PLOT_LIMIT && -PLOT_LIMIT
        <= a.max.y && a.max.y <= PLOT_LIMIT
}

/// Roofs every room: a room not yet wholly under a roof starts a new one.
pub fn assign_roofs(layout: &Layout, plot: Aabr, rng: &mut StdRng) -> (r: Vec<Roof>)
    requires
        layout.wf(plot),
    ensures
        forall|i: int| 0 <= i < r@.len() ==> roof_ok(&#[trigger] r@[i], layout.rooms@),
        forall|id: int| 0 <= id < layout.rooms@.len() ==> #[trigger] roofed(r@, layout.rooms@, id),
        forall|i: int|
            0 <= i < r@.len() && (#[trigger] r@[i]).style is FlatBars ==> r@[i].under@.len() == 0
                && all_gardens(layout.kinds@, r@[i].over@),
        forall|i: int|
            0 <= i < r@.len() && (#[trigger] r@[i]).under@.len() > 0 ==> r@[i].style
                == RoofStyle::Floor,
{
    let mut roofs: Vec<Roof> = Vec::new();
    let mut id: usize = 0;
    while id < layout.rooms.len()
        invariant
            layout.wf(plot),
            id <= layout.rooms@.len(),
            forall|i: int| 0 <= i < roofs@.len() ==> roof_ok(&#[trigger] roofs@[i], layout.rooms@),
            forall|j: int| 0 <= j < id ==> #[trigger] roofed(roofs@, layout.rooms@, j),
            forall|i: int|
                0 <= i < roofs@.len() && (#[trigger] roofs@[i]).style is FlatBars
                    ==> roofs@[i].under@.len() == 0 && all_gardens(layout.kinds@, roofs@[i].over@),
            forall|i: int|
                0 <= i < roofs@.len() && (#[trigger] roofs@[i]).under@.len() > 0 ==> roofs@[i].style
                    == RoofStyle::Floor,
        decreases layout.rooms@.len() - id,
    {
        assert(room_ok(layout.rooms@[id as int], layout.kinds@[id as int], plot));
        let fp = layout.rooms[id].footprint();
        if !covered_by_roof(&roofs, id, fp) {
            let (rb, min_z, over) = grow_roof(layout, plot, &roofs, id, rng);
            let under = under_rooms(layout, plot, rb, min_z);
            let lottery = style_lottery(layout, plot, rb, min_z, &over, under.len() > 0);
            let stairs = find_stairs(layout, plot, &over, &under, rng);
            let style = lottery.choose_seeded(gen_seed(rng));
            let roof = Roof { bounds: rb, min_z, style, stairs, over, under };
            assert(roof_ok(&roof, layout.rooms@));
            let ghost before = roofs@;
            roofs.push(roof);
            proof {
                assert forall|j: int| 0 <= j < id + 1 implies #[trigger] roofed(
                    roofs@,
                    layout.rooms@,
                    j,
                ) by {
                    if j < id {
                        assert(roofed(before, layout.rooms@, j));
                        let i = choose|i: int|
                            0 <= i < before.len() && (#[trigger] before[i]).over@.contains(
                                j as usize,
                            ) && layout.rooms@[j].xy().within(before[i].bounds);
                        assert(roofs@[i] == before[i]);
                    } else {
                        let last = roofs@.len() - 1;
                        assert(roofs@[last].over@[0] == id);
                        assert(roofs@[last].over@.contains(id));
                    }
                }
            }
        } else {
            proof {
                assert(layout.rooms@[id as int].xy() == fp);
                assert(roofed(roofs@, layout.rooms@, id as int));
            }
        }
        id = id + 1;
    }
    roofs
}

} // verus!
