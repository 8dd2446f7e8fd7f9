//! Completing the walls: every side of every room gets walls along its whole
//! length, shared with a neighbouring room (sometimes with a door) or facing out.
use vstd::prelude::*;
use rand::rngs::StdRng;
use crate::dir::Dir;
use crate::geom::{Aabr, Vec2, imax, imin};
use crate::growth::{Layout, plot_ok, room_ok};
use crate::place::PLOT_LIMIT;
use crate::random::{gen_between, gen_ratio};
use crate::structure::Wall;

verus! {

/// A set of room indices, kept in hashbrown's `HashSet`.
#[verifier::external_body]
pub struct RoomSet {
    inner: hashbrown::HashSet<usize>,
}

/// The indices a `RoomSet` holds.
pub uninterp spec fn room_set_items(s: RoomSet) -> Set<usize>;

/// Relies on hashbrown's `HashSet::new`: an empty set.
#[verifier::external_body]
fn room_set_new() -> (r: RoomSet)
    ensures
        room_set_items(r) == Set::<usize>::empty(),
{
    RoomSet { inner: hashbrown::HashSet::new() }
}

/// Relies on hashbrown's `HashSet::insert`: afterwards the set also holds `v`.
#[verifier::external_body]
fn room_set_insert(s: &mut RoomSet, v: usize)
    ensures
        room_set_items(*final(s)) == room_set_items(*old(s)).insert(v),
{
    s.inner.insert(v);
}

/// Relies on hashbrown's `HashSet::contains`: whether the set holds `v`.
#[verifier::external_body]
fn room_set_contains(s: &RoomSet, v: usize) -> (r: bool)
    ensures
        r == room_set_items(*s).contains(v),
{
    s.inner.contains(&v)
}

/// A run of cells `lo..=hi` of the side of a room that `dir` faces.
pub type Span = (Dir, i32, i32);

pub open spec fn span_has(s: Span, d: Dir, c: int) -> bool {
    s.0 == d && s.1 <= c <= s.2
}

/// Some span of `spans` holds cell `c` of side `d`.
pub open spec fn spans_have(spans: Seq<Span>, d: Dir, c: int) -> bool {
    exists|i: int| 0 <= i < spans.len() && #[trigger] span_has(spans[i], d, c)
}

pub open spec fn spans_in_limit(spans: Seq<Span>) -> bool {
    forall|i: int|
        0 <= i < spans.len() ==> -PLOT_LIMIT <= (#[trigger] spans[i]).1 <= spans[i].2
            <= PLOT_LIMIT
}

proof fn lemma_spans_push(s: Seq<Span>, x: Span, d: Dir, c: int)
    ensures
        spans_have(s.push(x), d, c) == (spans_have(s, d, c) || span_has(x, d, c)),
{
    if spans_have(s, d, c) {
        let i = choose|i: int| 0 <= i < s.len() && #[trigger] span_has(s[i], d, c);
        assert(s.push(x)[i] == s[i]);
    }
    if span_has(x, d, c) {
        assert(s.push(x)[s.len() as int] == x);
    }
    if spans_have(s.push(x), d, c) {
        let i = choose|i: int| 0 <= i < s.len() + 1 && #[trigger] span_has(s.push(x)[i], d, c);
        if i < s.len() {
            assert(s[i] == s.push(x)[i]);
        }
    }
}

proof fn lemma_spans_append(a: Seq<Span>, b: Seq<Span>, d: Dir, c: int)
    ensures
        spans_have(a + b, d, c) == (spans_have(a, d, c) || spans_have(b, d, c)),
{
    if spans_have(a, d, c) {
        let i = choose|i: int| 0 <= i < a.len() && #[trigger] span_has(a[i], d, c);
        assert((a + b)[i] == a[i]);
    }
    if spans_have(b, d, c) {
        let i = choose|i: int| 0 <= i < b.len() && #[trigger] span_has(b[i], d, c);
        assert((a + b)[a.len() + i] == b[i]);
    }
    if spans_have(a + b, d, c) {
        let i = choose|i: int| 0 <= i < a.len() + b.len() && #[trigger] span_has((a + b)[i], d, c);
        if i < a.len() {
            assert(a[i] == (a + b)[i]);
        } else {
            assert(b[i - a.len()] == (a + b)[i]);
        }
    }
}

/// Takes the cells `min..=max` of side `dir` out of `spans`: a span that holds
/// some of them shrinks, or splits in two (the upper part goes last).
pub fn split_range(spans: &Vec<Span>, dir: Dir, min: i32, max: i32) -> (r: Vec<Span>)
    requires
        spans_in_limit(spans@),
    ensures
        spans_in_limit(r@),
        forall|d: Dir, c: int|
            #[trigger] spans_have(r@, d, c) == (spans_have(spans@, d, c) && !(d == dir && min <= c
                <= max)),
{
    let mut out: Vec<Span> = Vec::new();
    let mut extra: Vec<Span> = Vec::new();
    let mut i: usize = 0;
    while i < spans.len()
        invariant
            i <= spans@.len(),
            spans_in_limit(spans@),
            spans_in_limit(out@),
            spans_in_limit(extra@),
            forall|d: Dir, c: int|
                (spans_have(out@, d, c) || spans_have(extra@, d, c)) == (spans_have(
                    spans@.take(i as int),
                    d,
                    c,
                ) && !(d == dir && min <= c <= max)),
        decreases spans@.len() - i,
    {
        let (d, lo, hi) = spans[i];
        let ghost old_out = out@;
        let ghost old_extra = extra@;
        if d != dir || !(lo <= max && hi >= min) {
            out.push((d, lo, hi));
        } else if lo >= min && hi <= max {
        } else if lo >= min {
            out.push((d, max + 1, hi));
        } else if hi <= max {
            out.push((d, lo, min - 1));
        } else {
            out.push((d, lo, min - 1));
            extra.push((d, max + 1, hi));
        }
        proof {
            assert(spans@.take(i + 1) == spans@.take(i as int).push(spans@[i as int]));
            assert forall|dd: Dir, c: int|
                (spans_have(out@, dd, c) || spans_have(extra@, dd, c)) == (spans_have(
                    spans@.take(i + 1),
                    dd,
                    c,
                ) && !(dd == dir && min <= c <= max)) by {
                lemma_spans_push(spans@.take(i as int), spans@[i as int], dd, c);
                if out@.len() > old_out.len() {
                    lemma_spans_push(old_out, out@.last(), dd, c);
                    assert(out@ == old_out.push(out@.last()));
                } else {
                    assert(out@ == old_out);
                }
                if extra@.len() > old_extra.len() {
                    lemma_spans_push(old_extra, extra@.last(), dd, c);
                    assert(extra@ == old_extra.push(extra@.last()));
                } else {
                    assert(extra@ == old_extra);
                }
            }
        }
        i = i + 1;
    }
    let mut r = out;
    let ghost r0 = r@;
    let mut extra = extra;
    let ghost e0 = extra@;
    r.append(&mut extra);
    proof {
        assert(spans@.take(spans@.len() as int) == spans@);
        assert forall|d: Dir, c: int|
            #[trigger] spans_have(r@, d, c) == (spans_have(spans@, d, c) && !(d == dir && min <= c
                <= max)) by {
            lemma_spans_append(r0, e0, d, c);
        }
        assert forall|i: int|
            0 <= i < r@.len() implies -PLOT_LIMIT <= (#[trigger] r@[i]).1 <= r@[i].2
            <= PLOT_LIMIT by {
            if i < r0.len() {
                assert(r@[i] == r0[i]);
            } else {
                assert(r@[i] == e0[i - r0.len()]);
            }
        }
    }
    r
}

/// `w` is a wall of room `id` on its side `dir`.
pub open spec fn wall_of(w: Wall, id: usize, dir: Dir) -> bool {
    (w.from == Some(id) && w.to_dir == dir) || (w.to == Some(id) && w.to_dir == dir.opp())
}

/// Cell `c` lies along the side of `b` that `d` faces.
pub open spec fn on_side(b: Aabr, d: Dir, c: int) -> bool {
    d.orth().pick(b.min) <= c <= d.orth().pick(b.max)
}

/// `w` is a wall of room `id` on its side `d`, and spans cell `c` of that
/// side between its two ends.
pub open spec fn wall_spans(w: Wall, id: usize, d: Dir, c: int) -> bool {
    &&& wall_of(w, id, d)
    &&& imin(d.orth().pick(w.start), d.orth().pick(w.end)) < c < imax(
        d.orth().pick(w.start),
        d.orth().pick(w.end),
    )
}

/// Some wall of `walls` spans cell `c` of side `d` of room `id`.
pub open spec fn side_walled(walls: Seq<Wall>, id: usize, d: Dir, c: int) -> bool {
    exists|w: int| 0 <= w < walls.len() && #[trigger] wall_spans(walls[w], id, d, c)
}

/// Every cell along every side of room `id`, with footprint `b`, is spanned
/// by one of its walls.
pub open spec fn sides_walled(walls: Seq<Wall>, id: usize, b: Aabr) -> bool {
    forall|d: Dir, c: int| #[trigger] on_side(b, d, c) ==> side_walled(walls, id, d, c)
}

proof fn lemma_walled_grows(walls: Seq<Wall>, more: Seq<Wall>, id: usize, d: Dir, c: int)
    requires
        more.len() >= walls.len(),
        forall|i: int| 0 <= i < walls.len() ==> more[i] == walls[i],
        side_walled(walls, id, d, c),
    ensures
        side_walled(more, id, d, c),
{
    let w = choose|w: int| 0 <= w < walls.len() && #[trigger] wall_spans(walls[w], id, d, c);
    assert(wall_spans(more[w], id, d, c));
}

pub fn is_wall_of(w: &Wall, id: usize, dir: Dir) -> (r: bool)
    ensures
        r == wall_of(*w, id, dir),
{
    let from_side = match w.from {
        Some(f) => f == id && w.to_dir == dir,
        None => false,
    };
    let to_side = match w.to {
        Some(t) => t == id && w.to_dir == dir.opposite(),
        None => false,
    };
    from_side || to_side
}

/// The wall that room `from_id` shares with room `to_id`, if their altitude
/// ranges overlap and their footprints face each other across a gap of at most
/// one cell. It carries a door (with chance four in five) when the contact is
/// wider than two cells, the shared height more than three and the floors
/// less than four apart. Also takes the contact out of `spans`.
fn neighbour_wall(
    layout: &Layout,
    plot: Aabr,
    from_id: usize,
    to_id: usize,
    spans: &mut Vec<Span>,
    rng: &mut StdRng,
) -> (r: Option<Wall>)
    requires
        layout.wf(plot),
        from_id < layout.rooms@.len(),
        to_id < layout.rooms@.len(),
        spans_in_limit(old(spans)@),
    ensures
        spans_in_limit(final(spans)@),
        r is None ==> final(spans)@ == old(spans)@,
        r matches Some(w) ==> w.wf(layout.rooms@.len() as int) && w.from == Some(from_id) && w.to
            == Some(to_id),
        r matches Some(w) ==> forall|d: Dir, c: int|
            #[trigger] spans_have(old(spans)@, d, c) ==> spans_have(final(spans)@, d, c)
                || wall_spans(w, from_id, d, c),
{
    let a = layout.rooms[from_id];
    let b = layout.rooms[to_id];
    assert(room_ok(layout.rooms@[from_id as int], layout.kinds@[from_id as int], plot));
    assert(room_ok(layout.rooms@[to_id as int], layout.kinds@[to_id as int], plot));
    if a.min.z >= b.max.z || a.max.z <= b.min.z {
        return None;
    }
    let min_z = if a.min.z < b.min.z {
        a.min.z
    } else {
        b.min.z
    };
    let max_z = if a.max.z > b.max.z {
        a.max.z
    } else {
        b.max.z
    };
    let room_b = a.footprint();
    let nb = b.footprint();
    let p1 = nb.projected_point(room_b.center());
    let p0 = room_b.projected_point(p1);
    let to_dir = Dir::from_vec2(Vec2 { x: p1.x - p0.x, y: p1.y - p0.y });
    let inter = to_dir.extend_aabr(&room_b, 1).intersection(
        &to_dir.opposite().extend_aabr(&nb, 1),
    );
    if !inter.is_valid() {
        return None;
    }
    let orth = to_dir.orthogonal();
    let lo = orth.select(inter.min);
    let hi = orth.select(inter.max);
    *spans = split_range(spans, to_dir, lo, hi);
    let floor_gap = if a.min.z >= b.min.z {
        a.min.z - b.min.z
    } else {
        b.min.z - a.min.z
    };
    let door = if hi - lo > 2 && max_z - min_z > 3 && floor_gap < 4 && gen_ratio(rng, 4, 5) {
        let c = gen_between(rng, 1, hi - lo - 2);
        Some((c, c + 1))
    } else {
        None
    };
    let wall = Wall {
        start: orth.opposite().step(inter.min, 1),
        end: orth.step(inter.max, 1),
        base_alt: min_z,
        top_alt: max_z,
        from: Some(from_id),
        to: Some(to_id),
        to_dir,
        door,
    };
    Some(wall)
}

/// Completes the walls of room `from_id`: takes out of each side the cells
/// its walls already cover, adds a wall shared with each neighbour not yet
/// walled off, and an outer wall along each stretch left over. Afterwards
/// every cell along every side of the room is spanned by one of its walls.
pub fn partition_room(layout: &mut Layout, plot: Aabr, from_id: usize, rng: &mut StdRng)
    requires
        old(layout).wf(plot),
        from_id < old(layout).rooms@.len(),
    ensures
        final(layout).wf(plot),
        final(layout).rooms@ == old(layout).rooms@,
        final(layout).kinds@ == old(layout).kinds@,
        final(layout).walls@.len() >= old(layout).walls@.len(),
        forall|w: int|
            0 <= w < old(layout).walls@.len() ==> final(layout).walls@[w] == old(
                layout,
            ).walls@[w],
        sides_walled(final(layout).walls@, from_id, final(layout).rooms@[from_id as int].xy()),
{
    let ghost rooms0 = layout.rooms@;
    let ghost kinds0 = layout.kinds@;
    let ghost walls0 = layout.walls@;
    let room = layout.rooms[from_id];
    let room_b = room.footprint();
    assert(room_ok(layout.rooms@[from_id as int], layout.kinds@[from_id as int], plot));
    let mut skip = room_set_new();
    room_set_insert(&mut skip, from_id);
    let mut spans: Vec<Span> = vec![
        (Dir::X, room_b.min.y, room_b.max.y),
        (Dir::Y, room_b.min.x, room_b.max.x),
        (Dir::NegX, room_b.min.y, room_b.max.y),
        (Dir::NegY, room_b.min.x, room_b.max.x),
    ];
    proof {
        assert forall|d: Dir, c: int| #[trigger] on_side(room_b, d, c) implies spans_have(
            spans@,
            d,
            c,
        ) || side_walled(layout.walls@, from_id, d, c) by {
            match d {
                Dir::X => assert(span_has(spans@[0], d, c)),
                Dir::Y => assert(span_has(spans@[1], d, c)),
                Dir::NegX => assert(span_has(spans@[2], d, c)),
                Dir::NegY => assert(span_has(spans@[3], d, c)),
            }
        }
    }
    // Take out what the room's walls already cover, and skip the rooms they join.
    let n_walls = layout.walls.len();
    let mut d: usize = 0;
    while d < 4
        invariant
            d <= 4,
            spans_in_limit(spans@),
            layout.wf(plot),
            n_walls == layout.walls@.len(),
            layout.walls@ == walls0,
            forall|dd: Dir, c: int| #[trigger]
                on_side(room_b, dd, c) ==> spans_have(spans@, dd, c) || side_walled(
                    layout.walls@,
                    from_id,
                    dd,
                    c,
                ),
        decreases 4 - d,
    {
        let dir = Dir::from_index(d);
        let orth = dir.orthogonal();
        let mut w: usize = 0;
        while w < n_walls
            invariant
                w <= n_walls,
                spans_in_limit(spans@),
                layout.wf(plot),
                n_walls == layout.walls@.len(),
                layout.walls@ == walls0,
                orth == dir.orth(),
                forall|dd: Dir, c: int| #[trigger]
                    on_side(room_b, dd, c) ==> spans_have(spans@, dd, c) || side_walled(
                        layout.walls@,
                        from_id,
                        dd,
                        c,
                    ),
            decreases n_walls - w,
        {
            let wall = layout.walls[w];
            if is_wall_of(&wall, from_id, dir) {
                assert(layout.walls@[w as int].wf(layout.rooms@.len() as int));
                if let Some(f) = wall.from {
                    room_set_insert(&mut skip, f);
                }
                if let Some(t) = wall.to {
                    room_set_insert(&mut skip, t);
                }
                let a = orth.select(wall.start);
                let b = orth.select(wall.end);
                let (lo, hi) = if a <= b {
                    (a, b)
                } else {
                    (b, a)
                };
                let ghost before = spans@;
                spans = split_range(&spans, dir, lo + 1, hi - 1);
                proof {
                    assert forall|dd: Dir, c: int| #[trigger]
                        on_side(room_b, dd, c) implies spans_have(spans@, dd, c) || side_walled(
                        layout.walls@,
                        from_id,
                        dd,
                        c,
                    ) by {
                        if spans_have(before, dd, c) && !spans_have(spans@, dd, c) {
                            assert(wall_spans(layout.walls@[w as int], from_id, dd, c));
                        }
                    }
                }
            }
            w = w + 1;
        }
        d = d + 1;
    }
    // Walls shared with the neighbours.
    let n = layout.rooms.len();
    let mut to_id: usize = 0;
    while to_id < n
        invariant
            to_id <= n,
            n == layout.rooms@.len(),
            from_id < n,
            spans_in_limit(spans@),
            layout.wf(plot),
            layout.rooms@ == rooms0,
            layout.kinds@ == kinds0,
            layout.walls@.len() >= walls0.len(),
            forall|w: int| 0 <= w < walls0.len() ==> layout.walls@[w] == walls0[w],
            forall|dd: Dir, c: int| #[trigger]
                on_side(room_b, dd, c) ==> spans_have(spans@, dd, c) || side_walled(
                    layout.walls@,
                    from_id,
                    dd,
                    c,
                ),
        decreases n - to_id,
    {
        if !room_set_contains(&skip, to_id) {
            let ghost before = spans@;
            let ghost walls_before = layout.walls@;
            if let Some(wall) = neighbour_wall(layout, plot, from_id, to_id, &mut spans, rng) {
                layout.add_wall(wall, plot);
                proof {
                    assert forall|dd: Dir, c: int| #[trigger]
                        on_side(room_b, dd, c) implies spans_have(spans@, dd, c) || side_walled(
                        layout.walls@,
                        from_id,
                        dd,
                        c,
                    ) by {
                        if side_walled(walls_before, from_id, dd, c) {
                            lemma_walled_grows(walls_before, layout.walls@, from_id, dd, c);
                        } else if !spans_have(spans@, dd, c) {
                            assert(spans_have(before, dd, c));
                            assert(wall_spans(wall, from_id, dd, c));
                            assert(layout.walls@[walls_before.len() as int] == wall);
                        }
                    }
                }
            }
        }
        to_id = to_id + 1;
    }
    // Outer walls along what is left.
    let mut k: usize = 0;
    while k < spans.len()
        invariant
            k <= spans@.len(),
            spans_in_limit(spans@),
            from_id < layout.rooms@.len(),
            room_b == room.xy(),
            room == rooms0[from_id as int],
            room_ok(room, layout.kinds@[from_id as int], plot),
            layout.wf(plot),
            layout.rooms@ == rooms0,
            layout.kinds@ == kinds0,
            layout.walls@.len() >= walls0.len(),
            forall|w: int| 0 <= w < walls0.len() ==> layout.walls@[w] == walls0[w],
            forall|dd: Dir, c: int| #[trigger]
                on_side(room_b, dd, c) ==> side_walled(layout.walls@, from_id, dd, c) || exists|
                    j: int,
                | k <= j < spans@.len() && #[trigger] span_has(spans@[j], dd, c),
        decreases spans@.len() - k,
    {
        let span = spans[k];
        let dir = span.0;
        let lo = span.1;
        let hi = span.2;
        assert(span == spans@[k as int]);
        assert(-PLOT_LIMIT <= lo <= hi <= PLOT_LIMIT);
        assert(room_b.within(plot) && plot_ok(plot));
        assert(room_b.wf());
        let start = dir.step(dir.select_aabr_with(&room_b, Vec2 { x: lo - 1, y: lo - 1 }), 1);
        let end = dir.step(dir.select_aabr_with(&room_b, Vec2 { x: hi + 1, y: hi + 1 }), 1);
        let wall = Wall {
            start,
            end,
            base_alt: room.min.z,
            top_alt: room.max.z,
            from: Some(from_id),
            to: None,
            to_dir: dir,
            door: None,
        };
        let ghost walls_before = layout.walls@;
        layout.add_wall(wall, plot);
        proof {
            assert forall|dd: Dir, c: int| #[trigger]
                on_side(room_b, dd, c) implies side_walled(layout.walls@, from_id, dd, c) || exists|
                j: int,
            | k + 1 <= j < spans@.len() && #[trigger] span_has(spans@[j], dd, c) by {
                if side_walled(walls_before, from_id, dd, c) {
                    lemma_walled_grows(walls_before, layout.walls@, from_id, dd, c);
                } else {
                    let j = choose|j: int| k <= j < spans@.len() && #[trigger] span_has(spans@[j], dd, c);
                    if j == k {
                        assert(wall_spans(wall, from_id, dd, c));
                        assert(layout.walls@[walls_before.len() as int] == wall);
                    }
                }
            }
        }
        k = k + 1;
    }
    proof {
        assert forall|dd: Dir, c: int| #[trigger] on_side(room_b, dd, c) implies side_walled(
            layout.walls@,
            from_id,
            dd,
            c,
        ) by {}
    }
}

/// Completes the walls of every room, one room after the other. Afterwards
/// every cell along every side of every room is spanned by one of its walls.
pub fn partition_walls(layout: &mut Layout, plot: Aabr, rng: &mut StdRng)
    requires
        old(layout).wf(plot),
    ensures
        final(layout).wf(plot),
        final(layout).rooms@ == old(layout).rooms@,
        final(layout).kinds@ == old(layout).kinds@,
        forall|id: int|
            0 <= id < final(layout).rooms@.len() ==> sides_walled(
                final(layout).walls@,
                id as usize,
                #[trigger] final(layout).rooms@[id].xy(),
            ),
{
    let ghost rooms0 = layout.rooms@;
    let ghost kinds0 = layout.kinds@;
    let n = layout.rooms.len();
    let mut i: usize = 0;
    while i < n
        invariant
            i <= n,
            n == layout.rooms@.len(),
            layout.wf(plot),
            layout.rooms@ == rooms0,
            layout.kinds@ == kinds0,
            forall|id: int|
                0 <= id < i ==> sides_walled(layout.walls@, id as usize, #[trigger] layout.rooms@[id].xy()),
        decreases n - i,
    {
        let ghost walls_before = layout.walls@;
        partition_room(layout, plot, i, rng);
        proof {
            assert forall|id: int|
                0 <= id < i + 1 implies sides_walled(
                layout.walls@,
                id as usize,
                #[trigger] layout.rooms@[id].xy(),
            ) by {
                if id < i {
                    assert(sides_walled(walls_before, id as usize, layout.rooms@[id].xy()));
                    assert forall|dd: Dir, c: int| #[trigger] on_side(layout.rooms@[id].xy(), dd, c)
                        implies side_walled(layout.walls@, id as usize, dd, c) by {
                        lemma_walled_grows(walls_before, layout.walls@, id as usize, dd, c);
                    }
                }
            }
        }
        i = i + 1;
    }
}

} // verus!
