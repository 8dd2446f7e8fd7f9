use rand::rngs::StdRng;
use rand::SeedableRng;
use tavern::dir::Dir;
use tavern::geom::{Aabr, Vec2};
use tavern::kind::RoomKind;
use tavern::structure::{RoofStyle, Tavern, TavernError, TerrainSample};

fn aabr(x0: i32, y0: i32, x1: i32, y1: i32) -> Aabr {
    Aabr { min: Vec2 { x: x0, y: y0 }, max: Vec2 { x: x1, y: y1 } }
}

fn flat(area: Aabr, alt: i32, temperature: i32) -> TerrainSample {
    let n = ((area.max.x - area.min.x + 1) * (area.max.y - area.min.y + 1)) as usize;
    TerrainSample { area, alts: vec![alt; n], temperature }
}

fn generate(seed: u64, bounds: Aabr, temperature: i32) -> Result<Tavern, TavernError> {
    let mut rng = StdRng::seed_from_u64(seed);
    let terrain = flat(bounds, 0, temperature);
    let center = Vec2 { x: (bounds.min.x + bounds.max.x) / 2, y: bounds.min.y - 3 };
    Tavern::generate(
        &mut rng,
        String::from("The Tavern"),
        bounds,
        Vec2 { x: 0, y: 0 },
        center,
        Dir::NegY,
        0,
        &terrain,
    )
}

fn z_meets(a: &tavern::geom::Aabb, b: &tavern::geom::Aabb) -> bool {
    a.min.z <= b.max.z && b.min.z <= a.max.z
}

fn meets(a: &Aabr, b: &Aabr) -> bool {
    a.min.x <= b.max.x && b.min.x <= a.max.x && a.min.y <= b.max.y && b.min.y <= a.max.y
}

/// The structural laws every generated tavern must satisfy.
fn check_laws(t: &Tavern) {
    assert!(!t.rooms.is_empty());
    for (i, a) in t.rooms.iter().enumerate() {
        let fa = a.bounds.footprint();
        for (j, b) in t.rooms.iter().enumerate() {
            if i != j && z_meets(&a.bounds, &b.bounds) {
                assert!(!meets(&fa, &b.bounds.footprint()), "rooms {} and {} overlap", i, j);
            }
        }
        let (smin, smax, amin, amax) = a.kind.size_range();
        let w = fa.max.x - fa.min.x;
        let h = fa.max.y - fa.min.y;
        let side = w.min(h);
        assert!(smin <= side && side <= smax);
        assert!(amin <= w * h && w * h <= amax);
    }
    for w in t.walls.iter() {
        if let Some((d0, d1)) = w.door {
            let along = w.to_dir.orthogonal();
            let len = along.select(w.end) - along.select(w.start);
            assert!(0 < d0 && d1 < len);
            assert!(d1 - d0 == 1 || d1 - d0 == 2);
        }
    }
    for (id, room) in t.rooms.iter().enumerate() {
        let f = room.bounds.footprint();
        for dir in [Dir::X, Dir::Y, Dir::NegX, Dir::NegY] {
            let along = dir.orthogonal();
            for c in along.select(f.min)..=along.select(f.max) {
                let walled = t.walls.iter().any(|w| {
                    let of_room = (w.from == Some(id) && w.to_dir == dir)
                        || (w.to == Some(id) && w.to_dir == dir.opposite());
                    let a = along.select(w.start);
                    let b = along.select(w.end);
                    of_room && a.min(b) < c && c < a.max(b)
                });
                assert!(walled, "room {} side {:?} cell {} has no wall", id, dir, c);
            }
        }
    }
    for r in t.roofs.iter() {
        assert!(!r.over.is_empty());
        let top = r.over.iter().map(|&i| t.rooms[i].bounds.max.z).max().unwrap();
        assert_eq!(r.min_z, top + 1);
    }
    let entrances = t.rooms.iter().filter(|r| r.kind == RoomKind::Entrance).count();
    assert!(entrances <= 1);
    assert!(t.rooms[0].kind == RoomKind::Entrance || t.rooms[0].kind == RoomKind::Garden);
    let f0 = t.rooms[0].bounds.footprint();
    assert!(f0.min.x - 1 <= t.door_wpos.x && t.door_wpos.x <= f0.max.x + 1);
    assert!(f0.min.y - 1 <= t.door_wpos.y && t.door_wpos.y <= f0.max.y + 1);
    assert_eq!(t.rooms[0].bounds.min.z, t.door_wpos.z);
    for r in t.roofs.iter() {
        if !r.under.is_empty() {
            assert_eq!(r.style, RoofStyle::Floor);
        }
    }
    for room in t.rooms.iter() {
        assert_eq!(room.detail_areas.len() + room.details.len(), room.floor_areas.len());
        let f = room.bounds.footprint();
        for x in f.min.x..=f.max.x {
            for y in f.min.y..=f.max.y {
                let n = room.floor_areas.iter().chain(room.avoid.iter())
                    .filter(|a| a.contains_point(Vec2 { x, y }))
                    .count();
                assert!(n >= 1);
            }
        }
    }
}

#[test]
fn generated_taverns_keep_the_laws() {
    for seed in 0..24u64 {
        let t = generate(seed, aabr(0, 0, 60, 60), 800).unwrap();
        check_laws(&t);
    }
}

#[test]
fn generation_is_deterministic() {
    for seed in [3u64, 17, 99] {
        let a = generate(seed, aabr(0, 0, 50, 40), 600).unwrap();
        let b = generate(seed, aabr(0, 0, 50, 40), 600).unwrap();
        assert_eq!(a.rooms.len(), b.rooms.len());
        for (x, y) in a.rooms.iter().zip(b.rooms.iter()) {
            assert_eq!(x.bounds, y.bounds);
            assert_eq!(x.kind, y.kind);
            assert_eq!(x.detail_areas, y.detail_areas);
        }
        assert_eq!(a.walls.len(), b.walls.len());
        for (x, y) in a.walls.iter().zip(b.walls.iter()) {
            assert_eq!(x.start, y.start);
            assert_eq!(x.end, y.end);
            assert_eq!(x.door, y.door);
            assert_eq!(x.from, y.from);
            assert_eq!(x.to, y.to);
        }
        assert_eq!(a.roofs.len(), b.roofs.len());
        for (x, y) in a.roofs.iter().zip(b.roofs.iter()) {
            assert_eq!(x.bounds, y.bounds);
            assert_eq!(x.min_z, y.min_z);
            assert_eq!(x.style, y.style);
            assert_eq!(x.stairs, y.stairs);
        }
    }
}

#[test]
fn smallest_plot_holds_only_the_entrance() {
    // Inner area 4 by 3: the smallest entrance, with no space for anything else.
    for seed in 0..16u64 {
        // Warm or not: only the entrance fits.
        let t = generate(seed, aabr(-1, -1, 6, 5), (seed as i32 % 2) * 900).unwrap();
        assert_eq!(t.rooms.len(), 1);
        assert_eq!(t.rooms[0].kind, RoomKind::Entrance);
        assert!(t.roofs.iter().all(|r| r.stairs.is_none()));
        check_laws(&t);
    }
}

#[test]
fn large_plots_always_get_a_tavern() {
    for seed in 0..30u64 {
        for temperature in [-500, 0, 900, 3000] {
            let t = generate(seed, aabr(0, 0, 24, 24), temperature).unwrap();
            check_laws(&t);
        }
    }
}

#[test]
fn plot_too_small_for_an_entrance_fails() {
    assert_eq!(generate(1, aabr(0, 0, 4, 4), 0).err(), Some(TavernError::NoRoomForEntrance));
    assert_eq!(generate(1, aabr(0, 0, 2, 30), 0).err(), Some(TavernError::NoRoomForEntrance));
}

#[test]
fn cellars_come_only_with_bars() {
    let mut both = 0;
    for seed in 0..40u64 {
        let t = generate(seed, aabr(0, 0, 64, 64), 500).unwrap();
        let bar = t.rooms.iter().any(|r| r.kind == RoomKind::Bar);
        let cellar = t.rooms.iter().any(|r| r.kind == RoomKind::Cellar);
        assert!(!cellar || bar);
        if cellar && bar {
            both += 1;
        }
    }
    assert!(both > 0);
}

#[test]
fn blocked_direction_still_terminates_validly() {
    // A long thin plot leaves no space on two sides of the entrance.
    for seed in 0..8u64 {
        let a = generate(seed, aabr(0, 0, 12, 70), 300).unwrap();
        let b = generate(seed, aabr(0, 0, 12, 70), 300).unwrap();
        check_laws(&a);
        assert_eq!(a.rooms.len(), b.rooms.len());
        for (x, y) in a.rooms.iter().zip(b.rooms.iter()) {
            assert_eq!(x.bounds, y.bounds);
        }
    }
}

#[test]
fn flat_bars_only_over_gardens() {
    for seed in 0..24u64 {
        let t = generate(seed, aabr(0, 0, 60, 60), 2000).unwrap();
        for r in t.roofs.iter() {
            if let RoofStyle::FlatBars { .. } = r.style {
                assert!(r.over.iter().all(|&i| t.rooms[i].kind == RoomKind::Garden));
                assert!(r.under.is_empty());
            }
        }
    }
}

#[test]
fn pairs_of_rooms_share_at_most_one_wall() {
    for seed in 0..12u64 {
        let t = generate(seed, aabr(0, 0, 60, 60), 800).unwrap();
        for (i, w) in t.walls.iter().enumerate() {
            if let (Some(a), Some(b)) = (w.from, w.to) {
                for v in t.walls.iter().skip(i + 1) {
                    if let (Some(c), Some(d)) = (v.from, v.to) {
                        assert!(!((a == c && b == d) || (a == d && b == c)));
                    }
                }
            }
        }
    }
}

#[test]
fn detail_areas_and_furniture_stay_in_their_rooms() {
    for seed in 0..12u64 {
        let t = generate(seed, aabr(0, 0, 60, 60), 800).unwrap();
        for room in t.rooms.iter() {
            let f = room.bounds.footprint();
            for a in room.detail_areas.iter() {
                assert!(f.contains_aabr(a));
            }
            for (k, a) in room.detail_areas.iter().enumerate() {
                for b in room.detail_areas.iter().skip(k + 1) {
                    assert!(!meets(a, b));
                }
            }
        }
    }
}
