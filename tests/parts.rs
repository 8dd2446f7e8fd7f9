use rand::rngs::StdRng;
use rand::SeedableRng;
use tavern::detail::{detail_areas, furnish, table};
use tavern::dir::Dir;
use tavern::geom::{Aabb, Aabr, Vec2, Vec3};
use tavern::growth::Layout;
use tavern::kind::{RoomCounts, RoomKind};
use tavern::lottery::Lottery;
use tavern::partition::split_range;
use tavern::place::{gen_range_snap, place_down_room, place_side_room};
use tavern::roof::style_lottery;
use tavern::structure::{Detail, RoofStyle, Wall};

fn aabr(x0: i32, y0: i32, x1: i32, y1: i32) -> Aabr {
    Aabr { min: Vec2 { x: x0, y: y0 }, max: Vec2 { x: x1, y: y1 } }
}

#[test]
fn lottery_picks_by_cumulative_weight() {
    let mut l = Lottery::new();
    l.push(1, 'a');
    l.push(3, 'b');
    l.push(0, 'c');
    l.push(4, 'd');
    assert_eq!(l.total, 8);
    // The draw point is seed * total / 2^32.
    assert_eq!(l.choose_seeded(0), 'a');
    assert_eq!(l.choose_seeded(536870911), 'a');
    assert_eq!(l.choose_seeded(536870912), 'b');
    assert_eq!(l.choose_seeded(2147483647), 'b');
    assert_eq!(l.choose_seeded(2147483648), 'd');
    assert_eq!(l.choose_seeded(u32::MAX), 'd');
    assert_eq!(l.choose_index_seeded(3000000000), 3);
}

#[test]
fn room_kind_catalog() {
    assert_eq!(RoomKind::Garden.size_range(), (5, 20, 35, 250));
    assert_eq!(RoomKind::Stage.size_range(), (11, 22, 150, 400));
    assert_eq!(RoomKind::Entrance.size_range(), (3, 7, 12, 40));
    let mut counts = RoomCounts::new();
    assert_eq!(RoomKind::Bar.chance(&counts), 1000000);
    assert_eq!(RoomKind::Garden.chance(&counts), 50000);
    assert_eq!(RoomKind::Seating.chance(&counts), 400000);
    assert_eq!(RoomKind::Entrance.chance(&counts), 0);
    counts.add(RoomKind::Bar);
    counts.add(RoomKind::Garden);
    counts.add(RoomKind::Seating);
    assert_eq!(RoomKind::Bar.chance(&counts), 10000);
    assert_eq!(RoomKind::Garden.chance(&counts), 12500);
    assert_eq!(RoomKind::Seating.chance(&counts), 200000);
    counts.add(RoomKind::Bar);
    assert_eq!(RoomKind::Bar.chance(&counts), 0);
    assert_eq!(RoomKind::Cellar.chance(&counts), 1000000);
}

#[test]
fn fits_compares_shortest_side_and_area() {
    assert!(RoomKind::Bar.fits(&aabr(0, 0, 9, 9)));
    assert!(!RoomKind::Bar.fits(&aabr(0, 0, 8, 30)));
    assert!(!RoomKind::Bar.fits(&aabr(0, 0, 9, 8)));
    assert!(RoomKind::Entrance.fits(&aabr(0, 0, 3, 4)));
    assert!(!RoomKind::Entrance.fits(&aabr(0, 0, 3, 3)));
}

#[test]
fn entrance_lottery_offers_gardens_only_when_warm() {
    let big = aabr(0, 0, 30, 30);
    let cold = RoomKind::entrance_room_lottery(0, &big);
    assert_eq!(cold.items, vec![RoomKind::Entrance]);
    assert_eq!(cold.weights, vec![2000000]);
    let warm = RoomKind::entrance_room_lottery(1000, &big);
    assert_eq!(warm.items, vec![RoomKind::Garden, RoomKind::Entrance]);
    assert_eq!(warm.weights, vec![500000, 2000000]);
    // No garden where one does not fit.
    let small = RoomKind::entrance_room_lottery(1000, &aabr(0, 0, 4, 6));
    assert_eq!(small.items, vec![RoomKind::Entrance]);
}

#[test]
fn side_lottery_keeps_kinds_that_fit() {
    let counts = RoomCounts::new();
    let small = RoomKind::Entrance.side_room_lottery(&aabr(0, 0, 6, 6), &counts, 1000).unwrap();
    assert_eq!(small.items, vec![RoomKind::Garden, RoomKind::Seating]);
    assert_eq!(small.weights, vec![50000, 400000]);
    let cold = RoomKind::Entrance.side_room_lottery(&aabr(0, 0, 6, 6), &counts, -500).unwrap();
    assert_eq!(cold.items, vec![RoomKind::Seating]);
    assert!(RoomKind::Entrance.side_room_lottery(&aabr(0, 0, 3, 3), &counts, 1000).is_none());
    let cellar = RoomKind::Cellar.side_room_lottery(&aabr(0, 0, 30, 30), &counts, 1000).unwrap();
    assert_eq!(cellar.items, vec![RoomKind::Cellar]);
}

#[test]
fn basements_only_under_bars() {
    let counts = RoomCounts::new();
    let l = RoomKind::Bar.basement_lottery(&aabr(0, 0, 20, 20), &counts).unwrap();
    assert_eq!(l.items, vec![RoomKind::Cellar]);
    assert_eq!(l.weights, vec![1000000]);
    assert!(RoomKind::Bar.basement_lottery(&aabr(0, 0, 5, 20), &counts).is_none());
    assert!(RoomKind::Stage.basement_lottery(&aabr(0, 0, 20, 20), &counts).is_none());
    assert_eq!(RoomKind::Bar.basement_rooms(), vec![RoomKind::Cellar]);
    assert!(RoomKind::Seating.basement_rooms().is_empty());
}

#[test]
fn directions() {
    assert_eq!(Dir::X.opposite(), Dir::NegX);
    assert_eq!(Dir::NegY.orthogonal(), Dir::X);
    assert_eq!(Dir::X.rotated_cw().rotated_ccw(), Dir::X);
    assert_eq!(Dir::from_vec2(Vec2 { x: -5, y: 2 }), Dir::NegX);
    assert_eq!(Dir::from_vec2(Vec2 { x: 1, y: 3 }), Dir::Y);
    let a = aabr(1, 2, 5, 9);
    assert_eq!(Dir::NegX.select_aabr(&a), 1);
    assert_eq!(Dir::Y.select_aabr(&a), 9);
    assert_eq!(Dir::X.select_aabr_with(&a, Vec2 { x: 0, y: 7 }), Vec2 { x: 5, y: 7 });
    assert_eq!(Dir::NegY.extend_aabr(&a, 2), aabr(1, 0, 5, 9));
}

#[test]
fn rectangles() {
    let a = aabr(0, 0, 4, 6);
    let b = aabr(3, 5, 9, 9);
    assert_eq!(a.intersection(&b), aabr(3, 5, 4, 6));
    assert!(a.overlaps(&b));
    assert!(!a.overlaps(&aabr(5, 0, 6, 6)));
    assert_eq!(aabr(4, 6, 0, 0).made_valid(), a);
    assert_eq!(a.projected_point(Vec2 { x: 10, y: -3 }), Vec2 { x: 4, y: 0 });
    assert_eq!(a.center(), Vec2 { x: 2, y: 3 });
    assert_eq!(a.area(), 24);
    assert_eq!(a.shortest_side(), 4);
}

#[test]
fn split_range_cuts_and_splits() {
    let spans = vec![(Dir::X, 0, 10), (Dir::Y, 0, 10)];
    assert_eq!(split_range(&spans, Dir::X, 3, 5), vec![(Dir::X, 0, 2), (Dir::Y, 0, 10), (Dir::X, 6, 10)]);
    assert_eq!(split_range(&spans, Dir::X, -2, 4), vec![(Dir::X, 5, 10), (Dir::Y, 0, 10)]);
    assert_eq!(split_range(&spans, Dir::Y, 8, 20), vec![(Dir::X, 0, 10), (Dir::Y, 0, 7)]);
    assert_eq!(split_range(&spans, Dir::Y, -1, 11), vec![(Dir::X, 0, 10)]);
    assert_eq!(split_range(&spans, Dir::NegX, 0, 10), spans);
}

fn covered(rects: &[Aabr], x: i32, y: i32) -> usize {
    rects.iter().filter(|r| r.contains_point(Vec2 { x, y })).count()
}

#[test]
fn detail_areas_partition_the_free_floor() {
    let bounds = aabr(0, 0, 9, 7);
    let avoid = vec![aabr(0, 3, 1, 4), aabr(5, 0, 6, 2), aabr(8, 6, 9, 7)];
    let areas = detail_areas(bounds, &avoid);
    assert!(!areas.is_empty());
    for x in 0..=9 {
        for y in 0..=7 {
            assert_eq!(covered(&areas, x, y) + covered(&avoid, x, y), 1, "cell {} {}", x, y);
        }
    }
    assert_eq!(areas[0], aabr(0, 0, 4, 2));
}

#[test]
fn detail_areas_of_a_free_room_is_the_room() {
    let bounds = aabr(2, 3, 8, 9);
    assert_eq!(detail_areas(bounds, &Vec::new()), vec![bounds]);
}

#[test]
fn tables_get_chairs_inside_their_area() {
    match table(aabr(0, 0, 2, 2)) {
        Detail::Table { pos, chairs } => {
            assert_eq!(pos, Vec2 { x: 1, y: 1 });
            assert_eq!(chairs, vec![Dir::X, Dir::Y, Dir::NegX, Dir::NegY]);
        },
        _ => panic!("not a table"),
    }
    match table(aabr(0, 0, 1, 0)) {
        Detail::Table { chairs, .. } => assert_eq!(chairs, vec![Dir::X]),
        _ => panic!("not a table"),
    }
}

#[test]
fn stage_takes_the_best_area_on_the_walls() {
    let room = aabr(0, 0, 9, 9);
    let areas = vec![aabr(3, 3, 5, 5), aabr(0, 0, 9, 2), aabr(0, 3, 2, 9)];
    let mut rng = StdRng::seed_from_u64(5);
    let (left, details) = furnish(RoomKind::Stage, room, areas.clone(), &mut rng);
    assert_eq!(left.len() + details.len(), 3);
    match &details[0] {
        Detail::Stage { aabr } => assert_eq!(*aabr, areas[1]),
        _ => panic!("no stage"),
    }
    let (left, details) = furnish(RoomKind::Cellar, room, areas.clone(), &mut rng);
    assert_eq!(left, areas);
    assert!(details.is_empty());
}

#[test]
fn snapping_draws_vary_and_snap() {
    let mut rng = StdRng::seed_from_u64(11);
    let mut seen = Vec::new();
    for _ in 0..200 {
        let v = gen_range_snap(&mut rng, 3, 12, 20);
        assert!((3..=12).contains(&v));
        if !seen.contains(&v) {
            seen.push(v);
        }
        // 10 lies within two of 12, the end of the range, so it snaps there.
        let s = gen_range_snap(&mut rng, 10, 12, 12);
        assert_eq!(s, 12);
    }
    assert!(seen.len() > 3);
}

#[test]
fn side_rooms_conform_to_their_kind() {
    for seed in 0..50u64 {
        let mut rng = StdRng::seed_from_u64(seed);
        let b = place_side_room(RoomKind::Bar, aabr(0, 0, 30, 30), Dir::X, Vec2 { x: -1, y: 15 }, &mut rng)
            .unwrap();
        let w = b.max.x - b.min.x;
        let h = b.max.y - b.min.y;
        assert!(w.min(h) >= 9 && w.max(h) <= 16 && (80..=196).contains(&(w * h)));
        assert_eq!(b.min.x, 0);
    }
    let mut rng = StdRng::seed_from_u64(1);
    assert!(place_side_room(RoomKind::Stage, aabr(0, 0, 8, 30), Dir::X, Vec2 { x: -1, y: 3 }, &mut rng).is_none());
}

#[test]
fn basement_rooms_conform_and_stay_inside() {
    for seed in 0..50u64 {
        let mut rng = StdRng::seed_from_u64(seed);
        let space = aabr(0, 0, 30, 30);
        if let Some(b) = place_down_room(RoomKind::Cellar, space, aabr(5, 5, 18, 18), &mut rng) {
            assert!(space.contains_aabr(&b));
            let w = b.max.x - b.min.x;
            let h = b.max.y - b.min.y;
            assert!((6..=12).contains(&w.min(h)) && (35..=110).contains(&(w * h)));
        }
    }
}

fn one_room_layout(kind: RoomKind) -> Layout {
    let room = Aabb { min: Vec3 { x: 0, y: 0, z: 0 }, max: Vec3 { x: 10, y: 8, z: 4 } };
    Layout { rooms: vec![room], kinds: vec![kind], walls: Vec::new(), counts: RoomCounts::new() }
}

#[test]
fn flat_bars_offered_over_gardens_only() {
    let plot = aabr(-20, -20, 40, 40);
    let rb = aabr(-2, -2, 12, 10);
    let garden = style_lottery(&one_room_layout(RoomKind::Garden), plot, rb, 5, &vec![0], false);
    assert_eq!(garden.items[1], RoofStyle::FlatBars { dir: Dir::X });
    assert_eq!(garden.items[2], RoofStyle::FlatBars { dir: Dir::Y });
    assert_eq!(garden.weights[1], 5000000 * 14 / 12);
    assert!(garden.weights[2] > 0);
    let bar = style_lottery(&one_room_layout(RoomKind::Bar), plot, rb, 5, &vec![0], false);
    assert!(bar.items.iter().all(|s| !matches!(s, RoofStyle::FlatBars { .. })));
    assert_eq!(bar.items[0], RoofStyle::Flat);
    // No taller neighbour: gables along both axes and hips.
    assert!(bar.items.contains(&RoofStyle::Hip { max_z: 12 }));
    assert!(bar.items.contains(&RoofStyle::Gable { dir: Dir::X, max_z: 8 }));
    let floor = style_lottery(&one_room_layout(RoomKind::Garden), plot, rb, 5, &vec![0], true);
    assert_eq!(floor.items, vec![RoofStyle::Floor]);
}

#[test]
fn door_bounds_run_along_the_wall() {
    let w = Wall {
        start: Vec2 { x: 2, y: 5 },
        end: Vec2 { x: 12, y: 5 },
        base_alt: 0,
        top_alt: 4,
        from: Some(0),
        to: None,
        to_dir: Dir::NegY,
        door: Some((3, 4)),
    };
    assert_eq!(w.door_bounds(), Some(aabr(5, 5, 6, 5)));
    let no_door = Wall { door: None, ..w };
    assert_eq!(no_door.door_bounds(), None);
}

#[test]
fn bar_counter_goes_on_an_area_along_a_wall() {
    let room = aabr(0, 0, 9, 9);
    // Only the second area shares a side with the room.
    let areas = vec![aabr(3, 3, 6, 6), aabr(0, 8, 4, 9)];
    let mut rng = StdRng::seed_from_u64(2);
    let (left, details) = furnish(RoomKind::Bar, room, areas.clone(), &mut rng);
    assert_eq!(left.len() + details.len(), 2);
    match &details[0] {
        Detail::Bar { aabr } => assert_eq!(*aabr, areas[1]),
        _ => panic!("no bar"),
    }
    // With no area along a wall there is no counter.
    let inner = vec![aabr(3, 3, 6, 6)];
    let (_, details) = furnish(RoomKind::Bar, room, inner, &mut rng);
    assert!(details.iter().all(|d| matches!(d, Detail::Table { .. })));
}
