use tiled_life::life::{transition, World};
use tiled_life::tiling::TileGrid;

fn world(w: u32, h: u32, m: u32) -> World {
    World::new(TileGrid::try_new(w, h, m).unwrap())
}

/// The rule stated independently of the implementation.
fn expected_next(alive: bool, neighbors: u32) -> bool {
    (alive && (neighbors == 2 || neighbors == 3)) || (!alive && neighbors == 3)
}

#[test]
fn transition_rule_all_neighborhoods() {
    for mask in 0u32..512 {
        let bits: Vec<bool> = (0..9).map(|i| mask & (1 << i) != 0).collect();
        let alive = bits[4];
        let neighbors = bits.iter().filter(|b| **b).count() as u32 - if alive { 1 } else { 0 };
        assert_eq!(transition(alive, neighbors), expected_next(alive, neighbors));
    }
}

#[test]
fn neighborhoods_through_tiled_grid() {
    // Every 3x3 neighborhood, run through the packed tiled storage, once
    // with the grid in a single tile and once cut into tiny tiles so the
    // neighbor lookups cross tile boundaries.
    for m in [32u32, 2] {
        for mask in 0u32..512 {
            let mut w = world(3, 3, m);
            for i in 0..9u32 {
                w.set_cell(i % 3, i / 3, mask & (1 << i) != 0);
            }
            let alive = mask & (1 << 4) != 0;
            let neighbors = (0..9)
                .filter(|i| *i != 4 && mask & (1u32 << i) != 0)
                .count() as u32;
            w.update();
            assert_eq!(
                w.get_cell(1, 1),
                expected_next(alive, neighbors),
                "mask {} tile dim {}",
                mask,
                m
            );
        }
    }
}

#[test]
fn flip_twice_restores_generation_index() {
    let mut w = world(8, 8, 4);
    let first = w.active_index();
    assert_eq!(first, 0);
    assert_ne!(w.inactive_index(), first);
    w.flip();
    assert_eq!(w.active_index(), 1);
    w.flip();
    assert_eq!(w.active_index(), first);
}

#[test]
fn update_flips_generation_index() {
    let mut w = world(8, 8, 4);
    assert_eq!(w.active_index(), 0);
    w.update();
    assert_eq!(w.active_index(), 1);
    w.update();
    assert_eq!(w.active_index(), 0);
}

#[test]
fn new_world_is_dead() {
    let w = world(16, 16, 8);
    assert_eq!(w.live_count(), 0);
    for y in 0..16 {
        for x in 0..16 {
            assert!(!w.get_cell(x, y));
        }
    }
}

#[test]
fn set_cell_and_read_back() {
    let mut w = world(10, 10, 4);
    w.set_cell(3, 7, true);
    assert!(w.get_cell(3, 7));
    assert_eq!(w.live_count(), 1);
    w.set_cell(3, 7, false);
    assert!(!w.get_cell(3, 7));
    assert_eq!(w.live_count(), 0);
}

#[test]
fn blinker_oscillates() {
    let mut w = world(5, 5, 32);
    w.set_cell(1, 2, true);
    w.set_cell(2, 2, true);
    w.set_cell(3, 2, true);
    w.update();
    assert_eq!(w.live_count(), 3);
    assert!(w.get_cell(2, 1));
    assert!(w.get_cell(2, 2));
    assert!(w.get_cell(2, 3));
    assert!(!w.get_cell(1, 2));
    assert!(!w.get_cell(3, 2));
    w.update();
    assert!(w.get_cell(1, 2));
    assert!(w.get_cell(2, 2));
    assert!(w.get_cell(3, 2));
    assert!(!w.get_cell(2, 1));
    assert!(!w.get_cell(2, 3));
}

#[test]
fn simulation_is_independent_of_tiling() {
    // The same start in a one-tile world and in a world cut into 2x2-cell
    // tiles must evolve identically, cell for cell.
    let mut coarse = world(6, 6, 32);
    let mut fine = world(6, 6, 2);
    let pattern = [(1u32, 1u32), (2, 1), (3, 1), (3, 2), (2, 3), (4, 4), (5, 0)];
    for (x, y) in pattern {
        coarse.set_cell(x, y, true);
        fine.set_cell(x, y, true);
    }
    for _ in 0..4 {
        coarse.update();
        fine.update();
        for y in 0..6 {
            for x in 0..6 {
                assert_eq!(coarse.get_cell(x, y), fine.get_cell(x, y));
            }
        }
    }
}

#[test]
fn edge_neighbors_are_dead() {
    // A corner cell with two live neighbors survives; nothing outside the
    // grid counts as live.
    let mut w = world(4, 4, 4);
    w.set_cell(0, 0, true);
    w.set_cell(1, 0, true);
    w.set_cell(0, 1, true);
    w.update();
    assert!(w.get_cell(0, 0));
    assert!(w.get_cell(1, 0));
    assert!(w.get_cell(0, 1));
    assert!(w.get_cell(1, 1));
}

#[test]
fn end_to_end_seeded_simulation() {
    let g = TileGrid::try_new(64, 64, 32).unwrap();
    assert_eq!(g.grid_width(), 2);
    assert_eq!(g.grid_height(), 2);
    assert_eq!(g.tile_count(), 4);

    let mut first = World::new(g);
    first.init(42);
    let seeded_count = first.live_count();
    // The seeding function is exact, so the count is pinned for this seed.
    assert_eq!(seeded_count, 1920);

    let mut second = World::new(g);
    second.init(42);
    assert_eq!(second.live_count(), seeded_count);
    for y in 0..64 {
        for x in 0..64 {
            assert_eq!(first.get_cell(x, y), second.get_cell(x, y));
        }
    }

    first.update();
    let mut any_difference = false;
    for y in 0..64 {
        for x in 0..64 {
            if first.get_cell(x, y) != second.get_cell(x, y) {
                any_difference = true;
            }
        }
    }
    assert!(any_difference, "the simulation advanced");

    let stepped_count = first.live_count();
    assert_eq!(stepped_count, 879);
    let mut third = World::new(g);
    third.init(42);
    third.update();
    assert_eq!(third.live_count(), stepped_count);
}

#[test]
fn init_differs_across_seeds() {
    let g = TileGrid::try_new(64, 64, 32).unwrap();
    let mut a = World::new(g);
    a.init(1);
    let mut b = World::new(g);
    b.init(2);
    let mut any_difference = false;
    for y in 0..64 {
        for x in 0..64 {
            if a.get_cell(x, y) != b.get_cell(x, y) {
                any_difference = true;
            }
        }
    }
    assert!(any_difference);
}
