use tiled_life::tiling::{dispatch_dim, TileGrid};

#[test]
fn tile_grid_64x64_max32() {
    let g = TileGrid::try_new(64, 64, 32).unwrap();
    assert_eq!(g.grid_width(), 2);
    assert_eq!(g.grid_height(), 2);
    assert_eq!(g.tile_count(), 4);
    assert_eq!(g.tile_width_at(0), 32);
    assert_eq!(g.tile_width_at(1), 32);
    assert_eq!(g.tile_height_at(0), 32);
    assert_eq!(g.tile_height_at(1), 32);
}

#[test]
fn tile_grid_degenerate_single_tile() {
    let g = TileGrid::try_new(100, 50, 256).unwrap();
    assert_eq!(g.grid_width(), 1);
    assert_eq!(g.grid_height(), 1);
    assert_eq!(g.tile_count(), 1);
    assert_eq!(g.tile_width_at(0), 100);
    assert_eq!(g.tile_height_at(0), 50);
}

#[test]
fn tile_grid_remainder_edges() {
    let g = TileGrid::try_new(70, 33, 32).unwrap();
    assert_eq!(g.grid_width(), 3);
    assert_eq!(g.grid_height(), 2);
    assert_eq!(g.tile_count(), 6);
    assert_eq!(g.tile_width_at(0), 32);
    assert_eq!(g.tile_width_at(1), 32);
    assert_eq!(g.tile_width_at(2), 6);
    assert_eq!(g.tile_height_at(0), 32);
    assert_eq!(g.tile_height_at(1), 1);
}

#[test]
fn tile_sizes_cover_grid_exactly() {
    for (w, h, m) in [(70u32, 33u32, 32u32), (64, 64, 32), (1, 1, 1), (100, 50, 256), (31, 97, 7)]
    {
        let g = TileGrid::try_new(w, h, m).unwrap();
        let mut width_sum: u64 = 0;
        for tx in 0..g.grid_width() {
            let tw = g.tile_width_at(tx);
            assert!(tw >= 1 && tw <= m);
            width_sum += tw as u64;
        }
        assert_eq!(width_sum, w as u64);
        let mut height_sum: u64 = 0;
        for ty in 0..g.grid_height() {
            let th = g.tile_height_at(ty);
            assert!(th >= 1 && th <= m);
            height_sum += th as u64;
        }
        assert_eq!(height_sum, h as u64);
        let expected = (w.div_ceil(m) as u64) * (h.div_ceil(m) as u64);
        assert_eq!(g.tile_count() as u64, expected);
    }
}

#[test]
fn tile_grid_rejects_empty_dimensions() {
    assert!(TileGrid::try_new(0, 5, 3).is_none());
    assert!(TileGrid::try_new(5, 0, 3).is_none());
    assert!(TileGrid::try_new(5, 5, 0).is_none());
}

#[test]
fn tile_grid_rejects_oversized_tile_count() {
    assert!(TileGrid::try_new(u32::MAX, u32::MAX, 1).is_none());
}

#[test]
fn addressing_round_trip_exhaustive() {
    let g = TileGrid::try_new(70, 33, 32).unwrap();
    for y in 0..33u32 {
        for x in 0..70u32 {
            let t = g.tile_index(x, y);
            assert!(t < g.tile_count());
            let (lx, ly) = g.local_offset(x, y);
            let tx = t % g.grid_width();
            let ty = t / g.grid_width();
            assert!(lx < g.tile_width_at(tx));
            assert!(ly < g.tile_height_at(ty));
            let (gx, gy) = g.global_of_local(t, lx, ly);
            assert_eq!((gx, gy), (x, y));
        }
    }
}

#[test]
fn tile_indices_are_row_major() {
    let g = TileGrid::try_new(70, 33, 32).unwrap();
    assert_eq!(g.tile_index(0, 0), 0);
    assert_eq!(g.tile_index(33, 0), 1);
    assert_eq!(g.tile_index(66, 0), 2);
    assert_eq!(g.tile_index(0, 32), 3);
    assert_eq!(g.tile_index(69, 32), 5);
}

#[test]
fn shader_defs_match_geometry() {
    let g = TileGrid::try_new(64, 64, 32).unwrap();
    let defs = g.shader_defs();
    assert_eq!(defs.tile_size, 32);
    assert_eq!(defs.grid_width, 2);
    assert_eq!(defs.grid_length, 4);

    let single = TileGrid::try_new(100, 50, 256).unwrap().shader_defs();
    assert_eq!(single.tile_size, 100);
    assert_eq!(single.grid_width, 1);
    assert_eq!(single.grid_length, 1);
}

#[test]
fn dispatch_dim_rounds_up() {
    assert_eq!(dispatch_dim(0), 0);
    assert_eq!(dispatch_dim(1), 1);
    assert_eq!(dispatch_dim(8), 1);
    assert_eq!(dispatch_dim(9), 2);
    assert_eq!(dispatch_dim(64), 8);
    assert_eq!(dispatch_dim(65), 9);
}
