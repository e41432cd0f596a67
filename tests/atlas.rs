use omega_tile::{
    build_atlas, build_testset, grid_side, place_tiles, render_combined, render_tileset, Direction, Error, Pixel,
    Raster, WTile, WTileVariation,
};

fn neighbours_connect(tiles: &Vec<WTile>, n: u32, cell: impl Fn(u32, u32) -> usize) {
    for y in 0..n {
        for x in 0..n {
            let t = &tiles[cell(x, y)];
            if x + 1 < n {
                assert!(t.is_connectable(Direction::East, &tiles[cell(x + 1, y)]));
            }
            if x > 0 {
                assert!(t.is_connectable(Direction::West, &tiles[cell(x - 1, y)]));
            }
            if y + 1 < n {
                assert!(t.is_connectable(Direction::South, &tiles[cell(x, y + 1)]));
            }
            if y > 0 {
                assert!(t.is_connectable(Direction::North, &tiles[cell(x, y - 1)]));
            }
        }
    }
}

#[test]
fn testset_v4_shape() {
    let tiles = build_testset(WTileVariation::V4).unwrap();
    assert_eq!(tiles.len(), 4);
    for t in &tiles {
        assert_eq!(t.image().width, 128);
        assert_eq!(t.image().height, 128);
    }
    let corners: Vec<_> = tiles.iter().map(|t| t.corners()).collect();
    assert_eq!(corners, vec![(0, 1, 2, 3), (1, 2, 3, 0), (2, 3, 0, 1), (3, 0, 1, 2)]);
}

#[test]
fn testset_tile_quarters() {
    let tiles = build_testset(WTileVariation::V4).unwrap();
    // Tile (G, B, Y, R): north-west green, north-east blue, south-west grey, south-east red.
    let img = tiles[1].image();
    assert_eq!(img.pixel(10, 10), Pixel { r: 0, g: 255, b: 0, a: 255 });
    assert_eq!(img.pixel(100, 10), Pixel { r: 0, g: 0, b: 255, a: 255 });
    assert_eq!(img.pixel(10, 100), Pixel { r: 128, g: 128, b: 128, a: 255 });
    assert_eq!(img.pixel(100, 100), Pixel { r: 255, g: 0, b: 0, a: 255 });
}

#[test]
fn testset_sizes_of_all_variations() {
    assert_eq!(build_testset(WTileVariation::V16).unwrap().len(), 16);
    let full = build_testset(WTileVariation::Full).unwrap();
    assert_eq!(full.len(), 256);
    assert!(full.iter().all(|t| t.image().width == 128 && t.image().height == 128));
}

#[test]
fn v4_atlas_completes() {
    let tiles = build_testset(WTileVariation::V4).unwrap();
    let atlas = build_atlas(&tiles, 8, 100).unwrap();
    assert_eq!(atlas.size(), 8);
    assert_eq!(atlas.seed(), 100);
    assert_eq!(atlas.tile_dimensions(), (128, 128));
    assert_eq!(atlas.dimensions(), (1024, 1024));
    neighbours_connect(&tiles, 8, |x, y| atlas.cell(x, y));
    let again = build_atlas(&tiles, 8, 100).unwrap();
    for y in 0..8 {
        for x in 0..8 {
            assert_eq!(atlas.cell(x, y), again.cell(x, y));
            assert_eq!(atlas.get(x as i32, y as i32), Some(atlas.cell(x, y)));
        }
    }
    assert_eq!(atlas.get(-1, 0), None);
    assert_eq!(atlas.get(0, 8), None);
}

#[test]
fn v16_atlas_connects() {
    let tiles = build_testset(WTileVariation::V16).unwrap();
    if let Ok(atlas) = build_atlas(&tiles, 6, 7) {
        neighbours_connect(&tiles, 6, |x, y| atlas.cell(x, y));
    }
}

#[test]
fn indices_image() {
    let tiles = build_testset(WTileVariation::V4).unwrap();
    let atlas = build_atlas(&tiles, 8, 100).unwrap();
    let img = atlas.build_indices();
    assert_eq!((img.width, img.height), (8, 8));
    for y in 0..8u32 {
        for x in 0..8u32 {
            let v = img.rows[y as usize][x as usize];
            assert!(v < 4);
            assert_eq!(v as usize, atlas.cell(x, y));
        }
    }
}

#[test]
fn one_tile_that_cannot_meet_itself_is_unsolvable() {
    let img = Raster::filled(2, 2, Pixel { r: 0, g: 0, b: 0, a: 255 });
    let tiles = vec![WTile::new(img, 0, 1, 2, 3)];
    assert!(matches!(build_atlas(&tiles, 2, 1), Err(Error::Unsolvable)));
    let one = build_atlas(&tiles, 1, 1).unwrap();
    assert_eq!(one.cell(0, 0), 0);
}

#[test]
fn place_tiles_takes_first_fitting_candidate() {
    let img = || Raster::filled(2, 2, Pixel { r: 0, g: 0, b: 0, a: 255 });
    // A tile with every corner R fits next to itself everywhere.
    let tiles = vec![WTile::new(img(), 0, 0, 0, 0), WTile::new(img(), 1, 1, 1, 1)];
    let orders = vec![vec![0, 1], vec![1, 0], vec![0, 1], vec![1, 0]];
    // Cell order: (0,0), (0,1), (1,0), (1,1).
    let cells = place_tiles(&tiles, 2, &orders).unwrap();
    assert_eq!(cells, vec![vec![0, 0], vec![0, 0]]);
    let orders = vec![vec![1, 0], vec![0, 1], vec![0, 1], vec![0, 1]];
    let cells = place_tiles(&tiles, 2, &orders).unwrap();
    assert_eq!(cells, vec![vec![1, 1], vec![1, 1]]);
    let bad = vec![vec![1], vec![0], vec![1], vec![1]];
    assert!(matches!(place_tiles(&tiles, 2, &bad), Err(Error::Unsolvable)));
}

#[test]
fn combined_image_puts_tiles_in_cells() {
    let tiles = build_testset(WTileVariation::V4).unwrap();
    let atlas = build_atlas(&tiles, 3, 100).unwrap();
    let img = render_combined(&atlas, &tiles).unwrap();
    assert_eq!((img.width, img.height), (384, 384));
    for y in 0..3u32 {
        for x in 0..3u32 {
            let t = tiles[atlas.cell(x, y)].image();
            assert_eq!(img.pixel(x * 128 + 3, y * 128 + 5), t.pixel(3, 5));
            assert_eq!(img.pixel(x * 128 + 127, y * 128 + 127), t.pixel(127, 127));
        }
    }
}

#[test]
fn combined_image_with_small_tile_fails() {
    let big = Raster::filled(4, 4, Pixel { r: 1, g: 1, b: 1, a: 255 });
    let small = Raster::filled(2, 2, Pixel { r: 2, g: 2, b: 2, a: 255 });
    let tiles = vec![WTile::new(big, 0, 0, 0, 0), WTile::new(small, 0, 0, 0, 0)];
    let orders = vec![vec![1]];
    let cells = place_tiles(&tiles, 1, &orders).unwrap();
    assert_eq!(cells, vec![vec![1]]);
    // With a layout that uses the small tile, a 4 by 4 cell cannot be filled.
    let mut found_small = false;
    for seed in 0..20u64 {
        let atlas = build_atlas(&tiles, 2, seed).unwrap();
        let uses_small = (0..2).any(|y| (0..2).any(|x| atlas.cell(x, y) == 1));
        let r = render_combined(&atlas, &tiles);
        assert_eq!(r.is_err(), uses_small);
        if uses_small {
            found_small = true;
            assert!(matches!(r, Err(Error::SizeMismatch)));
        }
    }
    assert!(found_small);
}

#[test]
fn tileset_sheet() {
    assert_eq!(grid_side(0), 0);
    assert_eq!(grid_side(1), 1);
    assert_eq!(grid_side(4), 2);
    assert_eq!(grid_side(5), 3);
    assert_eq!(grid_side(16), 4);
    assert_eq!(grid_side(256), 16);
    let tiles = build_testset(WTileVariation::V4).unwrap();
    let sheet = render_tileset(&tiles).unwrap();
    assert_eq!((sheet.width, sheet.height), (256, 256));
    assert_eq!(sheet.pixel(130, 2), tiles[1].image().pixel(2, 2));
    assert_eq!(sheet.pixel(2, 130), tiles[2].image().pixel(2, 2));
    assert_eq!(sheet.pixel(200, 200), tiles[3].image().pixel(72, 72));
}

#[test]
fn tileset_sheet_leaves_spare_cells_black() {
    let img = || Raster::filled(2, 2, Pixel { r: 9, g: 9, b: 9, a: 255 });
    let tiles: Vec<WTile> = (0..5).map(|_| WTile::new(img(), 0, 0, 0, 0)).collect();
    let sheet = render_tileset(&tiles).unwrap();
    assert_eq!((sheet.width, sheet.height), (6, 6));
    assert_eq!(sheet.pixel(3, 3), Pixel { r: 9, g: 9, b: 9, a: 255 });
    assert_eq!(sheet.pixel(5, 5), Pixel { r: 0, g: 0, b: 0, a: 255 });
}

#[test]
fn index_text_layout() {
    let img = || Raster::filled(2, 2, Pixel { r: 0, g: 0, b: 0, a: 255 });
    let tiles: Vec<WTile> = (0..12).map(|_| WTile::new(img(), 0, 0, 0, 0)).collect();
    let orders = vec![vec![11], vec![3], vec![0], vec![10]];
    let cells = place_tiles(&tiles, 2, &orders).unwrap();
    assert_eq!(cells, vec![vec![11, 0], vec![3, 10]]);
    let tiles4 = build_testset(WTileVariation::V4).unwrap();
    let atlas = build_atlas(&tiles4, 3, 100).unwrap();
    let text = String::from_utf8(atlas.index_text()).unwrap();
    let mut expected = String::new();
    for y in 0..3u32 {
        for x in 0..3u32 {
            let sep = if x == 2 && y != 2 { "\n" } else { " " };
            expected.push_str(&format!("{:02}{}", atlas.cell(x, y), sep));
        }
    }
    assert_eq!(text, expected);
    assert_eq!(text.len(), 27);
}

#[test]
fn seeds_change_layout() {
    let tiles = build_testset(WTileVariation::V4).unwrap();
    let layout = |seed: u64| {
        let a = build_atlas(&tiles, 6, seed).unwrap();
        (0..6u32).flat_map(|y| (0..6u32).map(move |x| (x, y))).map(|(x, y)| a.cell(x, y)).collect::<Vec<_>>()
    };
    let first = layout(0);
    assert!((1..16u64).any(|s| layout(s) != first));
}

#[test]
fn layout_ignores_images() {
    let a = build_testset(WTileVariation::V16).unwrap();
    let b: Vec<WTile> = a
        .iter()
        .map(|t| {
            let (p, q, r, s) = t.corners();
            WTile::new(Raster::filled(4, 4, Pixel { r: 7, g: 7, b: 7, a: 255 }), p, q, r, s)
        })
        .collect();
    for seed in 0..8u64 {
        match (build_atlas(&a, 5, seed), build_atlas(&b, 5, seed)) {
            (Ok(x), Ok(y)) => {
                for j in 0..5u32 {
                    for i in 0..5u32 {
                        assert_eq!(x.cell(i, j), y.cell(i, j));
                    }
                }
            }
            (Err(Error::Unsolvable), Err(Error::Unsolvable)) => {}
            _ => panic!("outcomes differ"),
        }
    }
}
