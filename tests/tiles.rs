use omega_tile::{
    parse_variation, testset_samples, variation_tuples, Direction, Edge, Error, Pixel, Raster, SampleMode, WTile,
    WTileVariation,
};
use std::str::FromStr;

fn solid(w: u32, h: u32) -> Raster {
    Raster::filled(w, h, Pixel { r: 1, g: 2, b: 3, a: 4 })
}

#[test]
fn variation_counts() {
    assert_eq!(variation_tuples(WTileVariation::V4).len(), 4);
    assert_eq!(variation_tuples(WTileVariation::V16).len(), 16);
    assert_eq!(variation_tuples(WTileVariation::Full).len(), 256);
    assert_eq!(WTileVariation::V4.count(), 4);
    assert_eq!(WTileVariation::V16.count(), 16);
    assert_eq!(WTileVariation::Full.count(), 256);
}

#[test]
fn v4_tuples_in_order() {
    assert_eq!(
        variation_tuples(WTileVariation::V4),
        vec![(0, 1, 2, 3), (1, 2, 3, 0), (2, 3, 0, 1), (3, 0, 1, 2)]
    );
}

#[test]
fn v16_tuples_in_order() {
    let expected = vec![
        (0, 1, 1, 2), (0, 2, 1, 3), (0, 1, 2, 3), (0, 2, 2, 0),
        (1, 2, 2, 3), (1, 3, 2, 0), (1, 2, 3, 0), (1, 3, 3, 1),
        (2, 3, 3, 0), (2, 0, 3, 1), (2, 3, 0, 1), (2, 0, 0, 2),
        (3, 0, 0, 1), (3, 1, 0, 2), (3, 0, 1, 2), (3, 1, 1, 3),
    ];
    assert_eq!(variation_tuples(WTileVariation::V16), expected);
}

#[test]
fn full_tuples_lexicographic() {
    let t = variation_tuples(WTileVariation::Full);
    assert_eq!(t[0], (0, 0, 0, 0));
    assert_eq!(t[1], (0, 0, 0, 1));
    assert_eq!(t[4], (0, 0, 1, 0));
    assert_eq!(t[27], (0, 1, 2, 3));
    assert_eq!(t[255], (3, 3, 3, 3));
    for i in 1..256 {
        assert!(t[i - 1] < t[i]);
    }
}

#[test]
fn variation_parse() {
    assert!(matches!(parse_variation("V4"), Err(Error::ParseError(_))));
    assert_eq!(parse_variation("v16").unwrap(), WTileVariation::V16);
    assert_eq!(parse_variation("v4").unwrap(), WTileVariation::V4);
    assert_eq!(parse_variation("full").unwrap(), WTileVariation::Full);
    assert!(matches!(parse_variation(""), Err(Error::ParseError(_))));
    assert!(matches!(parse_variation("v4 "), Err(Error::ParseError(_))));
    assert_eq!(WTileVariation::from_str("full").unwrap(), WTileVariation::Full);
    assert_eq!(WTileVariation::from_str("v16").unwrap(), WTileVariation::V16);
    assert!(matches!(WTileVariation::from_str("V4"), Err(Error::ParseError(_))));
    for v in [WTileVariation::V4, WTileVariation::V16, WTileVariation::Full] {
        assert_eq!(WTileVariation::from_str(&v.to_string()).unwrap(), v);
    }
}

#[test]
fn variation_round_trip() {
    for v in [WTileVariation::V4, WTileVariation::V16, WTileVariation::Full] {
        assert_eq!(parse_variation(v.as_str()).unwrap(), v);
        assert_eq!(parse_variation(&v.to_string()).unwrap(), v);
    }
    assert_eq!(WTileVariation::V4.to_string(), "v4");
    assert_eq!(WTileVariation::V16.to_string(), "v16");
    assert_eq!(WTileVariation::Full.as_str(), "full");
}

#[test]
fn edges_from_corners() {
    let t = WTile::new(solid(2, 2), 0, 1, 2, 3);
    assert_eq!(t.edge(Direction::North).1, (0, 1));
    assert_eq!(t.edge(Direction::East).1, (1, 3));
    assert_eq!(t.edge(Direction::South).1, (2, 3));
    assert_eq!(t.edge(Direction::West).1, (0, 2));
    assert_eq!(t.corners(), (0, 1, 2, 3));
    assert_eq!(t.image().width, 2);
}

#[test]
fn edge_match_compares_pairs() {
    let a = Edge(Direction::North, (1, 2));
    let b = Edge(Direction::South, (1, 2));
    let c = Edge(Direction::South, (2, 1));
    assert!(a.is_match(&b));
    assert!(!a.is_match(&c));
}

#[test]
fn connectable_symmetric() {
    let tiles: Vec<WTile> = variation_tuples(WTileVariation::V16)
        .into_iter()
        .map(|(a, b, c, d)| WTile::new(solid(2, 2), a, b, c, d))
        .collect();
    let dirs = [
        (Direction::North, Direction::South),
        (Direction::East, Direction::West),
        (Direction::South, Direction::North),
        (Direction::West, Direction::East),
    ];
    let mut some = 0;
    for a in &tiles {
        for b in &tiles {
            for (d, o) in dirs {
                assert_eq!(a.is_connectable(d, b), b.is_connectable(o, a));
                if a.is_connectable(d, b) {
                    some += 1;
                }
            }
        }
    }
    assert!(some > 0);
}

#[test]
fn connectable_by_facing_edges() {
    // (R,G,B,Y) east edge is (G,Y); (G,B,Y,R) west edge is (G,Y).
    let a = WTile::new(solid(2, 2), 0, 1, 2, 3);
    let b = WTile::new(solid(2, 2), 1, 2, 3, 0);
    assert!(a.is_connectable(Direction::East, &b));
    assert!(!a.is_connectable(Direction::West, &b));
    assert!(b.is_connectable(Direction::West, &a));
}

#[test]
fn testset_sample_colours() {
    let s = testset_samples();
    assert_eq!(s.len(), 4);
    assert_eq!(s[0].pixel(5, 5), Pixel { r: 255, g: 0, b: 0, a: 255 });
    assert_eq!(s[1].pixel(127, 0), Pixel { r: 0, g: 255, b: 0, a: 255 });
    assert_eq!(s[2].pixel(0, 127), Pixel { r: 0, g: 0, b: 255, a: 255 });
    assert_eq!(s[3].pixel(64, 64), Pixel { r: 128, g: 128, b: 128, a: 255 });
    assert_eq!(s[3].width, 128);
    assert_eq!(s[3].height, 128);
}

#[test]
fn sample_modes_differ() {
    assert_ne!(SampleMode::Generate, SampleMode::Split);
}
