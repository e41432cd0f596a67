use omega_tile::{
    assemble_tiles, build_mask, build_test_tiles, crop, entry_name, merge_samples, sample_key, sample_keys,
    split_samples, tile_key, tile_keys, Awaiting, CachedRun, Error, Event, Pixel, ProgressState, ProgressUpdate,
    Raster, Step, WTileVariation,
};

fn px(v: u8) -> Pixel {
    Pixel { r: v, g: v, b: v, a: 255 }
}

/// A raster whose pixel at (x, y) encodes its position.
fn gradient(w: u32, h: u32, tag: u8) -> Raster {
    let mut rows = Vec::new();
    for y in 0..h {
        let mut row = Vec::new();
        for x in 0..w {
            row.push(Pixel { r: x as u8, g: y as u8, b: tag, a: 255 });
        }
        rows.push(row);
    }
    Raster { width: w, height: h, rows }
}

#[test]
fn split_needs_square_even_input() {
    let odd = Raster::filled(129, 128, px(1));
    assert!(matches!(split_samples(&odd), Err(Error::InvalidInput(_))));
    let odd_side = Raster::filled(3, 3, px(1));
    assert!(matches!(split_samples(&odd_side), Err(Error::InvalidInput(_))));
    let empty = Raster::filled(0, 0, px(1));
    assert!(matches!(split_samples(&empty), Err(Error::InvalidInput(_))));
}

#[test]
fn split_gives_quadrants_in_order() {
    let img = gradient(8, 8, 0);
    let s = split_samples(&img).unwrap();
    assert_eq!(s.len(), 4);
    assert!(s.iter().all(|q| q.width == 4 && q.height == 4));
    assert_eq!(s[0].pixel(1, 2), Pixel { r: 1, g: 2, b: 0, a: 255 });
    assert_eq!(s[1].pixel(1, 2), Pixel { r: 1, g: 6, b: 0, a: 255 });
    assert_eq!(s[2].pixel(1, 2), Pixel { r: 5, g: 2, b: 0, a: 255 });
    assert_eq!(s[3].pixel(1, 2), Pixel { r: 5, g: 6, b: 0, a: 255 });
}

#[test]
fn crop_inside_and_outside() {
    let img = gradient(6, 4, 3);
    let c = crop(&img, 2, 1, 3, 2).unwrap();
    assert_eq!((c.width, c.height), (3, 2));
    assert_eq!(c.pixel(0, 0), Pixel { r: 2, g: 1, b: 3, a: 255 });
    assert_eq!(c.pixel(2, 1), Pixel { r: 4, g: 2, b: 3, a: 255 });
    assert!(crop(&img, 4, 0, 3, 1).is_none());
}

#[test]
fn merge_takes_opposite_quarters() {
    let samples: Vec<Raster> = (0..4).map(|k| gradient(8, 8, k as u8)).collect();
    let m = merge_samples(&samples, 0, 1, 2, 3).unwrap();
    assert_eq!((m.width, m.height), (8, 8));
    // North-west quarter from the south-east quarter of sample 0.
    assert_eq!(m.pixel(0, 0), Pixel { r: 4, g: 4, b: 0, a: 255 });
    // North-east from the south-west of sample 1.
    assert_eq!(m.pixel(4, 0), Pixel { r: 0, g: 4, b: 1, a: 255 });
    // South-west from the north-east of sample 2.
    assert_eq!(m.pixel(1, 5), Pixel { r: 5, g: 1, b: 2, a: 255 });
    // South-east from the north-west of sample 3.
    assert_eq!(m.pixel(7, 7), Pixel { r: 3, g: 3, b: 3, a: 255 });
}

#[test]
fn merge_with_small_sample_fails() {
    let samples = vec![gradient(8, 8, 0), gradient(8, 8, 1), gradient(2, 2, 2), gradient(8, 8, 3)];
    assert!(matches!(merge_samples(&samples, 0, 1, 2, 3), Err(Error::SizeMismatch)));
    assert!(merge_samples(&samples, 0, 1, 3, 3).is_ok());
    assert!(matches!(build_test_tiles(WTileVariation::V4, &samples), Err(Error::SizeMismatch)));
}

#[test]
fn mask_has_white_corners_and_clear_middle() {
    let m = build_mask(16, 16);
    assert_eq!((m.width, m.height), (16, 16));
    let white = Pixel { r: 255, g: 255, b: 255, a: 255 };
    let clear = Pixel { r: 0, g: 0, b: 0, a: 0 };
    assert_eq!(m.pixel(0, 0), white);
    assert_eq!(m.pixel(15, 0), white);
    assert_eq!(m.pixel(0, 15), white);
    assert_eq!(m.pixel(15, 15), white);
    assert_eq!(m.pixel(2, 3), white);
    assert_eq!(m.pixel(13, 2), white);
    assert_eq!(m.pixel(3, 13), white);
    assert_eq!(m.pixel(12, 12), white);
    assert_eq!(m.pixel(8, 8), clear);
    let m = build_mask(64, 64);
    assert_eq!(m.pixel(32, 32), clear);
    assert_eq!(m.pixel(1, 1), white);
}

#[test]
fn key_texts() {
    assert_eq!(tile_key(WTileVariation::V4, "test", (0, 1, 2, 3)), b"v4+test+0+1+2+3".to_vec());
    assert_eq!(tile_key(WTileVariation::Full, "a.png", (3, 3, 0, 1)), b"full+a.png+3+3+0+1".to_vec());
    assert_eq!(sample_key(129, 1024, "in/x.png", 4), b"129+1024+in/x.png+4+samples".to_vec());
    let ks = sample_keys(10, 20, "p");
    assert_eq!(ks.len(), 4);
    assert_eq!(ks[0], b"10+20+p+1+samples".to_vec());
    assert_eq!(ks[3], b"10+20+p+4+samples".to_vec());
    let tk = tile_keys(WTileVariation::V16, "b");
    assert_eq!(tk.len(), 16);
    assert_eq!(tk[15], b"v16+b+3+1+1+3".to_vec());
}

#[test]
fn entry_names_are_sha256_hex() {
    assert_eq!(entry_name(b""), "e3b0c44298fc1c149afbf4c8996fb92427ae41e4649b934ca495991b7852b855");
    assert_eq!(entry_name(b"abc"), "ba7816bf8f01cfea414140de5dae2223b00361a396177a9cb410ff61f20015ad");
}

#[test]
fn assembled_tiles_share_a_square_even_size() {
    let imgs: Vec<Raster> = (0..4).map(|k| gradient(4, 4, k)).collect();
    let tiles = assemble_tiles(WTileVariation::V4, imgs).unwrap();
    assert_eq!(tiles.len(), 4);
    assert_eq!(tiles[2].corners(), (2, 3, 0, 1));
    assert_eq!(tiles[2].image().pixel(1, 0), Pixel { r: 1, g: 0, b: 2, a: 255 });
    let uneven: Vec<Raster> = vec![gradient(4, 4, 0), gradient(4, 4, 1), gradient(2, 2, 2), gradient(4, 4, 3)];
    assert!(matches!(assemble_tiles(WTileVariation::V4, uneven), Err(Error::SizeMismatch)));
    let odd: Vec<Raster> = (0..4).map(|k| gradient(3, 3, k)).collect();
    assert!(matches!(assemble_tiles(WTileVariation::V4, odd), Err(Error::SizeMismatch)));
    let oblong: Vec<Raster> = (0..4).map(|k| gradient(4, 2, k)).collect();
    assert!(matches!(assemble_tiles(WTileVariation::V4, oblong), Err(Error::SizeMismatch)));
}

#[test]
fn cache_hit_path_makes_nothing() {
    let keys = tile_keys(WTileVariation::V4, "in.png");
    let (mut run, mut step) = CachedRun::start(keys.clone(), true);
    let mut asked = Vec::new();
    let mut produced = 0;
    let mut k = 0u8;
    loop {
        match step {
            Step::LookUp(key) => {
                asked.push(key);
                step = run.on_event(Event::Found(gradient(4, 4, k)));
                k += 1;
            }
            Step::Produce(_) | Step::Store(_) => {
                produced += 1;
                break;
            }
            Step::Done => break,
            Step::Failed(_) => panic!("the run failed"),
        }
    }
    assert_eq!(produced, 0);
    assert_eq!(asked, keys);
    let imgs = run.into_results();
    assert_eq!(imgs.len(), 4);
    assert_eq!(imgs[3].pixel(0, 0), Pixel { r: 0, g: 0, b: 3, a: 255 });
    let tiles = assemble_tiles(WTileVariation::V4, imgs).unwrap();
    assert_eq!(tiles.len(), 4);
}

#[test]
fn cache_miss_path_produces_and_stores() {
    let keys = tile_keys(WTileVariation::V4, "in.png");
    let (mut run, step) = CachedRun::start(keys.clone(), true);
    assert!(matches!(step, Step::LookUp(ref k) if *k == keys[0]));
    let step = run.on_event(Event::Missing);
    assert!(matches!(step, Step::Produce(0)));
    let step = run.on_event(Event::Produced(gradient(4, 4, 9)));
    assert!(matches!(step, Step::Store(ref k) if *k == keys[0]));
    assert_eq!(run.result(0).pixel(0, 0).b, 9);
    let step = run.on_event(Event::Stored);
    assert!(matches!(step, Step::LookUp(ref k) if *k == keys[1]));
    let step = run.on_event(Event::Missing);
    assert!(matches!(step, Step::Produce(1)));
    let step = run.on_event(Event::Produced(gradient(4, 4, 1)));
    assert!(matches!(step, Step::Store(_)));
    let step = run.on_event(Event::StoreFailed("disk full".to_string()));
    match step {
        Step::Failed(Error::General(inner, why)) => {
            assert!(matches!(*inner, Error::Io(ref m) if m == "disk full"));
            assert_eq!(why, "Fail to save an image to the cache");
        }
        _ => panic!("expected a failure"),
    }
}

#[test]
fn run_without_cache_produces_every_job() {
    let keys = tile_keys(WTileVariation::V4, "x");
    let (mut run, mut step) = CachedRun::start(keys, false);
    let mut made = Vec::new();
    loop {
        match step {
            Step::Produce(k) => {
                made.push(k);
                step = run.on_event(Event::Produced(gradient(2, 2, k as u8)));
            }
            Step::Done => break,
            _ => panic!("unexpected step"),
        }
    }
    assert_eq!(made, vec![0, 1, 2, 3]);
    assert!(matches!(run.on_event(Event::Stored), Step::Failed(Error::InvalidInput(_))));
    let _ = Awaiting::Finished;
}

#[test]
fn wrong_answer_ends_run() {
    let (mut run, _) = CachedRun::start(tile_keys(WTileVariation::V4, "x"), true);
    assert!(matches!(run.on_event(Event::Stored), Step::Failed(Error::InvalidInput(_))));
}

#[test]
fn progress_follows_updates() {
    let mut s = ProgressState::new();
    assert_eq!((s.total_len, s.stage_len, s.stage_num), (100, 100, 0));
    let u1 = ProgressUpdate { stage_current: 1, stage_total: 10, total_current: 1, total_total: 50 };
    assert_eq!(s.update(u1), (true, true));
    assert_eq!(s.stage_num, 1);
    let u2 = ProgressUpdate { stage_current: 4, stage_total: 10, total_current: 4, total_total: 50 };
    assert_eq!(s.update(u2), (false, false));
    assert_eq!((s.stage_pos, s.total_pos, s.stage_num), (4, 4, 1));
    let u3 = ProgressUpdate { stage_current: 0, stage_total: 20, total_current: 10, total_total: 50 };
    s.update(u3);
    assert_eq!((s.stage_pos, s.stage_len, s.stage_num), (0, 20, 2));
    s.begin_stage();
    assert_eq!(s.stage_num, 0);
}
