use vstd::prelude::*;
use crate::cache::{sample_key, sample_key_bytes, tile_key, tile_key_bytes};
use crate::error::Error;
use vstd::string::StringSliceAdditionalSpecFns;
use crate::raster::{rect_inside, Pixel, Raster};
use crate::render::black;
use crate::tile::{edges_of, WTile};
use crate::variation::{lemma_variation_codes, variation_corners, variation_count, variation_tuples, WTileVariation};

verus! {

/// A tile set: tiles in the order their corner tuples were enumerated.
pub type WTileSet = Vec<WTile>;

/// The settings of one generation run: the tile family, the number of
/// cells along each side of the layout, and the layout's seed.
#[derive(Debug, Clone, Copy)]
pub struct GenerateOptions {
    pub variation: WTileVariation,
    pub size: u32,
    pub seed: u64,
}

/// A `w` by `h` copy of the rectangle of `src` at `(x, y)`, or `None` when
/// it does not lie inside `src`.
pub fn crop(src: &Raster, x: u32, y: u32, w: u32, h: u32) -> (r: Option<Raster>)
    requires
        src.wf(),
    ensures
        r is Some <==> rect_inside(src.width as int, src.height as int, x as int, y as int, w as int, h as int),
        r matches Some(c) ==> c.has_dims(w as int, h as int),
        r matches Some(c) ==> forall|i: int, j: int|
            0 <= i < w && 0 <= j < h ==> #[trigger] c.at(i, j) == src.at(x + i, y + j),
{
    let mut c = Raster::filled(w, h, Pixel { r: 0, g: 0, b: 0, a: 255 });
    if c.copy_from(src, x, y, w, h, 0, 0) {
        Some(c)
    } else {
        None
    }
}

/// The input can be cut into four equal square quadrants.
pub open spec fn splittable(w: int, h: int) -> bool {
    w != 0 && w == h && w % 2 == 0
}

/// The corner of the `k`-th quadrant of a `2 * half` square image, in the
/// order top-left, bottom-left, top-right, bottom-right.
pub open spec fn quadrant_origin(k: int, half: int) -> (int, int) {
    if k == 0 {
        (0, 0)
    } else if k == 1 {
        (0, half)
    } else if k == 2 {
        (half, 0)
    } else {
        (half, half)
    }
}

/// Cuts a square input of even side into its four quadrants, top-left,
/// bottom-left, top-right, bottom-right. `InvalidInput` when the input is
/// empty, not square or of odd side.
pub fn split_samples(img: &Raster) -> (r: Result<Vec<Raster>, Error>)
    requires
        img.wf(),
    ensures
        r is Ok <==> splittable(img.width as int, img.height as int),
        r matches Err(e) ==> e is InvalidInput,
        r matches Ok(s) ==> s@.len() == 4 && forall|k: int|
            0 <= k < 4 ==> (#[trigger] s@[k]).has_dims((img.width / 2) as int, (img.width / 2) as int) && forall|i: int, j: int|
                0 <= i < img.width / 2 && 0 <= j < img.width / 2 ==> #[trigger] s@[k].at(i, j) == img.at(
                    quadrant_origin(k, (img.width / 2) as int).0 + i,
                    quadrant_origin(k, (img.width / 2) as int).1 + j,
                ),
{
    if img.width == 0 || img.width != img.height || img.width % 2 != 0 {
        return Err(
            Error::InvalidInput("Given texture size is invalid (it must be square and even)".to_owned()),
        );
    }
    let half = img.width / 2;
    let mut result: Vec<Raster> = Vec::new();
    let mut k: u32 = 0;
    while k < 4
        invariant
            img.wf(),
            splittable(img.width as int, img.height as int),
            half == img.width / 2,
            k <= 4,
            result@.len() == k,
            forall|q: int|
                0 <= q < k ==> (#[trigger] result@[q]).has_dims(half as int, half as int) && forall|i: int, j: int|
                    0 <= i < half && 0 <= j < half ==> #[trigger] result@[q].at(i, j) == img.at(
                        quadrant_origin(q, half as int).0 + i,
                        quadrant_origin(q, half as int).1 + j,
                    ),
        decreases 4 - k,
    {
        let (x, y) = if k == 0 {
            (0, 0)
        } else if k == 1 {
            (0, half)
        } else if k == 2 {
            (half, 0)
        } else {
            (half, half)
        };
        match crop(img, x, y, half, half) {
            Some(q) => result.push(q),
            None => {
                assert(false);
                return Err(Error::SizeMismatch);
            },
        }
        k = k + 1;
    }
    Ok(result)
}

/// The pixel at `(x, y)` of the seed for a tile whose corners come from
/// samples `sa` (north-west), `sb` (north-east), `sc` (south-west) and `sd`
/// (south-east): each corner quarter is the opposite quarter of its sample,
/// so that the seams run through the middle of the tile.
pub open spec fn merged_pixel(sa: Raster, sb: Raster, sc: Raster, sd: Raster, w2: int, h2: int, x: int, y: int) -> Pixel {
    if x < w2 && y < h2 {
        sa.at(x + w2, y + h2)
    } else if w2 <= x < 2 * w2 && y < h2 {
        sb.at(x - w2, y + h2)
    } else if x < w2 && h2 <= y < 2 * h2 {
        sc.at(x + w2, y - h2)
    } else if w2 <= x < 2 * w2 && h2 <= y < 2 * h2 {
        sd.at(x - w2, y - h2)
    } else {
        black()
    }
}

/// Every sample is large enough for the quarter that a merge takes from it.
pub open spec fn merge_fits(sa: Raster, sb: Raster, sc: Raster, sd: Raster, w2: int, h2: int) -> bool {
    &&& 2 * w2 <= sa.width && 2 * h2 <= sa.height
    &&& w2 <= sb.width && 2 * h2 <= sb.height
    &&& 2 * w2 <= sc.width && h2 <= sc.height
    &&& w2 <= sd.width && h2 <= sd.height
}

/// Every raster of `s` is well formed.
pub open spec fn all_wf(s: Seq<Raster>) -> bool {
    forall|i: int| 0 <= i < s.len() ==> (#[trigger] s[i]).wf()
}

/// The seed image for the tile with corners `(a, b, c, d)`: a raster of
/// the first sample's size whose quarters come from samples `a`, `b`, `c`
/// and `d` (see [`merged_pixel`]). `SizeMismatch` when a sample is too
/// small for its quarter.
pub fn merge_samples(samples: &Vec<Raster>, a: usize, b: usize, c: usize, d: usize) -> (r: Result<Raster, Error>)
    requires
        samples@.len() > 0,
        a < samples@.len(),
        b < samples@.len(),
        c < samples@.len(),
        d < samples@.len(),
        all_wf(samples@),
    ensures
        ({
            let w = samples@[0].width as int;
            let h = samples@[0].height as int;
            let (sa, sb, sc, sd) = (samples@[a as int], samples@[b as int], samples@[c as int], samples@[d as int]);
            &&& r is Ok <==> merge_fits(sa, sb, sc, sd, w / 2, h / 2)
            &&& r matches Err(e) ==> e is SizeMismatch
            &&& r matches Ok(m) ==> m.has_dims(w, h)
            &&& r matches Ok(m) ==> forall|x: int, y: int|
                0 <= x < w && 0 <= y < h ==> #[trigger] m.at(x, y) == merged_pixel(sa, sb, sc, sd, w / 2, h / 2, x, y)
        }),
{
    let w = samples[0].width;
    let h = samples[0].height;
    let w2 = w / 2;
    let h2 = h / 2;
    let mut res = Raster::filled(w, h, Pixel { r: 0, g: 0, b: 0, a: 255 });
    let ghost r0 = res;
    if !res.copy_from(&samples[a], w2, h2, w2, h2, 0, 0) {
        return Err(Error::SizeMismatch);
    }
    let ghost r1 = res;
    if !res.copy_from(&samples[b], 0, h2, w2, h2, w2, 0) {
        return Err(Error::SizeMismatch);
    }
    let ghost r2 = res;
    if !res.copy_from(&samples[c], w2, 0, w2, h2, 0, h2) {
        return Err(Error::SizeMismatch);
    }
    let ghost r3 = res;
    if !res.copy_from(&samples[d], 0, 0, w2, h2, w2, h2) {
        return Err(Error::SizeMismatch);
    }
    assert forall|x: int, y: int| 0 <= x < w && 0 <= y < h implies #[trigger] res.at(x, y) == merged_pixel(
        samples@[a as int],
        samples@[b as int],
        samples@[c as int],
        samples@[d as int],
        w2 as int,
        h2 as int,
        x,
        y,
    ) by {
        assert(r1.at(x, y) == Raster::copied_at(r0, samples@[a as int], w2 as int, h2 as int, w2 as int, h2 as int, 0, 0, x, y));
        assert(r2.at(x, y) == Raster::copied_at(r1, samples@[b as int], 0, h2 as int, w2 as int, h2 as int, w2 as int, 0, x, y));
        assert(r3.at(x, y) == Raster::copied_at(r2, samples@[c as int], w2 as int, 0, w2 as int, h2 as int, 0, h2 as int, x, y));
    }
    Ok(res)
}

/// The red, green, blue and grey colours of the test samples.
pub open spec fn test_colour(k: int) -> Pixel {
    if k == 0 {
        Pixel { r: 255, g: 0, b: 0, a: 255 }
    } else if k == 1 {
        Pixel { r: 0, g: 255, b: 0, a: 255 }
    } else if k == 2 {
        Pixel { r: 0, g: 0, b: 255, a: 255 }
    } else {
        Pixel { r: 128, g: 128, b: 128, a: 255 }
    }
}

/// The side of the test samples.
pub const TEST_SIDE: u32 = 128;

/// Four solid 128 by 128 samples, red, green, blue and grey, one for each
/// corner code.
pub fn testset_samples() -> (r: Vec<Raster>)
    ensures
        r@.len() == 4,
        forall|k: int|
            0 <= k < 4 ==> (#[trigger] r@[k]).has_dims(TEST_SIDE as int, TEST_SIDE as int) && forall|x: int, y: int|
                0 <= x < TEST_SIDE && 0 <= y < TEST_SIDE ==> #[trigger] r@[k].at(x, y) == test_colour(k),
{
    let mut r: Vec<Raster> = Vec::new();
    r.push(Raster::filled(TEST_SIDE, TEST_SIDE, Pixel { r: 255, g: 0, b: 0, a: 255 }));
    r.push(Raster::filled(TEST_SIDE, TEST_SIDE, Pixel { r: 0, g: 255, b: 0, a: 255 }));
    r.push(Raster::filled(TEST_SIDE, TEST_SIDE, Pixel { r: 0, g: 0, b: 255, a: 255 }));
    r.push(Raster::filled(TEST_SIDE, TEST_SIDE, Pixel { r: 128, g: 128, b: 128, a: 255 }));
    r
}

/// The tiles of a set share one size, which is square, even and not empty.
pub open spec fn uniform_tiles(tiles: Seq<WTile>) -> bool {
    &&& tiles.len() > 0
    &&& forall|i: int| 0 <= i < tiles.len() ==> (#[trigger] tiles[i]).spec_img().wf()
    &&& forall|i: int|
        0 <= i < tiles.len() ==> (#[trigger] tiles[i]).spec_img().width == tiles[0].spec_img().width
            && tiles[i].spec_img().height == tiles[0].spec_img().height
    &&& splittable(tiles[0].spec_img().width as int, tiles[0].spec_img().height as int)
}

/// The tiles carry, in order, exactly the corner tuples of `v`.
pub open spec fn tiles_follow(tiles: Seq<WTile>, v: WTileVariation) -> bool {
    &&& tiles.len() == variation_count(v)
    &&& forall|i: int|
        0 <= i < tiles.len() ==> (#[trigger] tiles[i]).spec_edges() == edges_of(
            variation_corners(v)[i].0,
            variation_corners(v)[i].1,
            variation_corners(v)[i].2,
            variation_corners(v)[i].3,
        )
}

/// The tiles of `v` built without synthesis: each tile is the merged seed
/// of its corner tuple (see [`merge_samples`]). `SizeMismatch` when a
/// sample is too small for its quarter.
pub fn build_test_tiles(variation: WTileVariation, samples: &Vec<Raster>) -> (r: Result<Vec<WTile>, Error>)
    requires
        samples@.len() == 4,
        all_wf(samples@),
    ensures
        r matches Ok(t) ==> tiles_follow(t@, variation),
        r matches Ok(t) ==> forall|i: int|
            0 <= i < t@.len() ==> {
                let (a, b, c, d) = #[trigger] variation_corners(variation)[i];
                let w = samples@[0].width as int;
                let h = samples@[0].height as int;
                &&& t@[i].spec_img().has_dims(w, h)
                &&& forall|x: int, y: int|
                    0 <= x < w && 0 <= y < h ==> #[trigger] t@[i].spec_img().at(x, y) == merged_pixel(
                        samples@[a as int],
                        samples@[b as int],
                        samples@[c as int],
                        samples@[d as int],
                        w / 2,
                        h / 2,
                        x,
                        y,
                    )
            },
        r is Err <==> exists|i: int|
            0 <= i < variation_count(variation) && !merge_fits(
                samples@[(#[trigger] variation_corners(variation)[i]).0 as int],
                samples@[variation_corners(variation)[i].1 as int],
                samples@[variation_corners(variation)[i].2 as int],
                samples@[variation_corners(variation)[i].3 as int],
                samples@[0].width as int / 2,
                samples@[0].height as int / 2,
            ),
        r matches Err(e) ==> e is SizeMismatch,
{
    let tuples = variation_tuples(variation);
    let ghost vc = variation_corners(variation);
    let ghost w = samples@[0].width as int;
    let ghost h = samples@[0].height as int;
    let mut res: Vec<WTile> = Vec::new();
    let mut i: usize = 0;
    while i < tuples.len()
        invariant
            samples@.len() == 4,
            all_wf(samples@),
            tuples@ == vc,
            vc == variation_corners(variation),
            vc.len() == variation_count(variation),
            w == samples@[0].width,
            h == samples@[0].height,
            i <= tuples@.len(),
            res@.len() == i,
            forall|j: int|
                0 <= j < i ==> merge_fits(
                    samples@[(#[trigger] vc[j]).0 as int],
                    samples@[vc[j].1 as int],
                    samples@[vc[j].2 as int],
                    samples@[vc[j].3 as int],
                    w / 2,
                    h / 2,
                ),
            forall|j: int| 0 <= j < i ==> (#[trigger] res@[j]).spec_edges() == edges_of(vc[j].0, vc[j].1, vc[j].2, vc[j].3),
            forall|j: int|
                0 <= j < i ==> {
                    let (a, b, c, d) = #[trigger] vc[j];
                    &&& res@[j].spec_img().has_dims(w, h)
                    &&& forall|x: int, y: int|
                        0 <= x < w && 0 <= y < h ==> #[trigger] res@[j].spec_img().at(x, y) == merged_pixel(
                            samples@[a as int],
                            samples@[b as int],
                            samples@[c as int],
                            samples@[d as int],
                            w / 2,
                            h / 2,
                            x,
                            y,
                        )
                },
        decreases tuples@.len() - i,
    {
        let (a, b, c, d) = tuples[i];
        proof {
            lemma_variation_codes(variation, i as int);
        }
        match merge_samples(samples, a, b, c, d) {
            Ok(img) => {
                res.push(WTile::new(img, a, b, c, d));
            },
            Err(e) => {
                assert(!merge_fits(
                    samples@[vc[i as int].0 as int],
                    samples@[vc[i as int].1 as int],
                    samples@[vc[i as int].2 as int],
                    samples@[vc[i as int].3 as int],
                    w / 2,
                    h / 2,
                ));
                return Err(e);
            },
        }
        i = i + 1;
    }
    Ok(res)
}

/// The test set of `v`: the tiles merged from four solid 128 by 128
/// samples, one colour per corner code, without synthesis.
pub fn build_testset(variation: WTileVariation) -> (r: Result<Vec<WTile>, Error>)
    ensures
        r matches Ok(t) && tiles_follow(t@, variation) && uniform_tiles(t@) && forall|i: int|
            0 <= i < t@.len() ==> (#[trigger] t@[i]).spec_img().has_dims(TEST_SIDE as int, TEST_SIDE as int),
        r matches Ok(t) ==> forall|i: int, x: int, y: int|
            0 <= i < t@.len() && 0 <= x < TEST_SIDE && 0 <= y < TEST_SIDE ==> #[trigger] t@[i].spec_img().at(x, y)
                == test_colour(corner_at(variation_corners(variation)[i], x, y) as int),
{
    let samples = testset_samples();
    let r = build_test_tiles(variation, &samples);
    proof {
        assert forall|i: int| 0 <= i < variation_count(variation) implies merge_fits(
            samples@[(#[trigger] variation_corners(variation)[i]).0 as int],
            samples@[variation_corners(variation)[i].1 as int],
            samples@[variation_corners(variation)[i].2 as int],
            samples@[variation_corners(variation)[i].3 as int],
            samples@[0].width as int / 2,
            samples@[0].height as int / 2,
        ) by {
            lemma_variation_codes(variation, i);
        }
        if r is Ok {
            let t = r->Ok_0;
            assert forall|i: int, x: int, y: int|
                0 <= i < t@.len() && 0 <= x < TEST_SIDE && 0 <= y < TEST_SIDE implies #[trigger] t@[i].spec_img().at(x, y)
                    == test_colour(corner_at(variation_corners(variation)[i], x, y) as int) by {
                lemma_variation_codes(variation, i);
                let (a, b, c, d) = variation_corners(variation)[i];
                assert(t@[i].spec_img().at(x, y) == merged_pixel(
                    samples@[a as int],
                    samples@[b as int],
                    samples@[c as int],
                    samples@[d as int],
                    64,
                    64,
                    x,
                    y,
                ));
            }
            assert(t@[0].spec_img().has_dims(TEST_SIDE as int, TEST_SIDE as int));
        }
    }
    r
}

/// The code of the corner whose quarter holds `(x, y)` of a 128 by 128
/// tile with corners `t`.
pub open spec fn corner_at(t: (usize, usize, usize, usize), x: int, y: int) -> usize {
    if x < 64 && y < 64 {
        t.0
    } else if y < 64 {
        t.1
    } else if x < 64 {
        t.2
    } else {
        t.3
    }
}

/// The cache keys of the tiles of `v` built from the input named `label`,
/// in the order the tiles are built.
pub fn tile_keys(variation: WTileVariation, label: &str) -> (r: Vec<Vec<u8>>)
    ensures
        r@.len() == variation_count(variation),
        forall|i: int|
            0 <= i < r@.len() ==> (#[trigger] r@[i])@ == tile_key_bytes(variation, label.spec_bytes(), variation_corners(variation)[i]),
{
    let tuples = variation_tuples(variation);
    let mut r: Vec<Vec<u8>> = Vec::new();
    let mut i: usize = 0;
    while i < tuples.len()
        invariant
            tuples@ == variation_corners(variation),
            tuples@.len() == variation_count(variation),
            i <= tuples@.len(),
            r@.len() == i,
            forall|j: int|
                0 <= j < i ==> (#[trigger] r@[j])@ == tile_key_bytes(variation, label.spec_bytes(), tuples@[j]),
        decreases tuples@.len() - i,
    {
        r.push(tile_key(variation, label, tuples[i]));
        i = i + 1;
    }
    r
}

/// The number of samples.
pub const SAMPLE_COUNT: u64 = 4;

/// The cache keys of the samples synthesised from the `w` by `h` input at
/// `path`, for the seeds `1` to `4`.
pub fn sample_keys(w: u32, h: u32, path: &str) -> (r: Vec<Vec<u8>>)
    ensures
        r@.len() == SAMPLE_COUNT,
        forall|i: int| 0 <= i < r@.len() ==> (#[trigger] r@[i])@ == sample_key_bytes(w, h, path.spec_bytes(), (i + 1) as u64),
{
    let mut r: Vec<Vec<u8>> = Vec::new();
    let mut id: u64 = 1;
    while id <= SAMPLE_COUNT
        invariant
            1 <= id <= SAMPLE_COUNT + 1,
            r@.len() == id - 1,
            forall|j: int| 0 <= j < r@.len() ==> (#[trigger] r@[j])@ == sample_key_bytes(w, h, path.spec_bytes(), (j + 1) as u64),
        decreases SAMPLE_COUNT + 1 - id,
    {
        r.push(sample_key(w, h, path, id));
        id = id + 1;
    }
    r
}

/// The images share one size, which is square, even and not empty, and
/// all are well formed.
pub open spec fn uniform_images(images: Seq<Raster>) -> bool {
    &&& images.len() > 0
    &&& forall|i: int| 0 <= i < images.len() ==> (#[trigger] images[i]).wf()
    &&& forall|i: int|
        0 <= i < images.len() ==> (#[trigger] images[i]).width == images[0].width && images[i].height == images[0].height
    &&& splittable(images[0].width as int, images[0].height as int)
}

/// The tile set of `v` from one image per corner tuple, in the
/// variation's order. `SizeMismatch` unless the images are well formed and
/// share one square, even, non-empty size.
pub fn assemble_tiles(variation: WTileVariation, images: Vec<Raster>) -> (r: Result<Vec<WTile>, Error>)
    requires
        images@.len() == variation_count(variation),
    ensures
        r is Ok <==> uniform_images(images@),
        r matches Err(e) ==> e is SizeMismatch,
        r matches Ok(t) ==> tiles_follow(t@, variation) && uniform_tiles(t@),
        r matches Ok(t) ==> forall|i: int| 0 <= i < t@.len() ==> (#[trigger] t@[i]).spec_img() == images@[i],
{
    let tuples = variation_tuples(variation);
    let ghost vc = variation_corners(variation);
    let ghost imgs = images@;
    let w = images[0].width;
    let h = images[0].height;
    if w == 0 || w != h || w % 2 != 0 {
        return Err(Error::SizeMismatch);
    }
    let mut i: usize = 0;
    while i < images.len()
        invariant
            imgs == images@,
            i <= images@.len(),
            images@.len() > 0,
            w == images@[0].width,
            h == images@[0].height,
            forall|j: int| 0 <= j < i ==> (#[trigger] images@[j]).wf() && images@[j].width == w && images@[j].height == h,
        decreases images@.len() - i,
    {
        if !images[i].is_wf() || images[i].width != w || images[i].height != h {
            return Err(Error::SizeMismatch);
        }
        i = i + 1;
    }
    let mut res: Vec<WTile> = Vec::new();
    let mut rest = images;
    let mut k: usize = tuples.len();
    // Tiles are taken from the back so that each image moves once.
    while k > 0
        invariant
            tuples@ == vc,
            vc == variation_corners(variation),
            vc.len() == variation_count(variation),
            imgs.len() == vc.len(),
            k <= vc.len(),
            rest@ == imgs.subrange(0, k as int),
            res@.len() == vc.len() - k,
            forall|j: int|
                0 <= j < res@.len() ==> (#[trigger] res@[j]).spec_img() == imgs[vc.len() - 1 - j] && res@[j].spec_edges()
                    == edges_of(vc[vc.len() - 1 - j].0, vc[vc.len() - 1 - j].1, vc[vc.len() - 1 - j].2, vc[vc.len() - 1 - j].3),
        decreases k,
    {
        let img = rest.pop().unwrap();
        let (a, b, c, d) = tuples[k - 1];
        res.push(WTile::new(img, a, b, c, d));
        k = k - 1;
    }
    let mut out: Vec<WTile> = Vec::new();
    while res.len() > 0
        invariant
            vc == variation_corners(variation),
            vc.len() == variation_count(variation),
            imgs.len() == vc.len(),
            res@.len() + out@.len() == vc.len(),
            forall|j: int|
                0 <= j < res@.len() ==> (#[trigger] res@[j]).spec_img() == imgs[vc.len() - 1 - j] && res@[j].spec_edges()
                    == edges_of(vc[vc.len() - 1 - j].0, vc[vc.len() - 1 - j].1, vc[vc.len() - 1 - j].2, vc[vc.len() - 1 - j].3),
            forall|j: int|
                0 <= j < out@.len() ==> (#[trigger] out@[j]).spec_img() == imgs[j] && out@[j].spec_edges() == edges_of(
                    vc[j].0,
                    vc[j].1,
                    vc[j].2,
                    vc[j].3,
                ),
        decreases res@.len(),
    {
        let t = res.pop().unwrap();
        out.push(t);
    }
    Ok(out)
}

} // verus!
