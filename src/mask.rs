use vstd::prelude::*;
use crate::raster::{Pixel, Raster};

verus! {

/// The largest centre coordinate or radius handed to the disc drawer; it
/// keeps the drawer's integer arithmetic in range.
pub const DISC_LIMIT: u32 = 0x1000_0000;

/// The RGBA buffer after a filled disc of colour `colour` centred at
/// `(cx, cy)` with radius `radius` has been drawn on the `w` by `h` image
/// it holds, clipped to the image.
pub uninterp spec fn disc_drawn(buf: Seq<u8>, w: u32, h: u32, cx: i32, cy: i32, radius: i32, colour: Seq<u8>) -> Seq<u8>;

/// Relies on imageproc's `drawing::draw_filled_circle_mut` on an
/// `image::RgbaImage` made from the buffer: it draws the part of the disc
/// that lies inside the image and leaves the image's size alone.
#[verifier::external_body]
fn draw_disc(buf: Vec<u8>, w: u32, h: u32, cx: i32, cy: i32, radius: i32, colour: [u8; 4]) -> (r: Vec<u8>)
    requires
        buf@.len() == 4 * w * h,
        0 <= radius <= DISC_LIMIT,
        -DISC_LIMIT <= cx <= DISC_LIMIT,
        -DISC_LIMIT <= cy <= DISC_LIMIT,
    ensures
        r@ == disc_drawn(buf@, w, h, cx, cy, radius, colour@),
        r@.len() == buf@.len(),
{
    let mut img = image::RgbaImage::from_raw(w, h, buf).unwrap();
    imageproc::drawing::draw_filled_circle_mut(&mut img, (cx, cy), radius, image::Rgba(colour));
    img.into_raw()
}

/// The pixel stored at byte `i` of an RGBA buffer.
pub open spec fn pixel_at_byte(b: Seq<u8>, i: int) -> Pixel {
    Pixel { r: b[i], g: b[i + 1], b: b[i + 2], a: b[i + 3] }
}

/// `r` is the `w` by `h` raster whose pixels are stored row by row in `b`.
pub open spec fn raster_of_bytes(r: Raster, w: int, h: int, b: Seq<u8>) -> bool {
    &&& r.has_dims(w, h)
    &&& forall|x: int, y: int| 0 <= x < w && 0 <= y < h ==> #[trigger] r.at(x, y) == pixel_at_byte(b, 4 * (y * w + x))
}

/// The raster whose pixels are stored row by row, four bytes each, in `b`.
pub fn raster_from_rgba(w: u32, h: u32, b: &Vec<u8>) -> (r: Raster)
    requires
        b@.len() == 4 * w * h,
    ensures
        raster_of_bytes(r, w as int, h as int, b@),
{
    let len = b.len();
    let mut rows: Vec<Vec<Pixel>> = Vec::new();
    let mut off: usize = 0;
    let mut y: u32 = 0;
    while y < h
        invariant
            b@.len() == 4 * w * h,
            len == b@.len(),
            y <= h,
            off == 4 * (y * w),
            rows@.len() == y,
            forall|j: int| 0 <= j < y ==> #[trigger] rows@[j]@.len() == w,
            forall|i: int, j: int|
                0 <= i < w && 0 <= j < y ==> #[trigger] rows@[j]@[i] == pixel_at_byte(b@, 4 * (j * w + i)),
        decreases h - y,
    {
        let mut row: Vec<Pixel> = Vec::new();
        let mut x: u32 = 0;
        while x < w
            invariant
                b@.len() == 4 * w * h,
                len == b@.len(),
                y < h,
                x <= w,
                off == 4 * (y * w + x),
                row@.len() == x,
                forall|i: int| 0 <= i < x ==> #[trigger] row@[i] == pixel_at_byte(b@, 4 * (y * w + i)),
            decreases w - x,
        {
            assert(4 * (y * w + x) + 4 <= 4 * w * h) by (nonlinear_arith)
                requires x < w, y < h;
            row.push(Pixel { r: b[off], g: b[off + 1], b: b[off + 2], a: b[off + 3] });
            off = off + 4;
            x = x + 1;
        }
        rows.push(row);
        assert(off == 4 * ((y + 1) * w)) by (nonlinear_arith)
            requires off == 4 * (y * w + w);
        y = y + 1;
    }
    Raster { width: w, height: h, rows }
}

/// An all-zero buffer of `len` bytes: a fully transparent RGBA image.
fn zero_bytes(len: usize) -> (r: Vec<u8>)
    ensures
        r@ == Seq::new(len as nat, |i: int| 0u8),
{
    let mut r: Vec<u8> = Vec::new();
    let mut i: usize = 0;
    while i < len
        invariant
            i <= len,
            r@ =~= Seq::new(i as nat, |k: int| 0u8),
        decreases len - i,
    {
        r.push(0);
        i = i + 1;
    }
    r
}

/// Opaque white.
pub open spec fn white() -> Seq<u8> {
    seq![255u8, 255u8, 255u8, 255u8]
}

/// The bytes of the inpainting mask of a `w` by `h` tile: a transparent
/// image with a white disc of radius `w / 2` on each of its four corners.
pub open spec fn mask_bytes(w: u32, h: u32) -> Seq<u8> {
    let r = (w / 2) as i32;
    let b0 = Seq::new((4 * w * h) as nat, |i: int| 0u8);
    let b1 = disc_drawn(b0, w, h, 0, 0, r, white());
    let b2 = disc_drawn(b1, w, h, w as i32, 0, r, white());
    let b3 = disc_drawn(b2, w, h, 0, h as i32, r, white());
    disc_drawn(b3, w, h, w as i32, h as i32, r, white())
}

/// The inpainting mask of a `w` by `h` tile: transparent, with a filled
/// white disc of radius `w / 2` centred on each corner, so the synthesiser
/// keeps the corners of the seed and fills the star-shaped middle.
pub fn build_mask(w: u32, h: u32) -> (r: Raster)
    requires
        w <= DISC_LIMIT,
        h <= DISC_LIMIT,
        4 * w * h <= usize::MAX,
    ensures
        raster_of_bytes(r, w as int, h as int, mask_bytes(w, h)),
{
    let colour: [u8; 4] = [255, 255, 255, 255];
    assert(colour@ =~= white());
    let len = 4 * (w as usize) * (h as usize);
    let radius = (w / 2) as i32;
    let buf = zero_bytes(len);
    let buf = draw_disc(buf, w, h, 0, 0, radius, colour);
    let buf = draw_disc(buf, w, h, w as i32, 0, radius, colour);
    let buf = draw_disc(buf, w, h, 0, h as i32, radius, colour);
    let buf = draw_disc(buf, w, h, w as i32, h as i32, radius, colour);
    raster_from_rgba(w, h, &buf)
}

} // verus!
