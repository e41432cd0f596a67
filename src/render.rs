use vstd::prelude::*;
use crate::atlas::{cells_complete, Atlas};
use crate::error::Error;
use crate::raster::{Pixel, Raster};
use crate::tile::WTile;

verus! {

/// The colour of cells that no tile covers.
pub open spec fn black() -> Pixel {
    Pixel { r: 0, g: 0, b: 0, a: 255 }
}

/// Every tile's image is well formed.
pub open spec fn tiles_wf(tiles: Seq<WTile>) -> bool {
    forall|i: int| 0 <= i < tiles.len() ==> (#[trigger] tiles[i]).spec_img().wf()
}

/// `layout` has `rows` rows of `cols` cells, each empty or an index into
/// `count` tiles.
pub open spec fn layout_ok(layout: Seq<Seq<Option<usize>>>, cols: int, rows: int, count: int) -> bool {
    &&& layout.len() == rows
    &&& forall|y: int| 0 <= y < rows ==> #[trigger] layout[y].len() == cols
    &&& forall|x: int, y: int|
        0 <= x < cols && 0 <= y < rows && #[trigger] layout[y][x] is Some ==> layout[y][x]->0 < count
}

/// The pixel at `(px, py)` of the picture that puts a `w` by `h` block of
/// tile `layout[cy][cx]` at block `(cx, cy)`, black where a cell is empty.
pub open spec fn composed_pixel(
    layout: Seq<Seq<Option<usize>>>,
    tiles: Seq<WTile>,
    w: int,
    h: int,
    px: int,
    py: int,
) -> Pixel {
    match layout[py / h][px / w] {
        Some(i) => tiles[i as int].spec_img().at(px % w, py % h),
        None => black(),
    }
}

/// Some cell of `layout` holds a tile whose image is smaller than `w` by `h`.
pub open spec fn layout_has_small_tile(
    layout: Seq<Seq<Option<usize>>>,
    tiles: Seq<WTile>,
    cols: int,
    rows: int,
    w: int,
    h: int,
) -> bool {
    exists|x: int, y: int|
        0 <= x < cols && 0 <= y < rows && #[trigger] layout[y][x] is Some && (
        tiles[layout[y][x]->0 as int].spec_img().width < w || tiles[layout[y][x]->0 as int].spec_img().height < h)
}

/// `c * w <= p < c * w + w` exactly when `p / w == c`, and then
/// `p % w == p - c * w`.
pub proof fn lemma_block(p: int, w: int, c: int)
    requires
        w > 0,
        p >= 0,
        c >= 0,
    ensures
        (c * w <= p < c * w + w) <==> p / w == c,
        p / w == c ==> p % w == p - c * w,
{
    vstd::arithmetic::div_mod::lemma_fundamental_div_mod(p, w);
    assert(w * (p / w) == (p / w) * w) by (nonlinear_arith);
    if c * w <= p < c * w + w {
        assert(c * w == w * c) by (nonlinear_arith);
        vstd::arithmetic::div_mod::lemma_fundamental_div_mod_converse(p, w, c, p - c * w);
    }
}

proof fn lemma_div_below(p: int, w: int, n: int)
    requires
        0 <= p < n * w,
        w > 0,
    ensures
        0 <= p / w < n,
{
    vstd::arithmetic::div_mod::lemma_fundamental_div_mod(p, w);
    let q = p / w;
    assert(n * w == w * n) by (nonlinear_arith);
    if q >= n {
        assert(w * q >= w * n) by (nonlinear_arith)
            requires q >= n, w > 0;
    }
    if q < 0 {
        assert(w * q <= -w) by (nonlinear_arith)
            requires q < 0, w > 0;
    }
}

/// The layout view of a table of optional cells.
pub open spec fn layout_view(l: &Vec<Vec<Option<usize>>>) -> Seq<Seq<Option<usize>>> {
    l@.map_values(|row: Vec<Option<usize>>| row@)
}

/// Puts the top-left `w` by `h` block of tile `layout[cy][cx]` at block
/// `(cx, cy)` of a black `cols * w` by `rows * h` picture. `SizeMismatch`
/// when some placed tile is smaller than `w` by `h`.
pub fn compose(layout: &Vec<Vec<Option<usize>>>, cols: u32, rows: u32, tiles: &Vec<WTile>, w: u32, h: u32) -> (r:
    Result<Raster, Error>)
    requires
        layout_ok(layout_view(layout), cols as int, rows as int, tiles@.len() as int),
        tiles_wf(tiles@),
        cols * w <= u32::MAX,
        rows * h <= u32::MAX,
    ensures
        r is Err <==> (w > 0 && h > 0 && layout_has_small_tile(
            layout_view(layout),
            tiles@,
            cols as int,
            rows as int,
            w as int,
            h as int,
        )),
        r matches Err(e) ==> e is SizeMismatch,
        r matches Ok(img) ==> img.has_dims(cols * w, rows * h),
        r matches Ok(img) ==> forall|px: int, py: int|
            0 <= px < img.width && 0 <= py < img.height ==> #[trigger] img.at(px, py) == composed_pixel(
                layout_view(layout),
                tiles@,
                w as int,
                h as int,
                px,
                py,
            ),
{
    let ghost lv = layout_view(layout);
    let bk = Pixel { r: 0, g: 0, b: 0, a: 255 };
    let mut img = Raster::filled(cols * w, rows * h, bk);
    if w == 0 || h == 0 {
        assert(cols * w == 0 || rows * h == 0) by (nonlinear_arith)
            requires w == 0 || h == 0;
        return Ok(img);
    }
    let ghost wi = w as int;
    let ghost hi = h as int;
    let mut cy: u32 = 0;
    while cy < rows
        invariant
            lv == layout_view(layout),
            layout_ok(lv, cols as int, rows as int, tiles@.len() as int),
            tiles_wf(tiles@),
            cols * w <= u32::MAX,
            rows * h <= u32::MAX,
            wi == w,
            hi == h,
            w > 0,
            h > 0,
            cy <= rows,
            img.has_dims(cols * w, rows * h),
            forall|x: int, y: int|
                0 <= x < cols && 0 <= y < cy && #[trigger] lv[y][x] is Some ==> !(tiles@[lv[y][x]->0 as int].spec_img().width
                    < w || tiles@[lv[y][x]->0 as int].spec_img().height < h),
            forall|px: int, py: int|
                0 <= px < img.width && 0 <= py < img.height ==> #[trigger] img.at(px, py) == if py / hi < cy {
                    composed_pixel(lv, tiles@, wi, hi, px, py)
                } else {
                    black()
                },
        decreases rows - cy,
    {
        let mut cx: u32 = 0;
        while cx < cols
            invariant
                lv == layout_view(layout),
                layout_ok(lv, cols as int, rows as int, tiles@.len() as int),
                tiles_wf(tiles@),
                cols * w <= u32::MAX,
                rows * h <= u32::MAX,
                wi == w,
                hi == h,
                w > 0,
                h > 0,
                cy < rows,
                cx <= cols,
                img.has_dims(cols * w, rows * h),
                forall|x: int, y: int|
                    0 <= x < cols && 0 <= y < rows && (y < cy || (y == cy && x < cx)) && #[trigger] lv[y][x] is Some
                        ==> !(tiles@[lv[y][x]->0 as int].spec_img().width < w
                        || tiles@[lv[y][x]->0 as int].spec_img().height < h),
                forall|px: int, py: int|
                    0 <= px < img.width && 0 <= py < img.height ==> #[trigger] img.at(px, py) == if py / hi < cy || (
                    py / hi == cy && px / wi < cx) {
                        composed_pixel(lv, tiles@, wi, hi, px, py)
                    } else {
                        black()
                    },
            decreases cols - cx,
        {
            assert(layout@[cy as int]@ == lv[cy as int]);
            assert((cx + 1) * w <= cols * w && cx * w + w == (cx + 1) * w) by (nonlinear_arith)
                requires cx < cols;
            assert((cy + 1) * h <= rows * h && cy * h + h == (cy + 1) * h) by (nonlinear_arith)
                requires cy < rows;
            if let Some(i) = layout[cy as usize][cx as usize] {
                assert(lv[cy as int][cx as int] == Some(i));
                let ghost before = img;
                let t = tiles[i].image();
                if !img.copy_from(t, 0, 0, w, h, cx * w, cy * h) {
                    assert(layout_has_small_tile(lv, tiles@, cols as int, rows as int, w as int, h as int)) by {
                        assert(lv[cy as int][cx as int] is Some);
                    }
                    return Err(Error::SizeMismatch);
                }
                assert forall|px: int, py: int|
                    0 <= px < img.width && 0 <= py < img.height implies #[trigger] img.at(px, py) == if py / hi < cy
                    || (py / hi == cy && px / wi < cx + 1) {
                        composed_pixel(lv, tiles@, wi, hi, px, py)
                    } else {
                        black()
                    } by {
                    lemma_block(px, wi, cx as int);
                    lemma_block(py, hi, cy as int);
                    assert(before.at(px, py) == if py / hi < cy || (py / hi == cy && px / wi < cx) {
                        composed_pixel(lv, tiles@, wi, hi, px, py)
                    } else {
                        black()
                    });
                }
            } else {
                assert forall|px: int, py: int|
                    0 <= px < img.width && 0 <= py < img.height implies #[trigger] img.at(px, py) == if py / hi < cy
                    || (py / hi == cy && px / wi < cx + 1) {
                        composed_pixel(lv, tiles@, wi, hi, px, py)
                    } else {
                        black()
                    } by {
                    if py / hi == cy && px / wi == cx {
                        assert(lv[py / hi][px / wi] is None);
                    }
                }
            }
            cx = cx + 1;
        }
        assert forall|px: int, py: int|
            0 <= px < img.width && 0 <= py < img.height implies #[trigger] img.at(px, py) == if py / hi < cy + 1 {
                composed_pixel(lv, tiles@, wi, hi, px, py)
            } else {
                black()
            } by {
            if py / hi == cy {
                vstd::arithmetic::div_mod::lemma_fundamental_div_mod(px, wi);
                assert(px / wi < cols) by (nonlinear_arith)
                    requires px < cols * wi, px >= 0, wi > 0, px == wi * (px / wi) + px % wi, px % wi >= 0;
            }
        }
        cy = cy + 1;
    }
    assert forall|px: int, py: int|
        0 <= px < img.width && 0 <= py < img.height implies #[trigger] img.at(px, py) == composed_pixel(
        lv,
        tiles@,
        wi,
        hi,
        px,
        py,
    ) by {
        vstd::arithmetic::div_mod::lemma_fundamental_div_mod(py, hi);
        assert(py / hi < rows) by (nonlinear_arith)
            requires py < rows * hi, py >= 0, hi > 0, py == hi * (py / hi) + py % hi, py % hi >= 0;
    }
    Ok(img)
}

/// The pixel at `(px, py)` of the picture of a layout of `w` by `h` tiles.
pub open spec fn atlas_pixel(cells: Seq<Seq<usize>>, tiles: Seq<WTile>, w: int, h: int, px: int, py: int) -> Pixel {
    tiles[cells[py / h][px / w] as int].spec_img().at(px % w, py % h)
}

/// Some cell of the layout holds a tile smaller than `w` by `h`.
pub open spec fn atlas_has_small_tile(cells: Seq<Seq<usize>>, tiles: Seq<WTile>, n: int, w: int, h: int) -> bool {
    exists|x: int, y: int|
        0 <= x < n && 0 <= y < n && (tiles[#[trigger] cells[y][x] as int].spec_img().width < w
            || tiles[cells[y][x] as int].spec_img().height < h)
}

/// The picture of a layout: the top-left block of the layout's tile size
/// of each cell's tile, side by side. `SizeMismatch` when a tile is smaller
/// than that size.
pub fn render_combined(atlas: &Atlas, tiles: &Vec<WTile>) -> (r: Result<Raster, Error>)
    requires
        atlas.wf(),
        cells_complete(atlas.spec_size() as int, tiles@.len() as int, atlas.cells()),
        tiles_wf(tiles@),
        atlas.spec_tile_dimensions().0 * atlas.spec_size() <= u32::MAX,
        atlas.spec_tile_dimensions().1 * atlas.spec_size() <= u32::MAX,
    ensures
        ({
            let (w, h) = atlas.spec_tile_dimensions();
            &&& r is Err <==> (w > 0 && h > 0 && atlas_has_small_tile(
                atlas.cells(),
                tiles@,
                atlas.spec_size() as int,
                w as int,
                h as int,
            ))
            &&& r matches Err(e) ==> e is SizeMismatch
            &&& r matches Ok(img) ==> img.has_dims(w * atlas.spec_size(), h * atlas.spec_size())
            &&& r matches Ok(img) ==> forall|px: int, py: int|
                0 <= px < img.width && 0 <= py < img.height ==> #[trigger] img.at(px, py) == atlas_pixel(
                    atlas.cells(),
                    tiles@,
                    w as int,
                    h as int,
                    px,
                    py,
                )
        }),
{
    let (w, h) = atlas.tile_dimensions();
    let n = atlas.size();
    let ghost cells = atlas.cells();
    let mut layout: Vec<Vec<Option<usize>>> = Vec::new();
    let mut y: u32 = 0;
    while y < n
        invariant
            atlas.wf(),
            n == atlas.spec_size(),
            cells == atlas.cells(),
            y <= n,
            layout@.len() == y,
            forall|j: int| 0 <= j < y ==> #[trigger] layout@[j]@.len() == n,
            forall|i: int, j: int| 0 <= i < n && 0 <= j < y ==> #[trigger] layout@[j]@[i] == Some(cells[j][i]),
        decreases n - y,
    {
        let mut row: Vec<Option<usize>> = Vec::new();
        let mut x: u32 = 0;
        while x < n
            invariant
                atlas.wf(),
                n == atlas.spec_size(),
                cells == atlas.cells(),
                y < n,
                x <= n,
                row@.len() == x,
                forall|i: int| 0 <= i < x ==> #[trigger] row@[i] == Some(cells[y as int][i]),
            decreases n - x,
        {
            row.push(Some(atlas.cell(x, y)));
            x = x + 1;
        }
        layout.push(row);
        y = y + 1;
    }
    let ghost lv = layout_view(&layout);
    assert forall|j: int| 0 <= j < n implies #[trigger] lv[j] == layout@[j]@ by {}
    assert(layout_ok(lv, n as int, n as int, tiles@.len() as int));
    let r = compose(&layout, n, n, tiles, w, h);
    proof {
        if w > 0 && h > 0 {
            if layout_has_small_tile(lv, tiles@, n as int, n as int, w as int, h as int) {
                let (x, y) = choose|x: int, y: int|
                    0 <= x < n && 0 <= y < n && #[trigger] lv[y][x] is Some && (
                    tiles@[lv[y][x]->0 as int].spec_img().width < w || tiles@[lv[y][x]->0 as int].spec_img().height < h);
                assert(cells[y][x] == lv[y][x]->0);
            }
            if atlas_has_small_tile(cells, tiles@, n as int, w as int, h as int) {
                let (x, y) = choose|x: int, y: int|
                    0 <= x < n && 0 <= y < n && (tiles@[#[trigger] cells[y][x] as int].spec_img().width < w
                        || tiles@[cells[y][x] as int].spec_img().height < h);
                assert(lv[y][x] == Some(cells[y][x]));
            }
        }
        if r is Ok {
            let img = r->Ok_0;
            assert forall|px: int, py: int|
                0 <= px < img.width && 0 <= py < img.height implies #[trigger] img.at(px, py) == atlas_pixel(
                    cells,
                    tiles@,
                    w as int,
                    h as int,
                    px,
                    py,
                ) by {
                vstd::arithmetic::div_mod::lemma_fundamental_div_mod(px, w as int);
                vstd::arithmetic::div_mod::lemma_fundamental_div_mod(py, h as int);
                assert(px / (w as int) < n && py / (h as int) < n) by (nonlinear_arith)
                    requires px < w * n, py < h * n, px >= 0, py >= 0, w > 0, h > 0,
                        px == w * (px / (w as int)) + px % (w as int), px % (w as int) >= 0,
                        py == h * (py / (h as int)) + py % (h as int), py % (h as int) >= 0;
                assert(lv[py / (h as int)][px / (w as int)] == Some(cells[py / (h as int)][px / (w as int)]));
            }
        }
    }
    r
}

/// `n` is the side of the smallest square grid that holds `count` cells.
pub open spec fn is_grid_side(count: nat, n: nat) -> bool {
    n * n >= count && (n == 0 || (n - 1) * (n - 1) < count)
}

/// The pixel at `(px, py)` of a tile sheet: tile `i` stands at column
/// `i % n`, row `i / n` of an `n` by `n` grid of `w` by `h` blocks, black
/// where no tile is left.
pub open spec fn sheet_pixel(tiles: Seq<WTile>, n: int, w: int, h: int, px: int, py: int) -> Pixel {
    let i = (py / h) * n + px / w;
    if i < tiles.len() {
        tiles[i].spec_img().at(px % w, py % h)
    } else {
        black()
    }
}

/// Some tile is smaller than `w` by `h`.
pub open spec fn has_small_tile(tiles: Seq<WTile>, w: int, h: int) -> bool {
    exists|i: int| 0 <= i < tiles.len() && ((#[trigger] tiles[i]).spec_img().width < w || tiles[i].spec_img().height < h)
}

/// The side of the smallest square grid that holds `count` cells.
pub fn grid_side(count: usize) -> (r: u32)
    requires
        count <= u32::MAX,
    ensures
        is_grid_side(count as nat, r as nat),
{
    let mut i: u32 = 0;
    let mut sq: u64 = 0;
    while sq < count as u64
        invariant
            i <= count,
            count <= u32::MAX,
            sq == i * i,
            i == 0 || (i - 1) * (i - 1) < count,
        decreases count - i,
    {
        assert(i < count) by (nonlinear_arith)
            requires i * i < count, i >= 0;
        assert((i + 1) * (i + 1) == i * i + 2 * i + 1) by (nonlinear_arith);
        sq = sq + 2 * (i as u64) + 1;
        i = i + 1;
    }
    i
}

/// All tiles on one sheet, in order, row by row on the smallest square
/// grid that holds them, each cut to the size of the first tile.
/// `SizeMismatch` when a tile is smaller than the first.
pub fn render_tileset(tiles: &Vec<WTile>) -> (r: Result<Raster, Error>)
    requires
        tiles@.len() > 0,
        tiles@.len() <= u32::MAX,
        tiles_wf(tiles@),
        forall|n: nat|
            is_grid_side(tiles@.len(), n) ==> n * tiles@[0].spec_img().width <= u32::MAX && n * tiles@[0].spec_img().height
                <= u32::MAX,
    ensures
        ({
            let w = tiles@[0].spec_img().width as int;
            let h = tiles@[0].spec_img().height as int;
            &&& r is Err <==> (w > 0 && h > 0 && has_small_tile(tiles@, w, h))
            &&& r matches Err(e) ==> e is SizeMismatch
            &&& r matches Ok(img) ==> exists|n: nat|
                is_grid_side(tiles@.len(), n) && img.has_dims(n * w, n * h) && forall|px: int, py: int|
                    0 <= px < img.width && 0 <= py < img.height ==> #[trigger] img.at(px, py) == sheet_pixel(
                        tiles@,
                        n as int,
                        w,
                        h,
                        px,
                        py,
                    )
        }),
{
    let first = tiles[0].image();
    let w = first.width;
    let h = first.height;
    let len = tiles.len();
    let n = grid_side(len);
    assert(n * w <= u32::MAX && n * h <= u32::MAX);
    let mut layout: Vec<Vec<Option<usize>>> = Vec::new();
    let mut idx: u64 = 0;
    let mut y: u32 = 0;
    while y < n
        invariant
            y <= n,
            idx == y * n,
            is_grid_side(len as nat, n as nat),
            len == tiles@.len(),
            layout@.len() == y,
            forall|j: int| 0 <= j < y ==> #[trigger] layout@[j]@.len() == n,
            forall|i: int, j: int|
                0 <= i < n && 0 <= j < y ==> #[trigger] layout@[j]@[i] == if j * n + i < len {
                    Some((j * n + i) as usize)
                } else {
                    None::<usize>
                },
        decreases n - y,
    {
        assert(y * n + n <= n * n) by (nonlinear_arith)
            requires y < n;
        assert(n * n <= u32::MAX * u32::MAX) by (nonlinear_arith)
            requires n <= u32::MAX;
        let mut row: Vec<Option<usize>> = Vec::new();
        let mut x: u32 = 0;
        while x < n
            invariant
                y < n,
                x <= n,
                idx == y * n + x,
                y * n + n <= n * n,
                n * n <= u32::MAX * u32::MAX,
                is_grid_side(len as nat, n as nat),
                len == tiles@.len(),
                row@.len() == x,
                forall|i: int| 0 <= i < x ==> #[trigger] row@[i] == if y * n + i < len {
                    Some((y * n + i) as usize)
                } else {
                    None::<usize>
                },
            decreases n - x,
        {
            if idx < len as u64 {
                row.push(Some(idx as usize));
            } else {
                row.push(None);
            }
            idx = idx + 1;
            x = x + 1;
        }
        layout.push(row);
        assert(idx == (y + 1) * n) by (nonlinear_arith)
            requires idx == y * n + n;
        y = y + 1;
    }
    let ghost lv = layout_view(&layout);
    assert forall|j: int| 0 <= j < n implies #[trigger] lv[j] == layout@[j]@ by {}
    assert(layout_ok(lv, n as int, n as int, len as int));
    let r = compose(&layout, n, n, tiles, w, h);
    proof {
        let wi = w as int;
        let hi = h as int;
        if w > 0 && h > 0 {
            if layout_has_small_tile(lv, tiles@, n as int, n as int, wi, hi) {
                let (x, y) = choose|x: int, y: int|
                    0 <= x < n && 0 <= y < n && #[trigger] lv[y][x] is Some && (
                    tiles@[lv[y][x]->0 as int].spec_img().width < w || tiles@[lv[y][x]->0 as int].spec_img().height < h);
                let i = lv[y][x]->0 as int;
                assert(tiles@[i].spec_img().width < w || tiles@[i].spec_img().height < h);
            }
            if has_small_tile(tiles@, wi, hi) {
                let i = choose|i: int| 0 <= i < tiles@.len() && ((#[trigger] tiles@[i]).spec_img().width < w
                    || tiles@[i].spec_img().height < h);
                let x = i % (n as int);
                let y = i / (n as int);
                vstd::arithmetic::div_mod::lemma_fundamental_div_mod(i, n as int);
                assert(y < n) by (nonlinear_arith)
                    requires i < n * n, i >= 0, n > 0, i == n * y + x, 0 <= x;
                assert(y * n + x == i) by (nonlinear_arith)
                    requires i == n * y + x;
                assert(lv[y][x] == Some(i as usize));
            }
        }
        if r is Ok {
            let img = r->Ok_0;
            assert forall|px: int, py: int|
                0 <= px < img.width && 0 <= py < img.height implies #[trigger] img.at(px, py) == sheet_pixel(
                    tiles@,
                    n as int,
                    wi,
                    hi,
                    px,
                    py,
                ) by {
                vstd::arithmetic::div_mod::lemma_fundamental_div_mod(px, wi);
                vstd::arithmetic::div_mod::lemma_fundamental_div_mod(py, hi);
                lemma_div_below(px, wi, n as int);
                lemma_div_below(py, hi, n as int);
                assert(lv[py / hi][px / wi] == layout@[py / hi]@[px / wi]);
            }
            assert(img.has_dims(n * w, n * h));
        }
    }
    r
}

} // verus!
