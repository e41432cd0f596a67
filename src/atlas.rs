use vstd::prelude::*;
use rand::SeedableRng;
use rand::seq::SliceRandom;
use rand::rngs::StdRng;
use crate::cache::{decimal, push_decimal};
use crate::error::Error;
use crate::raster::LumaRaster;
use crate::tile::{edges_of, side_index, Direction, Edge, WTile};
use crate::variation::Corners;

verus! {

#[verifier::external_type_specification]
#[verifier::external_body]
pub struct ExStdRng(StdRng);

/// Relies on rand's `SeedableRng::seed_from_u64` for `StdRng`: a generator
/// seeded from `seed`. Nothing is stated of what it draws.
#[verifier::external_body]
fn seeded_rng(seed: u64) -> StdRng {
    StdRng::seed_from_u64(seed)
}

/// Relies on rand's `SliceRandom::shuffle`: the elements are permuted in
/// place (a sequence of swaps).
#[verifier::external_body]
fn shuffle_indices(v: &mut Vec<usize>, rng: &mut StdRng)
    ensures
        final(v)@.to_multiset() == old(v)@.to_multiset(),
{
    v.as_mut_slice().shuffle(rng)
}

/// The corner pair on side `d` of a tile with edges `e`.
pub open spec fn edge_side(e: Seq<Edge>, d: Direction) -> (usize, usize) {
    e[side_index(d)].1
}

/// A grid under construction: `g[y][x]` is the tile placed at `(x, y)`.
pub type Grid = Seq<Seq<Option<usize>>>;

/// Tile `t` may be placed at `(x, y)` of the `n` by `n` grid `g`: it
/// matches every neighbour already placed.
pub open spec fn fits(es: Seq<Seq<Edge>>, g: Grid, n: int, x: int, y: int, t: usize) -> bool {
    &&& (y > 0 && g[y - 1][x] is Some) ==> edge_side(es[t as int], Direction::North)
        == edge_side(es[g[y - 1][x]->0 as int], Direction::South)
    &&& (y + 1 < n && g[y + 1][x] is Some) ==> edge_side(es[t as int], Direction::South)
        == edge_side(es[g[y + 1][x]->0 as int], Direction::North)
    &&& (x + 1 < n && g[y][x + 1] is Some) ==> edge_side(es[t as int], Direction::East)
        == edge_side(es[g[y][x + 1]->0 as int], Direction::West)
    &&& (x > 0 && g[y][x - 1] is Some) ==> edge_side(es[t as int], Direction::West)
        == edge_side(es[g[y][x - 1]->0 as int], Direction::East)
}

/// The candidate chosen for `(x, y)`: the first tile of `order` that is a
/// valid index and fits.
pub open spec fn pick(es: Seq<Seq<Edge>>, g: Grid, n: int, x: int, y: int, order: Seq<usize>) -> Option<usize>
    decreases order.len(),
{
    if order.len() == 0 {
        None
    } else {
        let t = order[0];
        if t < es.len() && fits(es, g, n, x, y, t) {
            Some(t)
        } else {
            pick(es, g, n, x, y, order.drop_first())
        }
    }
}

/// The `k`-th cell that the solver fills: first the column `x == 0` from
/// top to bottom, then the row `y == 0` from left to right, then the rest
/// row by row.
pub open spec fn visit_cell(n: int, k: int) -> (int, int) {
    if k < n {
        (0, k)
    } else if k < 2 * n - 1 {
        (k - n + 1, 0)
    } else {
        let j = k - (2 * n - 1);
        (1 + j % (n - 1), 1 + j / (n - 1))
    }
}

/// An `n` by `n` grid with nothing placed.
pub open spec fn empty_grid(n: int) -> Grid {
    Seq::new(n as nat, |y: int| Seq::new(n as nat, |x: int| None::<usize>))
}

/// The grid after the first `k` cells have been filled, trying the
/// candidates of `orders[i]` for the `i`-th cell; `None` when some cell
/// found no candidate.
pub open spec fn greedy(es: Seq<Seq<Edge>>, n: int, orders: Seq<Seq<usize>>, k: int) -> Option<Grid>
    decreases k,
{
    if k <= 0 {
        Some(empty_grid(n))
    } else {
        match greedy(es, n, orders, k - 1) {
            None => None,
            Some(g) => {
                let (x, y) = visit_cell(n, k - 1);
                match pick(es, g, n, x, y, orders[k - 1]) {
                    None => None,
                    Some(t) => Some(g.update(y, g[y].update(x, Some(t)))),
                }
            },
        }
    }
}

/// The tiles of a complete grid.
pub open spec fn unwrap_grid(g: Grid) -> Seq<Seq<usize>> {
    g.map_values(|row: Seq<Option<usize>>| row.map_values(|c: Option<usize>| c->0))
}

/// The outcome of the solver on tiles with edges `es`.
pub open spec fn solve_outcome(es: Seq<Seq<Edge>>, n: int, orders: Seq<Seq<usize>>) -> Option<Seq<Seq<usize>>> {
    match greedy(es, n, orders, n * n) {
        Some(g) => Some(unwrap_grid(g)),
        None => None,
    }
}

/// The edges of each tile of a set.
pub open spec fn tile_edges(tiles: Seq<WTile>) -> Seq<Seq<Edge>> {
    tiles.map_values(|t: WTile| t.spec_edges())
}

/// Every pair of horizontally or vertically adjacent cells of `cells`
/// holds tiles whose facing sides carry the same corner pair.
pub open spec fn cells_connect(es: Seq<Seq<Edge>>, n: int, cells: Seq<Seq<usize>>) -> bool {
    &&& forall|x: int, y: int|
        0 <= x && x + 1 < n && 0 <= y < n ==> edge_side(es[#[trigger] cells[y][x] as int], Direction::East)
            == edge_side(es[cells[y][x + 1] as int], Direction::West)
    &&& forall|x: int, y: int|
        0 <= x < n && 0 <= y && y + 1 < n ==> edge_side(es[#[trigger] cells[y][x] as int], Direction::South)
            == edge_side(es[cells[y + 1][x] as int], Direction::North)
}

/// `cells` is an `n` by `n` table of indices into a set of `count` tiles.
pub open spec fn cells_complete(n: int, count: int, cells: Seq<Seq<usize>>) -> bool {
    &&& cells.len() == n
    &&& forall|y: int| 0 <= y < n ==> #[trigger] cells[y].len() == n
    &&& forall|x: int, y: int| 0 <= x < n && 0 <= y < n ==> #[trigger] cells[y][x] < count
}

/// Every placed cell of `g` holds an index into `es`.
pub open spec fn grid_in_range(es: Seq<Seq<Edge>>, n: int, g: Grid) -> bool {
    forall|x: int, y: int|
        0 <= x < n && 0 <= y < n && #[trigger] g[y][x] is Some ==> g[y][x]->0 < es.len()
}

/// Placed cells of `g` that are neighbours hold matching tiles.
#[verifier::opaque]
pub open spec fn grid_consistent(es: Seq<Seq<Edge>>, n: int, g: Grid) -> bool {
    &&& forall|x: int, y: int|
        0 <= x && x + 1 < n && 0 <= y < n && #[trigger] g[y][x] is Some && g[y][x + 1] is Some
            ==> edge_side(es[g[y][x]->0 as int], Direction::East)
            == edge_side(es[g[y][x + 1]->0 as int], Direction::West)
    &&& forall|x: int, y: int|
        0 <= x < n && 0 <= y && y + 1 < n && #[trigger] g[y][x] is Some && g[y + 1][x] is Some
            ==> edge_side(es[g[y][x]->0 as int], Direction::South)
            == edge_side(es[g[y + 1][x]->0 as int], Direction::North)
}

/// `g` is an `n` by `n` grid.
pub open spec fn grid_shape(n: int, g: Grid) -> bool {
    &&& g.len() == n
    &&& forall|y: int| 0 <= y < n ==> #[trigger] g[y].len() == n
}

/// The grid that a table of optional cells stands for.
pub open spec fn grid_view(g: &Vec<Vec<Option<usize>>>) -> Grid {
    g@.map_values(|row: Vec<Option<usize>>| row@)
}

/// The table that a vector of rows stands for.
pub open spec fn cells_view(c: &Vec<Vec<usize>>) -> Seq<Seq<usize>> {
    c@.map_values(|row: Vec<usize>| row@)
}

/// The candidate orders that a vector of vectors stands for.
pub open spec fn orders_view(o: &Vec<Vec<usize>>) -> Seq<Seq<usize>> {
    o@.map_values(|row: Vec<usize>| row@)
}

proof fn lemma_greedy_stays_failed(es: Seq<Seq<Edge>>, n: int, orders: Seq<Seq<usize>>, k: int, m: int)
    requires
        0 <= k <= m,
        greedy(es, n, orders, k) is None,
    ensures
        greedy(es, n, orders, m) is None,
    decreases m - k,
{
    if k < m {
        lemma_greedy_stays_failed(es, n, orders, k, m - 1);
    }
}

proof fn lemma_visit_inner(n: int, x: int, y: int)
    requires
        1 <= x < n,
        1 <= y < n,
    ensures
        visit_cell(n, 2 * n - 1 + (y - 1) * (n - 1) + (x - 1)) == (x, y),
{
    let j = (y - 1) * (n - 1) + (x - 1);
    assert((y - 1) * (n - 1) >= 0) by (nonlinear_arith)
        requires y >= 1, n >= 1;
    vstd::arithmetic::div_mod::lemma_fundamental_div_mod_converse(j, n - 1, y - 1, x - 1);
}

proof fn lemma_place_keeps(es: Seq<Seq<Edge>>, n: int, g: Grid, x: int, y: int, t: usize)
    requires
        0 <= x < n,
        0 <= y < n,
        grid_shape(n, g),
        grid_in_range(es, n, g),
        grid_consistent(es, n, g),
        g[y][x] is None,
        t < es.len(),
        fits(es, g, n, x, y, t),
    ensures
        grid_shape(n, g.update(y, g[y].update(x, Some(t)))),
        grid_in_range(es, n, g.update(y, g[y].update(x, Some(t)))),
        grid_consistent(es, n, g.update(y, g[y].update(x, Some(t)))),
{
    let ng = g.update(y, g[y].update(x, Some(t)));
    assert forall|yy: int| 0 <= yy < n implies #[trigger] ng[yy].len() == n by {
        if yy != y {
            assert(ng[yy] == g[yy]);
        }
    }
    assert forall|xx: int, yy: int|
        0 <= xx < n && 0 <= yy < n && #[trigger] ng[yy][xx] is Some implies ng[yy][xx]->0 < es.len() by {
        if xx != x || yy != y {
            assert(ng[yy][xx] == g[yy][xx]);
        }
    }
    reveal(grid_consistent);
    assert forall|xx: int, yy: int|
        0 <= xx && xx + 1 < n && 0 <= yy < n && #[trigger] ng[yy][xx] is Some && ng[yy][xx + 1] is Some
            implies edge_side(es[ng[yy][xx]->0 as int], Direction::East)
            == edge_side(es[ng[yy][xx + 1]->0 as int], Direction::West) by {
        assert(ng[yy][xx] == if xx == x && yy == y { Some(t) } else { g[yy][xx] });
        assert(ng[yy][xx + 1] == if xx + 1 == x && yy == y { Some(t) } else { g[yy][xx + 1] });
    }
    assert forall|xx: int, yy: int|
        0 <= xx < n && 0 <= yy && yy + 1 < n && #[trigger] ng[yy][xx] is Some && ng[yy + 1][xx] is Some
            implies edge_side(es[ng[yy][xx]->0 as int], Direction::South)
            == edge_side(es[ng[yy + 1][xx]->0 as int], Direction::North) by {
        assert(ng[yy][xx] == if xx == x && yy == y { Some(t) } else { g[yy][xx] });
        assert(ng[yy + 1][xx] == if xx == x && yy + 1 == y { Some(t) } else { g[yy + 1][xx] });
    }
}

/// Whether tile `t` fits at `(x, y)` of `grid`.
fn tile_fits(tiles: &Vec<WTile>, grid: &Vec<Vec<Option<usize>>>, n: usize, x: usize, y: usize, t: usize) -> (r: bool)
    requires
        t < tiles.len(),
        x < n,
        y < n,
        grid_shape(n as int, grid_view(grid)),
        grid_in_range(tile_edges(tiles@), n as int, grid_view(grid)),
    ensures
        r == fits(tile_edges(tiles@), grid_view(grid), n as int, x as int, y as int, t),
{
    let ghost es = tile_edges(tiles@);
    let ghost g = grid_view(grid);
    assert(es[t as int] == tiles@[t as int].spec_edges());
    assert forall|j: int| 0 <= j < n implies #[trigger] grid@[j]@.len() == n by {
        assert(grid@[j]@ == g[j]);
    }
    if y > 0 {
        if let Some(u) = grid[y - 1][x] {
            assert(g[y - 1][x as int] == Some(u));
            assert(es[u as int] == tiles@[u as int].spec_edges());
            if !tiles[t].is_connectable(Direction::North, &tiles[u]) {
                return false;
            }
        }
    }
    if y + 1 < n {
        if let Some(u) = grid[y + 1][x] {
            assert(g[y + 1][x as int] == Some(u));
            assert(es[u as int] == tiles@[u as int].spec_edges());
            if !tiles[t].is_connectable(Direction::South, &tiles[u]) {
                return false;
            }
        }
    }
    if x + 1 < n {
        if let Some(u) = grid[y][x + 1] {
            assert(g[y as int][x + 1] == Some(u));
            assert(es[u as int] == tiles@[u as int].spec_edges());
            if !tiles[t].is_connectable(Direction::East, &tiles[u]) {
                return false;
            }
        }
    }
    if x > 0 {
        if let Some(u) = grid[y][x - 1] {
            assert(g[y as int][x - 1] == Some(u));
            assert(es[u as int] == tiles@[u as int].spec_edges());
            if !tiles[t].is_connectable(Direction::West, &tiles[u]) {
                return false;
            }
        }
    }
    true
}

/// Tries the candidates of `order` in turn for the empty cell
/// `(x, y)` and places the first that fits; false when none does.
fn place_cell(
    tiles: &Vec<WTile>,
    grid: &mut Vec<Vec<Option<usize>>>,
    n: usize,
    x: usize,
    y: usize,
    order: &Vec<usize>,
) -> (placed: bool)
    requires
        x < n,
        y < n,
        grid_shape(n as int, grid_view(old(grid))),
        grid_in_range(tile_edges(tiles@), n as int, grid_view(old(grid))),
        grid_consistent(tile_edges(tiles@), n as int, grid_view(old(grid))),
        grid_view(old(grid))[y as int][x as int] is None,
    ensures
        placed == (pick(tile_edges(tiles@), grid_view(old(grid)), n as int, x as int, y as int, order@) is Some),
        placed ==> grid_view(final(grid)) == grid_view(old(grid)).update(
            y as int,
            grid_view(old(grid))[y as int].update(
                x as int,
                pick(tile_edges(tiles@), grid_view(old(grid)), n as int, x as int, y as int, order@),
            ),
        ),
        !placed ==> grid_view(final(grid)) == grid_view(old(grid)),
        grid_shape(n as int, grid_view(final(grid))),
        grid_in_range(tile_edges(tiles@), n as int, grid_view(final(grid))),
        grid_consistent(tile_edges(tiles@), n as int, grid_view(final(grid))),
{
    let ghost es = tile_edges(tiles@);
    let ghost g = grid_view(grid);
    let mut i: usize = 0;
    assert(order@.subrange(0, order@.len() as int) =~= order@);
    while i < order.len()
        invariant
            i <= order@.len(),
            grid_view(grid) == g,
            g == grid_view(old(grid)),
            es == tile_edges(tiles@),
            x < n,
            y < n,
            grid_shape(n as int, g),
            grid_in_range(es, n as int, g),
            grid_consistent(es, n as int, g),
            g[y as int][x as int] is None,
            pick(es, g, n as int, x as int, y as int, order@) == pick(
                es,
                g,
                n as int,
                x as int,
                y as int,
                order@.subrange(i as int, order@.len() as int),
            ),
        decreases order@.len() - i,
    {
        let t = order[i];
        assert(order@.subrange(i as int, order@.len() as int)[0] == t);
        assert(order@.subrange(i as int, order@.len() as int).drop_first() =~= order@.subrange(
            i as int + 1,
            order@.len() as int,
        ));
        if t < tiles.len() && tile_fits(tiles, grid, n, x, y, t) {
            grid[y][x] = Some(t);
            proof {
                lemma_place_keeps(es, n as int, g, x as int, y as int, t);
            }
            assert(grid_view(grid) =~= g.update(y as int, g[y as int].update(x as int, Some(t))));
            return true;
        }
        i = i + 1;
    }
    assert(order@.subrange(i as int, order@.len() as int) =~= Seq::<usize>::empty());
    false
}

proof fn lemma_complete_grid(es: Seq<Seq<Edge>>, n: int, g: Grid)
    requires
        grid_shape(n, g),
        grid_in_range(es, n, g),
        grid_consistent(es, n, g),
        forall|x: int, y: int| 0 <= x < n && 0 <= y < n ==> #[trigger] g[y][x] is Some,
    ensures
        cells_complete(n, es.len() as int, unwrap_grid(g)),
        cells_connect(es, n, unwrap_grid(g)),
{
    let c = unwrap_grid(g);
    assert forall|y: int| 0 <= y < n implies #[trigger] c[y].len() == n && c[y] == g[y].map_values(
        |o: Option<usize>| o->0,
    ) by {}
    assert forall|x: int, y: int| 0 <= x < n && 0 <= y < n implies #[trigger] c[y][x] == g[y][x]->0 by {
        assert(c[y] == g[y].map_values(|o: Option<usize>| o->0));
    }
    reveal(grid_consistent);
    assert forall|x: int, y: int|
        0 <= x && x + 1 < n && 0 <= y < n implies edge_side(es[#[trigger] c[y][x] as int], Direction::East)
        == edge_side(es[c[y][x + 1] as int], Direction::West) by {
        assert(c[y][x + 1] == g[y][x + 1]->0);
        assert(g[y][x] is Some && g[y][x + 1] is Some);
    }
    assert forall|x: int, y: int|
        0 <= x < n && 0 <= y && y + 1 < n implies edge_side(es[#[trigger] c[y][x] as int], Direction::South)
        == edge_side(es[c[y + 1][x] as int], Direction::North) by {
        assert(c[y + 1][x] == g[y + 1][x]->0);
        assert(g[y][x] is Some && g[y + 1][x] is Some);
    }
}

/// Fills an `n` by `n` grid in the solver's cell order; the `k`-th cell
/// tries the candidates of `orders[k]` in order and takes the first
/// tile that matches every neighbour placed so far. There is no
/// backtracking: a cell with no fitting candidate ends the search with
/// `Unsolvable`.
pub fn place_tiles(tiles: &Vec<WTile>, n: usize, orders: &Vec<Vec<usize>>) -> (r: Result<
    Vec<Vec<usize>>,
    Error,
>)
    requires
        n >= 1,
        orders@.len() == n * n,
    ensures
        solve_outcome(tile_edges(tiles@), n as int, orders_view(orders)) is Some <==> r is Ok,
        r matches Ok(v) ==> cells_view(&v) == solve_outcome(tile_edges(tiles@), n as int, orders_view(orders))->0,
        r matches Ok(v) ==> cells_complete(n as int, tiles@.len() as int, cells_view(&v)),
        r matches Ok(v) ==> cells_connect(tile_edges(tiles@), n as int, cells_view(&v)),
        r matches Err(e) ==> e is Unsolvable,
{
    let ghost es = tile_edges(tiles@);
    let ghost ov = orders_view(orders);
    let ghost nn = n as int;
    assert(es.len() == tiles@.len());
    assert(nn <= nn * nn) by (nonlinear_arith)
        requires nn >= 1;
    let total = orders.len();
    let mut grid: Vec<Vec<Option<usize>>> = Vec::new();
    let mut j: usize = 0;
    while j < n
        invariant
            j <= n,
            grid_view(&grid) =~= Seq::new(j as nat, |y: int| Seq::new(n as nat, |x: int| None::<usize>)),
        decreases n - j,
    {
        let mut row: Vec<Option<usize>> = Vec::new();
        let mut i: usize = 0;
        while i < n
            invariant
                i <= n,
                row@ =~= Seq::new(i as nat, |x: int| None::<usize>),
            decreases n - i,
        {
            row.push(None);
            i = i + 1;
        }
        let ghost before = grid_view(&grid);
        grid.push(row);
        assert(grid_view(&grid) =~= before.push(row@));
        j = j + 1;
    }
    assert(grid_view(&grid) =~= empty_grid(nn));
    proof {
        reveal(grid_consistent);
    }
    // The column x == 0.
    let mut k: usize = 0;
    let mut y: usize = 0;
    while y < n
        invariant
            k == y,
            y <= n,
            nn == n,
            nn <= nn * nn,
            orders@.len() == nn * nn,
            total == orders@.len(),
            es == tile_edges(tiles@),
            ov == orders_view(orders),
            grid_shape(nn, grid_view(&grid)),
            grid_in_range(es, nn, grid_view(&grid)),
            grid_consistent(es, nn, grid_view(&grid)),
            greedy(es, nn, ov, k as int) == Some(grid_view(&grid)),
            forall|xx: int, yy: int|
                0 <= xx < n && 0 <= yy < n ==> (#[trigger] grid_view(&grid)[yy][xx] is Some <==> (xx == 0 && yy
                    < y)),
        decreases n - y,
    {
        let ghost g = grid_view(&grid);
        assert(ov[k as int] == orders@[k as int]@);
        if !place_cell(tiles, &mut grid, n, 0, y, &orders[k]) {
            proof {
                lemma_greedy_stays_failed(es, nn, ov, k + 1, nn * nn);
            }
            return Err(Error::Unsolvable);
        }
        let ghost ng = grid_view(&grid);
        assert forall|xx: int, yy: int| 0 <= xx < n && 0 <= yy < n implies (#[trigger] ng[yy][xx] is Some <==> (xx
            == 0 && yy < y + 1)) by {
            if xx != 0 || yy != y {
                assert(ng[yy][xx] == g[yy][xx]);
            }
        }
        k = k + 1;
        y = y + 1;
    }
    // The row y == 0.
    let mut x: usize = 1;
    while x < n
        invariant
            k == n - 1 + x,
            1 <= x <= n,
            nn == n,
            orders@.len() == nn * nn,
            total == orders@.len(),
            es == tile_edges(tiles@),
            ov == orders_view(orders),
            grid_shape(nn, grid_view(&grid)),
            grid_in_range(es, nn, grid_view(&grid)),
            grid_consistent(es, nn, grid_view(&grid)),
            greedy(es, nn, ov, k as int) == Some(grid_view(&grid)),
            forall|xx: int, yy: int|
                0 <= xx < n && 0 <= yy < n ==> (#[trigger] grid_view(&grid)[yy][xx] is Some <==> (xx == 0 || (yy
                    == 0 && xx < x))),
        decreases n - x,
    {
        let ghost g = grid_view(&grid);
        assert(k < nn * nn) by (nonlinear_arith)
            requires k == nn - 1 + x, x < nn;
        assert(ov[k as int] == orders@[k as int]@);
        if !place_cell(tiles, &mut grid, n, x, 0, &orders[k]) {
            proof {
                lemma_greedy_stays_failed(es, nn, ov, k + 1, nn * nn);
            }
            return Err(Error::Unsolvable);
        }
        let ghost ng = grid_view(&grid);
        assert forall|xx: int, yy: int| 0 <= xx < n && 0 <= yy < n implies (#[trigger] ng[yy][xx] is Some <==> (xx
            == 0 || (yy == 0 && xx < x + 1))) by {
            if xx != x || yy != 0 {
                assert(ng[yy][xx] == g[yy][xx]);
            }
        }
        k = k + 1;
        x = x + 1;
    }
    // The rest, row by row.
    let mut y: usize = 1;
    while y < n
        invariant
            k == 2 * nn - 1 + (y - 1) * (nn - 1),
            1 <= y <= n,
            nn == n,
            orders@.len() == nn * nn,
            total == orders@.len(),
            es == tile_edges(tiles@),
            ov == orders_view(orders),
            grid_shape(nn, grid_view(&grid)),
            grid_in_range(es, nn, grid_view(&grid)),
            grid_consistent(es, nn, grid_view(&grid)),
            greedy(es, nn, ov, k as int) == Some(grid_view(&grid)),
            forall|xx: int, yy: int|
                0 <= xx < n && 0 <= yy < n ==> (#[trigger] grid_view(&grid)[yy][xx] is Some <==> (xx == 0 || yy
                    == 0 || yy < y)),
        decreases n - y,
    {
        let mut x: usize = 1;
        while x < n
            invariant
                k == 2 * nn - 1 + (y - 1) * (nn - 1) + (x - 1),
                1 <= y < n,
                1 <= x <= n,
                nn == n,
                orders@.len() == nn * nn,
                total == orders@.len(),
                es == tile_edges(tiles@),
                ov == orders_view(orders),
                grid_shape(nn, grid_view(&grid)),
                grid_in_range(es, nn, grid_view(&grid)),
                grid_consistent(es, nn, grid_view(&grid)),
                greedy(es, nn, ov, k as int) == Some(grid_view(&grid)),
                forall|xx: int, yy: int|
                    0 <= xx < n && 0 <= yy < n ==> (#[trigger] grid_view(&grid)[yy][xx] is Some <==> (xx == 0 || yy
                        == 0 || yy < y || (yy == y && xx < x))),
            decreases n - x,
        {
            let ghost g = grid_view(&grid);
            assert(k < nn * nn) by (nonlinear_arith)
                requires k == 2 * nn - 1 + (y - 1) * (nn - 1) + (x - 1), x < nn, y < nn, 1 <= x, 1 <= y;
            proof {
                lemma_visit_inner(nn, x as int, y as int);
            }
            assert(ov[k as int] == orders@[k as int]@);
            if !place_cell(tiles, &mut grid, n, x, y, &orders[k]) {
                proof {
                    lemma_greedy_stays_failed(es, nn, ov, k + 1, nn * nn);
                }
                return Err(Error::Unsolvable);
            }
            let ghost ng = grid_view(&grid);
            assert forall|xx: int, yy: int| 0 <= xx < n && 0 <= yy < n implies (#[trigger] ng[yy][xx] is Some <==> (xx
                == 0 || yy == 0 || yy < y || (yy == y && xx < x + 1))) by {
                if xx != x || yy != y {
                    assert(ng[yy][xx] == g[yy][xx]);
                }
            }
            k = k + 1;
            x = x + 1;
        }
        assert(k == 2 * nn - 1 + y * (nn - 1)) by (nonlinear_arith)
            requires k == 2 * nn - 1 + (y - 1) * (nn - 1) + (nn - 1);
        y = y + 1;
    }
    assert(k == nn * nn) by (nonlinear_arith)
        requires k == 2 * nn - 1 + (nn - 1) * (nn - 1);
    let ghost g = grid_view(&grid);
    proof {
        lemma_complete_grid(es, nn, g);
    }
    let mut cells: Vec<Vec<usize>> = Vec::new();
    let mut j: usize = 0;
    while j < n
        invariant
            j <= n,
            nn == n,
            g == grid_view(&grid),
            grid_shape(nn, g),
            forall|xx: int, yy: int| 0 <= xx < n && 0 <= yy < n ==> #[trigger] g[yy][xx] is Some,
            cells_view(&cells) =~= unwrap_grid(g).subrange(0, j as int),
        decreases n - j,
    {
        assert(grid@[j as int]@ == g[j as int]);
        let mut row: Vec<usize> = Vec::new();
        let mut i: usize = 0;
        while i < n
            invariant
                i <= n,
                j < n,
                nn == n,
                g == grid_view(&grid),
                grid_shape(nn, g),
                grid@[j as int]@ == g[j as int],
                forall|xx: int, yy: int| 0 <= xx < n && 0 <= yy < n ==> #[trigger] g[yy][xx] is Some,
                row@ =~= unwrap_grid(g)[j as int].subrange(0, i as int),
            decreases n - i,
        {
            assert(g[j as int][i as int] is Some);
            row.push(grid[j][i].unwrap());
            i = i + 1;
        }
        assert(row@ =~= unwrap_grid(g)[j as int]);
        let ghost before = cells_view(&cells);
        cells.push(row);
        assert(cells_view(&cells) =~= before.push(row@));
        j = j + 1;
    }
    assert(cells_view(&cells) =~= unwrap_grid(g));
    Ok(cells)
}

/// `0, 1, ..., count - 1`.
pub open spec fn index_range(count: nat) -> Seq<usize> {
    Seq::new(count, |i: int| i as usize)
}

/// Each of the `cells` orders is a permutation of the `count` tile indices.
pub open spec fn orders_permute(orders: Seq<Seq<usize>>, count: nat, cells: nat) -> bool {
    &&& orders.len() == cells
    &&& forall|k: int| 0 <= k < cells ==> (#[trigger] orders[k]).to_multiset() == index_range(count).to_multiset()
}

/// Draws one shuffled order of the `count` tile indices for each of
/// `cells` cells, in cell order.
fn draw_orders(count: usize, cells: usize, rng: &mut StdRng) -> (r: Vec<Vec<usize>>)
    ensures
        orders_permute(orders_view(&r), count as nat, cells as nat),
{
    let mut r: Vec<Vec<usize>> = Vec::new();
    let mut k: usize = 0;
    while k < cells
        invariant
            k <= cells,
            orders_permute(orders_view(&r), count as nat, k as nat),
        decreases cells - k,
    {
        let mut v: Vec<usize> = Vec::new();
        let mut i: usize = 0;
        while i < count
            invariant
                i <= count,
                v@ =~= index_range(i as nat),
            decreases count - i,
        {
            v.push(i);
            i = i + 1;
        }
        assert(v@ =~= index_range(count as nat));
        shuffle_indices(&mut v, rng);
        let ghost before = orders_view(&r);
        r.push(v);
        assert(orders_view(&r) =~= before.push(v@));
        k = k + 1;
    }
    r
}

/// The solver, after filling the first `k` cells, finds that no tile of
/// the set fits the `k`-th cell.
pub open spec fn stuck_at(es: Seq<Seq<Edge>>, n: int, orders: Seq<Seq<usize>>, k: int) -> bool {
    &&& 0 <= k < n * n
    &&& greedy(es, n, orders, k) is Some
    &&& forall|t: usize|
        t < es.len() ==> !#[trigger] fits(
            es,
            greedy(es, n, orders, k)->0,
            n,
            visit_cell(n, k).0,
            visit_cell(n, k).1,
            t,
        )
}

proof fn lemma_pick_none(es: Seq<Seq<Edge>>, g: Grid, n: int, x: int, y: int, order: Seq<usize>)
    requires
        pick(es, g, n, x, y, order) is None,
    ensures
        forall|i: int| 0 <= i < order.len() ==> !(order[i] < es.len() && fits(es, g, n, x, y, #[trigger] order[i])),
    decreases order.len(),
{
    if order.len() > 0 {
        lemma_pick_none(es, g, n, x, y, order.drop_first());
        assert forall|i: int| 0 <= i < order.len() implies !(order[i] < es.len() && fits(es, g, n, x, y, #[trigger] order[i])) by {
            if i > 0 {
                assert(order.drop_first()[i - 1] == order[i]);
            }
        }
    }
}

proof fn lemma_first_failure(es: Seq<Seq<Edge>>, n: int, orders: Seq<Seq<usize>>, m: int) -> (k: int)
    requires
        m >= 0,
        greedy(es, n, orders, m) is None,
    ensures
        0 <= k < m,
        greedy(es, n, orders, k) is Some,
        greedy(es, n, orders, k + 1) is None,
    decreases m,
{
    if greedy(es, n, orders, m - 1) is None {
        lemma_first_failure(es, n, orders, m - 1)
    } else {
        m - 1
    }
}

/// When the solver fails on candidate orders that each list every tile, it
/// is stuck: some cell admits no tile of the set at all.
pub proof fn lemma_failure_is_stuck(es: Seq<Seq<Edge>>, n: int, orders: Seq<Seq<usize>>)
    requires
        n >= 1,
        orders_permute(orders, es.len(), (n * n) as nat),
        solve_outcome(es, n, orders) is None,
    ensures
        exists|k: int| stuck_at(es, n, orders, k),
{
    broadcast use vstd::seq_lib::group_to_multiset_ensures;

    assert(n * n >= 0) by (nonlinear_arith)
        requires n >= 1;
    let k = lemma_first_failure(es, n, orders, n * n);
    let g = greedy(es, n, orders, k)->0;
    let (x, y) = visit_cell(n, k);
    assert(greedy(es, n, orders, k + 1) is None);
    assert(pick(es, g, n, x, y, orders[k]) is None);
    lemma_pick_none(es, g, n, x, y, orders[k]);
    assert forall|t: usize| t < es.len() implies !#[trigger] fits(es, g, n, x, y, t) by {
        let r = index_range(es.len());
        assert(r[t as int] == t);
        assert(r.contains(t));
        assert(r.to_multiset().count(t) > 0);
        assert(orders[k].to_multiset() == r.to_multiset());
        assert(orders[k].contains(t));
        let i = choose|i: int| 0 <= i < orders[k].len() && orders[k][i] == t;
        assert(!(orders[k][i] < es.len() && fits(es, g, n, x, y, orders[k][i])));
    }
    assert(stuck_at(es, n, orders, k));
}

/// `d` widened to two digits with a leading zero.
pub open spec fn pad2(d: Seq<u8>) -> Seq<u8> {
    if d.len() < 2 {
        seq![48u8] + d
    } else {
        d
    }
}

/// The text of cell `(x, y)` of an `n` by `n` table: its index in at least
/// two digits, then a newline at the end of every row but the last, a space
/// otherwise.
pub open spec fn cell_text(id: usize, x: int, y: int, n: int) -> Seq<u8> {
    pad2(decimal(id as nat)) + if x == n - 1 && y != n - 1 {
        seq![10u8]
    } else {
        seq![32u8]
    }
}

/// The text of the first `x` cells of row `y`.
pub open spec fn row_text(row: Seq<usize>, y: int, n: int, x: int) -> Seq<u8>
    decreases x,
{
    if x <= 0 {
        Seq::empty()
    } else {
        row_text(row, y, n, x - 1) + cell_text(row[x - 1], x - 1, y, n)
    }
}

/// The text of the first `y` rows of an `n` by `n` table.
pub open spec fn table_text(cells: Seq<Seq<usize>>, n: int, y: int) -> Seq<u8>
    decreases y,
{
    if y <= 0 {
        Seq::empty()
    } else {
        table_text(cells, n, y - 1) + row_text(cells[y - 1], y - 1, n, n)
    }
}

/// An `n` by `n` layout of tiles: the index of the tile in each cell, the
/// tiles' dimensions and the seed it was drawn with.
#[derive(Debug)]
pub struct Atlas {
    cells: Vec<Vec<usize>>,
    n: u32,
    tile_dimensions: (u32, u32),
    seed: u64,
}

impl Atlas {
    /// `cells()[y][x]` is the index of the tile at `(x, y)`.
    pub closed spec fn cells(&self) -> Seq<Seq<usize>> {
        cells_view(&self.cells)
    }

    /// The number of cells along each side.
    pub closed spec fn spec_size(&self) -> nat {
        self.n as nat
    }

    /// Width and height of one tile.
    pub closed spec fn spec_tile_dimensions(&self) -> (u32, u32) {
        self.tile_dimensions
    }

    /// The seed the candidate orders were drawn with.
    pub closed spec fn spec_seed(&self) -> u64 {
        self.seed
    }

    /// The cell table is `n` by `n`.
    pub open spec fn wf(&self) -> bool {
        &&& self.cells().len() == self.spec_size()
        &&& forall|y: int| 0 <= y < self.spec_size() ==> #[trigger] self.cells()[y].len() == self.spec_size()
    }

    /// Width and height of one tile.
    pub fn tile_dimensions(&self) -> (r: (u32, u32))
        ensures
            r == self.spec_tile_dimensions(),
    {
        self.tile_dimensions
    }

    /// Width and height of the whole layout in pixels.
    pub fn dimensions(&self) -> (r: (u32, u32))
        requires
            self.spec_tile_dimensions().0 * self.spec_size() <= u32::MAX,
            self.spec_tile_dimensions().1 * self.spec_size() <= u32::MAX,
        ensures
            r.0 == self.spec_tile_dimensions().0 * self.spec_size(),
            r.1 == self.spec_tile_dimensions().1 * self.spec_size(),
    {
        (self.tile_dimensions.0 * self.n, self.tile_dimensions.1 * self.n)
    }

    /// The number of cells along each side.
    pub fn size(&self) -> (r: u32)
        ensures
            r == self.spec_size(),
    {
        self.n
    }

    /// The seed the candidate orders were drawn with.
    pub fn seed(&self) -> (r: u64)
        ensures
            r == self.spec_seed(),
    {
        self.seed
    }

    /// An `n` by `n` grey image whose value at `(x, y)` is the index of the
    /// tile there (modulo 256: exact for sets of up to 256 tiles).
    pub fn build_indices(&self) -> (r: LumaRaster)
        requires
            self.wf(),
        ensures
            r.wf(),
            r.width == self.spec_size(),
            r.height == self.spec_size(),
            forall|x: int, y: int|
                0 <= x < r.width && 0 <= y < r.height ==> #[trigger] r.at(x, y) == (self.cells()[y][x] % 256) as u8,
    {
        let mut rows: Vec<Vec<u8>> = Vec::new();
        let mut y: usize = 0;
        let n = self.n as usize;
        while y < n
            invariant
                self.wf(),
                n == self.spec_size(),
                y <= n,
                rows@.len() == y,
                forall|j: int| 0 <= j < y ==> #[trigger] rows@[j]@.len() == n,
                forall|i: int, j: int|
                    0 <= i < n && 0 <= j < y ==> #[trigger] rows@[j]@[i] == (self.cells()[j][i] % 256) as u8,
            decreases n - y,
        {
            assert(self.cells@[y as int]@ == self.cells()[y as int]);
            let mut row: Vec<u8> = Vec::new();
            let mut x: usize = 0;
            while x < n
                invariant
                    self.wf(),
                    n == self.spec_size(),
                    y < n,
                    x <= n,
                    self.cells@[y as int]@ == self.cells()[y as int],
                    row@.len() == x,
                    forall|i: int| 0 <= i < x ==> #[trigger] row@[i] == (self.cells()[y as int][i] % 256) as u8,
                decreases n - x,
            {
                row.push((self.cells[y][x] % 256) as u8);
                x = x + 1;
            }
            rows.push(row);
            y = y + 1;
        }
        LumaRaster { width: self.n, height: self.n, rows }
    }

    /// The index of the tile at `(x, y)`.
    pub fn cell(&self, x: u32, y: u32) -> (r: usize)
        requires
            self.wf(),
            x < self.spec_size(),
            y < self.spec_size(),
        ensures
            r == self.cells()[y as int][x as int],
    {
        assert(self.cells@[y as int]@ == self.cells()[y as int]);
        self.cells[y as usize][x as usize]
    }

    /// The layout as text: the index of each cell in at least two digits,
    /// row by row, cells separated by spaces and rows by newlines.
    pub fn index_text(&self) -> (r: Vec<u8>)
        requires
            self.wf(),
        ensures
            r@ == table_text(self.cells(), self.spec_size() as int, self.spec_size() as int),
    {
        let n = self.n;
        let mut out: Vec<u8> = Vec::new();
        let mut y: u32 = 0;
        while y < n
            invariant
                self.wf(),
                n == self.spec_size(),
                y <= n,
                out@ == table_text(self.cells(), n as int, y as int),
            decreases n - y,
        {
            let ghost start = out@;
            let mut x: u32 = 0;
            while x < n
                invariant
                    self.wf(),
                    n == self.spec_size(),
                    y < n,
                    x <= n,
                    start == table_text(self.cells(), n as int, y as int),
                    out@ == start + row_text(self.cells()[y as int], y as int, n as int, x as int),
                decreases n - x,
            {
                let id = self.cell(x, y);
                let ghost before = out@;
                if id < 10 {
                    out.push(48);
                }
                push_decimal(&mut out, id as u64);
                if x == n - 1 && y != n - 1 {
                    out.push(10);
                } else {
                    out.push(32);
                }
                proof {
                    if id < 10 {
                        assert(decimal(id as nat) == seq![(48 + id) as u8]);
                    } else {
                        assert(decimal(id as nat) == decimal((id / 10) as nat).push((48 + id % 10) as u8));
                    }
                    assert(out@ =~= before + cell_text(id, x as int, y as int, n as int));
                    assert(row_text(self.cells()[y as int], y as int, n as int, x as int + 1) == row_text(
                        self.cells()[y as int],
                        y as int,
                        n as int,
                        x as int,
                    ) + cell_text(id, x as int, y as int, n as int));
                    assert(out@ =~= start + row_text(self.cells()[y as int], y as int, n as int, x as int + 1));
                }
                x = x + 1;
            }
            assert(table_text(self.cells(), n as int, y as int + 1) == table_text(self.cells(), n as int, y as int)
                + row_text(self.cells()[y as int], y as int, n as int, n as int));
            y = y + 1;
        }
        out
    }

    /// The index of the tile at `(x, y)`, or `None` outside the layout.
    pub fn get(&self, x: i32, y: i32) -> (r: Option<usize>)
        requires
            self.wf(),
        ensures
            r == if 0 <= x < self.spec_size() && 0 <= y < self.spec_size() {
                Some(self.cells()[y as int][x as int])
            } else {
                None::<usize>
            },
    {
        if x < 0 || y < 0 || x as u32 >= self.n || y as u32 >= self.n {
            return None;
        }
        assert(self.cells@[y as int]@ == self.cells()[y as int]);
        Some(self.cells[y as usize][x as usize])
    }
}

/// Lays out `tiles` on an `n` by `n` grid. The generator seeded with `seed`
/// draws a shuffled order of all tile indices for each cell; cells are filled
/// in the solver's order (see [`place_tiles`]) with the first candidate of its
/// order that matches the neighbours placed so far. `Unsolvable` when some
/// cell has no such candidate.
pub fn build_atlas(tiles: &Vec<WTile>, n: u32, seed: u64) -> (r: Result<Atlas, Error>)
    requires
        tiles@.len() > 0,
        n >= 1,
        n * n <= usize::MAX,
    ensures
        r matches Ok(a) ==> {
            &&& a.spec_size() == n
            &&& a.wf()
            &&& a.spec_seed() == seed
            &&& a.spec_tile_dimensions() == (tiles@[0].spec_img().width, tiles@[0].spec_img().height)
            &&& cells_complete(n as int, tiles@.len() as int, a.cells())
            &&& cells_connect(tile_edges(tiles@), n as int, a.cells())
        },
        r matches Err(e) ==> e is Unsolvable,
        r is Err ==> exists|o: Seq<Seq<usize>>, k: int|
            orders_permute(o, tiles@.len(), (n * n) as nat) && #[trigger] stuck_at(tile_edges(tiles@), n as int, o, k),
        exists|o: Seq<Seq<usize>>|
            orders_permute(o, tiles@.len(), (n * n) as nat) && #[trigger] solve_outcome(tile_edges(tiles@), n as int, o)
                == match r {
                Ok(a) => Some(a.cells()),
                Err(_) => None,
            },
{
    let mut rng = seeded_rng(seed);
    let size = n as usize;
    let orders = draw_orders(tiles.len(), size * size, &mut rng);
    let res = place_tiles(tiles, size, &orders);
    let dims = (tiles[0].image().width, tiles[0].image().height);
    match res {
        Ok(cells) => {
            let a = Atlas { cells, n, tile_dimensions: dims, seed };
            assert(solve_outcome(tile_edges(tiles@), n as int, orders_view(&orders)) == Some(a.cells()));
            Ok(a)
        },
        Err(e) => {
            assert(solve_outcome(tile_edges(tiles@), n as int, orders_view(&orders)) is None);
            proof {
                assert(tile_edges(tiles@).len() == tiles@.len());
                lemma_failure_is_stuck(tile_edges(tiles@), n as int, orders_view(&orders));
            }
            Err(e)
        },
    }
}

/// The cell next to `(x, y)` on side `d`.
pub open spec fn neighbour(x: int, y: int, d: Direction) -> (int, int) {
    match d {
        Direction::North => (x, y - 1),
        Direction::East => (x + 1, y),
        Direction::South => (x, y + 1),
        Direction::West => (x - 1, y),
    }
}

/// In a layout whose cells connect, as [`build_atlas`] returns it, every
/// tile may stand next to each of its neighbours: on any side, the
/// neighbour's facing edge carries the same corner pair.
pub proof fn lemma_layout_neighbours_connect(
    tiles: Seq<WTile>,
    n: int,
    cells: Seq<Seq<usize>>,
    x: int,
    y: int,
    d: Direction,
)
    requires
        cells_complete(n, tiles.len() as int, cells),
        cells_connect(tile_edges(tiles), n, cells),
        0 <= x < n,
        0 <= y < n,
        0 <= neighbour(x, y, d).0 < n,
        0 <= neighbour(x, y, d).1 < n,
    ensures
        tiles[cells[y][x] as int].connects(
            d,
            &tiles[cells[neighbour(x, y, d).1][neighbour(x, y, d).0] as int],
        ),
{
    let es = tile_edges(tiles);
    let (nx, ny) = neighbour(x, y, d);
    assert(cells[y][x] < tiles.len());
    assert(cells[ny][nx] < tiles.len());
    assert(es[cells[y][x] as int] == tiles[cells[y][x] as int].spec_edges());
    assert(es[cells[ny][nx] as int] == tiles[cells[ny][nx] as int].spec_edges());
    match d {
        Direction::North => {
            assert(edge_side(es[cells[ny][x] as int], Direction::South) == edge_side(es[cells[ny + 1][x] as int], Direction::North));
        },
        Direction::East => {
            assert(edge_side(es[cells[y][x] as int], Direction::East) == edge_side(es[cells[y][x + 1] as int], Direction::West));
        },
        Direction::South => {
            assert(edge_side(es[cells[y][x] as int], Direction::South) == edge_side(es[cells[y + 1][x] as int], Direction::North));
        },
        Direction::West => {
            assert(edge_side(es[cells[y][nx] as int], Direction::East) == edge_side(es[cells[y][nx + 1] as int], Direction::West));
        },
    }
}

/// The layout depends on the tiles only through their corner tuples: two
/// tile sets made from the same tuples in the same order, whatever their
/// images, give the same outcome for the same candidate orders.
pub proof fn lemma_layout_depends_on_corners(
    t1: Seq<WTile>,
    t2: Seq<WTile>,
    corners: Seq<Corners>,
    n: int,
    orders: Seq<Seq<usize>>,
)
    requires
        t1.len() == corners.len(),
        t2.len() == corners.len(),
        forall|i: int|
            0 <= i < corners.len() ==> (#[trigger] t1[i]).spec_edges() == edges_of(
                corners[i].0,
                corners[i].1,
                corners[i].2,
                corners[i].3,
            ) && t2[i].spec_edges() == edges_of(corners[i].0, corners[i].1, corners[i].2, corners[i].3),
    ensures
        solve_outcome(tile_edges(t1), n, orders) == solve_outcome(tile_edges(t2), n, orders),
{
    assert(tile_edges(t1) =~= tile_edges(t2));
}

} // verus!
