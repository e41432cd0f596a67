use vstd::prelude::*;
use crate::raster::Raster;

verus! {

/// The four sides of a square tile.
#[derive(Debug, Clone, Copy, PartialEq, Eq, Structural)]
pub enum Direction {
    North,
    East,
    South,
    West,
}

/// The side facing `d`.
pub open spec fn opposite(d: Direction) -> Direction {
    match d {
        Direction::North => Direction::South,
        Direction::East => Direction::West,
        Direction::South => Direction::North,
        Direction::West => Direction::East,
    }
}

/// Position of a side in a tile's edge array.
pub open spec fn side_index(d: Direction) -> int {
    match d {
        Direction::North => 0,
        Direction::East => 1,
        Direction::South => 2,
        Direction::West => 3,
    }
}

/// One side of a tile and the pair of corner codes along it, read from
/// north-west to south-east.
#[derive(Debug, Clone, Copy)]
pub struct Edge(pub Direction, pub (usize, usize));

impl Edge {
    /// Two edges match when they name the same corner pair.
    pub fn is_match(&self, other: &Edge) -> (r: bool)
        ensures
            r == (self.1 == other.1),
    {
        self.1.0 == other.1.0 && self.1.1 == other.1.1
    }
}

/// The edges of a tile with corners `a` (north-west), `b` (north-east),
/// `c` (south-west) and `d` (south-east), in the order north, east, south,
/// west.
pub open spec fn edges_of(a: usize, b: usize, c: usize, d: usize) -> Seq<Edge> {
    seq![
        Edge(Direction::North, (a, b)),
        Edge(Direction::East, (b, d)),
        Edge(Direction::South, (c, d)),
        Edge(Direction::West, (a, c)),
    ]
}

/// A square tile: its image and the edges that its four corner codes give.
#[derive(Debug)]
pub struct WTile {
    pub img: Raster,
    edges: [Edge; 4],
}

impl WTile {
    /// The tile's image.
    pub closed spec fn spec_img(&self) -> Raster {
        self.img
    }

    /// The tile's image.
    pub fn image(&self) -> (r: &Raster)
        ensures
            *r == self.spec_img(),
    {
        &self.img
    }

    /// The tile's edges, north, east, south, west.
    pub closed spec fn spec_edges(&self) -> Seq<Edge> {
        self.edges@
    }

    /// The corner pair on side `d`.
    pub open spec fn side(&self, d: Direction) -> (usize, usize) {
        self.spec_edges()[side_index(d)].1
    }

    /// `other` may stand on side `dir` of `self`.
    pub open spec fn connects(&self, dir: Direction, other: &WTile) -> bool {
        self.side(dir) == other.side(opposite(dir))
    }

    /// A tile with corners `a` (north-west), `b` (north-east), `c`
    /// (south-west) and `d` (south-east).
    pub fn new(img: Raster, a: usize, b: usize, c: usize, d: usize) -> (r: WTile)
        ensures
            r.spec_img() == img,
            r.spec_edges() == edges_of(a, b, c, d),
    {
        let r = WTile {
            img,
            edges: [
                Edge(Direction::North, (a, b)),
                Edge(Direction::East, (b, d)),
                Edge(Direction::South, (c, d)),
                Edge(Direction::West, (a, c)),
            ],
        };
        assert(r.edges@ =~= edges_of(a, b, c, d));
        r
    }

    /// The corner codes `(a, b, c, d)`: north-west, north-east, south-west,
    /// south-east, read off the north and south edges.
    pub fn corners(&self) -> (r: (usize, usize, usize, usize))
        ensures
            r == (self.side(Direction::North).0, self.side(Direction::North).1, self.side(Direction::South).0, self.side(
                Direction::South,
            ).1),
    {
        (self.edges[0].1.0, self.edges[0].1.1, self.edges[2].1.0, self.edges[2].1.1)
    }

    /// The edge on side `d`.
    pub fn edge(&self, d: Direction) -> (r: Edge)
        requires
            self.spec_edges().len() == 4,
        ensures
            r == self.spec_edges()[side_index(d)],
    {
        match d {
            Direction::North => self.edges[0],
            Direction::East => self.edges[1],
            Direction::South => self.edges[2],
            Direction::West => self.edges[3],
        }
    }

    /// Whether `other` may stand on side `dir` of `self`: the corner pair on
    /// that side equals the pair on the facing side of `other`.
    pub fn is_connectable(&self, dir: Direction, other: &WTile) -> (r: bool)
        ensures
            r == self.connects(dir, other),
    {
        let theirs = match dir {
            Direction::North => other.edges[2],
            Direction::East => other.edges[3],
            Direction::South => other.edges[0],
            Direction::West => other.edges[1],
        };
        let mine = match dir {
            Direction::North => self.edges[0],
            Direction::East => self.edges[1],
            Direction::South => self.edges[2],
            Direction::West => self.edges[3],
        };
        theirs.is_match(&mine)
    }
}

/// Connectability is symmetric: `b` may stand on side `dir` of `a` exactly
/// when `a` may stand on the opposite side of `b`.
pub proof fn lemma_connectable_symmetric(a: &WTile, dir: Direction, b: &WTile)
    ensures
        a.connects(dir, b) <==> b.connects(opposite(dir), a),
{
}

/// The edges of a tile are fixed by its corners alone: north `(a, b)`, east
/// `(b, d)`, south `(c, d)`, west `(a, c)`, whatever its image.
pub proof fn lemma_edges_from_corners(t: &WTile, a: usize, b: usize, c: usize, d: usize)
    requires
        t.spec_edges() == edges_of(a, b, c, d),
    ensures
        t.side(Direction::North) == (a, b),
        t.side(Direction::East) == (b, d),
        t.side(Direction::South) == (c, d),
        t.side(Direction::West) == (a, c),
        t.spec_edges().len() == 4,
{
}

} // verus!
