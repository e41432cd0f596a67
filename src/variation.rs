use vstd::prelude::*;
use crate::error::Error;

verus! {

/// The corner codes: red, green, blue, yellow.
pub const R: usize = 0;
pub const G: usize = 1;
pub const B: usize = 2;
pub const Y: usize = 3;

/// Corner codes `(a, b, c, d)` of one tile: north-west, north-east,
/// south-west, south-east.
pub type Corners = (usize, usize, usize, usize);

/// Which family of tiles to build.
#[derive(Debug, Clone, Copy, PartialEq, Eq, Structural)]
pub enum WTileVariation {
    /// 4 tiles version
    V4,
    /// 16 tiles version
    V16,
    /// 256 Full version
    Full,
}

/// How the four samples are made from the input texture.
#[derive(Debug, Clone, Copy, PartialEq, Eq, Structural)]
pub enum SampleMode {
    /// Re-synthesise the input four times with different seeds.
    Generate,
    /// Cut the input into its four quadrants.
    Split,
}

/// The text that names a variation.
pub open spec fn variation_name(v: WTileVariation) -> Seq<char> {
    match v {
        WTileVariation::V4 => seq!['v', '4'],
        WTileVariation::V16 => seq!['v', '1', '6'],
        WTileVariation::Full => seq!['f', 'u', 'l', 'l'],
    }
}

/// The variation that a text names, if any.
pub open spec fn variation_named(s: Seq<char>) -> Option<WTileVariation> {
    if s == seq!['v', '4'] {
        Some(WTileVariation::V4)
    } else if s == seq!['v', '1', '6'] {
        Some(WTileVariation::V16)
    } else if s == seq!['f', 'u', 'l', 'l'] {
        Some(WTileVariation::Full)
    } else {
        None
    }
}

/// How many tiles a variation holds.
pub open spec fn variation_count(v: WTileVariation) -> nat {
    match v {
        WTileVariation::V4 => 4,
        WTileVariation::V16 => 16,
        WTileVariation::Full => 256,
    }
}

/// The four-tile family.
pub open spec fn v4_corners() -> Seq<Corners> {
    seq![(R, G, B, Y), (G, B, Y, R), (B, Y, R, G), (Y, R, G, B)]
}

/// The sixteen-tile family.
pub open spec fn v16_corners() -> Seq<Corners> {
    seq![
        (R, G, G, B), (R, B, G, Y), (R, G, B, Y), (R, B, B, R),
        (G, B, B, Y), (G, Y, B, R), (G, B, Y, R), (G, Y, Y, G),
        (B, Y, Y, R), (B, R, Y, G), (B, Y, R, G), (B, R, R, B),
        (Y, R, R, G), (Y, G, R, B), (Y, R, G, B), (Y, G, G, Y),
    ]
}

/// The `i`-th of all 256 corner tuples in lexicographic order, `a` outermost.
pub open spec fn full_corner(i: int) -> Corners {
    ((i / 64) as usize, ((i / 16) % 4) as usize, ((i / 4) % 4) as usize, (i % 4) as usize)
}

/// The corner tuples of a variation, in the order the tiles are built.
pub open spec fn variation_corners(v: WTileVariation) -> Seq<Corners> {
    match v {
        WTileVariation::V4 => v4_corners(),
        WTileVariation::V16 => v16_corners(),
        WTileVariation::Full => Seq::new(256, |i: int| full_corner(i)),
    }
}

/// True when every code of `t` is one of the four corner codes.
pub open spec fn corners_in_range(t: Corners) -> bool {
    t.0 < 4 && t.1 < 4 && t.2 < 4 && t.3 < 4
}

fn same_bytes(x: &[u8], y: &[u8]) -> (r: bool)
    ensures
        r == (x@ == y@),
{
    if x.len() != y.len() {
        return false;
    }
    let mut i: usize = 0;
    while i < x.len()
        invariant
            x@.len() == y@.len(),
            i <= x@.len(),
            x@.subrange(0, i as int) == y@.subrange(0, i as int),
        decreases x@.len() - i,
    {
        if x[i] != y[i] {
            return false;
        }
        assert(x@.subrange(0, i as int + 1) =~= x@.subrange(0, i as int).push(x@[i as int]));
        assert(y@.subrange(0, i as int + 1) =~= y@.subrange(0, i as int).push(y@[i as int]));
        i = i + 1;
    }
    assert(x@ =~= x@.subrange(0, i as int));
    assert(y@ =~= y@.subrange(0, i as int));
    true
}

/// Whether `s` is the text `lit`.
fn text_is(s: &str, lit: &str) -> (r: bool)
    ensures
        r == (s@ == lit@),
{
    let r = same_bytes(s.as_bytes(), lit.as_bytes());
    proof {
        broadcast use vstd::utf8::encode_utf8_decode_utf8;

        if r {
            assert(vstd::utf8::decode_utf8(vstd::utf8::encode_utf8(s@)) == s@);
            assert(vstd::utf8::decode_utf8(vstd::utf8::encode_utf8(lit@)) == lit@);
        }
    }
    r
}

/// Reads the name of a variation: exactly `v4`, `v16` or `full`.
pub fn parse_variation(s: &str) -> (r: Result<WTileVariation, Error>)
    ensures
        variation_named(s@) matches Some(v) ==> r == Ok::<WTileVariation, Error>(v),
        variation_named(s@) is None <==> r is Err,
        r matches Err(e) ==> e is ParseError,
{
    proof {
        reveal_strlit("v4");
        reveal_strlit("v16");
        reveal_strlit("full");
        assert("v4"@ =~= seq!['v', '4']);
        assert("v16"@ =~= seq!['v', '1', '6']);
        assert("full"@ =~= seq!['f', 'u', 'l', 'l']);
    }
    if text_is(s, "v4") {
        Ok(WTileVariation::V4)
    } else if text_is(s, "v16") {
        Ok(WTileVariation::V16)
    } else if text_is(s, "full") {
        Ok(WTileVariation::Full)
    } else {
        Err(Error::ParseError("Not a valid variation".to_owned()))
    }
}

impl WTileVariation {
    /// The name of the variation: `v4`, `v16` or `full`.
    pub fn as_str(&self) -> (r: &'static str)
        ensures
            r@ == variation_name(*self),
    {
        proof {
            reveal_strlit("v4");
            reveal_strlit("v16");
            reveal_strlit("full");
            assert("v4"@ =~= seq!['v', '4']);
            assert("v16"@ =~= seq!['v', '1', '6']);
            assert("full"@ =~= seq!['f', 'u', 'l', 'l']);
        }
        match self {
            WTileVariation::V4 => "v4",
            WTileVariation::V16 => "v16",
            WTileVariation::Full => "full",
        }
    }

    /// The name of the variation as an owned string.
    pub fn to_string(&self) -> (r: String)
        ensures
            r@ == variation_name(*self),
    {
        self.as_str().to_owned()
    }

    /// The number of tiles in the family.
    pub fn count(&self) -> (r: usize)
        ensures
            r == variation_count(*self),
    {
        match self {
            WTileVariation::V4 => 4,
            WTileVariation::V16 => 16,
            WTileVariation::Full => 256,
        }
    }
}

impl core::str::FromStr for WTileVariation {
    type Err = Error;

    fn from_str(s: &str) -> (r: Result<Self, Self::Err>)
        ensures
            variation_named(s@) matches Some(v) ==> r == Ok::<WTileVariation, Error>(v),
            variation_named(s@) is None <==> r is Err,
            r matches Err(e) ==> e is ParseError,
    {
        parse_variation(s)
    }
}

/// The corner tuples of a variation, in the fixed order in which its tiles
/// are built.
pub fn variation_tuples(v: WTileVariation) -> (r: Vec<Corners>)
    ensures
        r@ == variation_corners(v),
{
    let mut r: Vec<Corners> = Vec::new();
    match v {
        WTileVariation::V4 => {
            r.push((R, G, B, Y));
            r.push((G, B, Y, R));
            r.push((B, Y, R, G));
            r.push((Y, R, G, B));
            assert(r@ =~= v4_corners());
        },
        WTileVariation::V16 => {
            r.push((R, G, G, B));
            r.push((R, B, G, Y));
            r.push((R, G, B, Y));
            r.push((R, B, B, R));
            r.push((G, B, B, Y));
            r.push((G, Y, B, R));
            r.push((G, B, Y, R));
            r.push((G, Y, Y, G));
            r.push((B, Y, Y, R));
            r.push((B, R, Y, G));
            r.push((B, Y, R, G));
            r.push((B, R, R, B));
            r.push((Y, R, R, G));
            r.push((Y, G, R, B));
            r.push((Y, R, G, B));
            r.push((Y, G, G, Y));
            assert(r@ =~= v16_corners());
        },
        WTileVariation::Full => {
            let mut a: usize = 0;
            while a < 4
                invariant
                    a <= 4,
                    r@.len() == 64 * a,
                    forall|i: int| 0 <= i < r@.len() ==> #[trigger] r@[i] == full_corner(i),
                decreases 4 - a,
            {
                let mut b: usize = 0;
                while b < 4
                    invariant
                        a < 4,
                        b <= 4,
                        r@.len() == 64 * a + 16 * b,
                        forall|i: int| 0 <= i < r@.len() ==> #[trigger] r@[i] == full_corner(i),
                    decreases 4 - b,
                {
                    let mut c: usize = 0;
                    while c < 4
                        invariant
                            a < 4,
                            b < 4,
                            c <= 4,
                            r@.len() == 64 * a + 16 * b + 4 * c,
                            forall|i: int| 0 <= i < r@.len() ==> #[trigger] r@[i] == full_corner(i),
                        decreases 4 - c,
                    {
                        let mut d: usize = 0;
                        while d < 4
                            invariant
                                a < 4,
                                b < 4,
                                c < 4,
                                d <= 4,
                                r@.len() == 64 * a + 16 * b + 4 * c + d,
                                forall|i: int| 0 <= i < r@.len() ==> #[trigger] r@[i] == full_corner(i),
                            decreases 4 - d,
                        {
                            proof {
                                lemma_full_corner(a as int, b as int, c as int, d as int);
                            }
                            r.push((a, b, c, d));
                            d = d + 1;
                        }
                        c = c + 1;
                    }
                    b = b + 1;
                }
                a = a + 1;
            }
            assert(r@ =~= Seq::new(256, |i: int| full_corner(i)));
        },
    }
    r
}

proof fn lemma_full_corner(a: int, b: int, c: int, d: int)
    requires
        0 <= a < 4,
        0 <= b < 4,
        0 <= c < 4,
        0 <= d < 4,
    ensures
        full_corner(64 * a + 16 * b + 4 * c + d) == (a as usize, b as usize, c as usize, d as usize),
{
    let i = 64 * a + 16 * b + 4 * c + d;
    assert(i / 64 == a) by (nonlinear_arith)
        requires i == 64 * a + 16 * b + 4 * c + d, 0 <= b < 4, 0 <= c < 4, 0 <= d < 4;
    assert(i / 16 == 4 * a + b) by (nonlinear_arith)
        requires i == 64 * a + 16 * b + 4 * c + d, 0 <= c < 4, 0 <= d < 4;
    assert(i / 4 == 16 * a + 4 * b + c) by (nonlinear_arith)
        requires i == 64 * a + 16 * b + 4 * c + d, 0 <= d < 4;
    assert((4 * a + b) % 4 == b) by (nonlinear_arith)
        requires 0 <= b < 4, 0 <= a;
    assert((16 * a + 4 * b + c) % 4 == c) by (nonlinear_arith)
        requires 0 <= c < 4, 0 <= a, 0 <= b;
    assert(i % 4 == d) by (nonlinear_arith)
        requires i == 64 * a + 16 * b + 4 * c + d, 0 <= d < 4, 0 <= a, 0 <= b, 0 <= c;
}

/// Each family holds exactly as many tuples as its count says.
pub proof fn lemma_variation_size(v: WTileVariation)
    ensures
        variation_corners(v).len() == variation_count(v),
{
}

/// Every code in every family is one of the four corner codes.
pub proof fn lemma_variation_codes(v: WTileVariation, i: int)
    requires
        0 <= i < variation_corners(v).len(),
    ensures
        corners_in_range(variation_corners(v)[i]),
{
    if v is Full {
        assert(0 <= i / 64 < 4) by (nonlinear_arith)
            requires 0 <= i < 256;
    }
}

/// Naming a variation and reading the name back gives the variation, and a
/// text that reads as a variation is that variation's name.
pub proof fn lemma_variation_round_trip(v: WTileVariation, s: Seq<char>)
    ensures
        variation_named(variation_name(v)) == Some(v),
        variation_named(s) == Some(v) ==> s == variation_name(v),
{
    assert(seq!['v', '4'] != seq!['v', '1', '6']);
    assert(seq!['v', '4'] != seq!['f', 'u', 'l', 'l']);
    assert(seq!['v', '1', '6'] != seq!['f', 'u', 'l', 'l']);
}

} // verus!
