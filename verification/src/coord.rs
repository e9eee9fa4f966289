use core::str::from_utf8;
use geo_raycasting::RayCasting;
use vstd::prelude::*;

verus! {

/// One ring vertex: a pair of coordinate tokens, each the exact byte text of
/// a 64-bit float encoding.
pub struct CoordPair {
    pub x: Vec<u8>,
    pub y: Vec<u8>,
}

impl View for CoordPair {
    type V = (Seq<u8>, Seq<u8>);

    open spec fn view(&self) -> (Seq<u8>, Seq<u8>) {
        (self.x@, self.y@)
    }
}

/// The token views of a vertex sequence.
pub open spec fn pairs_view(ring: Seq<CoordPair>) -> Seq<(Seq<u8>, Seq<u8>)> {
    ring.map_values(|c: CoordPair| c@)
}

/// Whether a byte token is a valid encoding of a 64-bit float.
pub uninterp spec fn float_token_ok(t: Seq<u8>) -> bool;

/// Whether the crossing-number (ray casting) test places the point inside the
/// closed ring; the vertices and the point are given as float tokens.
pub uninterp spec fn ray_within(ring: Seq<(Seq<u8>, Seq<u8>)>, px: Seq<u8>, py: Seq<u8>) -> bool;

/// Relies on f64::from_str (reached through str::parse, its target type fixed
/// by the coordinate type of geo): whether a token parses is a pure function
/// of the byte content, and the empty string never parses.
#[verifier::external_body]
pub(crate) fn is_float_token(t: &[u8]) -> (r: bool)
    ensures
        r == float_token_ok(t@),
        t@.len() == 0 ==> !r,
{
    match from_utf8(t) {
        Ok(s) => match s.parse() {
            Ok(v) => {
                let _anchor: geo::Coord = (v, v).into();
                true
            },
            Err(_) => false,
        },
        Err(_) => false,
    }
}

/// Relies on geo::Polygon::new and geo_raycasting::RayCasting::within: the
/// crossing-number point-in-polygon test, a pure function of the ring
/// vertices and the point. Each token is turned back into the float it was
/// validated as by f64::from_str (through String::from_utf8_lossy and
/// str::parse); a token that does not parse falls back to the zero
/// coordinate.
#[verifier::external_body]
pub(crate) fn ring_contains_point(ring: &Vec<CoordPair>, px: &[u8], py: &[u8]) -> (r: bool)
    ensures
        r == ray_within(pairs_view(ring@), px@, py@),
{
    let zero: geo::Coord = geo::Coord::zero();
    let pts: Vec<geo::Coord> = ring.iter().map(|cp| geo::Coord {
        x: String::from_utf8_lossy(&cp.x).parse().unwrap_or(zero.x),
        y: String::from_utf8_lossy(&cp.y).parse().unwrap_or(zero.y),
    }).collect();
    let p = geo::Coord {
        x: String::from_utf8_lossy(px).parse().unwrap_or(zero.x),
        y: String::from_utf8_lossy(py).parse().unwrap_or(zero.y),
    };
    geo::Polygon::new(pts.into(), vec![]).within(&p)
}

} // verus!
