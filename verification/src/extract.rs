use crate::coord::{float_token_ok, is_float_token, CoordPair};
use vstd::prelude::*;

verus! {

/// Why a coordinate slot yields no value.
#[derive(Debug, Clone, Copy, PartialEq, Eq, Structural)]
pub enum CoordError {
    /// The slot holds the empty string: treated as absent and skipped
    /// silently.
    Absent,
    /// The slot holds a malformed value: reported to the error log by the
    /// caller, then skipped.
    Malformed,
}

/// One coordinate slot of a user's configuration document, as the document
/// holds it: a string, a number (kept as the byte text it prints as), a
/// number with no 64-bit float value, or some other shape (or nothing at
/// all).
pub enum RawValue {
    Text(Vec<u8>),
    Num(Vec<u8>),
    NumInvalid,
    Other,
}

/// A pair of coordinate slots naming a point.
pub struct RawPair {
    pub x: RawValue,
    pub y: RawValue,
}

/// The four named location pointers of a user's configuration document.
pub struct LocationConfig {
    pub home: RawPair,
    pub pokemon: RawPair,
    pub raid: RawPair,
    pub invasion: RawPair,
}

/// The value of one coordinate slot: the float token it yields, or why it
/// yields none.
pub open spec fn spec_coord(v: RawValue) -> Result<Seq<u8>, CoordError> {
    match v {
        RawValue::Text(t) => if t@.len() == 0 {
            Err(CoordError::Absent)
        } else if float_token_ok(t@) {
            Ok(t@)
        } else {
            Err(CoordError::Malformed)
        },
        RawValue::Num(t) => if float_token_ok(t@) {
            Ok(t@)
        } else {
            Err(CoordError::Malformed)
        },
        RawValue::NumInvalid => Err(CoordError::Malformed),
        RawValue::Other => Err(CoordError::Malformed),
    }
}

/// The point a pair of slots names: both coordinates must yield a value, or
/// the whole pair is discarded.
pub open spec fn spec_point(p: RawPair) -> Option<(Seq<u8>, Seq<u8>)> {
    match (spec_coord(p.x), spec_coord(p.y)) {
        (Ok(x), Ok(y)) => Some((x, y)),
        _ => None,
    }
}

fn clone_bytes(v: &Vec<u8>) -> (r: Vec<u8>)
    ensures
        r@ == v@,
{
    let mut r: Vec<u8> = Vec::new();
    let mut i: usize = 0;
    while i < v.len()
        invariant
            0 <= i <= v@.len(),
            r@ == v@.take(i as int),
        decreases v@.len() - i,
    {
        r.push(v[i]);
        proof {
            assert(v@.take(i as int).push(v@[i as int]) =~= v@.take(i as int + 1));
        }
        i += 1;
    }
    proof {
        assert(v@.take(v@.len() as int) =~= v@);
    }
    r
}

/// The float token of one coordinate slot, or why there is none.
pub fn coord_token(v: &RawValue) -> (r: Result<Vec<u8>, CoordError>)
    ensures
        match r {
            Ok(t) => spec_coord(*v) == Ok::<Seq<u8>, CoordError>(t@),
            Err(e) => spec_coord(*v) == Err::<Seq<u8>, CoordError>(e),
        },
{
    match v {
        RawValue::Text(t) => {
            if t.len() == 0 {
                Err(CoordError::Absent)
            } else if is_float_token(t.as_slice()) {
                Ok(clone_bytes(t))
            } else {
                Err(CoordError::Malformed)
            }
        },
        RawValue::Num(t) => {
            if is_float_token(t.as_slice()) {
                Ok(clone_bytes(t))
            } else {
                Err(CoordError::Malformed)
            }
        },
        RawValue::NumInvalid => Err(CoordError::Malformed),
        RawValue::Other => Err(CoordError::Malformed),
    }
}

/// The point named by a pair of slots, when both coordinates extract.
pub fn extract_point(p: &RawPair) -> (r: Option<CoordPair>)
    ensures
        match r {
            Some(cp) => spec_point(*p) == Some(cp@),
            None => spec_point(*p) is None,
        },
{
    match (coord_token(&p.x), coord_token(&p.y)) {
        (Ok(x), Ok(y)) => Some(CoordPair { x, y }),
        _ => None,
    }
}

} // verus!
