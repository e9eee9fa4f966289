use crate::coord::{pairs_view, ray_within, ring_contains_point, CoordPair};
use crate::ring::{parse_ring, ring_ok, ring_value, ParseError};
use vstd::prelude::*;

verus! {

/// A containment query named a region id that the registry does not hold.
#[derive(Debug, Clone, Copy, PartialEq, Eq)]
pub struct UnknownRegion;

/// One raw region record: id, display name, and the ring encoding.
pub struct RegionSource {
    pub id: u16,
    pub name: String,
    pub ring_text: Vec<u8>,
}

/// A named region with its parsed ring.
pub struct Region {
    pub id: u16,
    pub name: String,
    pub ring: Vec<CoordPair>,
}

/// The mathematical reading of a region: its id, its name, and its ring as a
/// sequence of coordinate-token pairs.
#[verifier::ext_equal]
pub ghost struct RegionAbs {
    pub id: u16,
    pub name: String,
    pub ring: Seq<(Seq<u8>, Seq<u8>)>,
}

impl View for Region {
    type V = RegionAbs;

    open spec fn view(&self) -> RegionAbs {
        RegionAbs { id: self.id, name: self.name, ring: pairs_view(self.ring@) }
    }
}

/// The region a source record yields once its ring encoding parses.
pub open spec fn region_abs_of(src: RegionSource) -> RegionAbs {
    RegionAbs { id: src.id, name: src.name, ring: ring_value(src.ring_text@) }
}

/// The views of a region sequence.
pub open spec fn regions_view(rs: Seq<Region>) -> Seq<RegionAbs> {
    rs.map_values(|r: Region| r@)
}

/// The first position holding the id, scanning in registry order.
pub open spec fn find_first_id(regs: Seq<RegionAbs>, id: u16) -> Option<int>
    decreases regs.len(),
{
    if regs.len() == 0 {
        None
    } else if regs[0].id == id {
        Some(0int)
    } else {
        match find_first_id(regs.skip(1), id) {
            Some(i) => Some(i + 1),
            None => None,
        }
    }
}

/// The first position whose ring contains the point, scanning in registry
/// order.
pub open spec fn first_containing(regs: Seq<RegionAbs>, px: Seq<u8>, py: Seq<u8>) -> Option<int>
    decreases regs.len(),
{
    if regs.len() == 0 {
        None
    } else if ray_within(regs[0].ring, px, py) {
        Some(0int)
    } else {
        match first_containing(regs.skip(1), px, py) {
            Some(i) => Some(i + 1),
            None => None,
        }
    }
}

/// What `find_first_id` yields: the first match, or no match anywhere.
pub proof fn lemma_find_first_id(regs: Seq<RegionAbs>, id: u16)
    ensures
        match find_first_id(regs, id) {
            Some(i) => 0 <= i < regs.len() && regs[i].id == id && forall|m: int|
                0 <= m < i ==> (#[trigger] regs[m]).id != id,
            None => forall|m: int| 0 <= m < regs.len() ==> (#[trigger] regs[m]).id != id,
        },
    decreases regs.len(),
{
    if regs.len() == 0 {
    } else if regs[0].id == id {
    } else {
        lemma_find_first_id(regs.skip(1), id);
        match find_first_id(regs.skip(1), id) {
            Some(i) => {
                assert(regs.skip(1)[i] == regs[i + 1]);
                assert forall|m: int| 0 <= m < i + 1 implies (#[trigger] regs[m]).id != id by {
                    if m >= 1 {
                        assert(regs.skip(1)[m - 1] == regs[m]);
                    }
                }
            },
            None => {
                assert forall|m: int| 0 <= m < regs.len() implies (#[trigger] regs[m]).id
                    != id by {
                    if m >= 1 {
                        assert(regs.skip(1)[m - 1] == regs[m]);
                    }
                }
            },
        }
    }
}

/// What `first_containing` yields: the first containing region, or none.
pub proof fn lemma_first_containing(regs: Seq<RegionAbs>, px: Seq<u8>, py: Seq<u8>)
    ensures
        match first_containing(regs, px, py) {
            Some(i) => 0 <= i < regs.len() && ray_within(regs[i].ring, px, py) && forall|m: int|
                0 <= m < i ==> !ray_within((#[trigger] regs[m]).ring, px, py),
            None => forall|m: int|
                0 <= m < regs.len() ==> !ray_within((#[trigger] regs[m]).ring, px, py),
        },
    decreases regs.len(),
{
    if regs.len() == 0 {
    } else if ray_within(regs[0].ring, px, py) {
    } else {
        lemma_first_containing(regs.skip(1), px, py);
        match first_containing(regs.skip(1), px, py) {
            Some(i) => {
                assert(regs.skip(1)[i] == regs[i + 1]);
                assert forall|m: int| 0 <= m < i + 1 implies !ray_within(
                    (#[trigger] regs[m]).ring,
                    px,
                    py,
                ) by {
                    if m >= 1 {
                        assert(regs.skip(1)[m - 1] == regs[m]);
                    }
                }
            },
            None => {
                assert forall|m: int| 0 <= m < regs.len() implies !ray_within(
                    (#[trigger] regs[m]).ring,
                    px,
                    py,
                ) by {
                    if m >= 1 {
                        assert(regs.skip(1)[m - 1] == regs[m]);
                    }
                }
            },
        }
    }
}

/// A region joins the registry: it replaces the region already holding its
/// id, or is appended.
pub open spec fn upsert(regs: Seq<RegionAbs>, r: RegionAbs) -> Seq<RegionAbs> {
    match find_first_id(regs, r.id) {
        Some(i) => regs.update(i, r),
        None => regs.push(r),
    }
}

/// Whether every source record's ring encoding parses.
pub open spec fn sources_ok(srcs: Seq<RegionSource>) -> bool {
    forall|k: int| 0 <= k < srcs.len() ==> ring_ok((#[trigger] srcs[k]).ring_text@)
}

/// The registry that a source sequence builds, record by record.
pub open spec fn spec_build(srcs: Seq<RegionSource>) -> Seq<RegionAbs>
    decreases srcs.len(),
{
    if srcs.len() == 0 {
        Seq::empty()
    } else {
        upsert(spec_build(srcs.drop_last()), region_abs_of(srcs.last()))
    }
}

/// The set of named regions, keyed by unique id, in construction order.
pub struct RegionRegistry {
    regions: Vec<Region>,
}

impl View for RegionRegistry {
    type V = Seq<RegionAbs>;

    closed spec fn view(&self) -> Seq<RegionAbs> {
        regions_view(self.regions@)
    }
}

/// The first index in `regions` holding the id.
fn find_index(regions: &Vec<Region>, id: u16) -> (r: Option<usize>)
    ensures
        match r {
            Some(i) => find_first_id(regions_view(regions@), id) == Some(i as int),
            None => find_first_id(regions_view(regions@), id) is None,
        },
{
    let ghost regs = regions_view(regions@);
    let mut m: usize = 0;
    while m < regions.len()
        invariant
            0 <= m <= regions@.len(),
            regs == regions_view(regions@),
            regs.len() == regions@.len(),
            forall|q: int| 0 <= q < m ==> (#[trigger] regs[q]).id != id,
        decreases regions@.len() - m,
    {
        if regions[m].id == id {
            proof {
                assert(regs[m as int] == regions@[m as int]@);
                lemma_find_first_id(regs, id);
            }
            return Some(m);
        }
        proof {
            assert(regs[m as int] == regions@[m as int]@);
        }
        m += 1;
    }
    proof {
        lemma_find_first_id(regs, id);
    }
    None
}

impl RegionRegistry {
    /// Builds the registry from raw records in order. Fails on the first
    /// malformed ring encoding, aborting the whole build.
    pub fn build(sources: &Vec<RegionSource>) -> (r: Result<RegionRegistry, ParseError>)
        ensures
            match r {
                Ok(reg) => sources_ok(sources@) && reg@ == spec_build(sources@),
                Err(_) => !sources_ok(sources@),
            },
    {
        let mut regions: Vec<Region> = Vec::new();
        proof {
            assert(sources@.take(0int) =~= Seq::<RegionSource>::empty());
            assert(regions_view(regions@) =~= Seq::<RegionAbs>::empty());
        }
        let mut k: usize = 0;
        while k < sources.len()
            invariant
                0 <= k <= sources@.len(),
                forall|m: int| 0 <= m < k ==> ring_ok((#[trigger] sources@[m]).ring_text@),
                regions_view(regions@) == spec_build(sources@.take(k as int)),
            decreases sources@.len() - k,
        {
            let src = &sources[k];
            match parse_ring(src.ring_text.as_slice()) {
                Err(_) => {
                    proof {
                        assert(!ring_ok(sources@[k as int].ring_text@));
                    }
                    return Err(ParseError);
                },
                Ok(ring) => {
                    let region = Region { id: src.id, name: src.name.clone(), ring };
                    proof {
                        assert(region@ =~= region_abs_of(sources@[k as int]));
                        assert(sources@.take(k as int + 1).drop_last() =~= sources@.take(
                            k as int,
                        ));
                        assert(sources@.take(k as int + 1).last() == sources@[k as int]);
                    }
                    let ghost prev = regions_view(regions@);
                    match find_index(&regions, region.id) {
                        Some(i) => {
                            proof {
                                lemma_find_first_id(prev, region@.id);
                            }
                            regions[i] = region;
                            proof {
                                assert(regions_view(regions@) =~= prev.update(
                                    i as int,
                                    region_abs_of(sources@[k as int]),
                                ));
                            }
                        },
                        None => {
                            regions.push(region);
                            proof {
                                assert(regions_view(regions@) =~= prev.push(region_abs_of(
                                    sources@[k as int],
                                )));
                            }
                        },
                    }
                },
            }
            k += 1;
        }
        proof {
            assert(sources@.take(sources@.len() as int) =~= sources@);
        }
        Ok(RegionRegistry { regions })
    }

    /// How many regions the registry holds.
    pub fn len(&self) -> (n: usize)
        ensures
            n == self@.len(),
    {
        self.regions.len()
    }

    /// The region at a position, in construction order.
    pub fn region_at(&self, i: usize) -> (r: &Region)
        requires
            i < self@.len(),
        ensures
            r@ == self@[i as int],
    {
        &self.regions[i]
    }

    /// The first position holding the id, or none.
    pub fn index_of(&self, id: u16) -> (r: Option<usize>)
        ensures
            match r {
                Some(i) => find_first_id(self@, id) == Some(i as int),
                None => find_first_id(self@, id) is None,
            },
    {
        find_index(&self.regions, id)
    }

    /// Whether the named region's ring contains the point; fails when the id
    /// is absent.
    pub fn contains(&self, region_id: u16, px: &[u8], py: &[u8]) -> (r: Result<
        bool,
        UnknownRegion,
    >)
        ensures
            match r {
                Ok(b) => find_first_id(self@, region_id) is Some && b == ray_within(
                    self@[find_first_id(self@, region_id).unwrap()].ring,
                    px@,
                    py@,
                ),
                Err(_) => find_first_id(self@, region_id) is None,
            },
    {
        match find_index(&self.regions, region_id) {
            Some(i) => {
                proof {
                    lemma_find_first_id(self@, region_id);
                    assert(self@[i as int] == self.regions@[i as int]@);
                }
                Ok(ring_contains_point(&self.regions[i].ring, px, py))
            },
            None => Err(UnknownRegion),
        }
    }

    /// The first region, in registry order, whose ring contains the point.
    pub fn find_any_containing(&self, px: &[u8], py: &[u8]) -> (r: Option<usize>)
        ensures
            match r {
                Some(i) => first_containing(self@, px@, py@) == Some(i as int),
                None => first_containing(self@, px@, py@) is None,
            },
    {
        let ghost regs = self@;
        let mut m: usize = 0;
        while m < self.regions.len()
            invariant
                0 <= m <= self.regions@.len(),
                regs == regions_view(self.regions@),
                regs.len() == self.regions@.len(),
                forall|q: int| 0 <= q < m ==> !ray_within((#[trigger] regs[q]).ring, px@, py@),
            decreases self.regions@.len() - m,
        {
            proof {
                assert(regs[m as int] == self.regions@[m as int]@);
            }
            if ring_contains_point(&self.regions[m].ring, px, py) {
                proof {
                    lemma_first_containing(regs, px@, py@);
                }
                return Some(m);
            }
            m += 1;
        }
        proof {
            lemma_first_containing(regs, px@, py@);
        }
        None
    }
}

} // verus!
