use crate::coord::{ray_within, ring_contains_point};
use crate::extract::{extract_point, spec_coord, spec_point, CoordError, LocationConfig, RawPair};
use crate::registry::{
    find_first_id, first_containing, lemma_find_first_id, lemma_first_containing, RegionAbs,
    RegionRegistry,
};
use vstd::prelude::*;

verus! {

/// The four tracked location pointers of a user.
#[derive(Debug, Clone, Copy, PartialEq, Eq, Structural)]
pub enum LocationKind {
    Home,
    Pokemon,
    Raid,
    Invasion,
}

/// One user row: identity, assigned region, and the location slots read from
/// the user's configuration document.
pub struct UserRecord {
    pub user_id: u64,
    pub username: String,
    pub assigned_region_id: u16,
    pub config: LocationConfig,
}

/// One reconciliation finding.
#[derive(Debug, Clone, PartialEq)]
pub enum Finding {
    /// The user is assigned to a region id the registry does not hold.
    DisabledRegion { user_id: u64, username: String, region_id: u16 },
    /// A location pointer lies in another region than the assigned one.
    WrongRegion {
        user_id: u64,
        username: String,
        kind: LocationKind,
        actual_id: u16,
        actual_name: String,
        assigned_id: u16,
        assigned_name: String,
    },
    /// A location pointer lies outside every known region.
    OutsideEvery {
        user_id: u64,
        username: String,
        kind: LocationKind,
        assigned_id: u16,
        assigned_name: String,
    },
}

/// The coordinate pair a location kind reads from the configuration.
pub open spec fn pair_for(c: LocationConfig, k: LocationKind) -> RawPair {
    match k {
        LocationKind::Home => c.home,
        LocationKind::Pokemon => c.pokemon,
        LocationKind::Raid => c.raid,
        LocationKind::Invasion => c.invasion,
    }
}

/// The finding one location pointer yields against the assigned region `a`:
/// nothing when the pointer is absent or contained, else the first other
/// containing region, else an outside-every-region finding.
pub open spec fn finding_for_kind(
    regs: Seq<RegionAbs>,
    u: UserRecord,
    a: RegionAbs,
    k: LocationKind,
) -> Option<Finding> {
    match spec_point(pair_for(u.config, k)) {
        None => None,
        Some(pt) => if ray_within(a.ring, pt.0, pt.1) {
            None
        } else {
            match first_containing(regs, pt.0, pt.1) {
                Some(i) => Some(
                    Finding::WrongRegion {
                        user_id: u.user_id,
                        username: u.username,
                        kind: k,
                        actual_id: regs[i].id,
                        actual_name: regs[i].name,
                        assigned_id: a.id,
                        assigned_name: a.name,
                    },
                ),
                None => Some(
                    Finding::OutsideEvery {
                        user_id: u.user_id,
                        username: u.username,
                        kind: k,
                        assigned_id: a.id,
                        assigned_name: a.name,
                    },
                ),
            }
        },
    }
}

/// A finding as a (possibly empty) finding sequence.
pub open spec fn opt_seq(f: Option<Finding>) -> Seq<Finding> {
    match f {
        Some(x) => seq![x],
        None => Seq::empty(),
    }
}

/// All findings one user yields: a single disabled-region finding when the
/// assigned id is unknown, else the findings of the four location pointers
/// in their fixed order.
pub open spec fn spec_user_findings(regs: Seq<RegionAbs>, u: UserRecord) -> Seq<Finding> {
    match find_first_id(regs, u.assigned_region_id) {
        None => seq![
            Finding::DisabledRegion {
                user_id: u.user_id,
                username: u.username,
                region_id: u.assigned_region_id,
            },
        ],
        Some(ai) => opt_seq(finding_for_kind(regs, u, regs[ai], LocationKind::Home)) + opt_seq(
            finding_for_kind(regs, u, regs[ai], LocationKind::Pokemon),
        ) + opt_seq(finding_for_kind(regs, u, regs[ai], LocationKind::Raid)) + opt_seq(
            finding_for_kind(regs, u, regs[ai], LocationKind::Invasion),
        ),
    }
}

/// The findings of a whole run, user by user, in input order.
pub open spec fn spec_run(regs: Seq<RegionAbs>, users: Seq<UserRecord>) -> Seq<Finding>
    decreases users.len(),
{
    if users.len() == 0 {
        Seq::empty()
    } else {
        spec_run(regs, users.drop_last()) + spec_user_findings(regs, users.last())
    }
}

/// The finding of one location pointer of one user, tested against the
/// assigned region and, on failure, against the whole registry.
fn check_location(reg: &RegionRegistry, ai: usize, u: &UserRecord, k: LocationKind) -> (r: Option<
    Finding,
>)
    requires
        find_first_id(reg@, u.assigned_region_id) == Some(ai as int),
    ensures
        r == finding_for_kind(reg@, *u, reg@[ai as int], k),
{
    proof {
        lemma_find_first_id(reg@, u.assigned_region_id);
    }
    let pair: &RawPair = match k {
        LocationKind::Home => &u.config.home,
        LocationKind::Pokemon => &u.config.pokemon,
        LocationKind::Raid => &u.config.raid,
        LocationKind::Invasion => &u.config.invasion,
    };
    match extract_point(pair) {
        None => None,
        Some(cp) => {
            let assigned = reg.region_at(ai);
            if ring_contains_point(&assigned.ring, cp.x.as_slice(), cp.y.as_slice()) {
                None
            } else {
                match reg.find_any_containing(cp.x.as_slice(), cp.y.as_slice()) {
                    Some(fi) => {
                        proof {
                            lemma_first_containing(reg@, cp.x@, cp.y@);
                        }
                        let found = reg.region_at(fi);
                        Some(
                            Finding::WrongRegion {
                                user_id: u.user_id,
                                username: u.username.clone(),
                                kind: k,
                                actual_id: found.id,
                                actual_name: found.name.clone(),
                                assigned_id: assigned.id,
                                assigned_name: assigned.name.clone(),
                            },
                        )
                    },
                    None => Some(
                        Finding::OutsideEvery {
                            user_id: u.user_id,
                            username: u.username.clone(),
                            kind: k,
                            assigned_id: assigned.id,
                            assigned_name: assigned.name.clone(),
                        },
                    ),
                }
            }
        },
    }
}

/// All findings for one user record.
pub fn reconcile_user(reg: &RegionRegistry, u: &UserRecord) -> (out: Vec<Finding>)
    ensures
        out@ == spec_user_findings(reg@, *u),
{
    match reg.index_of(u.assigned_region_id) {
        None => {
            let mut out: Vec<Finding> = Vec::new();
            out.push(
                Finding::DisabledRegion {
                    user_id: u.user_id,
                    username: u.username.clone(),
                    region_id: u.assigned_region_id,
                },
            );
            proof {
                assert(out@ =~= spec_user_findings(reg@, *u));
            }
            out
        },
        Some(ai) => {
            let r1 = check_location(reg, ai, u, LocationKind::Home);
            let r2 = check_location(reg, ai, u, LocationKind::Pokemon);
            let r3 = check_location(reg, ai, u, LocationKind::Raid);
            let r4 = check_location(reg, ai, u, LocationKind::Invasion);
            let ghost g1 = r1;
            let ghost g2 = r2;
            let ghost g3 = r3;
            let ghost g4 = r4;
            let mut out: Vec<Finding> = Vec::new();
            if let Some(f) = r1 {
                out.push(f);
            }
            if let Some(f) = r2 {
                out.push(f);
            }
            if let Some(f) = r3 {
                out.push(f);
            }
            if let Some(f) = r4 {
                out.push(f);
            }
            proof {
                assert(out@ =~= opt_seq(g1) + opt_seq(g2) + opt_seq(g3) + opt_seq(g4));
            }
            out
        },
    }
}

/// The findings of a whole run over the user records, in input order.
pub fn reconcile_all(reg: &RegionRegistry, users: &Vec<UserRecord>) -> (out: Vec<Finding>)
    ensures
        out@ == spec_run(reg@, users@),
{
    let mut out: Vec<Finding> = Vec::new();
    proof {
        assert(users@.take(0int) =~= Seq::<UserRecord>::empty());
    }
    let mut k: usize = 0;
    while k < users.len()
        invariant
            0 <= k <= users@.len(),
            out@ == spec_run(reg@, users@.take(k as int)),
        decreases users@.len() - k,
    {
        let mut part = reconcile_user(reg, &users[k]);
        proof {
            assert(users@.take(k as int + 1).drop_last() =~= users@.take(k as int));
            assert(users@.take(k as int + 1).last() == users@[k as int]);
        }
        out.append(&mut part);
        k += 1;
    }
    proof {
        assert(users@.take(users@.len() as int) =~= users@);
    }
    out
}

/// Law: reconciliation is deterministic — the same registry and the same
/// user records always yield the same findings, so a second run over
/// unchanged inputs repeats the first.
pub proof fn lemma_run_deterministic(
    regs1: Seq<RegionAbs>,
    users1: Seq<UserRecord>,
    regs2: Seq<RegionAbs>,
    users2: Seq<UserRecord>,
)
    requires
        regs1 == regs2,
        users1 == users2,
    ensures
        spec_run(regs1, users1) == spec_run(regs2, users2),
{
}

/// Law: a user assigned to a region id the registry does not hold yields
/// exactly one disabled-region finding and no location findings, whatever
/// the user's configuration holds.
pub proof fn lemma_unknown_assignment_single_finding(regs: Seq<RegionAbs>, u: UserRecord)
    requires
        find_first_id(regs, u.assigned_region_id) is None,
    ensures
        spec_user_findings(regs, u).len() == 1,
        spec_user_findings(regs, u)[0] == (Finding::DisabledRegion {
            user_id: u.user_id,
            username: u.username,
            region_id: u.assigned_region_id,
        }),
{
}

/// Law: success is silent — when the assigned region is known and its ring
/// contains every point the configuration yields, the user yields no
/// findings.
pub proof fn lemma_contained_points_silent(regs: Seq<RegionAbs>, u: UserRecord, ai: int)
    requires
        find_first_id(regs, u.assigned_region_id) == Some(ai),
        forall|k: LocationKind|
            (#[trigger] spec_point(pair_for(u.config, k))) is Some ==> ray_within(
                regs[ai].ring,
                spec_point(pair_for(u.config, k)).unwrap().0,
                spec_point(pair_for(u.config, k)).unwrap().1,
            ),
    ensures
        spec_user_findings(regs, u).len() == 0,
{
    assert(finding_for_kind(regs, u, regs[ai], LocationKind::Home) is None);
    assert(finding_for_kind(regs, u, regs[ai], LocationKind::Pokemon) is None);
    assert(finding_for_kind(regs, u, regs[ai], LocationKind::Raid) is None);
    assert(finding_for_kind(regs, u, regs[ai], LocationKind::Invasion) is None);
}

/// Law: an absent coordinate — the empty string — yields no point for its
/// pointer, and so no finding, whichever slot of the pair holds it.
pub proof fn lemma_absent_coordinate_silent(
    regs: Seq<RegionAbs>,
    u: UserRecord,
    a: RegionAbs,
    k: LocationKind,
)
    requires
        spec_coord(pair_for(u.config, k).x) == Err::<Seq<u8>, CoordError>(CoordError::Absent)
            || spec_coord(pair_for(u.config, k).y) == Err::<Seq<u8>, CoordError>(
            CoordError::Absent,
        ),
    ensures
        finding_for_kind(regs, u, a, k) is None,
{
}

} // verus!
