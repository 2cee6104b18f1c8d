//! Reconciliation of the dataset against an externally published registry
//! of authoritative radio positions.
//!
//! The registry snapshot is fetched and normalized by unverified
//! collaborators; this module consumes the resulting ordered list of
//! records.  Phase A looks every configured, non-exempt internal position
//! up in the registry; phase B looks every relevant registry entry up in
//! the dataset.

use vstd::prelude::*;
use crate::checks::{position_entries, PosEntry};
use crate::keys::{
    find_from, lemma_keys_distinct_transfer, lemma_sorted_arrangement_unique, seq_contains_name,
    sort_entries, sorted_arrangement_of, vec_contains_name, vec_contains_u32, find_entry,
};
use crate::text::{before_underscore, has_atis_suffix, split_before_underscore, str_ends_with_atis, str_starts_with};
use crate::OpenData;

verus! {

/// A calendar date, as plain year, month and day numbers.
#[derive(Clone, Copy, Debug, PartialEq, Eq, Structural)]
pub struct Date {
    pub year: i32,
    pub month: u8,
    pub day: u8,
}

/// One published position record of the external registry, already
/// normalized by the collaborator that fetched it: the frequency is an
/// integer in Hz.
#[derive(Clone, Debug, PartialEq, Eq)]
pub struct Vateud8Position {
    /// The registry's region id
    pub region: u32,
    pub name: String,
    pub callsign: String,
    /// Frequency in Hz
    pub frequency: u32,
    pub prefix: String,
    pub updated_at: Option<Date>,
}

/// An ordered snapshot of the external registry.
#[derive(Debug, Default, PartialEq, Eq)]
pub struct Vateud8Data {
    pub positions: Vec<Vateud8Position>,
}

/// One reconciliation violation.
#[derive(Clone, Debug, PartialEq, Eq)]
pub enum Error {
    /// An internal position matched a registry entry of another region:
    /// region, position id, found region id, expected region id
    RegionMismatch(String, String, u32, u32),
    /// No registry entry matched the internal position: region, position id
    NotFound(String, String),
    /// A registry entry with no internal counterpart: its name
    Superfluous(String),
}

/// The fuzzy identity heuristic: the frequencies are equal, and either the
/// registry entry's prefix is non-empty and a prefix of the position's
/// prefix, or the position's prefix is a prefix of the part of the registry
/// entry's name before its first underscore.  Deliberately asymmetric;
/// preserved exactly, false positives on coincidental prefix collisions are
/// accepted behaviour.
pub open spec fn v8_matches(v8: Vateud8Position, frequency: u32, prefix: Seq<char>) -> bool {
    &&& v8.frequency == frequency
    &&& {
        ||| (v8.prefix@.len() > 0 && v8.prefix@.is_prefix_of(prefix))
        ||| prefix.is_prefix_of(before_underscore(v8.name@))
    }
}

/// The first index at or after `i` of a registry entry matching the
/// position, or `ext.len()` when none matches.
pub open spec fn first_match_from(
    ext: Seq<Vateud8Position>,
    frequency: u32,
    prefix: Seq<char>,
    i: int,
) -> int
    decreases ext.len() - i,
{
    if i < 0 || i >= ext.len() {
        ext.len() as int
    } else if v8_matches(ext[i], frequency, prefix) {
        i
    } else {
        first_match_from(ext, frequency, prefix, i + 1)
    }
}

/// Phase A, one internal position: nothing unless its region is configured
/// with an external region id and the position is not exempt; otherwise
/// the first matching registry entry decides — `NotFound` when there is
/// none, `RegionMismatch` when it sits in another region.
pub open spec fn reconcile_entry(d: OpenData, ext: Seq<Vateud8Position>, e: PosEntry) -> Seq<
    Error,
> {
    match find_from(d.config.firs@, e.0.0@, 0) {
        Option::Some(cfg) => match cfg.vateud8_region {
            Option::Some(expected) => {
                if seq_contains_name(cfg.vateud8_ignore@, e.0.1@) {
                    Seq::empty()
                } else {
                    let m = first_match_from(ext, e.1.0, e.1.1@, 0);
                    if m == ext.len() {
                        seq![Error::NotFound(e.0.0, e.0.1)]
                    } else if ext[m].region != expected {
                        seq![Error::RegionMismatch(e.0.0, e.0.1, ext[m].region, expected)]
                    } else {
                        Seq::<Error>::empty()
                    }
                }
            },
            Option::None => Seq::empty(),
        },
        Option::None => Seq::empty(),
    }
}

/// Phase A over the first `i` entries of the sorted position traversal.
pub open spec fn phase_a_violations(
    d: OpenData,
    ext: Seq<Vateud8Position>,
    s: Seq<PosEntry>,
    i: int,
) -> Seq<Error>
    decreases i,
{
    if i <= 0 {
        Seq::empty()
    } else {
        phase_a_violations(d, ext, s, i - 1) + reconcile_entry(d, ext, s[i - 1])
    }
}

/// A registry entry the orphan check skips: an ATIS name, an ignored
/// region, or an ignored name.
pub open spec fn excluded(d: OpenData, v8: Vateud8Position) -> bool {
    ||| has_atis_suffix(v8.name@)
    ||| d.config.vateud8.ignore_regions@.contains(v8.region)
    ||| seq_contains_name(d.config.vateud8.ignore_extra@, v8.name@)
}

/// Does the configuration entry at `ci` lead to an internal position
/// matching the registry entry?
pub open spec fn config_entry_matches(d: OpenData, v8: Vateud8Position, ci: int) -> bool {
    &&& 0 <= ci < d.config.firs@.len()
    &&& d.config.firs@[ci].1.vateud8_region == Some(v8.region)
    &&& match find_from(d.firs@, d.config.firs@[ci].0@, 0) {
        Option::Some(f) => exists|pj: int|
            0 <= pj < f.positions@.len() && v8_matches(
                v8,
                (#[trigger] f.positions@[pj]).1.frequency,
                f.positions@[pj].1.prefix@,
            ),
        Option::None => false,
    }
}

/// Does any position of any region configured with the registry entry's
/// region id match it?
pub open spec fn has_internal_match(d: OpenData, v8: Vateud8Position) -> bool {
    exists|ci: int| #[trigger] config_entry_matches(d, v8, ci)
}

/// Phase B over the first `i` registry entries, in list order: every
/// non-excluded entry with no internal counterpart is superfluous.
pub open spec fn phase_b_violations(d: OpenData, ext: Seq<Vateud8Position>, i: int) -> Seq<Error>
    decreases i,
{
    if i <= 0 {
        Seq::empty()
    } else {
        phase_b_violations(d, ext, i - 1) + (if !excluded(d, ext[i - 1]) && !has_internal_match(
            d,
            ext[i - 1],
        ) {
            seq![Error::Superfluous(ext[i - 1].name)]
        } else {
            Seq::<Error>::empty()
        })
    }
}

/// What `check` returns: phase A over the sorted (region, id) position
/// traversal, then phase B over the registry in list order; `Ok` when both
/// are empty.
pub open spec fn reconcile_post(
    d: OpenData,
    ext: Seq<Vateud8Position>,
    r: Result<(), Vec<Error>>,
) -> bool {
    exists|s: Seq<PosEntry>|
        #[trigger] sorted_arrangement_of(s, position_entries(d)) && {
            let errs = phase_a_violations(d, ext, s, s.len() as int) + phase_b_violations(
                d,
                ext,
                ext.len() as int,
            );
            match r {
                Ok(()) => errs.len() == 0,
                Err(v) => v@ == errs && v@.len() > 0,
            }
        }
}

/// Decide the matching heuristic for one registry entry.
fn v8_matches_exec(v8: &Vateud8Position, frequency: u32, prefix: &str) -> (r: bool)
    ensures
        r == v8_matches(*v8, frequency, prefix@),
{
    if v8.frequency != frequency {
        return false;
    }
    if !v8.prefix.as_str().is_empty() && str_starts_with(prefix, v8.prefix.as_str()) {
        return true;
    }
    let seg = split_before_underscore(v8.name.as_str());
    str_starts_with(seg.as_str(), prefix)
}

/// Decide `has_internal_match`.
fn has_internal_match_exec(d: &OpenData, v8: &Vateud8Position) -> (r: bool)
    ensures
        r == has_internal_match(*d, *v8),
{
    let mut ci: usize = 0;
    while ci < d.config.firs.len()
        invariant
            0 <= ci <= d.config.firs@.len(),
            forall|k: int| 0 <= k < ci ==> !config_entry_matches(*d, *v8, k),
        decreases d.config.firs@.len() - ci,
    {
        let ce = &d.config.firs[ci];
        let region_configured = match ce.1.vateud8_region {
            Some(vr) => vr == v8.region,
            None => false,
        };
        if region_configured {
            match d.get_fir(ce.0.as_str()) {
                Some(f) => {
                    let mut pj: usize = 0;
                    while pj < f.positions.len()
                        invariant
                            0 <= pj <= f.positions@.len(),
                            find_from(d.firs@, d.config.firs@[ci as int].0@, 0) == Some(*f),
                            0 <= ci < d.config.firs@.len(),
                            d.config.firs@[ci as int].1.vateud8_region == Some(v8.region),
                            forall|k: int|
                                0 <= k < pj ==> !v8_matches(
                                    *v8,
                                    (#[trigger] f.positions@[k]).1.frequency,
                                    f.positions@[k].1.prefix@,
                                ),
                        decreases f.positions@.len() - pj,
                    {
                        let p = &f.positions[pj];
                        if v8_matches_exec(v8, p.1.frequency, p.1.prefix.as_str()) {
                            proof {
                                assert(config_entry_matches(*d, *v8, ci as int));
                            }
                            return true;
                        }
                        pj = pj + 1;
                    }
                },
                None => {},
            }
        }
        proof {
            assert(!config_entry_matches(*d, *v8, ci as int));
        }
        ci = ci + 1;
    }
    proof {
        assert forall|k: int| !(#[trigger] config_entry_matches(*d, *v8, k)) by {
            if 0 <= k < d.config.firs@.len() {
            }
        }
    }
    false
}

impl Vateud8Data {
    /// Reconcile the dataset against this registry snapshot: phase A
    /// (internal positions looked up in the registry, sorted traversal),
    /// then phase B (registry entries looked up in the dataset, list
    /// order).  Exempt positions and ignored registry entries never
    /// produce a violation.
    pub fn check(&self, open_data: &OpenData) -> (r: Result<(), Vec<Error>>)
        ensures
            reconcile_post(*open_data, self.positions@, r),
    {
        let ghost ext = self.positions@;
        let entries = open_data.collect_position_entries();
        let sorted = sort_entries(entries);
        let ghost s = sorted@;
        let mut out: Vec<Error> = Vec::new();
        let mut i: usize = 0;
        while i < sorted.len()
            invariant
                s == sorted@,
                ext == self.positions@,
                sorted_arrangement_of(s, position_entries(*open_data)),
                0 <= i <= s.len(),
                out@ == phase_a_violations(*open_data, ext, s, i as int),
            decreases s.len() - i,
        {
            let e = &sorted[i];
            match find_entry(&open_data.config.firs, e.0.0.as_str()) {
                None => {
                    proof {
                        assert(out@ =~= phase_a_violations(*open_data, ext, s, i + 1));
                    }
                },
                Some(cfg) => {
                    match cfg.vateud8_region {
                        None => {
                            proof {
                                assert(out@ =~= phase_a_violations(*open_data, ext, s, i + 1));
                            }
                        },
                        Some(expected) => {
                            if vec_contains_name(&cfg.vateud8_ignore, e.0.1.as_str()) {
                                proof {
                                    assert(out@ =~= phase_a_violations(*open_data, ext, s, i + 1));
                                }
                            } else {
                                let mut m: usize = 0;
                                while m < self.positions.len() && !v8_matches_exec(
                                    &self.positions[m],
                                    e.1.0,
                                    e.1.1.as_str(),
                                )
                                    invariant
                                        ext == self.positions@,
                                        s == sorted@,
                                        0 <= i < s.len(),
                                        *e == s[i as int],
                                        0 <= m <= ext.len(),
                                        first_match_from(ext, e.1.0, e.1.1@, 0)
                                            == first_match_from(ext, e.1.0, e.1.1@, m as int),
                                    decreases ext.len() - m,
                                {
                                    m = m + 1;
                                }
                                let ghost fm = first_match_from(ext, s[i as int].1.0, s[i as int].1.1@, 0);
                                if m == self.positions.len() {
                                    out.push(Error::NotFound(e.0.0.clone(), e.0.1.clone()));
                                    proof {
                                        assert(fm == ext.len());
                                        assert(out@ =~= phase_a_violations(
                                            *open_data,
                                            ext,
                                            s,
                                            i + 1,
                                        ));
                                    }
                                } else {
                                    proof {
                                        assert(fm == m as int);
                                    }
                                    let found = &self.positions[m];
                                    if found.region != expected {
                                        out.push(
                                            Error::RegionMismatch(
                                                e.0.0.clone(),
                                                e.0.1.clone(),
                                                found.region,
                                                expected,
                                            ),
                                        );
                                    }
                                    proof {
                                        assert(out@ =~= phase_a_violations(
                                            *open_data,
                                            ext,
                                            s,
                                            i + 1,
                                        ));
                                    }
                                }
                            }
                        },
                    }
                },
            }
            i = i + 1;
        }
        let ghost abase = out@;
        let mut bi: usize = 0;
        while bi < self.positions.len()
            invariant
                ext == self.positions@,
                s == sorted@,
                sorted_arrangement_of(s, position_entries(*open_data)),
                abase == phase_a_violations(*open_data, ext, s, s.len() as int),
                0 <= bi <= ext.len(),
                out@ == abase + phase_b_violations(*open_data, ext, bi as int),
            decreases ext.len() - bi,
        {
            let v8 = &self.positions[bi];
            let skip = str_ends_with_atis(v8.name.as_str()) || vec_contains_u32(
                &open_data.config.vateud8.ignore_regions,
                v8.region,
            ) || vec_contains_name(&open_data.config.vateud8.ignore_extra, v8.name.as_str());
            if !skip && !has_internal_match_exec(open_data, v8) {
                out.push(Error::Superfluous(v8.name.clone()));
            }
            proof {
                assert(out@ =~= abase + phase_b_violations(*open_data, ext, bi + 1));
            }
            bi = bi + 1;
        }
        proof {
            assert(sorted_arrangement_of(s, position_entries(*open_data)));
        }
        if out.len() == 0 {
            Ok(())
        } else {
            Err(out)
        }
    }
}

/// On a well-formed dataset, reconciliation against one registry snapshot
/// is deterministic and idempotent: two results allowed by its contract
/// are the same, violation for violation.
pub proof fn lemma_reconcile_deterministic(
    d: OpenData,
    ext: Seq<Vateud8Position>,
    r1: Result<(), Vec<Error>>,
    r2: Result<(), Vec<Error>>,
)
    requires
        d.wf(),
        reconcile_post(d, ext, r1),
        reconcile_post(d, ext, r2),
    ensures
        r1 is Ok <==> r2 is Ok,
        crate::checks::result_errors(r1) == crate::checks::result_errors(r2),
{
    let s1 = choose|s: Seq<PosEntry>|
        #[trigger] sorted_arrangement_of(s, position_entries(d)) && {
            let errs = phase_a_violations(d, ext, s, s.len() as int) + phase_b_violations(
                d,
                ext,
                ext.len() as int,
            );
            match r1 {
                Ok(()) => errs.len() == 0,
                Err(v) => v@ == errs && v@.len() > 0,
            }
        };
    let s2 = choose|s: Seq<PosEntry>|
        #[trigger] sorted_arrangement_of(s, position_entries(d)) && {
            let errs = phase_a_violations(d, ext, s, s.len() as int) + phase_b_violations(
                d,
                ext,
                ext.len() as int,
            );
            match r2 {
                Ok(()) => errs.len() == 0,
                Err(v) => v@ == errs && v@.len() > 0,
            }
        };
    crate::checks::lemma_position_entries_distinct(d);
    lemma_keys_distinct_transfer(s1, position_entries(d));
    lemma_sorted_arrangement_unique(s1, s2);
}

/// A position listed in its region's exemption list never produces a
/// phase A violation, whatever the registry holds.
pub proof fn lemma_exempt_position_silent(d: OpenData, ext: Seq<Vateud8Position>, e: PosEntry)
    requires
        match find_from(d.config.firs@, e.0.0@, 0) {
            Option::Some(cfg) => seq_contains_name(cfg.vateud8_ignore@, e.0.1@),
            Option::None => true,
        },
    ensures
        reconcile_entry(d, ext, e) == Seq::<Error>::empty(),
{
}

/// A registry entry excluded by the ATIS suffix or either global ignore
/// list never produces a phase B violation.
pub proof fn lemma_excluded_external_silent(d: OpenData, ext: Seq<Vateud8Position>, i: int)
    requires
        0 <= i < ext.len(),
        excluded(d, ext[i]),
    ensures
        phase_b_violations(d, ext, i + 1) == phase_b_violations(d, ext, i),
{
    assert(phase_b_violations(d, ext, i + 1) =~= phase_b_violations(d, ext, i));
}

} // verus!
