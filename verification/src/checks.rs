//! The intra-dataset validator: volume-level checks, duplicate-position
//! checks and reference-resolution checks over one immutable dataset.
//!
//! Every check is exhaustive — no violation suppresses another — and emits
//! its findings in sorted (region, id) traversal order, so that the
//! combined report is deterministic.

use vstd::prelude::*;
use crate::keys::{
    dataset_entries, region_entries, find_from, ids_distinct, keys_distinct,
    lemma_dataset_entries_distinct, lemma_dataset_entries_elem, lemma_keys_distinct_transfer,
    lemma_sorted_arrangement_unique, sort_entries, sorted_arrangement_of, find_entry,
};
use crate::position::{Position, PositionReference, StationType};
use crate::sector::Sector;
use crate::airport::Airport;
use crate::text::{str_eq_str, str_starts_with};
use crate::{Error, FIR, InvalidPositionReferenceType, OpenData};
use crate::volume::{ConstraintError, Volume};

verus! {

/// A flattened position: its (region, id) key and the fields the duplicate
/// check reads.
pub type PosEntry = ((String, String), (u32, String, StationType));

/// The dataset's regions, each reduced to its position collection.
pub open spec fn position_regions(d: OpenData) -> Seq<(String, Seq<(String, Position)>)> {
    d.firs@.map_values(|fp: (String, FIR)| (fp.0, fp.1.positions@))
}

/// The payload the duplicate check keeps of a position.
pub open spec fn position_extract() -> spec_fn(Position) -> (u32, String, StationType) {
    |p: Position| (p.frequency, p.prefix, p.station_type)
}

/// Every position of the dataset as an entry, regions in dataset order.
pub open spec fn position_entries(d: OpenData) -> Seq<PosEntry> {
    dataset_entries(position_regions(d), position_extract(), position_regions(d).len() as int)
}

/// The directional duplicate predicate: `a` collides with `b` when their
/// keys differ, they share frequency and station type, and `a`'s prefix
/// literally starts with `b`'s prefix.  The reverse relation is checked by
/// the opposite ordered pair.
pub open spec fn is_dupe(a: PosEntry, b: PosEntry) -> bool {
    &&& !(a.0.0@ == b.0.0@ && a.0.1@ == b.0.1@)
    &&& a.1.0 == b.1.0
    &&& b.1.1@.is_prefix_of(a.1.1@)
    &&& a.1.2 == b.1.2
}

/// Violations of `a` against the first `j` entries of `s`, in order.
pub open spec fn dupe_row(s: Seq<PosEntry>, a: PosEntry, j: int) -> Seq<Error>
    decreases j,
{
    if j <= 0 {
        Seq::empty()
    } else {
        dupe_row(s, a, j - 1) + (if is_dupe(a, s[j - 1]) {
            seq![Error::DuplicatePosition(a.0.0, a.0.1, s[j - 1].0.0, s[j - 1].0.1)]
        } else {
            Seq::<Error>::empty()
        })
    }
}

/// All duplicate violations of the first `i` entries of `s`, each checked
/// against the whole of `s`: the full cross product minus the diagonal.
pub open spec fn dupe_violations(s: Seq<PosEntry>, i: int) -> Seq<Error>
    decreases i,
{
    if i <= 0 {
        Seq::empty()
    } else {
        dupe_violations(s, i - 1) + dupe_row(s, s[i - 1], s.len() as int)
    }
}

/// What `position_dupe_check` returns: the duplicate violations of the
/// dataset's positions in sorted (region, id) traversal order, or `Ok`
/// when there are none.  Under `d.wf()` the sorted arrangement — and with
/// it the result — is unique (`lemma_dupe_check_deterministic`).
pub open spec fn dupe_check_post(d: OpenData, r: Result<(), Vec<Error>>) -> bool {
    exists|s: Seq<PosEntry>|
        #[trigger] sorted_arrangement_of(s, position_entries(d)) && (match r {
            Ok(()) => dupe_violations(s, s.len() as int).len() == 0,
            Err(v) => v@ == dupe_violations(s, s.len() as int) && v@.len() > 0,
        })
}


/// The dataset's regions, each reduced to its sector collection.
pub open spec fn sector_regions(d: OpenData) -> Seq<(String, Seq<(String, Sector)>)> {
    d.firs@.map_values(|fp: (String, FIR)| (fp.0, fp.1.sectors@))
}

/// The dataset's regions, each reduced to its airport collection.
pub open spec fn airport_regions(d: OpenData) -> Seq<(String, Seq<(String, Airport)>)> {
    d.firs@.map_values(|fp: (String, FIR)| (fp.0, fp.1.airports@))
}

/// Drop the payload: the reference check only needs owner keys.
pub open spec fn unit_extract<X>() -> spec_fn(X) -> () {
    |x: X| ()
}

/// Every sector of the dataset as a bare (region, id) entry.
pub open spec fn sector_key_entries(d: OpenData) -> Seq<((String, String), ())> {
    dataset_entries(sector_regions(d), unit_extract::<Sector>(), sector_regions(d).len() as int)
}

/// Every airport of the dataset as a bare (region, id) entry.
pub open spec fn airport_key_entries(d: OpenData) -> Seq<((String, String), ())> {
    dataset_entries(airport_regions(d), unit_extract::<Airport>(), airport_regions(d).len() as int)
}

/// The position a (region, id) pair denotes, if any.
pub open spec fn lookup_position(d: OpenData, fir: Seq<char>, id: Seq<char>) -> Option<Position> {
    match find_from(d.firs@, fir, 0) {
        Option::Some(f) => find_from(f.positions@, id, 0),
        Option::None => None,
    }
}

/// The sector a (region, id) pair denotes, if any.
pub open spec fn lookup_sector(d: OpenData, fir: Seq<char>, id: Seq<char>) -> Option<Sector> {
    match find_from(d.firs@, fir, 0) {
        Option::Some(f) => find_from(f.sectors@, id, 0),
        Option::None => None,
    }
}

/// The airport a (region, id) pair denotes, if any.
pub open spec fn lookup_airport(d: OpenData, fir: Seq<char>, id: Seq<char>) -> Option<Airport> {
    match find_from(d.firs@, fir, 0) {
        Option::Some(f) => find_from(f.airports@, id, 0),
        Option::None => None,
    }
}

/// The region a reference points into: its own override, or the owner's
/// region when absent.  Resolved at the point of use, never persisted.
pub open spec fn resolved_region(owner_fir: String, r: PositionReference) -> String {
    match r.fir {
        Option::Some(ff) => ff,
        Option::None => owner_fir,
    }
}

/// Violations of the first `ri` references of one priority group.
pub open spec fn group_errs(
    d: OpenData,
    kind: InvalidPositionReferenceType,
    owner_fir: String,
    owner_id: String,
    g: Seq<PositionReference>,
    ri: int,
) -> Seq<Error>
    decreases ri,
{
    if ri <= 0 {
        Seq::empty()
    } else {
        group_errs(d, kind, owner_fir, owner_id, g, ri - 1) + ({
            let r = g[ri - 1];
            let rf = resolved_region(owner_fir, r);
            if lookup_position(d, rf@, r.id@) is None {
                seq![Error::InvalidPositionReference(kind, owner_fir, owner_id, rf, r.id)]
            } else {
                Seq::<Error>::empty()
            }
        })
    }
}

/// Violations of the first `gi` priority groups of one owner, groups in
/// list order, references in group order.
pub open spec fn prio_errs(
    d: OpenData,
    kind: InvalidPositionReferenceType,
    owner_fir: String,
    owner_id: String,
    pp: Seq<Vec<PositionReference>>,
    gi: int,
) -> Seq<Error>
    decreases gi,
{
    if gi <= 0 {
        Seq::empty()
    } else {
        prio_errs(d, kind, owner_fir, owner_id, pp, gi - 1) + group_errs(
            d,
            kind,
            owner_fir,
            owner_id,
            pp[gi - 1]@,
            pp[gi - 1]@.len() as int,
        )
    }
}

/// The reference violations of one sector.
pub open spec fn sector_row(d: OpenData, k: (String, String)) -> Seq<Error> {
    match lookup_sector(d, k.0@, k.1@) {
        Option::Some(sec) => prio_errs(
            d,
            InvalidPositionReferenceType::Sector,
            k.0,
            k.1,
            sec.position_priority@,
            sec.position_priority@.len() as int,
        ),
        Option::None => Seq::empty(),
    }
}

/// The reference violations of one airport.
pub open spec fn airport_row(d: OpenData, k: (String, String)) -> Seq<Error> {
    match lookup_airport(d, k.0@, k.1@) {
        Option::Some(ap) => prio_errs(
            d,
            InvalidPositionReferenceType::Airport,
            k.0,
            k.1,
            ap.position_priority@,
            ap.position_priority@.len() as int,
        ),
        Option::None => Seq::empty(),
    }
}

/// The reference violations of the first `i` sector owners of `s`.
pub open spec fn sector_ref_violations(d: OpenData, s: Seq<((String, String), ())>, i: int) -> Seq<
    Error,
>
    decreases i,
{
    if i <= 0 {
        Seq::empty()
    } else {
        sector_ref_violations(d, s, i - 1) + sector_row(d, s[i - 1].0)
    }
}

/// The reference violations of the first `i` airport owners of `s`.
pub open spec fn airport_ref_violations(d: OpenData, s: Seq<((String, String), ())>, i: int) -> Seq<
    Error,
>
    decreases i,
{
    if i <= 0 {
        Seq::empty()
    } else {
        airport_ref_violations(d, s, i - 1) + airport_row(d, s[i - 1].0)
    }
}

/// What `position_ref_check` returns: sector owners in sorted (region, id)
/// order first, then airport owners in sorted order, each contributing one
/// violation per unresolvable reference; or `Ok` when every reference
/// resolves.
pub open spec fn ref_check_post(d: OpenData, r: Result<(), Vec<Error>>) -> bool {
    exists|ss: Seq<((String, String), ())>, aa: Seq<((String, String), ())>|
        #![trigger sorted_arrangement_of(ss, sector_key_entries(d)), sorted_arrangement_of(aa, airport_key_entries(d))]
        sorted_arrangement_of(ss, sector_key_entries(d)) && sorted_arrangement_of(
            aa,
            airport_key_entries(d),
        ) && {
            let errs = sector_ref_violations(d, ss, ss.len() as int) + airport_ref_violations(
                d,
                aa,
                aa.len() as int,
            );
            match r {
                Ok(()) => errs.len() == 0,
                Err(v) => v@ == errs && v@.len() > 0,
            }
        }
}


/// The dataset's regions, each reduced to its volume collection.
pub open spec fn volume_regions(d: OpenData) -> Seq<(String, Seq<(String, Volume)>)> {
    d.firs@.map_values(|fp: (String, FIR)| (fp.0, fp.1.volumes@))
}

/// The volume check keeps the whole volume as payload.
pub open spec fn volume_extract() -> spec_fn(Volume) -> Volume {
    |v: Volume| v
}

/// Every volume of the dataset as an entry, regions in dataset order.
pub open spec fn volume_entries(d: OpenData) -> Seq<((String, String), Volume)> {
    dataset_entries(volume_regions(d), volume_extract(), volume_regions(d).len() as int)
}

/// The level violations of one volume entry, tagged with its region and id.
pub open spec fn volume_entry_errs(e: ((String, String), Volume)) -> Seq<Error> {
    e.1.level_errors().map_values(|ce: ConstraintError| Error::InvalidVolume(e.0.0, e.0.1, ce))
}

/// The level violations of the first `i` volume entries of `s`.
pub open spec fn volume_violations(s: Seq<((String, String), Volume)>, i: int) -> Seq<Error>
    decreases i,
{
    if i <= 0 {
        Seq::empty()
    } else {
        volume_violations(s, i - 1) + volume_entry_errs(s[i - 1])
    }
}

/// What `run_checks` returns: the concatenation, in this order, of the
/// volume checks, the duplicate-position checks and the reference checks,
/// each over its sorted (region, id) traversal; `Ok` when all are empty.
pub open spec fn run_checks_post(d: OpenData, r: Result<(), Vec<Error>>) -> bool {
    exists|
        sv: Seq<((String, String), Volume)>,
        sp: Seq<PosEntry>,
        ss: Seq<((String, String), ())>,
        aa: Seq<((String, String), ())>,
    |
        #![trigger sorted_arrangement_of(sv, volume_entries(d)), sorted_arrangement_of(sp, position_entries(d)), sorted_arrangement_of(ss, sector_key_entries(d)), sorted_arrangement_of(aa, airport_key_entries(d))]
        sorted_arrangement_of(sv, volume_entries(d)) && sorted_arrangement_of(
            sp,
            position_entries(d),
        ) && sorted_arrangement_of(ss, sector_key_entries(d)) && sorted_arrangement_of(
            aa,
            airport_key_entries(d),
        ) && {
            let errs = volume_violations(sv, sv.len() as int) + dupe_violations(
                sp,
                sp.len() as int,
            ) + sector_ref_violations(d, ss, ss.len() as int) + airport_ref_violations(
                d,
                aa,
                aa.len() as int,
            );
            match r {
                Ok(()) => errs.len() == 0,
                Err(v) => v@ == errs && v@.len() > 0,
            }
        }
}

/// One region's volumes as entries keyed by (id, id): lexicographic order
/// on the doubled key is order on the id.
pub open spec fn fir_volume_entries(f: FIR, j: int) -> Seq<((String, String), Volume)>
    decreases j,
{
    if j <= 0 {
        Seq::empty()
    } else {
        fir_volume_entries(f, j - 1).push(
            ((f.volumes@[j - 1].0, f.volumes@[j - 1].0), f.volumes@[j - 1].1),
        )
    }
}

/// The level violations of the first `i` entries, each as an (id, error)
/// pair.
pub open spec fn fir_volume_violations(
    s: Seq<((String, String), Volume)>,
    i: int,
) -> Seq<(String, ConstraintError)>
    decreases i,
{
    if i <= 0 {
        Seq::empty()
    } else {
        fir_volume_violations(s, i - 1) + s[i - 1].1.level_errors().map_values(
            |ce: ConstraintError| (s[i - 1].0.0, ce),
        )
    }
}

/// What `FIR::run_checks` returns: every volume's level violations, volumes
/// in sorted id order; `Ok` when there are none.
pub open spec fn fir_checks_post(f: FIR, r: Result<(), Vec<(String, ConstraintError)>>) -> bool {
    exists|s: Seq<((String, String), Volume)>|
        #[trigger] sorted_arrangement_of(s, fir_volume_entries(f, f.volumes@.len() as int)) && (
        match r {
            Ok(()) => fir_volume_violations(s, s.len() as int).len() == 0,
            Err(v) => v@ == fir_volume_violations(s, s.len() as int) && v@.len() > 0,
        })
}

impl FIR {
    /// Check the level constraints of every volume of this region, in
    /// sorted id order.
    pub fn run_checks(&self) -> (r: Result<(), Vec<(String, ConstraintError)>>)
        ensures
            fir_checks_post(*self, r),
    {
        let mut entries: Vec<((String, String), Volume)> = Vec::new();
        let mut j: usize = 0;
        while j < self.volumes.len()
            invariant
                0 <= j <= self.volumes@.len(),
                entries@ == fir_volume_entries(*self, j as int),
            decreases self.volumes@.len() - j,
        {
            let v = &self.volumes[j];
            entries.push(((v.0.clone(), v.0.clone()), v.1));
            proof {
                assert(entries@ =~= fir_volume_entries(*self, j + 1));
            }
            j = j + 1;
        }
        let sorted = sort_entries(entries);
        let ghost s = sorted@;
        let mut out: Vec<(String, ConstraintError)> = Vec::new();
        let mut i: usize = 0;
        while i < sorted.len()
            invariant
                s == sorted@,
                sorted_arrangement_of(s, fir_volume_entries(*self, self.volumes@.len() as int)),
                0 <= i <= s.len(),
                out@ == fir_volume_violations(s, i as int),
            decreases s.len() - i,
        {
            let e = &sorted[i];
            match e.1.check_level() {
                Ok(()) => {
                    proof {
                        assert(s[i as int].1.level_errors().map_values(
                            |ce: ConstraintError| (s[i as int].0.0, ce),
                        ) =~= Seq::<(String, ConstraintError)>::empty());
                        assert(out@ =~= fir_volume_violations(s, i + 1));
                    }
                },
                Err(ves) => {
                    let ghost base = out@;
                    let ghost row = s[i as int].1.level_errors().map_values(
                        |ce: ConstraintError| (s[i as int].0.0, ce),
                    );
                    let mut ki: usize = 0;
                    while ki < ves.len()
                        invariant
                            s == sorted@,
                            0 <= i < s.len(),
                            *e == s[i as int],
                            ves@ == s[i as int].1.level_errors(),
                            row == s[i as int].1.level_errors().map_values(
                                |ce: ConstraintError| (s[i as int].0.0, ce),
                            ),
                            0 <= ki <= ves@.len(),
                            out@ == base + row.take(ki as int),
                        decreases ves@.len() - ki,
                    {
                        out.push((e.0.0.clone(), ves[ki]));
                        proof {
                            assert(row[ki as int] == (s[i as int].0.0, ves@[ki as int]));
                            assert(row.take(ki + 1) =~= row.take(ki as int).push(row[ki as int]));
                            assert(out@ =~= base + row.take(ki + 1));
                        }
                        ki = ki + 1;
                    }
                    proof {
                        assert(row.take(ves@.len() as int) =~= row);
                        assert(out@ =~= fir_volume_violations(s, i + 1));
                    }
                },
            }
            i = i + 1;
        }
        proof {
            assert(sorted_arrangement_of(s, fir_volume_entries(*self, self.volumes@.len() as int)));
        }
        if out.len() == 0 {
            Ok(())
        } else {
            Err(out)
        }
    }
}

impl OpenData {
    /// Flatten all positions into entries, regions in dataset order.
    pub(crate) fn collect_position_entries(&self) -> (r: Vec<PosEntry>)
        ensures
            r@ == position_entries(*self),
    {
        let ghost rs = position_regions(*self);
        let ghost f = position_extract();
        let mut entries: Vec<PosEntry> = Vec::new();
        let mut i: usize = 0;
        while i < self.firs.len()
            invariant
                rs == position_regions(*self),
                f == position_extract(),
                0 <= i <= self.firs@.len(),
                entries@ == dataset_entries(rs, f, i as int),
            decreases self.firs@.len() - i,
        {
            let mut j: usize = 0;
            while j < self.firs[i].1.positions.len()
                invariant
                    rs == position_regions(*self),
                    f == position_extract(),
                    0 <= i < self.firs@.len(),
                    0 <= j <= self.firs@[i as int].1.positions@.len(),
                    entries@ == dataset_entries(rs, f, i as int) + region_entries(
                        rs[i as int].0,
                        rs[i as int].1,
                        f,
                        j as int,
                    ),
                decreases self.firs@[i as int].1.positions@.len() - j,
            {
                let p = &self.firs[i].1.positions[j];
                entries.push(
                    (
                        (self.firs[i].0.clone(), p.0.clone()),
                        (p.1.frequency, p.1.prefix.clone(), p.1.station_type),
                    ),
                );
                proof {
                    assert(rs[i as int] == (self.firs@[i as int].0, self.firs@[i as int].1.positions@));
                    assert(entries@ =~= dataset_entries(rs, f, i as int) + region_entries(
                        rs[i as int].0,
                        rs[i as int].1,
                        f,
                        j + 1,
                    ));
                }
                j = j + 1;
            }
            proof {
                assert(rs[i as int].1.len() == self.firs@[i as int].1.positions@.len());
                assert(entries@ =~= dataset_entries(rs, f, i + 1));
            }
            i = i + 1;
        }
        entries
    }


    /// Flatten all sector owner keys, regions in dataset order.
    fn collect_sector_entries(&self) -> (r: Vec<((String, String), ())>)
        ensures
            r@ == sector_key_entries(*self),
    {
        let ghost rs = sector_regions(*self);
        let ghost f = unit_extract::<Sector>();
        let mut entries: Vec<((String, String), ())> = Vec::new();
        let mut i: usize = 0;
        while i < self.firs.len()
            invariant
                rs == sector_regions(*self),
                f == unit_extract::<Sector>(),
                0 <= i <= self.firs@.len(),
                entries@ == dataset_entries(rs, f, i as int),
            decreases self.firs@.len() - i,
        {
            let mut j: usize = 0;
            while j < self.firs[i].1.sectors.len()
                invariant
                    rs == sector_regions(*self),
                    f == unit_extract::<Sector>(),
                    0 <= i < self.firs@.len(),
                    0 <= j <= self.firs@[i as int].1.sectors@.len(),
                    entries@ == dataset_entries(rs, f, i as int) + region_entries(
                        rs[i as int].0,
                        rs[i as int].1,
                        f,
                        j as int,
                    ),
                decreases self.firs@[i as int].1.sectors@.len() - j,
            {
                let p = &self.firs[i].1.sectors[j];
                entries.push(((self.firs[i].0.clone(), p.0.clone()), ()));
                proof {
                    assert(rs[i as int] == (self.firs@[i as int].0, self.firs@[i as int].1.sectors@));
                    assert(entries@ =~= dataset_entries(rs, f, i as int) + region_entries(
                        rs[i as int].0,
                        rs[i as int].1,
                        f,
                        j + 1,
                    ));
                }
                j = j + 1;
            }
            proof {
                assert(rs[i as int].1.len() == self.firs@[i as int].1.sectors@.len());
                assert(entries@ =~= dataset_entries(rs, f, i + 1));
            }
            i = i + 1;
        }
        entries
    }

    /// The reference violations of every sector, owners in sorted
    /// (region, id) order.
    fn sector_ref_errors(&self) -> (r: Vec<Error>)
        ensures
            exists|ss: Seq<((String, String), ())>|
                #[trigger] sorted_arrangement_of(ss, sector_key_entries(*self)) && r@
                    == sector_ref_violations(*self, ss, ss.len() as int),
    {
        let entries = self.collect_sector_entries();
        let sorted = sort_entries(entries);
        let ghost ss = sorted@;
        let mut out: Vec<Error> = Vec::new();
        let mut i: usize = 0;
        while i < sorted.len()
            invariant
                ss == sorted@,
                sorted_arrangement_of(ss, sector_key_entries(*self)),
                0 <= i <= ss.len(),
                out@ == sector_ref_violations(*self, ss, i as int),
            decreases ss.len() - i,
        {
            let owner = &sorted[i].0;
            let ghost k = ss[i as int].0;
            match self.get_fir(owner.0.as_str()) {
                None => {
                    proof {
                        assert(out@ =~= sector_ref_violations(*self, ss, i + 1));
                    }
                },
                Some(fir) => {
                    match find_entry(&fir.sectors, owner.1.as_str()) {
                        None => {
                            proof {
                                assert(out@ =~= sector_ref_violations(*self, ss, i + 1));
                            }
                        },
                        Some(sec) => {
                            let ghost base = out@;
                            let mut gi: usize = 0;
                            while gi < sec.position_priority.len()
                                invariant
                                    ss == sorted@,
                                    0 <= i < ss.len(),
                                    k == ss[i as int].0,
                                    *owner == k,
                                    lookup_sector(*self, k.0@, k.1@) == Some(*sec),
                                    0 <= gi <= sec.position_priority@.len(),
                                    out@ == base + prio_errs(
                                        *self,
                                        InvalidPositionReferenceType::Sector,
                                        k.0,
                                        k.1,
                                        sec.position_priority@,
                                        gi as int,
                                    ),
                                decreases sec.position_priority@.len() - gi,
                            {
                                let ghost gbase = out@;
                                let mut ri: usize = 0;
                                while ri < sec.position_priority[gi].len()
                                    invariant
                                        ss == sorted@,
                                        0 <= i < ss.len(),
                                        k == ss[i as int].0,
                                        *owner == k,
                                        lookup_sector(*self, k.0@, k.1@) == Some(*sec),
                                        0 <= gi < sec.position_priority@.len(),
                                        0 <= ri <= sec.position_priority@[gi as int]@.len(),
                                        gbase == base + prio_errs(
                                            *self,
                                            InvalidPositionReferenceType::Sector,
                                            k.0,
                                            k.1,
                                            sec.position_priority@,
                                            gi as int,
                                        ),
                                        out@ == gbase + group_errs(
                                            *self,
                                            InvalidPositionReferenceType::Sector,
                                            k.0,
                                            k.1,
                                            sec.position_priority@[gi as int]@,
                                            ri as int,
                                        ),
                                    decreases sec.position_priority@[gi as int]@.len() - ri,
                                {
                                    let pref = &sec.position_priority[gi][ri];
                                    let target: &String = match pref.fir.as_ref() {
                                        Some(ff) => ff,
                                        None => &owner.0,
                                    };
                                    let missing = match self.get_fir(target.as_str()) {
                                        None => true,
                                        Some(f2) => find_entry(
                                            &f2.positions,
                                            pref.id.as_str(),
                                        ).is_none(),
                                    };
                                    if missing {
                                        out.push(
                                            Error::InvalidPositionReference(
                                                InvalidPositionReferenceType::Sector,
                                                owner.0.clone(),
                                                owner.1.clone(),
                                                target.clone(),
                                                pref.id.clone(),
                                            ),
                                        );
                                    }
                                    proof {
                                        let g = sec.position_priority@[gi as int]@;
                                        let r0 = g[ri as int];
                                        let rf = resolved_region(k.0, r0);
                                        assert(*target == rf);
                                        assert(missing == (lookup_position(
                                            *self,
                                            rf@,
                                            r0.id@,
                                        ) is None));
                                        assert(out@ =~= gbase + group_errs(
                                            *self,
                                            InvalidPositionReferenceType::Sector,
                                            k.0,
                                            k.1,
                                            g,
                                            ri + 1,
                                        ));
                                    }
                                    ri = ri + 1;
                                }
                                proof {
                                    assert(out@ =~= base + prio_errs(
                                        *self,
                                        InvalidPositionReferenceType::Sector,
                                        k.0,
                                        k.1,
                                        sec.position_priority@,
                                        gi + 1,
                                    ));
                                }
                                gi = gi + 1;
                            }
                            proof {
                                assert(out@ =~= sector_ref_violations(*self, ss, i + 1));
                            }
                        },
                    }
                },
            }
            i = i + 1;
        }
        proof {
            assert(sorted_arrangement_of(ss, sector_key_entries(*self)));
        }
        out
    }

    /// Flatten all airport owner keys, regions in dataset order.
    fn collect_airport_entries(&self) -> (r: Vec<((String, String), ())>)
        ensures
            r@ == airport_key_entries(*self),
    {
        let ghost rs = airport_regions(*self);
        let ghost f = unit_extract::<Airport>();
        let mut entries: Vec<((String, String), ())> = Vec::new();
        let mut i: usize = 0;
        while i < self.firs.len()
            invariant
                rs == airport_regions(*self),
                f == unit_extract::<Airport>(),
                0 <= i <= self.firs@.len(),
                entries@ == dataset_entries(rs, f, i as int),
            decreases self.firs@.len() - i,
        {
            let mut j: usize = 0;
            while j < self.firs[i].1.airports.len()
                invariant
                    rs == airport_regions(*self),
                    f == unit_extract::<Airport>(),
                    0 <= i < self.firs@.len(),
                    0 <= j <= self.firs@[i as int].1.airports@.len(),
                    entries@ == dataset_entries(rs, f, i as int) + region_entries(
                        rs[i as int].0,
                        rs[i as int].1,
                        f,
                        j as int,
                    ),
                decreases self.firs@[i as int].1.airports@.len() - j,
            {
                let p = &self.firs[i].1.airports[j];
                entries.push(((self.firs[i].0.clone(), p.0.clone()), ()));
                proof {
                    assert(rs[i as int] == (self.firs@[i as int].0, self.firs@[i as int].1.airports@));
                    assert(entries@ =~= dataset_entries(rs, f, i as int) + region_entries(
                        rs[i as int].0,
                        rs[i as int].1,
                        f,
                        j + 1,
                    ));
                }
                j = j + 1;
            }
            proof {
                assert(rs[i as int].1.len() == self.firs@[i as int].1.airports@.len());
                assert(entries@ =~= dataset_entries(rs, f, i + 1));
            }
            i = i + 1;
        }
        entries
    }

    /// The reference violations of every airport, owners in sorted
    /// (region, id) order.
    fn airport_ref_errors(&self) -> (r: Vec<Error>)
        ensures
            exists|ss: Seq<((String, String), ())>|
                #[trigger] sorted_arrangement_of(ss, airport_key_entries(*self)) && r@
                    == airport_ref_violations(*self, ss, ss.len() as int),
    {
        let entries = self.collect_airport_entries();
        let sorted = sort_entries(entries);
        let ghost ss = sorted@;
        let mut out: Vec<Error> = Vec::new();
        let mut i: usize = 0;
        while i < sorted.len()
            invariant
                ss == sorted@,
                sorted_arrangement_of(ss, airport_key_entries(*self)),
                0 <= i <= ss.len(),
                out@ == airport_ref_violations(*self, ss, i as int),
            decreases ss.len() - i,
        {
            let owner = &sorted[i].0;
            let ghost k = ss[i as int].0;
            match self.get_fir(owner.0.as_str()) {
                None => {
                    proof {
                        assert(out@ =~= airport_ref_violations(*self, ss, i + 1));
                    }
                },
                Some(fir) => {
                    match find_entry(&fir.airports, owner.1.as_str()) {
                        None => {
                            proof {
                                assert(out@ =~= airport_ref_violations(*self, ss, i + 1));
                            }
                        },
                        Some(sec) => {
                            let ghost base = out@;
                            let mut gi: usize = 0;
                            while gi < sec.position_priority.len()
                                invariant
                                    ss == sorted@,
                                    0 <= i < ss.len(),
                                    k == ss[i as int].0,
                                    *owner == k,
                                    lookup_airport(*self, k.0@, k.1@) == Some(*sec),
                                    0 <= gi <= sec.position_priority@.len(),
                                    out@ == base + prio_errs(
                                        *self,
                                        InvalidPositionReferenceType::Airport,
                                        k.0,
                                        k.1,
                                        sec.position_priority@,
                                        gi as int,
                                    ),
                                decreases sec.position_priority@.len() - gi,
                            {
                                let ghost gbase = out@;
                                let mut ri: usize = 0;
                                while ri < sec.position_priority[gi].len()
                                    invariant
                                        ss == sorted@,
                                        0 <= i < ss.len(),
                                        k == ss[i as int].0,
                                        *owner == k,
                                        lookup_airport(*self, k.0@, k.1@) == Some(*sec),
                                        0 <= gi < sec.position_priority@.len(),
                                        0 <= ri <= sec.position_priority@[gi as int]@.len(),
                                        gbase == base + prio_errs(
                                            *self,
                                            InvalidPositionReferenceType::Airport,
                                            k.0,
                                            k.1,
                                            sec.position_priority@,
                                            gi as int,
                                        ),
                                        out@ == gbase + group_errs(
                                            *self,
                                            InvalidPositionReferenceType::Airport,
                                            k.0,
                                            k.1,
                                            sec.position_priority@[gi as int]@,
                                            ri as int,
                                        ),
                                    decreases sec.position_priority@[gi as int]@.len() - ri,
                                {
                                    let pref = &sec.position_priority[gi][ri];
                                    let target: &String = match pref.fir.as_ref() {
                                        Some(ff) => ff,
                                        None => &owner.0,
                                    };
                                    let missing = match self.get_fir(target.as_str()) {
                                        None => true,
                                        Some(f2) => find_entry(
                                            &f2.positions,
                                            pref.id.as_str(),
                                        ).is_none(),
                                    };
                                    if missing {
                                        out.push(
                                            Error::InvalidPositionReference(
                                                InvalidPositionReferenceType::Airport,
                                                owner.0.clone(),
                                                owner.1.clone(),
                                                target.clone(),
                                                pref.id.clone(),
                                            ),
                                        );
                                    }
                                    proof {
                                        let g = sec.position_priority@[gi as int]@;
                                        let r0 = g[ri as int];
                                        let rf = resolved_region(k.0, r0);
                                        assert(*target == rf);
                                        assert(missing == (lookup_position(
                                            *self,
                                            rf@,
                                            r0.id@,
                                        ) is None));
                                        assert(out@ =~= gbase + group_errs(
                                            *self,
                                            InvalidPositionReferenceType::Airport,
                                            k.0,
                                            k.1,
                                            g,
                                            ri + 1,
                                        ));
                                    }
                                    ri = ri + 1;
                                }
                                proof {
                                    assert(out@ =~= base + prio_errs(
                                        *self,
                                        InvalidPositionReferenceType::Airport,
                                        k.0,
                                        k.1,
                                        sec.position_priority@,
                                        gi + 1,
                                    ));
                                }
                                gi = gi + 1;
                            }
                            proof {
                                assert(out@ =~= airport_ref_violations(*self, ss, i + 1));
                            }
                        },
                    }
                },
            }
            i = i + 1;
        }
        proof {
            assert(sorted_arrangement_of(ss, airport_key_entries(*self)));
        }
        out
    }

    /// The reference-resolution check: every `position_priority` reference
    /// of every sector and airport must resolve to an existing position in
    /// its (explicit or defaulted) region.  Sector owners are reported
    /// first, then airport owners, each group in sorted (region, id) order.
    pub fn position_ref_check(&self) -> (r: Result<(), Vec<Error>>)
        ensures
            ref_check_post(*self, r),
    {
        let mut out = self.sector_ref_errors();
        let mut aerrs = self.airport_ref_errors();
        let ghost ss = choose|ss: Seq<((String, String), ())>|
            #[trigger] sorted_arrangement_of(ss, sector_key_entries(*self)) && out@
                == sector_ref_violations(*self, ss, ss.len() as int);
        let ghost aa = choose|aa: Seq<((String, String), ())>|
            #[trigger] sorted_arrangement_of(aa, airport_key_entries(*self)) && aerrs@
                == airport_ref_violations(*self, aa, aa.len() as int);
        out.append(&mut aerrs);
        if out.len() == 0 {
            proof {
                assert(sorted_arrangement_of(ss, sector_key_entries(*self)));
                assert(sorted_arrangement_of(aa, airport_key_entries(*self)));
            }
            Ok(())
        } else {
            proof {
                assert(sorted_arrangement_of(ss, sector_key_entries(*self)));
                assert(sorted_arrangement_of(aa, airport_key_entries(*self)));
            }
            Err(out)
        }
    }


    /// Flatten all volumes into entries, regions in dataset order.
    fn collect_volume_entries(&self) -> (r: Vec<((String, String), Volume)>)
        ensures
            r@ == volume_entries(*self),
    {
        let ghost rs = volume_regions(*self);
        let ghost f = volume_extract();
        let mut entries: Vec<((String, String), Volume)> = Vec::new();
        let mut i: usize = 0;
        while i < self.firs.len()
            invariant
                rs == volume_regions(*self),
                f == volume_extract(),
                0 <= i <= self.firs@.len(),
                entries@ == dataset_entries(rs, f, i as int),
            decreases self.firs@.len() - i,
        {
            let mut j: usize = 0;
            while j < self.firs[i].1.volumes.len()
                invariant
                    rs == volume_regions(*self),
                    f == volume_extract(),
                    0 <= i < self.firs@.len(),
                    0 <= j <= self.firs@[i as int].1.volumes@.len(),
                    entries@ == dataset_entries(rs, f, i as int) + region_entries(
                        rs[i as int].0,
                        rs[i as int].1,
                        f,
                        j as int,
                    ),
                decreases self.firs@[i as int].1.volumes@.len() - j,
            {
                let p = &self.firs[i].1.volumes[j];
                entries.push(((self.firs[i].0.clone(), p.0.clone()), p.1));
                proof {
                    assert(rs[i as int] == (self.firs@[i as int].0, self.firs@[i as int].1.volumes@));
                    assert(entries@ =~= dataset_entries(rs, f, i as int) + region_entries(
                        rs[i as int].0,
                        rs[i as int].1,
                        f,
                        j + 1,
                    ));
                }
                j = j + 1;
            }
            proof {
                assert(rs[i as int].1.len() == self.firs@[i as int].1.volumes@.len());
                assert(entries@ =~= dataset_entries(rs, f, i + 1));
            }
            i = i + 1;
        }
        entries
    }

    /// Run every check over the dataset and return the concatenated report:
    /// volume checks, then duplicate-position checks, then reference
    /// checks, each in its sorted (region, id) traversal order.  No check
    /// suppresses another; `Ok` means the dataset is fully consistent.
    pub fn run_checks(&self) -> (r: Result<(), Vec<Error>>)
        ensures
            run_checks_post(*self, r),
    {
        let ventries = self.collect_volume_entries();
        let vsorted = sort_entries(ventries);
        let ghost sv = vsorted@;
        let mut out: Vec<Error> = Vec::new();
        let mut i: usize = 0;
        while i < vsorted.len()
            invariant
                sv == vsorted@,
                sorted_arrangement_of(sv, volume_entries(*self)),
                0 <= i <= sv.len(),
                out@ == volume_violations(sv, i as int),
            decreases sv.len() - i,
        {
            let e = &vsorted[i];
            match e.1.check_level() {
                Ok(()) => {
                    proof {
                        assert(volume_entry_errs(sv[i as int]) =~= Seq::<Error>::empty());
                        assert(out@ =~= volume_violations(sv, i + 1));
                    }
                },
                Err(ves) => {
                    let ghost base = out@;
                    let ghost row = volume_entry_errs(sv[i as int]);
                    let mut ki: usize = 0;
                    while ki < ves.len()
                        invariant
                            sv == vsorted@,
                            0 <= i < sv.len(),
                            *e == sv[i as int],
                            ves@ == sv[i as int].1.level_errors(),
                            row == volume_entry_errs(sv[i as int]),
                            0 <= ki <= ves@.len(),
                            out@ == base + row.take(ki as int),
                        decreases ves@.len() - ki,
                    {
                        out.push(Error::InvalidVolume(e.0.0.clone(), e.0.1.clone(), ves[ki]));
                        proof {
                            assert(row[ki as int] == Error::InvalidVolume(
                                sv[i as int].0.0,
                                sv[i as int].0.1,
                                ves@[ki as int],
                            ));
                            assert(row.take(ki + 1) =~= row.take(ki as int).push(row[ki as int]));
                            assert(out@ =~= base + row.take(ki + 1));
                        }
                        ki = ki + 1;
                    }
                    proof {
                        assert(row.take(ves@.len() as int) =~= row);
                        assert(out@ =~= volume_violations(sv, i + 1));
                    }
                },
            }
            i = i + 1;
        }
        let dres = self.position_dupe_check();
        let ghost sp = choose|sp: Seq<PosEntry>|
            #[trigger] sorted_arrangement_of(sp, position_entries(*self)) && (match dres {
                Ok(()) => dupe_violations(sp, sp.len() as int).len() == 0,
                Err(v) => v@ == dupe_violations(sp, sp.len() as int) && v@.len() > 0,
            });
        let ghost dupe_errs = dupe_violations(sp, sp.len() as int);
        match dres {
            Ok(()) => {
                proof {
                    assert(out@ =~= volume_violations(sv, sv.len() as int) + dupe_errs);
                }
            },
            Err(mut v) => {
                out.append(&mut v);
            },
        }
        let rres = self.position_ref_check();
        let ghost ss = choose|ss: Seq<((String, String), ())>, aa: Seq<((String, String), ())>|
            #![trigger sorted_arrangement_of(ss, sector_key_entries(*self)), sorted_arrangement_of(aa, airport_key_entries(*self))]
            sorted_arrangement_of(ss, sector_key_entries(*self)) && sorted_arrangement_of(
                aa,
                airport_key_entries(*self),
            ) && {
                let errs = sector_ref_violations(*self, ss, ss.len() as int)
                    + airport_ref_violations(*self, aa, aa.len() as int);
                match rres {
                    Ok(()) => errs.len() == 0,
                    Err(v) => v@ == errs && v@.len() > 0,
                }
            };
        let ghost ref_errs = sector_ref_violations(*self, ss.0, ss.0.len() as int)
            + airport_ref_violations(*self, ss.1, ss.1.len() as int);
        match rres {
            Ok(()) => {
                proof {
                    assert(out@ =~= volume_violations(sv, sv.len() as int) + dupe_errs + ref_errs);
                }
            },
            Err(mut v) => {
                out.append(&mut v);
                proof {
                    assert(out@ =~= volume_violations(sv, sv.len() as int) + dupe_errs + ref_errs);
                }
            },
        }
        proof {
            assert(sorted_arrangement_of(sv, volume_entries(*self)));
            assert(sorted_arrangement_of(sp, position_entries(*self)));
            assert(sorted_arrangement_of(ss.0, sector_key_entries(*self)));
            assert(sorted_arrangement_of(ss.1, airport_key_entries(*self)));
            assert(out@ =~= volume_violations(sv, sv.len() as int) + dupe_errs
                + sector_ref_violations(*self, ss.0, ss.0.len() as int) + airport_ref_violations(
                *self,
                ss.1,
                ss.1.len() as int,
            ));
        }
        if out.len() == 0 {
            Ok(())
        } else {
            Err(out)
        }
    }

    /// The duplicate-position check: sort all (region, id, position)
    /// triples by (region, id), then scan the full ordered cross product
    /// and report every directional collision.
    pub fn position_dupe_check(&self) -> (r: Result<(), Vec<Error>>)
        ensures
            dupe_check_post(*self, r),
    {
        let entries = self.collect_position_entries();
        let sorted = sort_entries(entries);
        let ghost s = sorted@;
        let mut out: Vec<Error> = Vec::new();
        let mut i: usize = 0;
        while i < sorted.len()
            invariant
                s == sorted@,
                sorted_arrangement_of(s, position_entries(*self)),
                0 <= i <= s.len(),
                out@ == dupe_violations(s, i as int),
            decreases s.len() - i,
        {
            let mut j: usize = 0;
            while j < sorted.len()
                invariant
                    s == sorted@,
                    sorted_arrangement_of(s, position_entries(*self)),
                    0 <= i < s.len(),
                    0 <= j <= s.len(),
                    out@ == dupe_violations(s, i as int) + dupe_row(s, s[i as int], j as int),
                decreases s.len() - j,
            {
                let a = &sorted[i];
                let b = &sorted[j];
                let same_key = str_eq_str(a.0.0.as_str(), b.0.0.as_str()) && str_eq_str(
                    a.0.1.as_str(),
                    b.0.1.as_str(),
                );
                if !same_key && a.1.0 == b.1.0 && str_starts_with(a.1.1.as_str(), b.1.1.as_str())
                    && a.1.2 == b.1.2 {
                    out.push(
                        Error::DuplicatePosition(
                            a.0.0.clone(),
                            a.0.1.clone(),
                            b.0.0.clone(),
                            b.0.1.clone(),
                        ),
                    );
                }
                proof {
                    assert(out@ =~= dupe_violations(s, i as int) + dupe_row(
                        s,
                        s[i as int],
                        j + 1,
                    ));
                }
                j = j + 1;
            }
            i = i + 1;
        }
        if out.len() == 0 {
            proof {
                assert(sorted_arrangement_of(s, position_entries(*self)));
            }
            Ok(())
        } else {
            proof {
                assert(sorted_arrangement_of(s, position_entries(*self)));
            }
            Err(out)
        }
    }
}

/// Every volume of the dataset satisfies both level constraints.
pub open spec fn all_volumes_ok(d: OpenData) -> bool {
    forall|fi: int, vj: int|
        0 <= fi < d.firs@.len() && 0 <= vj < d.firs@[fi].1.volumes@.len()
            ==> (#[trigger] d.firs@[fi].1.volumes@[vj]).1.levels_ok()
}

/// Every volume of one region satisfies both level constraints.
pub open spec fn fir_volumes_ok(f: FIR) -> bool {
    forall|vj: int| 0 <= vj < f.volumes@.len() ==> (#[trigger] f.volumes@[vj]).1.levels_ok()
}

/// The violations a check result carries: none for `Ok`.
pub open spec fn result_errors<E>(r: Result<(), Vec<E>>) -> Seq<E> {
    match r {
        Ok(()) => Seq::empty(),
        Err(v) => v@,
    }
}

proof fn lemma_fir_volume_entries_index(f: FIR, j: int)
    requires
        0 <= j <= f.volumes@.len(),
    ensures
        fir_volume_entries(f, j).len() == j,
        forall|k: int|
            0 <= k < j ==> #[trigger] fir_volume_entries(f, j)[k] == (
                (f.volumes@[k].0, f.volumes@[k].0),
                f.volumes@[k].1,
            ),
    decreases j,
{
    if j > 0 {
        lemma_fir_volume_entries_index(f, j - 1);
    }
}

proof fn lemma_fir_volume_entries_distinct(f: FIR)
    requires
        ids_distinct(f.volumes@),
    ensures
        keys_distinct(fir_volume_entries(f, f.volumes@.len() as int)),
{
    let entries = fir_volume_entries(f, f.volumes@.len() as int);
    lemma_fir_volume_entries_index(f, f.volumes@.len() as int);
    assert forall|i: int, j: int| 0 <= i < j < entries.len() implies crate::keys::entry_key(
        #[trigger] entries[i],
    ) != crate::keys::entry_key(#[trigger] entries[j]) by {
        assert(entries[i].0.0@ == f.volumes@[i].0@);
        assert(entries[j].0.0@ == f.volumes@[j].0@);
    }
}

/// If every entry's volume is valid, the prefix violations are empty.
proof fn lemma_volume_violations_empty(s: Seq<((String, String), Volume)>, i: int)
    requires
        i <= s.len(),
        forall|k: int| 0 <= k < s.len() ==> (#[trigger] s[k]).1.levels_ok(),
    ensures
        volume_violations(s, i).len() == 0,
    decreases i,
{
    if i > 0 {
        lemma_volume_violations_empty(s, i - 1);
        assert(s[i - 1].1.level_errors() =~= Seq::<crate::volume::ConstraintError>::empty());
        assert(volume_entry_errs(s[i - 1]) =~= Seq::<Error>::empty());
    }
}

proof fn lemma_fir_volume_violations_empty(s: Seq<((String, String), Volume)>, i: int)
    requires
        i <= s.len(),
        forall|k: int| 0 <= k < s.len() ==> (#[trigger] s[k]).1.levels_ok(),
    ensures
        fir_volume_violations(s, i).len() == 0,
    decreases i,
{
    if i > 0 {
        lemma_fir_volume_violations_empty(s, i - 1);
        assert(s[i - 1].1.level_errors() =~= Seq::<crate::volume::ConstraintError>::empty());
        assert(s[i - 1].1.level_errors().map_values(
            |ce: crate::volume::ConstraintError| (s[i - 1].0.0, ce),
        ).len() == 0);
    }
}

/// Every payload of a sorted arrangement of `fir_volume_entries` is one of
/// the region's volumes.
proof fn lemma_fir_arrangement_payloads(f: FIR, s: Seq<((String, String), Volume)>)
    requires
        sorted_arrangement_of(s, fir_volume_entries(f, f.volumes@.len() as int)),
        fir_volumes_ok(f),
    ensures
        forall|k: int| 0 <= k < s.len() ==> (#[trigger] s[k]).1.levels_ok(),
{
    broadcast use vstd::seq_lib::group_to_multiset_ensures;

    let entries = fir_volume_entries(f, f.volumes@.len() as int);
    lemma_fir_volume_entries_index(f, f.volumes@.len() as int);
    assert forall|k: int| 0 <= k < s.len() implies (#[trigger] s[k]).1.levels_ok() by {
        assert(s.contains(s[k]));
        assert(s.to_multiset().count(s[k]) > 0);
        assert(entries.to_multiset().count(s[k]) > 0);
        assert(entries.contains(s[k]));
        let e = entries.lemma_contains_to_index(s[k]);
        assert(entries[e] == ((f.volumes@[e].0, f.volumes@[e].0), f.volumes@[e].1));
    }
}

/// When every volume of the region is valid, the per-region volume check
/// reports nothing.
pub proof fn lemma_fir_run_checks_ok(f: FIR, r: Result<(), Vec<(String, ConstraintError)>>)
    requires
        fir_volumes_ok(f),
        fir_checks_post(f, r),
    ensures
        r is Ok,
{
    let s = choose|s: Seq<((String, String), Volume)>|
        #[trigger] sorted_arrangement_of(s, fir_volume_entries(f, f.volumes@.len() as int)) && (
        match r {
            Ok(()) => fir_volume_violations(s, s.len() as int).len() == 0,
            Err(v) => v@ == fir_volume_violations(s, s.len() as int) && v@.len() > 0,
        });
    lemma_fir_arrangement_payloads(f, s);
    lemma_fir_volume_violations_empty(s, s.len() as int);
}

proof fn lemma_dupe_row_no_volume_errs(s: Seq<PosEntry>, a: PosEntry, j: int)
    ensures
        forall|k: int|
            0 <= k < dupe_row(s, a, j).len() ==> !(#[trigger] dupe_row(s, a, j)[k] is InvalidVolume),
    decreases j,
{
    if j > 0 {
        lemma_dupe_row_no_volume_errs(s, a, j - 1);
    }
}

proof fn lemma_dupe_violations_no_volume_errs(s: Seq<PosEntry>, i: int)
    ensures
        forall|k: int|
            0 <= k < dupe_violations(s, i).len() ==> !(#[trigger] dupe_violations(
                s,
                i,
            )[k] is InvalidVolume),
    decreases i,
{
    if i > 0 {
        lemma_dupe_violations_no_volume_errs(s, i - 1);
        lemma_dupe_row_no_volume_errs(s, s[i - 1], s.len() as int);
    }
}

proof fn lemma_group_errs_no_volume_errs(
    d: OpenData,
    kind: InvalidPositionReferenceType,
    of: String,
    oid: String,
    g: Seq<PositionReference>,
    ri: int,
)
    ensures
        forall|k: int|
            0 <= k < group_errs(d, kind, of, oid, g, ri).len() ==> !(#[trigger] group_errs(
                d,
                kind,
                of,
                oid,
                g,
                ri,
            )[k] is InvalidVolume),
    decreases ri,
{
    if ri > 0 {
        lemma_group_errs_no_volume_errs(d, kind, of, oid, g, ri - 1);
    }
}

proof fn lemma_prio_errs_no_volume_errs(
    d: OpenData,
    kind: InvalidPositionReferenceType,
    of: String,
    oid: String,
    pp: Seq<Vec<PositionReference>>,
    gi: int,
)
    ensures
        forall|k: int|
            0 <= k < prio_errs(d, kind, of, oid, pp, gi).len() ==> !(#[trigger] prio_errs(
                d,
                kind,
                of,
                oid,
                pp,
                gi,
            )[k] is InvalidVolume),
    decreases gi,
{
    if gi > 0 {
        lemma_prio_errs_no_volume_errs(d, kind, of, oid, pp, gi - 1);
        lemma_group_errs_no_volume_errs(d, kind, of, oid, pp[gi - 1]@, pp[gi - 1]@.len() as int);
    }
}

proof fn lemma_sector_refs_no_volume_errs(d: OpenData, s: Seq<((String, String), ())>, i: int)
    ensures
        forall|k: int|
            0 <= k < sector_ref_violations(d, s, i).len() ==> !(#[trigger] sector_ref_violations(
                d,
                s,
                i,
            )[k] is InvalidVolume),
    decreases i,
{
    if i > 0 {
        lemma_sector_refs_no_volume_errs(d, s, i - 1);
        match lookup_sector(d, s[i - 1].0.0@, s[i - 1].0.1@) {
            Option::Some(sec) => {
                lemma_prio_errs_no_volume_errs(
                    d,
                    InvalidPositionReferenceType::Sector,
                    s[i - 1].0.0,
                    s[i - 1].0.1,
                    sec.position_priority@,
                    sec.position_priority@.len() as int,
                );
            },
            Option::None => {},
        }
    }
}

proof fn lemma_airport_refs_no_volume_errs(d: OpenData, s: Seq<((String, String), ())>, i: int)
    ensures
        forall|k: int|
            0 <= k < airport_ref_violations(d, s, i).len() ==> !(#[trigger] airport_ref_violations(
                d,
                s,
                i,
            )[k] is InvalidVolume),
    decreases i,
{
    if i > 0 {
        lemma_airport_refs_no_volume_errs(d, s, i - 1);
        match lookup_airport(d, s[i - 1].0.0@, s[i - 1].0.1@) {
            Option::Some(ap) => {
                lemma_prio_errs_no_volume_errs(
                    d,
                    InvalidPositionReferenceType::Airport,
                    s[i - 1].0.0,
                    s[i - 1].0.1,
                    ap.position_priority@,
                    ap.position_priority@.len() as int,
                );
            },
            Option::None => {},
        }
    }
}

/// Every payload of a sorted arrangement of the dataset's volume entries
/// is one of the dataset's volumes.
proof fn lemma_volume_arrangement_payloads(d: OpenData, s: Seq<((String, String), Volume)>)
    requires
        sorted_arrangement_of(s, volume_entries(d)),
        all_volumes_ok(d),
    ensures
        forall|k: int| 0 <= k < s.len() ==> (#[trigger] s[k]).1.levels_ok(),
{
    broadcast use vstd::seq_lib::group_to_multiset_ensures;

    let rs = volume_regions(d);
    let f = volume_extract();
    let entries = volume_entries(d);
    lemma_dataset_entries_elem(rs, f, rs.len() as int);
    assert forall|k: int| 0 <= k < s.len() implies (#[trigger] s[k]).1.levels_ok() by {
        assert(s.contains(s[k]));
        assert(s.to_multiset().count(s[k]) > 0);
        assert(entries.to_multiset().count(s[k]) > 0);
        assert(entries.contains(s[k]));
        let e = entries.lemma_contains_to_index(s[k]);
        let (fi, vj) = choose|fi: int, vj: int|
            0 <= fi < rs.len() && 0 <= vj < rs[fi].1.len() && #[trigger] entries[e] == (
                (rs[fi].0, rs[fi].1[vj].0),
                f(rs[fi].1[vj].1),
            );
        assert(rs[fi].1 == d.firs@[fi].1.volumes@);
        assert(d.firs@[fi].1.volumes@[vj].1.levels_ok());
    }
}

/// When every volume of the dataset is valid, the combined report holds no
/// volume violation: the volume check contributes nothing.
pub proof fn lemma_valid_volumes_no_volume_errors(d: OpenData, r: Result<(), Vec<Error>>)
    requires
        all_volumes_ok(d),
        run_checks_post(d, r),
    ensures
        forall|k: int|
            0 <= k < result_errors(r).len() ==> !(#[trigger] result_errors(r)[k] is InvalidVolume),
{
    let (sv, sp, ss, aa) = choose|
        sv: Seq<((String, String), Volume)>,
        sp: Seq<PosEntry>,
        ss: Seq<((String, String), ())>,
        aa: Seq<((String, String), ())>,
    |
        #![trigger sorted_arrangement_of(sv, volume_entries(d)), sorted_arrangement_of(sp, position_entries(d)), sorted_arrangement_of(ss, sector_key_entries(d)), sorted_arrangement_of(aa, airport_key_entries(d))]
        sorted_arrangement_of(sv, volume_entries(d)) && sorted_arrangement_of(
            sp,
            position_entries(d),
        ) && sorted_arrangement_of(ss, sector_key_entries(d)) && sorted_arrangement_of(
            aa,
            airport_key_entries(d),
        ) && {
            let errs = volume_violations(sv, sv.len() as int) + dupe_violations(
                sp,
                sp.len() as int,
            ) + sector_ref_violations(d, ss, ss.len() as int) + airport_ref_violations(
                d,
                aa,
                aa.len() as int,
            );
            match r {
                Ok(()) => errs.len() == 0,
                Err(v) => v@ == errs && v@.len() > 0,
            }
        };
    lemma_volume_arrangement_payloads(d, sv);
    lemma_volume_violations_empty(sv, sv.len() as int);
    lemma_dupe_violations_no_volume_errs(sp, sp.len() as int);
    lemma_sector_refs_no_volume_errs(d, ss, ss.len() as int);
    lemma_airport_refs_no_volume_errs(d, aa, aa.len() as int);
}

pub proof fn lemma_position_entries_distinct(d: OpenData)
    requires
        d.wf(),
    ensures
        keys_distinct(position_entries(d)),
{
    let rs = position_regions(d);
    assert forall|i: int, j: int| 0 <= i < j < rs.len() implies (#[trigger] rs[i].0)@ != (
    #[trigger] rs[j].0)@ by {
        assert(rs[i].0 == d.firs@[i].0 && rs[j].0 == d.firs@[j].0);
    }
    assert forall|fi: int| 0 <= fi < rs.len() implies ids_distinct(#[trigger] rs[fi].1) by {
        assert(rs[fi].1 == d.firs@[fi].1.positions@);
        assert(d.firs@[fi].1.wf());
    }
    lemma_dataset_entries_distinct(rs, position_extract(), rs.len() as int);
}

pub proof fn lemma_sector_entries_distinct(d: OpenData)
    requires
        d.wf(),
    ensures
        keys_distinct(sector_key_entries(d)),
{
    let rs = sector_regions(d);
    assert forall|i: int, j: int| 0 <= i < j < rs.len() implies (#[trigger] rs[i].0)@ != (
    #[trigger] rs[j].0)@ by {
        assert(rs[i].0 == d.firs@[i].0 && rs[j].0 == d.firs@[j].0);
    }
    assert forall|fi: int| 0 <= fi < rs.len() implies ids_distinct(#[trigger] rs[fi].1) by {
        assert(rs[fi].1 == d.firs@[fi].1.sectors@);
        assert(d.firs@[fi].1.wf());
    }
    lemma_dataset_entries_distinct(rs, unit_extract::<Sector>(), rs.len() as int);
}

pub proof fn lemma_airport_entries_distinct(d: OpenData)
    requires
        d.wf(),
    ensures
        keys_distinct(airport_key_entries(d)),
{
    let rs = airport_regions(d);
    assert forall|i: int, j: int| 0 <= i < j < rs.len() implies (#[trigger] rs[i].0)@ != (
    #[trigger] rs[j].0)@ by {
        assert(rs[i].0 == d.firs@[i].0 && rs[j].0 == d.firs@[j].0);
    }
    assert forall|fi: int| 0 <= fi < rs.len() implies ids_distinct(#[trigger] rs[fi].1) by {
        assert(rs[fi].1 == d.firs@[fi].1.airports@);
        assert(d.firs@[fi].1.wf());
    }
    lemma_dataset_entries_distinct(rs, unit_extract::<Airport>(), rs.len() as int);
}

pub proof fn lemma_volume_entries_distinct(d: OpenData)
    requires
        d.wf(),
    ensures
        keys_distinct(volume_entries(d)),
{
    let rs = volume_regions(d);
    assert forall|i: int, j: int| 0 <= i < j < rs.len() implies (#[trigger] rs[i].0)@ != (
    #[trigger] rs[j].0)@ by {
        assert(rs[i].0 == d.firs@[i].0 && rs[j].0 == d.firs@[j].0);
    }
    assert forall|fi: int| 0 <= fi < rs.len() implies ids_distinct(#[trigger] rs[fi].1) by {
        assert(rs[fi].1 == d.firs@[fi].1.volumes@);
        assert(d.firs@[fi].1.wf());
    }
    lemma_dataset_entries_distinct(rs, volume_extract(), rs.len() as int);
}

/// On a well-formed dataset the duplicate check is deterministic: any two
/// results allowed by its contract are the same, violation for violation.
pub proof fn lemma_dupe_check_deterministic(
    d: OpenData,
    r1: Result<(), Vec<Error>>,
    r2: Result<(), Vec<Error>>,
)
    requires
        d.wf(),
        dupe_check_post(d, r1),
        dupe_check_post(d, r2),
    ensures
        r1 is Ok <==> r2 is Ok,
        result_errors(r1) == result_errors(r2),
{
    let s1 = choose|s: Seq<PosEntry>|
        #[trigger] sorted_arrangement_of(s, position_entries(d)) && (match r1 {
            Ok(()) => dupe_violations(s, s.len() as int).len() == 0,
            Err(v) => v@ == dupe_violations(s, s.len() as int) && v@.len() > 0,
        });
    let s2 = choose|s: Seq<PosEntry>|
        #[trigger] sorted_arrangement_of(s, position_entries(d)) && (match r2 {
            Ok(()) => dupe_violations(s, s.len() as int).len() == 0,
            Err(v) => v@ == dupe_violations(s, s.len() as int) && v@.len() > 0,
        });
    lemma_position_entries_distinct(d);
    lemma_keys_distinct_transfer(s1, position_entries(d));
    lemma_sorted_arrangement_unique(s1, s2);
}

/// On a well-formed dataset the reference check is deterministic.
pub proof fn lemma_ref_check_deterministic(
    d: OpenData,
    r1: Result<(), Vec<Error>>,
    r2: Result<(), Vec<Error>>,
)
    requires
        d.wf(),
        ref_check_post(d, r1),
        ref_check_post(d, r2),
    ensures
        r1 is Ok <==> r2 is Ok,
        result_errors(r1) == result_errors(r2),
{
    let (ss1, aa1) = choose|ss: Seq<((String, String), ())>, aa: Seq<((String, String), ())>|
        #![trigger sorted_arrangement_of(ss, sector_key_entries(d)), sorted_arrangement_of(aa, airport_key_entries(d))]
        sorted_arrangement_of(ss, sector_key_entries(d)) && sorted_arrangement_of(
            aa,
            airport_key_entries(d),
        ) && {
            let errs = sector_ref_violations(d, ss, ss.len() as int) + airport_ref_violations(
                d,
                aa,
                aa.len() as int,
            );
            match r1 {
                Ok(()) => errs.len() == 0,
                Err(v) => v@ == errs && v@.len() > 0,
            }
        };
    let (ss2, aa2) = choose|ss: Seq<((String, String), ())>, aa: Seq<((String, String), ())>|
        #![trigger sorted_arrangement_of(ss, sector_key_entries(d)), sorted_arrangement_of(aa, airport_key_entries(d))]
        sorted_arrangement_of(ss, sector_key_entries(d)) && sorted_arrangement_of(
            aa,
            airport_key_entries(d),
        ) && {
            let errs = sector_ref_violations(d, ss, ss.len() as int) + airport_ref_violations(
                d,
                aa,
                aa.len() as int,
            );
            match r2 {
                Ok(()) => errs.len() == 0,
                Err(v) => v@ == errs && v@.len() > 0,
            }
        };
    lemma_sector_entries_distinct(d);
    lemma_airport_entries_distinct(d);
    lemma_keys_distinct_transfer(ss1, sector_key_entries(d));
    lemma_keys_distinct_transfer(aa1, airport_key_entries(d));
    lemma_sorted_arrangement_unique(ss1, ss2);
    lemma_sorted_arrangement_unique(aa1, aa2);
}

/// On a well-formed immutable dataset the whole validator is
/// deterministic and idempotent: two runs allowed by its contract return
/// the same ordered violation list.
pub proof fn lemma_run_checks_deterministic(
    d: OpenData,
    r1: Result<(), Vec<Error>>,
    r2: Result<(), Vec<Error>>,
)
    requires
        d.wf(),
        run_checks_post(d, r1),
        run_checks_post(d, r2),
    ensures
        r1 is Ok <==> r2 is Ok,
        result_errors(r1) == result_errors(r2),
{
    let (sv1, sp1, ss1, aa1) = choose|
        sv: Seq<((String, String), Volume)>,
        sp: Seq<PosEntry>,
        ss: Seq<((String, String), ())>,
        aa: Seq<((String, String), ())>,
    |
        #![trigger sorted_arrangement_of(sv, volume_entries(d)), sorted_arrangement_of(sp, position_entries(d)), sorted_arrangement_of(ss, sector_key_entries(d)), sorted_arrangement_of(aa, airport_key_entries(d))]
        sorted_arrangement_of(sv, volume_entries(d)) && sorted_arrangement_of(
            sp,
            position_entries(d),
        ) && sorted_arrangement_of(ss, sector_key_entries(d)) && sorted_arrangement_of(
            aa,
            airport_key_entries(d),
        ) && {
            let errs = volume_violations(sv, sv.len() as int) + dupe_violations(
                sp,
                sp.len() as int,
            ) + sector_ref_violations(d, ss, ss.len() as int) + airport_ref_violations(
                d,
                aa,
                aa.len() as int,
            );
            match r1 {
                Ok(()) => errs.len() == 0,
                Err(v) => v@ == errs && v@.len() > 0,
            }
        };
    let (sv2, sp2, ss2, aa2) = choose|
        sv: Seq<((String, String), Volume)>,
        sp: Seq<PosEntry>,
        ss: Seq<((String, String), ())>,
        aa: Seq<((String, String), ())>,
    |
        #![trigger sorted_arrangement_of(sv, volume_entries(d)), sorted_arrangement_of(sp, position_entries(d)), sorted_arrangement_of(ss, sector_key_entries(d)), sorted_arrangement_of(aa, airport_key_entries(d))]
        sorted_arrangement_of(sv, volume_entries(d)) && sorted_arrangement_of(
            sp,
            position_entries(d),
        ) && sorted_arrangement_of(ss, sector_key_entries(d)) && sorted_arrangement_of(
            aa,
            airport_key_entries(d),
        ) && {
            let errs = volume_violations(sv, sv.len() as int) + dupe_violations(
                sp,
                sp.len() as int,
            ) + sector_ref_violations(d, ss, ss.len() as int) + airport_ref_violations(
                d,
                aa,
                aa.len() as int,
            );
            match r2 {
                Ok(()) => errs.len() == 0,
                Err(v) => v@ == errs && v@.len() > 0,
            }
        };
    lemma_volume_entries_distinct(d);
    lemma_position_entries_distinct(d);
    lemma_sector_entries_distinct(d);
    lemma_airport_entries_distinct(d);
    lemma_keys_distinct_transfer(sv1, volume_entries(d));
    lemma_keys_distinct_transfer(sp1, position_entries(d));
    lemma_keys_distinct_transfer(ss1, sector_key_entries(d));
    lemma_keys_distinct_transfer(aa1, airport_key_entries(d));
    lemma_sorted_arrangement_unique(sv1, sv2);
    lemma_sorted_arrangement_unique(sp1, sp2);
    lemma_sorted_arrangement_unique(ss1, ss2);
    lemma_sorted_arrangement_unique(aa1, aa2);
}

/// Each unresolvable reference of a priority group contributes exactly one
/// violation, tagged with the owner kind, the owner's region and id, and
/// the resolved (region, id) pair of the reference; a resolvable reference
/// contributes none.
pub proof fn lemma_one_violation_per_missing_reference(
    d: OpenData,
    kind: InvalidPositionReferenceType,
    owner_fir: String,
    owner_id: String,
    g: Seq<PositionReference>,
    ri: int,
)
    requires
        0 <= ri < g.len(),
    ensures
        group_errs(d, kind, owner_fir, owner_id, g, ri + 1) == group_errs(
            d,
            kind,
            owner_fir,
            owner_id,
            g,
            ri,
        ) + (if lookup_position(d, resolved_region(owner_fir, g[ri])@, g[ri].id@) is None {
            seq![
                Error::InvalidPositionReference(
                    kind,
                    owner_fir,
                    owner_id,
                    resolved_region(owner_fir, g[ri]),
                    g[ri].id,
                ),
            ]
        } else {
            Seq::<Error>::empty()
        }),
{
}

} // verus!
