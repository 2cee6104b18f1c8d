//! Deterministic traversal of keyed entity collections.
//!
//! Every check flattens its entities into entries `((region, id), payload)`
//! and sorts them lexicographically by key before emitting violations, so
//! that the violation order is deterministic.  This module holds the key
//! order, the verified sort, the flattening specs, and the lemma that a
//! sorted sequence of distinct keys is unique.

use vstd::prelude::*;
use crate::text::{lex_lt, lemma_lex_irreflexive, lemma_lex_transitive, lemma_lex_trichotomy, str_lt, str_eq_str};

verus! {

/// The sort key of an entry: the views of its two name components.
pub open spec fn entry_key<P>(e: ((String, String), P)) -> (Seq<char>, Seq<char>) {
    (e.0.0@, e.0.1@)
}

/// Strict lexicographic order on key pairs.
pub open spec fn key_lt(a: (Seq<char>, Seq<char>), b: (Seq<char>, Seq<char>)) -> bool {
    lex_lt(a.0, b.0) || (a.0 == b.0 && lex_lt(a.1, b.1))
}

/// Reflexive lexicographic order on key pairs.
pub open spec fn key_le(a: (Seq<char>, Seq<char>), b: (Seq<char>, Seq<char>)) -> bool {
    key_lt(a, b) || (a.0 == b.0 && a.1 == b.1)
}

pub proof fn lemma_key_trichotomy(a: (Seq<char>, Seq<char>), b: (Seq<char>, Seq<char>))
    ensures
        key_lt(a, b) || key_lt(b, a) || (a.0 == b.0 && a.1 == b.1),
{
    lemma_lex_trichotomy(a.0, b.0);
    lemma_lex_trichotomy(a.1, b.1);
}

pub proof fn lemma_key_antisymmetric(a: (Seq<char>, Seq<char>), b: (Seq<char>, Seq<char>))
    requires
        key_le(a, b),
        key_le(b, a),
    ensures
        a.0 == b.0 && a.1 == b.1,
{
    if lex_lt(a.0, b.0) && lex_lt(b.0, a.0) {
        lemma_lex_transitive(a.0, b.0, a.0);
        lemma_lex_irreflexive(a.0, 0);
    }
    lemma_lex_irreflexive(a.0, 0);
    lemma_lex_irreflexive(b.0, 0);
    if a.0 == b.0 && lex_lt(a.1, b.1) && lex_lt(b.1, a.1) {
        lemma_lex_transitive(a.1, b.1, a.1);
        lemma_lex_irreflexive(a.1, 0);
    }
    lemma_lex_irreflexive(a.1, 0);
    lemma_lex_irreflexive(b.1, 0);
}

pub proof fn lemma_key_transitive(
    a: (Seq<char>, Seq<char>),
    b: (Seq<char>, Seq<char>),
    c: (Seq<char>, Seq<char>),
)
    requires
        key_le(a, b),
        key_le(b, c),
    ensures
        key_le(a, c),
{
    if lex_lt(a.0, b.0) && lex_lt(b.0, c.0) {
        lemma_lex_transitive(a.0, b.0, c.0);
    }
    if a.0 == c.0 && lex_lt(a.1, b.1) && lex_lt(b.1, c.1) {
        lemma_lex_transitive(a.1, b.1, c.1);
    }
}

/// Entries are weakly sorted by key.
pub open spec fn le_sorted<P>(s: Seq<((String, String), P)>) -> bool {
    forall|i: int, j: int|
        0 <= i < j < s.len() ==> key_le(entry_key(#[trigger] s[i]), entry_key(#[trigger] s[j]))
}

/// No two entries share a key.
pub open spec fn keys_distinct<P>(s: Seq<((String, String), P)>) -> bool {
    forall|i: int, j: int|
        0 <= i < j < s.len() ==> entry_key(#[trigger] s[i]) != entry_key(#[trigger] s[j])
}

/// The canonical traversal order: weakly sorted entries holding exactly the
/// entries of `entries`, one for each.  Under distinct keys this pins `s`
/// uniquely (`lemma_sorted_arrangement_unique`).
pub open spec fn sorted_arrangement_of<P>(
    s: Seq<((String, String), P)>,
    entries: Seq<((String, String), P)>,
) -> bool {
    s.to_multiset() == entries.to_multiset() && le_sorted(s)
}

/// Compare two entries' keys.
fn key_pair_lt(a: &(String, String), b: &(String, String)) -> (r: bool)
    ensures
        r == key_lt((a.0@, a.1@), (b.0@, b.1@)),
{
    if str_lt(a.0.as_str(), b.0.as_str()) {
        true
    } else if str_eq_str(a.0.as_str(), b.0.as_str()) {
        str_lt(a.1.as_str(), b.1.as_str())
    } else {
        false
    }
}

/// Sort entries by key with an insertion sort; the result holds exactly the
/// input entries, weakly sorted.
pub fn sort_entries<P>(input: Vec<((String, String), P)>) -> (r: Vec<((String, String), P)>)
    ensures
        sorted_arrangement_of(r@, input@),
        r@.len() == input@.len(),
{
    broadcast use vstd::seq_lib::group_to_multiset_ensures;

    let ghost full = input@;
    let mut v = input;
    let mut out: Vec<((String, String), P)> = Vec::new();
    while v.len() > 0
        invariant
            out@.to_multiset().add(v@.to_multiset()) == full.to_multiset(),
            le_sorted(out@),
        decreases v.len(),
    {
        let ghost v_before = v@;
        let x = v.pop().unwrap();
        proof {
            assert(v_before =~= v@.push(x));
            vstd::seq_lib::to_multiset_build(v@, x);
            assert(v_before.to_multiset() == v@.to_multiset().insert(x));
        }
        let mut j: usize = 0;
        while j < out.len() && key_pair_lt(&out[j].0, &x.0)
            invariant
                0 <= j <= out@.len(),
                forall|k: int| 0 <= k < j ==> key_lt(entry_key(#[trigger] out@[k]), entry_key(x)),
            decreases out@.len() - j,
        {
            j = j + 1;
        }
        let ghost out_before = out@;
        proof {
            if j < out@.len() {
                lemma_key_trichotomy(entry_key(out@[j as int]), entry_key(x));
            }
        }
        out.insert(j, x);
        proof {
            out_before.insert_ensures(j as int, x);
            assert(out@ == out_before.insert(j as int, x));
            vstd::seq_lib::to_multiset_insert(out_before, j as int, x);
            assert(out@.to_multiset() == out_before.to_multiset().insert(x));
            assert forall|p: int, q: int| 0 <= p < q < out@.len() implies key_le(
                entry_key(out@[p]),
                entry_key(out@[q]),
            ) by {
                let kp = entry_key(out@[p]);
                let kq = entry_key(out@[q]);
                if p < j && q == j {
                    assert(key_lt(kp, kq));
                } else if p == j && q > j {
                    assert(kq == entry_key(out_before[q - 1]));
                    assert(key_le(entry_key(x), entry_key(out_before[j as int])));
                    if q - 1 > j {
                        lemma_key_transitive(
                            entry_key(x),
                            entry_key(out_before[j as int]),
                            entry_key(out_before[q - 1]),
                        );
                    }
                } else if p < j && q > j {
                    assert(key_lt(kp, entry_key(x)));
                    assert(key_le(entry_key(x), entry_key(out_before[j as int])));
                    if q - 1 > j {
                        lemma_key_transitive(
                            entry_key(x),
                            entry_key(out_before[j as int]),
                            entry_key(out_before[q - 1]),
                        );
                    }
                    lemma_key_transitive(kp, entry_key(x), kq);
                }
            }
            assert(out@.to_multiset().add(v@.to_multiset()) =~= full.to_multiset());
        }
    }
    proof {
        assert(v@.to_multiset() =~= Seq::<((String, String), P)>::empty().to_multiset());
        assert(out@.to_multiset() =~= full.to_multiset());
        assert(out@.to_multiset().len() == out@.len());
        assert(full.to_multiset().len() == full.len());
    }
    out
}

/// A weakly sorted arrangement of entries with pairwise distinct keys is
/// unique: any two are equal element for element.
pub proof fn lemma_sorted_arrangement_unique<P>(
    s1: Seq<((String, String), P)>,
    s2: Seq<((String, String), P)>,
)
    requires
        le_sorted(s1),
        le_sorted(s2),
        keys_distinct(s1),
        s1.to_multiset() == s2.to_multiset(),
    ensures
        s1 == s2,
    decreases s1.len(),
{
    broadcast use vstd::seq_lib::group_to_multiset_ensures;

    assert(s1.to_multiset().len() == s1.len());
    assert(s2.to_multiset().len() == s2.len());
    if s1.len() == 0 {
        assert(s2.len() == 0);
        assert(s1 =~= s2);
    } else {
        assert(s2.len() == s1.len());
        assert(s1.contains(s1[0]));
        assert(s1.to_multiset().count(s1[0]) > 0);
        assert(s2.to_multiset().count(s1[0]) > 0);
        assert(s2.contains(s1[0]));
        let k = s2.lemma_contains_to_index(s1[0]);
        assert(s2.contains(s2[0]));
        assert(s2.to_multiset().count(s2[0]) > 0);
        assert(s1.to_multiset().count(s2[0]) > 0);
        assert(s1.contains(s2[0]));
        let m = s1.lemma_contains_to_index(s2[0]);
        if k > 0 {
            assert(key_le(entry_key(s2[0]), entry_key(s2[k])));
        }
        if m > 0 {
            assert(key_le(entry_key(s1[0]), entry_key(s1[m])));
        }
        // keys of s1[0] and s2[0] are mutually le, hence equal
        let k1 = entry_key(s1[0]);
        let k2 = entry_key(s2[0]);
        assert(key_le(k2, k1) && key_le(k1, k2));
        lemma_key_antisymmetric(k1, k2);
        // distinct keys in s1 force s2[0] to sit at index 0 of s1
        if m != 0 {
            assert(entry_key(s1[0]) != entry_key(s1[m]));
            assert(false);
        }
        assert(s1[0] == s2[0]);
        let t1 = s1.drop_first();
        let t2 = s2.drop_first();
        assert(s1.remove(0) =~= t1);
        assert(s2.remove(0) =~= t2);
        assert(t1.to_multiset() == s1.to_multiset().remove(s1[0]));
        assert(t2.to_multiset() == s2.to_multiset().remove(s2[0]));
        assert(t1.to_multiset() == t2.to_multiset());
        assert forall|i: int, j: int| 0 <= i < j < t1.len() implies key_le(
            entry_key(#[trigger] t1[i]),
            entry_key(#[trigger] t1[j]),
        ) by {
            assert(t1[i] == s1[i + 1] && t1[j] == s1[j + 1]);
        }
        assert forall|i: int, j: int| 0 <= i < j < t2.len() implies key_le(
            entry_key(#[trigger] t2[i]),
            entry_key(#[trigger] t2[j]),
        ) by {
            assert(t2[i] == s2[i + 1] && t2[j] == s2[j + 1]);
        }
        assert forall|i: int, j: int| 0 <= i < j < t1.len() implies entry_key(#[trigger] t1[i])
            != entry_key(#[trigger] t1[j]) by {
            assert(t1[i] == s1[i + 1] && t1[j] == s1[j + 1]);
        }
        lemma_sorted_arrangement_unique(t1, t2);
        assert forall|i: int| 0 <= i < s1.len() implies s1[i] == s2[i] by {
            if i > 0 {
                assert(t1[i - 1] == s1[i] && t2[i - 1] == s2[i]);
                assert(t1[i - 1] == t2[i - 1]);
            }
        }
        assert(s1 =~= s2);
    }
}

/// All entries of one region: each position `ps[k]` becomes
/// `((region, ps[k].0), f(ps[k].1))`, in collection order.
pub open spec fn region_entries<X, P>(
    region: String,
    ps: Seq<(String, X)>,
    f: spec_fn(X) -> P,
    j: int,
) -> Seq<((String, String), P)>
    decreases j,
{
    if j <= 0 {
        Seq::empty()
    } else {
        region_entries(region, ps, f, j - 1).push(((region, ps[j - 1].0), f(ps[j - 1].1)))
    }
}

/// All entries of a dataset: regions in order, each flattened by
/// `region_entries`.
pub open spec fn dataset_entries<X, P>(
    rs: Seq<(String, Seq<(String, X)>)>,
    f: spec_fn(X) -> P,
    i: int,
) -> Seq<((String, String), P)>
    decreases i,
{
    if i <= 0 {
        Seq::empty()
    } else {
        dataset_entries(rs, f, i - 1) + region_entries(
            rs[i - 1].0,
            rs[i - 1].1,
            f,
            rs[i - 1].1.len() as int,
        )
    }
}

pub proof fn lemma_region_entries_index<X, P>(
    region: String,
    ps: Seq<(String, X)>,
    f: spec_fn(X) -> P,
    j: int,
)
    requires
        0 <= j <= ps.len(),
    ensures
        region_entries(region, ps, f, j).len() == j,
        forall|k: int|
            0 <= k < j ==> #[trigger] region_entries(region, ps, f, j)[k] == (
                (region, ps[k].0),
                f(ps[k].1),
            ),
    decreases j,
{
    if j > 0 {
        lemma_region_entries_index(region, ps, f, j - 1);
    }
}

/// Keys with pairwise distinct views, at the region level.
pub open spec fn ids_distinct<X>(ps: Seq<(String, X)>) -> bool {
    forall|i: int, j: int| 0 <= i < j < ps.len() ==> (#[trigger] ps[i].0)@ != (#[trigger] ps[j].0)@
}

/// Every entry of the flattened prefix takes its region name from one of
/// the first `i` regions.
pub open spec fn entry_regions_from<X, P>(
    s: Seq<((String, String), P)>,
    rs: Seq<(String, Seq<(String, X)>)>,
    i: int,
) -> bool {
    forall|k: int|
        0 <= k < s.len() ==> exists|fi: int|
            0 <= fi < i && (#[trigger] s[k]).0.0@ == (#[trigger] rs[fi].0)@
}

/// Distinct region names and distinct ids within each region make all
/// flattened entry keys pairwise distinct.
pub proof fn lemma_dataset_entries_distinct<X, P>(
    rs: Seq<(String, Seq<(String, X)>)>,
    f: spec_fn(X) -> P,
    i: int,
)
    requires
        0 <= i <= rs.len(),
        ids_distinct(rs),
        forall|fi: int| 0 <= fi < rs.len() ==> ids_distinct(#[trigger] rs[fi].1),
    ensures
        keys_distinct(dataset_entries(rs, f, i)),
        entry_regions_from(dataset_entries(rs, f, i), rs, i),
    decreases i,
{
    if i > 0 {
        lemma_dataset_entries_distinct(rs, f, i - 1);
        let prev = dataset_entries(rs, f, i - 1);
        let block = region_entries(rs[i - 1].0, rs[i - 1].1, f, rs[i - 1].1.len() as int);
        let cur = dataset_entries(rs, f, i);
        lemma_region_entries_index(rs[i - 1].0, rs[i - 1].1, f, rs[i - 1].1.len() as int);
        assert(cur =~= prev + block);
        assert forall|k: int| 0 <= k < cur.len() implies exists|fi: int|
            0 <= fi < i && (#[trigger] cur[k]).0.0@ == rs[fi].0@ by {
            if k < prev.len() {
                let fi = choose|fi: int| 0 <= fi < i - 1 && prev[k].0.0@ == (#[trigger] rs[fi].0)@;
                assert(cur[k] == prev[k]);
                assert(0 <= fi < i && cur[k].0.0@ == rs[fi].0@);
            } else {
                assert(cur[k] == block[k - prev.len()]);
                assert(cur[k].0.0@ == rs[i - 1].0@);
            }
        }
        assert forall|p: int, q: int| 0 <= p < q < cur.len() implies entry_key(
            #[trigger] cur[p],
        ) != entry_key(#[trigger] cur[q]) by {
            if q < prev.len() {
                assert(cur[p] == prev[p] && cur[q] == prev[q]);
                assert(entry_key(prev[p]) != entry_key(prev[q]));
            } else if p >= prev.len() {
                let bp = p - prev.len();
                let bq = q - prev.len();
                assert(cur[p].0.1@ == rs[i - 1].1[bp].0@);
                assert(cur[q].0.1@ == rs[i - 1].1[bq].0@);
                assert(rs[i - 1].1[bp].0@ != rs[i - 1].1[bq].0@);
            } else {
                // p in an earlier region, q in region i-1: region names differ
                let fi = choose|fi: int|
                    0 <= fi < i - 1 && (#[trigger] prev[p]).0.0@ == rs[fi].0@;
                assert(cur[p].0.0@ == rs[fi].0@);
                assert(cur[q].0.0@ == rs[i - 1].0@);
                assert(rs[fi].0@ != rs[i - 1].0@);
            }
        }
    }
}

/// The first value at or after index `i` whose key views-equal `name`, if
/// any.
pub open spec fn find_from<X>(s: Seq<(String, X)>, name: Seq<char>, i: int) -> Option<X>
    decreases s.len() - i,
{
    if i < 0 || i >= s.len() {
        None
    } else if s[i].0@ == name {
        Some(s[i].1)
    } else {
        find_from(s, name, i + 1)
    }
}

/// Look the first entry with key `name` up in a keyed collection.
pub fn find_entry<'a, X>(v: &'a Vec<(String, X)>, name: &str) -> (r: Option<&'a X>)
    ensures
        match r {
            Some(x) => find_from(v@, name@, 0) == Some(*x),
            None => find_from(v@, name@, 0) is None,
        },
{
    let mut i: usize = 0;
    while i < v.len()
        invariant
            0 <= i <= v@.len(),
            find_from(v@, name@, 0) == find_from(v@, name@, i as int),
        decreases v@.len() - i,
    {
        if str_eq_str(v[i].0.as_str(), name) {
            return Some(&v[i].1);
        }
        i = i + 1;
    }
    None
}

/// Is some id of the collection views-equal to `name`?
pub open spec fn seq_contains_name(s: Seq<String>, name: Seq<char>) -> bool {
    exists|i: int| 0 <= i < s.len() && (#[trigger] s[i])@ == name
}

/// Decide `seq_contains_name(v@, name@)`.
pub fn vec_contains_name(v: &Vec<String>, name: &str) -> (r: bool)
    ensures
        r == seq_contains_name(v@, name@),
{
    let mut i: usize = 0;
    while i < v.len()
        invariant
            0 <= i <= v@.len(),
            forall|k: int| 0 <= k < i ==> (#[trigger] v@[k])@ != name@,
        decreases v@.len() - i,
    {
        if str_eq_str(v[i].as_str(), name) {
            return true;
        }
        i = i + 1;
    }
    false
}

/// Does the list contain the number?
pub fn vec_contains_u32(v: &Vec<u32>, x: u32) -> (r: bool)
    ensures
        r == v@.contains(x),
{
    let mut i: usize = 0;
    while i < v.len()
        invariant
            0 <= i <= v@.len(),
            forall|k: int| 0 <= k < i ==> v@[k] != x,
        decreases v@.len() - i,
    {
        if v[i] == x {
            return true;
        }
        i = i + 1;
    }
    proof {
        assert(!v@.contains(x));
    }
    false
}

/// Every flattened entry is the image of some region/id pair of the
/// dataset.
pub proof fn lemma_dataset_entries_elem<X, P>(
    rs: Seq<(String, Seq<(String, X)>)>,
    f: spec_fn(X) -> P,
    i: int,
)
    requires
        0 <= i <= rs.len(),
    ensures
        forall|k: int|
            0 <= k < dataset_entries(rs, f, i).len() ==> exists|fi: int, pj: int|
                0 <= fi < i && 0 <= pj < rs[fi].1.len() && #[trigger] dataset_entries(rs, f, i)[k]
                    == ((rs[fi].0, rs[fi].1[pj].0), f(rs[fi].1[pj].1)),
    decreases i,
{
    if i > 0 {
        lemma_dataset_entries_elem(rs, f, i - 1);
        let prev = dataset_entries(rs, f, i - 1);
        let block = region_entries(rs[i - 1].0, rs[i - 1].1, f, rs[i - 1].1.len() as int);
        let cur = dataset_entries(rs, f, i);
        lemma_region_entries_index(rs[i - 1].0, rs[i - 1].1, f, rs[i - 1].1.len() as int);
        assert(cur =~= prev + block);
        assert forall|k: int| 0 <= k < cur.len() implies exists|fi: int, pj: int|
            0 <= fi < i && 0 <= pj < rs[fi].1.len() && #[trigger] cur[k] == (
                (rs[fi].0, rs[fi].1[pj].0),
                f(rs[fi].1[pj].1),
            ) by {
            if k < prev.len() {
                assert(cur[k] == prev[k]);
                let (fi, pj) = choose|fi: int, pj: int|
                    0 <= fi < i - 1 && 0 <= pj < rs[fi].1.len() && #[trigger] prev[k] == (
                        (rs[fi].0, rs[fi].1[pj].0),
                        f(rs[fi].1[pj].1),
                    );
                assert(cur[k] == ((rs[fi].0, rs[fi].1[pj].0), f(rs[fi].1[pj].1)));
            } else {
                let pj = k - prev.len();
                assert(cur[k] == block[pj]);
                assert(cur[k] == ((rs[i - 1].0, rs[i - 1].1[pj].0), f(rs[i - 1].1[pj].1)));
            }
        }
    }
}

/// Distinct keys carry over from a sequence to any rearrangement of it.
pub proof fn lemma_keys_distinct_transfer<P>(
    s: Seq<((String, String), P)>,
    entries: Seq<((String, String), P)>,
)
    requires
        s.to_multiset() == entries.to_multiset(),
        keys_distinct(entries),
    ensures
        keys_distinct(s),
{
    broadcast use vstd::seq_lib::group_to_multiset_ensures;

    assert(entries.no_duplicates()) by {
        assert forall|i: int, j: int| 0 <= i < j < entries.len() implies entries[i] != entries[j] by {
            assert(entry_key(entries[i]) != entry_key(entries[j]));
        }
    }
    entries.lemma_multiset_has_no_duplicates();
    assert forall|i: int, j: int| 0 <= i < j < s.len() implies entry_key(#[trigger] s[i])
        != entry_key(#[trigger] s[j]) by {
        assert(s.contains(s[i]));
        assert(s.to_multiset().count(s[i]) > 0);
        assert(entries.to_multiset().count(s[i]) > 0);
        assert(entries.contains(s[i]));
        let ei = entries.lemma_contains_to_index(s[i]);
        assert(s.contains(s[j]));
        assert(s.to_multiset().count(s[j]) > 0);
        assert(entries.to_multiset().count(s[j]) > 0);
        assert(entries.contains(s[j]));
        let ej = entries.lemma_contains_to_index(s[j]);
        if s[i] == s[j] {
            // the same value would have multiplicity at least two in s
            let si = s.remove(i);
            assert(s.remove(i).to_multiset() == s.to_multiset().remove(s[i]));
            assert(si[j - 1] == s[j]);
            assert(si.contains(s[j]));
            assert(si.to_multiset().count(s[j]) > 0);
            assert(s.to_multiset().count(s[i]) >= 2);
            assert(entries.to_multiset().count(s[i]) <= 1);
        } else {
            assert(ei != ej);
            assert(entry_key(entries[ei]) != entry_key(entries[ej]));
        }
    }
}

} // verus!
