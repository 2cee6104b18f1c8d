//! Character-level string reasoning: lexicographic order and the prefix
//! predicates the checks are built from.

use vstd::prelude::*;
use vstd::string::StrSliceExecFns;

verus! {

/// Strict lexicographic order on the character suffixes starting at `i`:
/// the shorter string wins a tie, otherwise the first differing character
/// decides by code point.
pub open spec fn lex_lt_from(a: Seq<char>, b: Seq<char>, i: int) -> bool
    decreases a.len() - i,
{
    if i >= a.len() {
        i < b.len()
    } else if i >= b.len() {
        false
    } else if a[i] != b[i] {
        a[i] < b[i]
    } else {
        lex_lt_from(a, b, i + 1)
    }
}

/// Strict lexicographic order on character sequences.
pub open spec fn lex_lt(a: Seq<char>, b: Seq<char>) -> bool {
    lex_lt_from(a, b, 0)
}

/// Lexicographic order is irreflexive.
pub proof fn lemma_lex_irreflexive(a: Seq<char>, i: int)
    requires
        0 <= i,
    ensures
        !lex_lt_from(a, a, i),
    decreases a.len() - i,
{
    if i < a.len() {
        lemma_lex_irreflexive(a, i + 1);
    }
}

/// Two sequences that agree on a common prefix are ordered one way, the
/// other way, or are equal.
pub proof fn lemma_lex_trichotomy_from(a: Seq<char>, b: Seq<char>, i: int)
    requires
        0 <= i <= a.len(),
        i <= b.len(),
        forall|k: int| 0 <= k < i ==> a[k] == b[k],
    ensures
        lex_lt_from(a, b, i) || lex_lt_from(b, a, i) || a =~= b,
    decreases a.len() - i,
{
    if i == a.len() {
        if !lex_lt_from(a, b, i) {
            assert(b.len() == i);
            assert(a =~= b);
        }
    } else if i == b.len() {
        assert(lex_lt_from(b, a, i));
    } else if a[i] == b[i] {
        lemma_lex_trichotomy_from(a, b, i + 1);
    }
}

pub proof fn lemma_lex_trichotomy(a: Seq<char>, b: Seq<char>)
    ensures
        lex_lt(a, b) || lex_lt(b, a) || a == b,
{
    lemma_lex_trichotomy_from(a, b, 0);
}

/// Lexicographic order is transitive.
pub proof fn lemma_lex_transitive_from(a: Seq<char>, b: Seq<char>, c: Seq<char>, i: int)
    requires
        0 <= i,
        lex_lt_from(a, b, i),
        lex_lt_from(b, c, i),
    ensures
        lex_lt_from(a, c, i),
    decreases a.len() - i,
{
    if i >= a.len() {
    } else if a[i] == b[i] && i < b.len() && i < c.len() && b[i] == c[i] {
        lemma_lex_transitive_from(a, b, c, i + 1);
    }
}

pub proof fn lemma_lex_transitive(a: Seq<char>, b: Seq<char>, c: Seq<char>)
    requires
        lex_lt(a, b),
        lex_lt(b, c),
    ensures
        lex_lt(a, c),
{
    lemma_lex_transitive_from(a, b, c, 0);
}

/// Decide `lex_lt(a@, b@)`.
pub fn str_lt(a: &str, b: &str) -> (r: bool)
    ensures
        r == lex_lt(a@, b@),
{
    let a_len = a.unicode_len();
    let b_len = b.unicode_len();
    let mut i: usize = 0;
    while i < a_len && i < b_len
        invariant
            0 <= i <= a_len,
            i <= b_len,
            a_len == a@.len(),
            b_len == b@.len(),
            lex_lt(a@, b@) == lex_lt_from(a@, b@, i as int),
        decreases a_len - i,
    {
        let ca = a.get_char(i);
        let cb = b.get_char(i);
        if ca != cb {
            return ca < cb;
        }
        i = i + 1;
    }
    i < b_len
}

/// Decide `a@ == b@`.
pub fn str_eq_str(a: &str, b: &str) -> (r: bool)
    ensures
        r == (a@ == b@),
{
    let a_len = a.unicode_len();
    let b_len = b.unicode_len();
    if a_len != b_len {
        return false;
    }
    let mut i: usize = 0;
    while i < a_len
        invariant
            0 <= i <= a_len,
            a_len == a@.len(),
            a_len == b@.len(),
            forall|k: int| 0 <= k < i ==> a@[k] == b@[k],
        decreases a_len - i,
    {
        if a.get_char(i) != b.get_char(i) {
            return false;
        }
        i = i + 1;
    }
    proof {
        assert(a@ =~= b@);
    }
    true
}

/// Does `a` start with `p` (`p@` is a prefix of `a@`)?
pub fn str_starts_with(a: &str, p: &str) -> (r: bool)
    ensures
        r == p@.is_prefix_of(a@),
{
    let a_len = a.unicode_len();
    let p_len = p.unicode_len();
    if p_len > a_len {
        return false;
    }
    let mut i: usize = 0;
    while i < p_len
        invariant
            0 <= i <= p_len,
            p_len <= a_len,
            a_len == a@.len(),
            p_len == p@.len(),
            forall|k: int| 0 <= k < i ==> a@[k] == p@[k],
        decreases p_len - i,
    {
        if a.get_char(i) != p.get_char(i) {
            proof {
                assert(a@.subrange(0, p@.len() as int)[i as int] != p@[i as int]);
            }
            return false;
        }
        i = i + 1;
    }
    proof {
        assert(p@ =~= a@.subrange(0, p@.len() as int));
    }
    true
}

/// The position of the first underscore in `s`, or `s.len()` if there is
/// none.
pub open spec fn underscore_idx_from(s: Seq<char>, i: int) -> int
    decreases s.len() - i,
{
    if i < 0 || i >= s.len() {
        s.len() as int
    } else if s[i] == '_' {
        i
    } else {
        underscore_idx_from(s, i + 1)
    }
}

pub open spec fn underscore_idx(s: Seq<char>) -> int {
    underscore_idx_from(s, 0)
}

/// The part of `s` before its first underscore (all of `s` if it has none).
pub open spec fn before_underscore(s: Seq<char>) -> Seq<char> {
    s.take(underscore_idx(s))
}

pub proof fn lemma_underscore_idx_bounds(s: Seq<char>, i: int)
    requires
        0 <= i <= s.len(),
    ensures
        i <= underscore_idx_from(s, i) <= s.len(),
    decreases s.len() - i,
{
    if i < s.len() && s[i] != '_' {
        lemma_underscore_idx_bounds(s, i + 1);
    }
}

/// The part of `s` before its first underscore, as an owned string.
pub fn split_before_underscore(s: &str) -> (r: String)
    ensures
        r@ == before_underscore(s@),
{
    let len = s.unicode_len();
    let mut i: usize = 0;
    let mut out = String::new();
    while i < len
        invariant
            0 <= i <= len,
            len == s@.len(),
            out@ =~= s@.take(i as int),
            underscore_idx(s@) == underscore_idx_from(s@, i as int),
            forall|k: int| 0 <= k < i ==> s@[k] != '_',
        decreases len - i,
    {
        let c = s.get_char(i);
        if c == '_' {
            proof {
                assert(s@[i as int] == '_');
                assert(underscore_idx(s@) == i as int);
            }
            return out;
        }
        out.append(s.substring_char(i, i + 1));
        proof {
            assert(out@ =~= s@.take(i + 1));
        }
        i = i + 1;
    }
    proof {
        lemma_underscore_idx_bounds(s@, len as int);
        assert(underscore_idx(s@) == s@.len());
        assert(out@ =~= s@.take(s@.len() as int));
    }
    out
}

/// The suffix marking an automatic-information broadcast position in the
/// external registry.
pub open spec fn atis_suffix() -> Seq<char> {
    seq!['_', 'A', 'T', 'I', 'S']
}

/// Does the name end in the ATIS suffix?
pub open spec fn has_atis_suffix(s: Seq<char>) -> bool {
    s.len() >= 5 && s.subrange(s.len() - 5, s.len() as int) == atis_suffix()
}

pub fn str_ends_with_atis(s: &str) -> (r: bool)
    ensures
        r == has_atis_suffix(s@),
{
    let len = s.unicode_len();
    if len < 5 {
        return false;
    }
    let c0 = s.get_char(len - 5);
    let c1 = s.get_char(len - 4);
    let c2 = s.get_char(len - 3);
    let c3 = s.get_char(len - 2);
    let c4 = s.get_char(len - 1);
    let r = c0 == '_' && c1 == 'A' && c2 == 'T' && c3 == 'I' && c4 == 'S';
    proof {
        let suf = s@.subrange(s@.len() - 5, s@.len() as int);
        if r {
            assert(suf =~= atis_suffix());
        } else {
            assert(suf != atis_suffix() || suf[0] == '_' && suf[1] == 'A' && suf[2] == 'T' && suf[3]
                == 'I' && suf[4] == 'S');
        }
    }
    r
}

} // verus!
