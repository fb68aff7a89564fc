//! Complement of single nucleotide symbols and reverse complement of sequences.

use vstd::prelude::*;

verus! {

pub const UPPER_A: u8 = 65;
pub const UPPER_C: u8 = 67;
pub const UPPER_G: u8 = 71;
pub const UPPER_T: u8 = 84;
pub const UPPER_U: u8 = 85;
pub const UPPER_N: u8 = 78;
pub const UPPER_Z: u8 = 90;
pub const LOWER_A: u8 = 97;
pub const LOWER_C: u8 = 99;
pub const LOWER_G: u8 = 103;
pub const LOWER_T: u8 = 116;
pub const LOWER_U: u8 = 117;
pub const LOWER_Z: u8 = 122;

/// The complement of one symbol: `A`/`C`/`G`/`T`/`U` in either case map to their
/// DNA partner in the same case; every other symbol maps to uppercase `N`.
pub open spec fn complement_of(a: u8) -> u8 {
    if a == LOWER_A {
        LOWER_T
    } else if a == LOWER_C {
        LOWER_G
    } else if a == LOWER_T {
        LOWER_A
    } else if a == LOWER_G {
        LOWER_C
    } else if a == LOWER_U {
        LOWER_A
    } else if a == UPPER_A {
        UPPER_T
    } else if a == UPPER_C {
        UPPER_G
    } else if a == UPPER_T {
        UPPER_A
    } else if a == UPPER_G {
        UPPER_C
    } else if a == UPPER_U {
        UPPER_A
    } else {
        UPPER_N
    }
}

/// The reverse complement: position `i` holds the complement of position `len - 1 - i`.
pub open spec fn revcomp_of(s: Seq<u8>) -> Seq<u8> {
    Seq::new(s.len(), |i: int| complement_of(s[s.len() - 1 - i]))
}

/// One of the four DNA bases, in either case.
pub open spec fn is_acgt(a: u8) -> bool {
    a == UPPER_A || a == UPPER_C || a == UPPER_G || a == UPPER_T || a == LOWER_A || a == LOWER_C || a == LOWER_G
        || a == LOWER_T
}

/// A symbol that the complement table knows: `A`, `C`, `G`, `T`, `U` in either case.
pub open spec fn is_known(a: u8) -> bool {
    is_acgt(a) || a == UPPER_U || a == LOWER_U
}

pub open spec fn is_lower(a: u8) -> bool {
    LOWER_A <= a && a <= LOWER_Z
}

pub open spec fn is_upper(a: u8) -> bool {
    UPPER_A <= a && a <= UPPER_Z
}

/// Complement of one nucleotide symbol, case preserved; unknown symbols give `N`.
pub fn complement(a: u8) -> (r: u8)
    ensures
        r == complement_of(a),
{
    if a == LOWER_A {
        LOWER_T
    } else if a == LOWER_C {
        LOWER_G
    } else if a == LOWER_T {
        LOWER_A
    } else if a == LOWER_G {
        LOWER_C
    } else if a == LOWER_U {
        LOWER_A
    } else if a == UPPER_A {
        UPPER_T
    } else if a == UPPER_C {
        UPPER_G
    } else if a == UPPER_T {
        UPPER_A
    } else if a == UPPER_G {
        UPPER_C
    } else if a == UPPER_U {
        UPPER_A
    } else {
        UPPER_N
    }
}

/// Reverse complement of `text`.
pub fn revcomp(text: &[u8]) -> (r: Vec<u8>)
    ensures
        r@ == revcomp_of(text@),
{
    let n = text.len();
    let mut r: Vec<u8> = Vec::with_capacity(n);
    let mut i: usize = 0;
    while i < n
        invariant
            n == text@.len(),
            i <= n,
            r@.len() == i,
            forall|k: int| 0 <= k < i ==> r@[k] == complement_of(text@[n - 1 - k]),
        decreases n - i,
    {
        r.push(complement(text[n - 1 - i]));
        i = i + 1;
    }
    assert(r@ =~= revcomp_of(text@));
    r
}

/// Complementing twice gives back any of the four DNA bases.
pub proof fn lemma_complement_involutive(a: u8)
    requires
        is_acgt(a),
    ensures
        complement_of(complement_of(a)) == a,
{
}

/// On sequences over `A`, `C`, `G`, `T` (either case), the reverse complement
/// is its own inverse.
pub proof fn lemma_revcomp_involutive(s: Seq<u8>)
    requires
        forall|i: int| 0 <= i < s.len() ==> is_acgt(#[trigger] s[i]),
    ensures
        revcomp_of(revcomp_of(s)) == s,
{
    let t = revcomp_of(s);
    assert forall|i: int| 0 <= i < s.len() implies revcomp_of(t)[i] == s[i] by {
        lemma_complement_involutive(s[i]);
    }
    assert(revcomp_of(t) =~= s);
}

/// The complement of a known symbol keeps its case: lowercase stays lowercase,
/// uppercase stays uppercase.
pub proof fn lemma_complement_keeps_case(a: u8)
    requires
        is_known(a),
    ensures
        is_lower(a) ==> is_lower(complement_of(a)),
        is_upper(a) ==> is_upper(complement_of(a)),
{
}

} // verus!
