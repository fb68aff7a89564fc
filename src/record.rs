//! Strand choice, numbering, the bases of each segment, and the exact-match
//! alignment record that says where a segment came from.

use crate::nucleotide::{revcomp, revcomp_of};
use crate::placement::Segment;
use vstd::prelude::*;

verus! {

/// The mapping quality given to every synthesized alignment.
pub const MAPPING_QUALITY: u8 = 60;

/// Orientation of an emitted segment.
#[derive(Clone, Copy, Debug, PartialEq, Eq, Structural)]
pub enum Strand {
    Forward,
    Reverse,
}

/// Whether segment numbers restart at zero for each sequence or run on across them.
#[derive(Clone, Copy, Debug, PartialEq, Eq, Structural)]
pub enum Numbering {
    PerRecord,
    Continuous,
}

/// A placed segment with its number and strand.
#[derive(Clone, Copy, Debug, PartialEq, Eq, Structural)]
pub struct SegmentSpec {
    pub start: usize,
    pub end: usize,
    pub strand: Strand,
    pub index: u64,
}

/// A gap-free alignment of a whole segment against its source sequence.
#[derive(Clone, Copy, Debug, PartialEq, Eq, Structural)]
pub struct AlignmentRecord {
    pub query_length: usize,
    pub query_start: usize,
    pub query_end: usize,
    pub strand: Strand,
    pub target_length: usize,
    pub target_start: usize,
    pub target_end: usize,
    pub residue_matches: usize,
    pub block_length: usize,
    pub mapping_quality: u8,
    /// Length of the single match operation that covers the segment.
    pub match_run: usize,
}

pub open spec fn strand_of(index: int) -> Strand {
    if index % 2 == 0 {
        Strand::Forward
    } else {
        Strand::Reverse
    }
}

impl Strand {
    /// `+` for forward, `-` for reverse.
    pub fn symbol(&self) -> (r: char)
        ensures
            r == (if *self == Strand::Forward {
                '+'
            } else {
                '-'
            }),
    {
        match self {
            Strand::Forward => '+',
            Strand::Reverse => '-',
        }
    }
}

/// Forward for even numbers, reverse for odd ones.
pub fn strand(index: u64) -> (r: Strand)
    ensures
        r == strand_of(index as int),
{
    if index % 2 == 0 {
        Strand::Forward
    } else {
        Strand::Reverse
    }
}

/// Strands alternate: segment zero is forward, and each number has the other
/// strand than the one before it.
pub proof fn lemma_strand_alternates(index: int)
    ensures
        strand_of(0) == Strand::Forward,
        strand_of(index + 1) != strand_of(index as int),
{
}

/// The number of the first segment of a sequence, given how many segments the
/// sequences before it produced.
pub fn first_index(numbering: Numbering, emitted_before: u64) -> (r: u64)
    ensures
        r == match numbering {
            Numbering::PerRecord => 0,
            Numbering::Continuous => emitted_before,
        },
{
    match numbering {
        Numbering::PerRecord => 0,
        Numbering::Continuous => emitted_before,
    }
}

/// Numbers the segments of one sequence from `first` on and gives each its strand.
pub fn label_segments(segs: &Vec<Segment>, first: u64) -> (r: Vec<SegmentSpec>)
    requires
        first + segs@.len() <= u64::MAX,
    ensures
        r@.len() == segs@.len(),
        forall|i: int|
            0 <= i < segs@.len() ==> #[trigger] r@[i] == (SegmentSpec {
                start: segs@[i].start,
                end: segs@[i].end,
                strand: strand_of(first + i),
                index: (first + i) as u64,
            }),
{
    let mut r: Vec<SegmentSpec> = Vec::with_capacity(segs.len());
    let mut i: usize = 0;
    while i < segs.len()
        invariant
            i <= segs@.len(),
            first + segs@.len() <= u64::MAX,
            r@.len() == i,
            forall|k: int|
                0 <= k < i ==> #[trigger] r@[k] == (SegmentSpec {
                    start: segs@[k].start,
                    end: segs@[k].end,
                    strand: strand_of(first + k),
                    index: (first + k) as u64,
                }),
        decreases segs@.len() - i,
    {
        let index = first + i as u64;
        let seg = segs[i];
        r.push(SegmentSpec { start: seg.start, end: seg.end, strand: strand(index), index });
        i = i + 1;
    }
    r
}

/// What a segment reads as: the source span itself on the forward strand, its
/// reverse complement on the reverse strand.
pub open spec fn bases_of(seq: Seq<u8>, spec: SegmentSpec) -> Seq<u8> {
    let span = seq.subrange(spec.start as int, spec.end as int);
    match spec.strand {
        Strand::Forward => span,
        Strand::Reverse => revcomp_of(span),
    }
}

/// The bases emitted for a segment of `seq`.
pub fn segment_bases(seq: &[u8], spec: &SegmentSpec) -> (r: Vec<u8>)
    requires
        spec.start <= spec.end <= seq@.len(),
    ensures
        r@ == bases_of(seq@, *spec),
{
    let mut span: Vec<u8> = Vec::with_capacity(spec.end - spec.start);
    let mut i: usize = spec.start;
    while i < spec.end
        invariant
            spec.start <= i <= spec.end <= seq@.len(),
            span@ == seq@.subrange(spec.start as int, i as int),
        decreases spec.end - i,
    {
        span.push(seq[i]);
        i = i + 1;
        assert(span@ =~= seq@.subrange(spec.start as int, i as int));
    }
    match spec.strand {
        Strand::Forward => span,
        Strand::Reverse => revcomp(span.as_slice()),
    }
}

/// The alignment record of a segment of a sequence of length `target_length`:
/// the whole segment matches the span it was cut from, without gaps or mismatches.
pub open spec fn alignment_of(spec: SegmentSpec, target_length: usize) -> AlignmentRecord {
    let len = (spec.end - spec.start) as usize;
    AlignmentRecord {
        query_length: len,
        query_start: 0,
        query_end: len,
        strand: spec.strand,
        target_length,
        target_start: spec.start,
        target_end: spec.end,
        residue_matches: len,
        block_length: len,
        mapping_quality: MAPPING_QUALITY,
        match_run: len,
    }
}

/// Builds the exact-match alignment record of one segment.
pub fn alignment_for(spec: &SegmentSpec, target_length: usize) -> (r: AlignmentRecord)
    requires
        spec.start <= spec.end <= target_length,
    ensures
        r == alignment_of(*spec, target_length),
{
    let len = spec.end - spec.start;
    AlignmentRecord {
        query_length: len,
        query_start: 0,
        query_end: len,
        strand: spec.strand,
        target_length,
        target_start: spec.start,
        target_end: spec.end,
        residue_matches: len,
        block_length: len,
        mapping_quality: MAPPING_QUALITY,
        match_run: len,
    }
}

} // verus!
