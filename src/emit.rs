//! Text of the emitted records: the segment header and the tab-separated
//! alignment line, as bytes.

use crate::record::{AlignmentRecord, SegmentSpec, Strand};
use vstd::prelude::*;

verus! {

pub const DIGIT_ZERO: u8 = 48;
pub const TAB: u8 = 9;
pub const BANG: u8 = 33;
pub const PLUS: u8 = 43;
pub const MINUS: u8 = 45;
pub const COLON: u8 = 58;
pub const EQUALS: u8 = 61;
pub const GREATER: u8 = 62;

/// Decimal digits of `n`, most significant first, without leading zeros.
pub open spec fn decimal_of(n: nat) -> Seq<u8>
    decreases n,
{
    if n < 10 {
        seq![(DIGIT_ZERO + n) as u8]
    } else {
        decimal_of(n / 10).push((DIGIT_ZERO + n % 10) as u8)
    }
}

pub open spec fn strand_byte(s: Strand) -> u8 {
    match s {
        Strand::Forward => PLUS,
        Strand::Reverse => MINUS,
    }
}

/// `name!start-end!strand`: the label of a segment of sequence `name`.
pub open spec fn label_of(name: Seq<u8>, spec: SegmentSpec) -> Seq<u8> {
    ((((name.push(BANG) + decimal_of(spec.start as nat)).push(MINUS) + decimal_of(
        spec.end as nat,
    )).push(BANG)).push(strand_byte(spec.strand)))
}

/// `>` followed by the label.
pub open spec fn header_of(name: Seq<u8>, spec: SegmentSpec) -> Seq<u8> {
    seq![GREATER] + label_of(name, spec)
}

/// `text` followed by a tab and the decimal digits of `n`.
pub open spec fn then_number(text: Seq<u8>, n: nat) -> Seq<u8> {
    text.push(TAB) + decimal_of(n)
}

/// The two tags that end an alignment line: no mismatches, and one match
/// operation of length `run`: `\tNM:i:0\tcg:Z:<run>=`.
pub open spec fn tags_of(text: Seq<u8>, run: nat) -> Seq<u8> {
    (text + seq![TAB, 78u8, 77u8, COLON, 105u8, COLON, DIGIT_ZERO, TAB, 99u8, 103u8, COLON, 90u8, COLON]
        + decimal_of(run)).push(EQUALS)
}

/// The alignment line: query label, length, start, end, strand, target name,
/// length, start, end, matches, block length, mapping quality, then the tags.
pub open spec fn alignment_line_of(name: Seq<u8>, spec: SegmentSpec, a: AlignmentRecord) -> Seq<u8> {
    let q = then_number(
        then_number(then_number(label_of(name, spec), a.query_length as nat), a.query_start as nat),
        a.query_end as nat,
    );
    let t = then_number(
        then_number(then_number(q.push(TAB).push(strand_byte(a.strand)).push(TAB) + name, a.target_length as nat), a.target_start as nat),
        a.target_end as nat,
    );
    let m = then_number(
        then_number(then_number(t, a.residue_matches as nat), a.block_length as nat),
        a.mapping_quality as nat,
    );
    tags_of(m, a.match_run as nat)
}

/// Appends the decimal digits of `n`.
pub fn push_decimal(out: &mut Vec<u8>, n: usize)
    ensures
        final(out)@ == old(out)@ + decimal_of(n as nat),
    decreases n,
{
    if n >= 10 {
        push_decimal(out, n / 10);
    }
    let d: u8 = (n % 10) as u8;
    out.push(DIGIT_ZERO + d);
    assert(final(out)@ =~= old(out)@ + decimal_of(n as nat));
}

/// Appends all of `bytes`.
pub fn push_all(out: &mut Vec<u8>, bytes: &[u8])
    ensures
        final(out)@ == old(out)@ + bytes@,
{
    let mut i: usize = 0;
    while i < bytes.len()
        invariant
            i <= bytes@.len(),
            out@ == old(out)@ + bytes@.subrange(0, i as int),
        decreases bytes@.len() - i,
    {
        out.push(bytes[i]);
        i = i + 1;
        assert(out@ =~= old(out)@ + bytes@.subrange(0, i as int));
    }
    assert(bytes@.subrange(0, i as int) =~= bytes@);
}

fn push_number(out: &mut Vec<u8>, n: usize)
    ensures
        final(out)@ == then_number(old(out)@, n as nat),
{
    out.push(TAB);
    push_decimal(out, n);
}

fn push_strand(out: &mut Vec<u8>, s: Strand)
    ensures
        final(out)@ == old(out)@.push(strand_byte(s)),
{
    match s {
        Strand::Forward => out.push(PLUS),
        Strand::Reverse => out.push(MINUS),
    }
}

fn push_label(out: &mut Vec<u8>, name: &[u8], spec: &SegmentSpec)
    ensures
        final(out)@ == old(out)@ + label_of(name@, *spec),
{
    let ghost start = out@;
    push_all(out, name);
    out.push(BANG);
    push_decimal(out, spec.start);
    out.push(MINUS);
    push_decimal(out, spec.end);
    out.push(BANG);
    push_strand(out, spec.strand);
    assert(out@ =~= start + label_of(name@, *spec));
}

/// The header line of a segment, without the line break.
pub fn header_line(name: &[u8], spec: &SegmentSpec) -> (r: Vec<u8>)
    ensures
        r@ == header_of(name@, *spec),
{
    let mut out: Vec<u8> = Vec::new();
    out.push(GREATER);
    push_label(&mut out, name, spec);
    assert(out@ =~= header_of(name@, *spec));
    out
}

/// The tab-separated alignment line of a segment, without the line break.
pub fn alignment_line(name: &[u8], spec: &SegmentSpec, a: &AlignmentRecord) -> (r: Vec<u8>)
    ensures
        r@ == alignment_line_of(name@, *spec, *a),
{
    let mut out: Vec<u8> = Vec::new();
    push_label(&mut out, name, spec);
    assert(out@ =~= label_of(name@, *spec));
    push_number(&mut out, a.query_length);
    push_number(&mut out, a.query_start);
    push_number(&mut out, a.query_end);
    out.push(TAB);
    push_strand(&mut out, a.strand);
    out.push(TAB);
    push_all(&mut out, name);
    push_number(&mut out, a.target_length);
    push_number(&mut out, a.target_start);
    push_number(&mut out, a.target_end);
    push_number(&mut out, a.residue_matches);
    push_number(&mut out, a.block_length);
    push_number(&mut out, a.mapping_quality as usize);
    let ghost before_tags = out@;
    out.push(TAB);
    out.push(78);
    out.push(77);
    out.push(COLON);
    out.push(105);
    out.push(COLON);
    out.push(DIGIT_ZERO);
    out.push(TAB);
    out.push(99);
    out.push(103);
    out.push(COLON);
    out.push(90);
    out.push(COLON);
    assert(out@ =~= before_tags + seq![TAB, 78u8, 77u8, COLON, 105u8, COLON, DIGIT_ZERO, TAB, 99u8, 103u8, COLON, 90u8, COLON]);
    push_decimal(&mut out, a.match_run);
    out.push(EQUALS);
    out
}

} // verus!
