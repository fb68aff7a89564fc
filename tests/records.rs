use splitfa::args::{parse_length_range, parse_step, ArgError};
use splitfa::emit::{alignment_line, header_line};
use splitfa::placement::{Placer, Segment, SplitConfig, Step, TailPolicy};
use splitfa::record::{
    alignment_for, first_index, label_segments, segment_bases, strand, Numbering, SegmentSpec,
    Strand, MAPPING_QUALITY,
};

#[test]
fn strand_follows_parity() {
    assert_eq!(strand(0), Strand::Forward);
    assert_eq!(strand(1), Strand::Reverse);
    assert_eq!(strand(2), Strand::Forward);
    assert_eq!(strand(7), Strand::Reverse);
    assert_eq!(strand(u64::MAX), Strand::Reverse);
    assert_eq!(Strand::Forward.symbol(), '+');
    assert_eq!(Strand::Reverse.symbol(), '-');
}

#[test]
fn numbering_modes() {
    assert_eq!(first_index(Numbering::PerRecord, 17), 0);
    assert_eq!(first_index(Numbering::Continuous, 17), 17);
}

#[test]
fn name1_of_length_ten() {
    let seq = b"ACGTACGTAC".to_vec();
    let config = SplitConfig::new(4, 4, Step::Fraction { num: 1, den: 1 }, TailPolicy::PadToEnd).unwrap();
    let mut placer = Placer::new(seq.len(), config);
    let mut segs = Vec::new();
    while !placer.done {
        if let Some(s) = placer.next_segment(4) {
            segs.push(s);
        }
    }
    let specs = label_segments(&segs, 0);
    let got: Vec<(usize, usize, Strand)> = specs.iter().map(|s| (s.start, s.end, s.strand)).collect();
    assert_eq!(
        got,
        vec![(0, 4, Strand::Forward), (4, 8, Strand::Reverse), (8, 10, Strand::Forward)]
    );
    let headers: Vec<Vec<u8>> = specs.iter().map(|s| header_line(b"name1", s)).collect();
    assert_eq!(
        headers,
        vec![b">name1!0-4!+".to_vec(), b">name1!4-8!-".to_vec(), b">name1!8-10!+".to_vec()]
    );
    assert_eq!(segment_bases(&seq, &specs[0]), b"ACGT".to_vec());
    assert_eq!(segment_bases(&seq, &specs[1]), b"ACGT".to_vec());
    assert_eq!(segment_bases(&seq, &specs[2]), b"AC".to_vec());
}

#[test]
fn continuous_numbering_shifts_strands() {
    let segs = vec![Segment { start: 0, end: 3 }, Segment { start: 3, end: 6 }];
    let specs = label_segments(&segs, 5);
    assert_eq!(specs[0], SegmentSpec { start: 0, end: 3, strand: Strand::Reverse, index: 5 });
    assert_eq!(specs[1], SegmentSpec { start: 3, end: 6, strand: Strand::Forward, index: 6 });
}

#[test]
fn reverse_segment_bases() {
    let seq = b"GGGaTtaCAGG".to_vec();
    let spec = SegmentSpec { start: 3, end: 9, strand: Strand::Reverse, index: 1 };
    assert_eq!(segment_bases(&seq, &spec), b"TGtaAt".to_vec());
    let spec = SegmentSpec { start: 3, end: 9, strand: Strand::Forward, index: 0 };
    assert_eq!(segment_bases(&seq, &spec), b"aTtaCA".to_vec());
}

#[test]
fn alignment_record_is_exact_match() {
    let spec = SegmentSpec { start: 4, end: 8, strand: Strand::Reverse, index: 1 };
    let a = alignment_for(&spec, 10);
    assert_eq!(a.query_length, 4);
    assert_eq!(a.query_start, 0);
    assert_eq!(a.query_end, 4);
    assert_eq!(a.strand, Strand::Reverse);
    assert_eq!(a.target_length, 10);
    assert_eq!(a.target_start, 4);
    assert_eq!(a.target_end, 8);
    assert_eq!(a.residue_matches, 4);
    assert_eq!(a.block_length, 4);
    assert_eq!(a.mapping_quality, MAPPING_QUALITY);
    assert_eq!(a.mapping_quality, 60);
    assert_eq!(a.match_run, 4);
    let line = alignment_line(b"name1", &spec, &a);
    assert_eq!(
        String::from_utf8(line).unwrap(),
        "name1!4-8!-\t4\t0\t4\t-\tname1\t10\t4\t8\t4\t4\t60\tNM:i:0\tcg:Z:4="
    );
}

#[test]
fn alignment_line_of_padded_tail() {
    let spec = SegmentSpec { start: 8, end: 10, strand: Strand::Forward, index: 2 };
    let a = alignment_for(&spec, 10);
    let line = alignment_line(b"chr12", &spec, &a);
    assert_eq!(
        String::from_utf8(line).unwrap(),
        "chr12!8-10!+\t2\t0\t2\t+\tchr12\t10\t8\t10\t2\t2\t60\tNM:i:0\tcg:Z:2="
    );
}

#[test]
fn header_with_large_numbers() {
    let spec = SegmentSpec { start: 1234567, end: 10000000, strand: Strand::Forward, index: 0 };
    assert_eq!(header_line(b"s", &spec), b">s!1234567-10000000!+".to_vec());
}

#[test]
fn length_range_parsing() {
    assert_eq!(parse_length_range(b"4-10"), Ok((4, 10)));
    assert_eq!(parse_length_range(b"1000-50000"), Ok((1000, 50000)));
    assert_eq!(parse_length_range(b"10-4"), Err(ArgError::EmptyRange));
    assert_eq!(parse_length_range(b"4-4"), Err(ArgError::EmptyRange));
    assert_eq!(parse_length_range(b"4"), Err(ArgError::Malformed));
    assert_eq!(parse_length_range(b"-4"), Err(ArgError::Malformed));
    assert_eq!(parse_length_range(b"4-"), Err(ArgError::Malformed));
    assert_eq!(parse_length_range(b"a-4"), Err(ArgError::Malformed));
    assert_eq!(parse_length_range(b"4-10-12"), Err(ArgError::Malformed));
    assert_eq!(parse_length_range(b"99999999999999999999999-1"), Err(ArgError::Malformed));
}

#[test]
fn step_parsing() {
    assert_eq!(parse_step(b"0.5"), Ok(Step::Fraction { num: 5, den: 10 }));
    assert_eq!(parse_step(b"1"), Ok(Step::Fraction { num: 1, den: 1 }));
    assert_eq!(parse_step(b"1.0"), Ok(Step::Fraction { num: 10, den: 10 }));
    assert_eq!(parse_step(b"2.25"), Ok(Step::Fraction { num: 225, den: 100 }));
    assert_eq!(parse_step(b"0.123456789"), Ok(Step::Fraction { num: 123456789, den: 1000000000 }));
    assert_eq!(parse_step(b"0.1234567891"), Err(ArgError::Malformed));
    assert_eq!(parse_step(b"x"), Err(ArgError::Malformed));
    assert_eq!(parse_step(b""), Err(ArgError::Malformed));
    assert_eq!(parse_step(b".5"), Err(ArgError::Malformed));
    assert_eq!(parse_step(b"1."), Err(ArgError::Malformed));
    assert_eq!(parse_step(b"1.2.3"), Err(ArgError::Malformed));
    assert_eq!(parse_step(b"5000000000"), Err(ArgError::Malformed));
    assert_eq!(parse_step(b"5.000000000"), Err(ArgError::Malformed));
}
