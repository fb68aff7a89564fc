use splitfa::nucleotide::{complement, revcomp};

#[test]
fn complement_keeps_case() {
    assert_eq!(complement(b'a'), b't');
    assert_eq!(complement(b'A'), b'T');
    assert_eq!(complement(b'c'), b'g');
    assert_eq!(complement(b'G'), b'C');
    assert_eq!(complement(b'u'), b'a');
    assert_eq!(complement(b'U'), b'A');
}

#[test]
fn complement_unknown_is_n() {
    assert_eq!(complement(b'N'), b'N');
    assert_eq!(complement(b'n'), b'N');
    assert_eq!(complement(b'Y'), b'N');
    assert_eq!(complement(b'-'), b'N');
}

#[test]
fn revcomp_examples() {
    assert_eq!(revcomp(b"ACGTN"), b"NACGT".to_vec());
    assert_eq!(revcomp(b"GaTtaCA"), b"TGtaAtC".to_vec());
}

#[test]
fn revcomp_ambiguity_codes_collapse() {
    assert_eq!(revcomp(b"AGCTYRWSKMDVHBN"), b"NNNNNNNNNNNAGCT".to_vec());
    assert_ne!(revcomp(&revcomp(b"ACGTY")), b"ACGTY".to_vec());
}

#[test]
fn revcomp_empty() {
    assert_eq!(revcomp(b""), Vec::<u8>::new());
}

#[test]
fn revcomp_twice_restores_acgt() {
    let s = b"ACGTacgtGGcaTT";
    assert_eq!(revcomp(&revcomp(s)), s.to_vec());
}
