use bladeink_compiler::ast::SequenceMode;
use bladeink_compiler::error::ErrorKind;
use bladeink_compiler::sequence::{is_sequence_branch_header, looks_like_sequence, parse_sequence_mode};

#[test]
fn every_mode_name_is_read() {
    assert_eq!(parse_sequence_mode("stopping").unwrap(), SequenceMode::Stopping);
    assert_eq!(parse_sequence_mode("once").unwrap(), SequenceMode::Once);
    assert_eq!(parse_sequence_mode("cycle").unwrap(), SequenceMode::Cycle);
    assert_eq!(parse_sequence_mode("shuffle").unwrap(), SequenceMode::Shuffle);
    assert_eq!(parse_sequence_mode("shuffle once").unwrap(), SequenceMode::ShuffleOnce);
    assert_eq!(parse_sequence_mode("stopping shuffle").unwrap(), SequenceMode::ShuffleStopping);
}

#[test]
fn unknown_mode_is_unsupported() {
    let e = parse_sequence_mode("random").unwrap_err();
    assert_eq!(e.kind, ErrorKind::UnsupportedFeature);
    assert_eq!(e.message, "unsupported sequence mode 'random'");
}

#[test]
fn sequence_blocks_are_recognised() {
    assert!(looks_like_sequence("{stopping:"));
    assert!(looks_like_sequence("{ shuffle once :"));
    assert!(!looks_like_sequence("{x:"));
    assert!(!looks_like_sequence("stopping:"));
    assert!(!looks_like_sequence("{stopping"));
}

#[test]
fn branch_headers_are_dashes_but_not_diverts() {
    assert!(is_sequence_branch_header("- a"));
    assert!(is_sequence_branch_header("-"));
    assert!(!is_sequence_branch_header("-> knot"));
    assert!(!is_sequence_branch_header("a"));
}
