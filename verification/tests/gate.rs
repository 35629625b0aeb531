use version_gate::gate::check_version_gate;
use version_gate::gate::Advisory;
use version_gate::gate::GateDecision;
use version_gate::gate::ParsedVersion;
use version_gate::parse::parse_numeric_parts;

fn gate(version: &str, flag: &str) -> GateDecision {
    check_version_gate(version, flag)
}

#[test]
fn advisory_without_free_threading() {
    let d = gate("3.14.0", "");
    assert_eq!(
        d.advisories,
        vec![Advisory::MinimumDependency { major: 3, minor: 14 }]
    );
    assert_eq!(d.fatal, None);
}

#[test]
fn advisory_with_free_threading() {
    let d = gate("3.14.0", "1");
    assert_eq!(
        d.advisories,
        vec![
            Advisory::MinimumDependency { major: 3, minor: 14 },
            Advisory::FreeThreading { major: 3, minor: 14 },
        ]
    );
    assert_eq!(d.fatal, None);
}

#[test]
fn fatal_below_floor() {
    let d = gate("3.8.5", "");
    assert_eq!(d.advisories, vec![]);
    assert_eq!(d.fatal, Some(ParsedVersion { major: 3, minor: 8 }));
}

#[test]
fn empty_version_is_skipped() {
    let d = gate("", "");
    assert_eq!(d.advisories, vec![Advisory::SkippedCheck]);
    assert_eq!(d.fatal, None);
}

#[test]
fn silent_pass_in_supported_range() {
    let d = gate("3.11.2", "");
    assert_eq!(d.advisories, vec![]);
    assert_eq!(d.fatal, None);
}

#[test]
fn boundary_first_accepted_minor() {
    let d = gate("3.9.0", "");
    assert_eq!(d.advisories, vec![]);
    assert_eq!(d.fatal, None);
}

#[test]
fn boundary_last_rejected_minor() {
    let d = gate("3.8", "");
    assert_eq!(d.advisories, vec![]);
    assert_eq!(d.fatal, Some(ParsedVersion { major: 3, minor: 8 }));
}

#[test]
fn old_major_is_fatal() {
    let d = gate("2.7.18", "");
    assert_eq!(d.advisories, vec![]);
    assert_eq!(d.fatal, Some(ParsedVersion { major: 2, minor: 7 }));
}

#[test]
fn newer_major_passes_silently() {
    let d = gate("4.0", "1");
    assert_eq!(d.advisories, vec![]);
    assert_eq!(d.fatal, None);
}

#[test]
fn later_minor_still_advises() {
    let d = gate("3.15.1", "1");
    assert_eq!(
        d.advisories,
        vec![
            Advisory::MinimumDependency { major: 3, minor: 15 },
            Advisory::FreeThreading { major: 3, minor: 15 },
        ]
    );
    assert_eq!(d.fatal, None);
}

#[test]
fn other_flag_values_do_not_count() {
    let d = gate("3.14.0", "0");
    assert_eq!(
        d.advisories,
        vec![Advisory::MinimumDependency { major: 3, minor: 14 }]
    );
    let d = gate("3.14.0", "11");
    assert_eq!(
        d.advisories,
        vec![Advisory::MinimumDependency { major: 3, minor: 14 }]
    );
    let d = gate("3.14.0", "true");
    assert_eq!(
        d.advisories,
        vec![Advisory::MinimumDependency { major: 3, minor: 14 }]
    );
}

#[test]
fn unparsable_version_decides_nothing() {
    let d = gate("a.b", "");
    assert_eq!(d.advisories, vec![]);
    assert_eq!(d.fatal, None);
}

#[test]
fn single_component_decides_nothing() {
    let d = gate("3", "1");
    assert_eq!(d.advisories, vec![]);
    assert_eq!(d.fatal, None);
}

#[test]
fn non_numeric_leading_piece_is_dropped() {
    // The first two pieces that parse decide, wherever they stand.
    let d = gate("a.3.14", "");
    assert_eq!(
        d.advisories,
        vec![Advisory::MinimumDependency { major: 3, minor: 14 }]
    );
    assert_eq!(d.fatal, None);
}

#[test]
fn parse_keeps_numeric_pieces_in_order() {
    assert_eq!(parse_numeric_parts("3.14.2.beta"), vec![3, 14, 2]);
    assert_eq!(parse_numeric_parts("3.9"), vec![3, 9]);
    assert_eq!(parse_numeric_parts("a.b"), vec![]);
    assert_eq!(parse_numeric_parts(""), vec![]);
    assert_eq!(parse_numeric_parts("3"), vec![3]);
}

#[test]
fn parse_drops_empty_pieces() {
    assert_eq!(parse_numeric_parts("3..9"), vec![3, 9]);
    assert_eq!(parse_numeric_parts(".."), vec![]);
    assert_eq!(parse_numeric_parts("3."), vec![3]);
    assert_eq!(parse_numeric_parts(".9"), vec![9]);
}

#[test]
fn parse_accepts_leading_zeros() {
    assert_eq!(parse_numeric_parts("03.009"), vec![3, 9]);
    assert_eq!(parse_numeric_parts("0.0"), vec![0, 0]);
}

#[test]
fn parse_respects_integer_range() {
    assert_eq!(parse_numeric_parts("4294967295.0"), vec![4294967295, 0]);
    assert_eq!(parse_numeric_parts("4294967296.7"), vec![7]);
    assert_eq!(parse_numeric_parts("99999999999999999999.1"), vec![1]);
}

#[test]
fn parse_rejects_mixed_pieces() {
    assert_eq!(parse_numeric_parts("3a.14"), vec![14]);
    assert_eq!(parse_numeric_parts("+3.14"), vec![14]);
    assert_eq!(parse_numeric_parts("-3.14"), vec![14]);
    assert_eq!(parse_numeric_parts("3 .14"), vec![14]);
}
