//! The version gate: a fixed rule table over the parsed components.
//!
//! Outcomes are exactly one of: a skip notice (no version to check), a
//! silent no-decision (fewer than two numeric components), one or two
//! advisories (version 3.14 or later), a fatal rejection (before 3.9),
//! or a silent pass. Emitting the messages and stopping the build are the
//! caller's business; this module only decides.

use vstd::prelude::*;
use crate::parse::numeric_parts;
use crate::parse::parse_numeric_parts;
use crate::parse::vals_of;

verus! {

/// A version reduced to its two leading numeric components.
#[derive(Clone, Copy, Debug, PartialEq, Eq, Structural)]
pub struct ParsedVersion {
    pub major: u32,
    pub minor: u32,
}

/// One advisory line for the build log.
#[derive(Clone, Copy, Debug, PartialEq, Eq, Structural)]
pub enum Advisory {
    /// The version source was absent or empty, so the check was skipped.
    SkippedCheck,
    /// The interpreter is new enough that a minimum binding-crate version
    /// is recommended for stable-interface support.
    MinimumDependency { major: u32, minor: u32 },
    /// A free-threaded interpreter was detected; the stable-interface
    /// build feature must be disabled.
    FreeThreading { major: u32, minor: u32 },
}

/// A complete decision: the advisories to emit, in order, and whether
/// the build must stop, with the offending version.
pub struct GateDecision {
    pub advisories: Vec<Advisory>,
    pub fatal: Option<ParsedVersion>,
}

/// Versions before 3.9 are rejected.
pub open spec fn version_too_old(major: nat, minor: nat) -> bool {
    major < 3 || (major == 3 && minor < 9)
}

/// Versions 3.14 and later warrant an advisory.
pub open spec fn version_needs_advisory(major: nat, minor: nat) -> bool {
    major == 3 && minor >= 14
}

/// The free-threading indicator counts only when it is exactly `"1"`.
pub open spec fn free_threading_on(flag: Seq<char>) -> bool {
    flag == seq!['1']
}

/// The fatal outcome: the version detected, when at least two numeric
/// components were parsed and they fall below the floor.
pub open spec fn spec_fatal(version: Seq<char>) -> Option<ParsedVersion> {
    let parts = numeric_parts(version);
    if parts.len() >= 2 && version_too_old(parts[0], parts[1]) {
        Some(ParsedVersion { major: parts[0] as u32, minor: parts[1] as u32 })
    } else {
        None
    }
}

/// The advisories, in emission order: a skip notice for an empty version;
/// nothing when fewer than two components parse; for 3.14 and later the
/// dependency advisory, followed by the free-threading advisory when the
/// indicator is set.
pub open spec fn spec_advisories(version: Seq<char>, flag: Seq<char>) -> Seq<Advisory> {
    if version.len() == 0 {
        seq![Advisory::SkippedCheck]
    } else {
        let parts = numeric_parts(version);
        if parts.len() < 2 {
            Seq::<Advisory>::empty()
        } else if version_needs_advisory(parts[0], parts[1]) {
            let first = Advisory::MinimumDependency {
                major: parts[0] as u32,
                minor: parts[1] as u32,
            };
            if free_threading_on(flag) {
                seq![
                    first,
                    Advisory::FreeThreading { major: parts[0] as u32, minor: parts[1] as u32 },
                ]
            } else {
                seq![first]
            }
        } else {
            Seq::<Advisory>::empty()
        }
    }
}

/// An absent or empty version string decides nothing: no fatal outcome
/// and no version advisory, only the skip notice.
pub proof fn lemma_missing_version_is_noop(flag: Seq<char>)
    ensures
        spec_fatal(Seq::<char>::empty()) == None::<ParsedVersion>,
        spec_advisories(Seq::<char>::empty(), flag) == seq![Advisory::SkippedCheck],
{
    crate::parse::lemma_empty_has_no_parts(Seq::<char>::empty());
}

/// The build is stopped exactly for versions below the 3.9 floor, never
/// otherwise; 3.8 is the last rejected version and 3.9 the first accepted.
pub proof fn lemma_fatal_exactly_below_floor(version: Seq<char>)
    requires
        numeric_parts(version).len() >= 2,
    ensures
        (spec_fatal(version) is Some) <==> version_too_old(
            numeric_parts(version)[0],
            numeric_parts(version)[1],
        ),
        spec_fatal(version) is Some ==> spec_fatal(version) == Some(
            (ParsedVersion {
                major: numeric_parts(version)[0] as u32,
                minor: numeric_parts(version)[1] as u32,
            }),
        ),
        version_too_old(3, 8),
        !version_too_old(3, 9),
{
}

/// Versions 3.14 and later get exactly one dependency advisory, followed
/// by the free-threading advisory exactly when the indicator is `"1"`;
/// accepted versions below 3.14 get none.
pub proof fn lemma_advisories_exactly_at_threshold(version: Seq<char>, flag: Seq<char>)
    requires
        version.len() > 0,
        numeric_parts(version).len() >= 2,
    ensures
        ({
            let major = numeric_parts(version)[0];
            let minor = numeric_parts(version)[1];
            let dependency = (Advisory::MinimumDependency {
                major: major as u32,
                minor: minor as u32,
            });
            let threading = (Advisory::FreeThreading { major: major as u32, minor: minor as u32 });
            &&& version_needs_advisory(major, minor) && free_threading_on(flag)
                ==> spec_advisories(version, flag) == seq![dependency, threading]
            &&& version_needs_advisory(major, minor) && !free_threading_on(flag)
                ==> spec_advisories(version, flag) == seq![dependency]
            &&& !version_needs_advisory(major, minor) ==> spec_advisories(version, flag)
                == Seq::<Advisory>::empty()
        }),
{
}

/// A fatal outcome and advisories never coincide: a rejected version lies
/// below 3.9 and an advised one at or above 3.14.
pub proof fn lemma_fatal_excludes_advisories(version: Seq<char>, flag: Seq<char>)
    requires
        version.len() > 0,
    ensures
        spec_fatal(version) is Some ==> spec_advisories(version, flag)
            == Seq::<Advisory>::empty(),
{
}

/// Whether the free-threading indicator is exactly `"1"`.
pub fn is_free_threading_flag(flag: &str) -> (r: bool)
    ensures
        r == free_threading_on(flag@),
{
    let n = flag.unicode_len();
    if n == 1 {
        let r = flag.get_char(0) == '1';
        proof {
            if r {
                assert(flag@ =~= seq!['1']);
            }
        }
        r
    } else {
        false
    }
}

/// Runs the whole gate on the version string and the free-threading
/// indicator, both as found in the environment (empty when absent).
pub fn check_version_gate(version: &str, free_threading: &str) -> (r: GateDecision)
    ensures
        r.advisories@ == spec_advisories(version@, free_threading@),
        r.fatal == spec_fatal(version@),
{
    let ghost parts_spec = numeric_parts(version@);
    if version.unicode_len() == 0 {
        let advisories: Vec<Advisory> = vec![Advisory::SkippedCheck];
        proof {
            crate::parse::lemma_empty_has_no_parts(version@);
            assert(advisories@ =~= seq![Advisory::SkippedCheck]);
        }
        return GateDecision { advisories, fatal: None };
    }
    let parts = parse_numeric_parts(version);
    proof {
        assert(parts@.len() == parts_spec.len());
    }
    if parts.len() < 2 {
        let advisories: Vec<Advisory> = Vec::new();
        proof {
            assert(advisories@ =~= Seq::<Advisory>::empty());
        }
        return GateDecision { advisories, fatal: None };
    }
    let major = parts[0];
    let minor = parts[1];
    proof {
        assert(vals_of(parts@)[0] == major as nat);
        assert(vals_of(parts@)[1] == minor as nat);
    }
    let mut advisories: Vec<Advisory> = Vec::new();
    if major == 3 && minor >= 14 {
        advisories.push(Advisory::MinimumDependency { major, minor });
        if is_free_threading_flag(free_threading) {
            advisories.push(Advisory::FreeThreading { major, minor });
        }
    }
    proof {
        assert(advisories@ =~= spec_advisories(version@, free_threading@));
    }
    let fatal = if major < 3 || (major == 3 && minor < 9) {
        Some(ParsedVersion { major, minor })
    } else {
        None
    };
    GateDecision { advisories, fatal }
}

} // verus!
