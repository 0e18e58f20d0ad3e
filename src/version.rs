//! Interface versions and their order.

use vstd::prelude::*;

use core::cmp::Ordering;

use crate::path::flip;

verus! {

/// The version of an interface: major, minor and patch numbers.
#[derive(Clone, Copy, PartialEq, Eq, Structural, Debug, Ord)]
pub struct Version {
    major: usize,
    minor: usize,
    patch: usize,
}

/// How two numbers compare.
pub open spec fn cmp_nums(a: usize, b: usize) -> Ordering {
    if a < b {
        Ordering::Less
    } else if a > b {
        Ordering::Greater
    } else {
        Ordering::Equal
    }
}

impl Version {
    pub closed spec fn spec_major(&self) -> usize {
        self.major
    }

    pub closed spec fn spec_minor(&self) -> usize {
        self.minor
    }

    pub closed spec fn spec_patch(&self) -> usize {
        self.patch
    }

    pub closed spec fn spec_new(major: usize, minor: usize, patch: usize) -> Version {
        Version { major, minor, patch }
    }

    /// The numbers of the version built from `major`, `minor` and `patch`.
    pub broadcast proof fn lemma_spec_new(major: usize, minor: usize, patch: usize)
        ensures
            #[trigger] Version::spec_new(major, minor, patch).spec_major() == major,
            Version::spec_new(major, minor, patch).spec_minor() == minor,
            Version::spec_new(major, minor, patch).spec_patch() == patch,
    {
    }

    /// Versions order by major number, then minor, then patch.
    pub open spec fn spec_cmp(&self, other: &Version) -> Ordering {
        if self.spec_major() != other.spec_major() {
            cmp_nums(self.spec_major(), other.spec_major())
        } else if self.spec_minor() != other.spec_minor() {
            cmp_nums(self.spec_minor(), other.spec_minor())
        } else {
            cmp_nums(self.spec_patch(), other.spec_patch())
        }
    }

    /// Comparing versions the other way round flips the result, and only
    /// equal versions compare equal.
    pub proof fn lemma_cmp_flip(a: Version, b: Version)
        ensures
            b.spec_cmp(&a) == flip(a.spec_cmp(&b)),
            a.spec_cmp(&b) == Ordering::Equal <==> a == b,
    {
    }

    /// The order on versions is transitive.
    pub proof fn lemma_cmp_trans(a: Version, b: Version, c: Version)
        requires
            a.spec_cmp(&b) == Ordering::Less,
            b.spec_cmp(&c) == Ordering::Less,
        ensures
            a.spec_cmp(&c) == Ordering::Less,
    {
    }

    /// The version `major.minor.patch`.
    pub fn new(major: usize, minor: usize, patch: usize) -> (r: Version)
        ensures
            r == Version::spec_new(major, minor, patch),
            r.spec_major() == major,
            r.spec_minor() == minor,
            r.spec_patch() == patch,
    {
        Version { major, minor, patch }
    }

    #[verifier::when_used_as_spec(spec_major)]
    pub fn major(&self) -> (r: usize)
        ensures
            r == self.spec_major(),
    {
        self.major
    }

    #[verifier::when_used_as_spec(spec_minor)]
    pub fn minor(&self) -> (r: usize)
        ensures
            r == self.spec_minor(),
    {
        self.minor
    }

    #[verifier::when_used_as_spec(spec_patch)]
    pub fn patch(&self) -> (r: usize)
        ensures
            r == self.spec_patch(),
    {
        self.patch
    }
}

fn compare_nums(a: usize, b: usize) -> (r: Ordering)
    ensures
        r == cmp_nums(a, b),
{
    if a < b {
        Ordering::Less
    } else if a > b {
        Ordering::Greater
    } else {
        Ordering::Equal
    }
}

impl PartialOrd for Version {
    fn partial_cmp(&self, other: &Version) -> (r: Option<Ordering>) {
        if self.major != other.major {
            Some(compare_nums(self.major, other.major))
        } else if self.minor != other.minor {
            Some(compare_nums(self.minor, other.minor))
        } else {
            Some(compare_nums(self.patch, other.patch))
        }
    }
}

impl vstd::std_specs::cmp::PartialOrdSpecImpl for Version {
    open spec fn obeys_partial_cmp_spec() -> bool {
        true
    }

    open spec fn partial_cmp_spec(&self, other: &Version) -> Option<Ordering> {
        Some(self.spec_cmp(other))
    }
}

impl Default for Version {
    /// Version `0.0.0`.
    fn default() -> (r: Version)
        ensures
            r.spec_major() == 0 && r.spec_minor() == 0 && r.spec_patch() == 0,
    {
        Version::new(0, 0, 0)
    }
}

impl From<(usize, usize, usize)> for Version {
    fn from(parts: (usize, usize, usize)) -> (r: Version)
        ensures
            r.spec_major() == parts.0,
            r.spec_minor() == parts.1,
            r.spec_patch() == parts.2,
    {
        Version::new(parts.0, parts.1, parts.2)
    }
}

impl vstd::std_specs::convert::FromSpecImpl<(usize, usize, usize)> for Version {
    open spec fn obeys_from_spec() -> bool {
        true
    }

    open spec fn from_spec(parts: (usize, usize, usize)) -> Version {
        Version::spec_new(parts.0, parts.1, parts.2)
    }
}

impl From<Version> for (usize, usize, usize) {
    fn from(v: Version) -> (r: (usize, usize, usize))
        ensures
            r == (v.spec_major(), v.spec_minor(), v.spec_patch()),
    {
        (v.major, v.minor, v.patch)
    }
}

impl vstd::std_specs::convert::FromSpecImpl<Version> for (usize, usize, usize) {
    open spec fn obeys_from_spec() -> bool {
        true
    }

    open spec fn from_spec(v: Version) -> (usize, usize, usize) {
        (v.spec_major(), v.spec_minor(), v.spec_patch())
    }
}

} // verus!
