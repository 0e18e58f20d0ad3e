//! Requests for interfaces by vendor and version.

use vstd::prelude::*;

use core::cmp::Ordering;

use crate::arch::{ChannelArchitecture, ObjectArchitecture, ServiceArchitecture, ThreadArchitecture};
use crate::handles::Object;
use crate::interface::{ascending_keys, insert_dependency, keys_of, Interface, InterfaceKey};
use crate::path::Path;
use crate::version::Version;

verus! {

/// Which versions of an interface a request accepts.
pub enum VersionRule {
    /// Exactly this version.
    Equal(Version),
    /// This version or a newer one with the same major number.
    NewerOrEqual(Version),
}

impl VersionRule {
    pub open spec fn spec_accepts(&self, v: Version) -> bool {
        match *self {
            VersionRule::Equal(w) => v == w,
            VersionRule::NewerOrEqual(w) => v.spec_major() == w.spec_major() && v.spec_cmp(&w)
                != Ordering::Less,
        }
    }

    /// Whether version `v` satisfies the rule.
    pub fn accepts(&self, v: &Version) -> (r: bool)
        ensures
            r == self.spec_accepts(*v),
    {
        match self {
            VersionRule::Equal(w) => *v == *w,
            VersionRule::NewerOrEqual(w) => {
                if v.major() != w.major() {
                    false
                } else {
                    match v.partial_cmp(w) {
                        Some(Ordering::Less) => false,
                        _ => true,
                    }
                }
            },
        }
    }
}

/// What an interface must satisfy to answer a request: its vendor and a
/// rule on its version.
pub struct InterfaceRequirements {
    vendor: Path,
    version: VersionRule,
}

impl InterfaceRequirements {
    pub closed spec fn spec_vendor(&self) -> Path {
        self.vendor
    }

    pub closed spec fn spec_version(&self) -> VersionRule {
        self.version
    }

    pub fn new(vendor: Path, version: VersionRule) -> (r: InterfaceRequirements)
        ensures
            r.spec_vendor()@ == vendor@,
            r.spec_version() == version,
    {
        InterfaceRequirements { vendor, version }
    }

    /// Whether interface `i` comes from the required vendor in an accepted
    /// version.
    pub fn matches(&self, i: &Interface) -> (r: bool)
        ensures
            r == (i@.vendor.nodes == self.spec_vendor()@.nodes && self.spec_version().spec_accepts(
                i@.version,
            )),
    {
        i.vendor().same_nodes(&self.vendor) && self.version.accepts(i.version())
    }
}

/// A place where interfaces can be looked up.
pub trait InterfaceSource {
    /// The interfaces that meet `requirements`.
    fn lookup(&mut self, requirements: &InterfaceRequirements) -> Vec<Interface>;
}

/// The interfaces an object must implement to be chosen.
pub struct ImplementerRequirements {
    interfaces: Vec<Interface>,
}

impl ImplementerRequirements {
    #[verifier::type_invariant]
    spec fn ordered(&self) -> bool {
        ascending_keys(keys_of(self.interfaces@))
    }

    /// Vendor and version of each required interface.
    pub closed spec fn keys(&self) -> Set<InterfaceKey> {
        keys_of(self.interfaces@).to_set()
    }

    /// Requires each of `interfaces`; those with the same vendor and version
    /// count once.
    pub fn new(interfaces: Vec<Interface>) -> (r: ImplementerRequirements)
        ensures
            r.keys() == keys_of(interfaces@).to_set(),
    {
        let ghost all = keys_of(interfaces@).to_set();
        let mut pending = interfaces;
        let mut sorted: Vec<Interface> = Vec::new();
        proof {
            assert(keys_of(sorted@).to_set().union(keys_of(pending@).to_set()) =~= all);
        }
        while pending.len() > 0
            invariant
                ascending_keys(keys_of(sorted@)),
                keys_of(sorted@).to_set().union(keys_of(pending@).to_set()) == all,
            decreases pending@.len(),
        {
            let ghost before = keys_of(pending@);
            let d = pending.pop().unwrap();
            let ghost dk = d.key();
            let ghost sorted_before = keys_of(sorted@).to_set();
            insert_dependency(&mut sorted, d);
            proof {
                assert(before =~= keys_of(pending@).push(dk));
                keys_of(pending@).lemma_push_to_set_commute(dk);
                assert(keys_of(sorted@).to_set().union(keys_of(pending@).to_set()) =~= sorted_before.union(
                    before.to_set(),
                ));
            }
        }
        proof {
            assert(keys_of(pending@).to_set() =~= Set::<InterfaceKey>::empty());
            assert(keys_of(sorted@).to_set() =~= all);
        }
        ImplementerRequirements { interfaces: sorted }
    }

    /// The required interfaces, in ascending order of vendor, then version.
    pub fn interfaces(&self) -> (r: &Vec<Interface>)
        ensures
            keys_of(r@).to_set() == self.keys(),
            ascending_keys(keys_of(r@)),
    {
        proof {
            use_type_invariant(self);
        }
        &self.interfaces
    }
}

/// A place where objects implementing interfaces can be found.
pub trait ImplementerSource {
    /// The objects that implement every interface `requirements` names.
    fn lookup(&mut self, requirements: &ImplementerRequirements) -> Vec<Object>;
}

/// The controller of a runtime: the types it works with and the sources it
/// looks interfaces and implementers up in.
pub trait Master {
    type Chan: ChannelArchitecture;

    type IntSrc: InterfaceSource;

    type ImpSrc: ImplementerSource;

    type Obj: ObjectArchitecture;

    type Srv: ServiceArchitecture;

    type Thr: ThreadArchitecture;

    /// Adds an interface source and returns it.
    fn add_interface_source(&mut self, isrc: Self::IntSrc) -> &Self::IntSrc;

    /// Adds an implementer source and returns it.
    fn add_implementer_source(&mut self, isrc: Self::ImpSrc) -> &Self::ImpSrc;
}

} // verus!
