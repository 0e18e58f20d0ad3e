//! The in-application registry of interfaces.

use vstd::prelude::*;

use crate::handles::Object;
use crate::interface::{ascending_keys, holds_key, insert_dependency, keys_of, Interface, InterfaceKey};

verus! {

/// The interfaces an application declares up front: one per vendor and
/// version, kept in ascending order of vendor, then version.
pub struct MyInterfaceSource {
    ints: Vec<Interface>,
}

impl MyInterfaceSource {
    #[verifier::type_invariant]
    spec fn ordered(&self) -> bool {
        ascending_keys(keys_of(self.ints@))
    }

    /// Vendor and version of each declared interface.
    pub closed spec fn keys(&self) -> Set<InterfaceKey> {
        keys_of(self.ints@).to_set()
    }

    pub fn new() -> (r: MyInterfaceSource)
        ensures
            r.keys() == Set::<InterfaceKey>::empty(),
    {
        let r = MyInterfaceSource { ints: Vec::new() };
        proof {
            assert(r.keys() =~= Set::<InterfaceKey>::empty());
        }
        r
    }

    /// Whether an interface with the vendor and version of `i` is declared.
    pub fn declares(&self, i: &Interface) -> (r: bool)
        ensures
            r == self.keys().contains(i.key()),
    {
        holds_key(&self.ints, i)
    }

    /// The declared interfaces, in ascending order of vendor, then version.
    pub fn interfaces(&self) -> (r: &Vec<Interface>)
        ensures
            keys_of(r@).to_set() == self.keys(),
            ascending_keys(keys_of(r@)),
    {
        proof {
            use_type_invariant(self);
        }
        &self.ints
    }

    /// Declares interface `i`, unless one with the same vendor and version is
    /// declared already.
    pub fn append(&mut self, i: Interface)
        ensures
            final(self).keys() == old(self).keys().insert(i.key()),
    {
        proof {
            use_type_invariant(&*self);
        }
        let mut ints = Vec::new();
        std::mem::swap(&mut ints, &mut self.ints);
        insert_dependency(&mut ints, i);
        self.ints = ints;
    }
}

/// An object of the in-application network.
pub struct MyObject {
    object: Object,
}

impl MyObject {
    pub fn new(object: Object) -> (r: MyObject)
        ensures
            r.handle().spec_id() == object.spec_id(),
            r.handle().spec_path()@ == object.spec_path()@,
    {
        MyObject { object }
    }

    pub closed spec fn handle(&self) -> Object {
        self.object
    }

    /// The handle of the object.
    pub fn object(&self) -> (r: &Object)
        ensures
            *r == self.handle(),
    {
        &self.object
    }
}

} // verus!
