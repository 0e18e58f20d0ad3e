//! Hooks through which a concrete runtime attaches its own objects,
//! services, channels and threads to the handles of this crate. The
//! coordination itself stays in [`crate::network::Network`].

use vstd::prelude::*;

use crate::handles::{Channel, Object, Service, Thread};
use crate::iters::{ObjectIterator, ServiceIterator};

verus! {

/// What a service runs when it is started.
pub trait ServiceEntry {
    /// Starts the service; `channel` connects it to the thread that asked
    /// for it.
    fn start(&self, channel: &Channel);
}

/// A runtime's own service type.
pub trait ServiceArchitecture {
    type SE: ServiceEntry;

    /// The handle of the service.
    fn handle(&self) -> &Service;

    /// The entry point run when the service starts.
    fn entry_point(&self) -> &Self::SE;
}

/// A runtime's own object type.
pub trait ObjectArchitecture {
    /// The handle of the object.
    fn handle(&self) -> &Object;

    /// The services visible from this object.
    fn service_iter(&self) -> ServiceIterator;

    /// The sub-objects visible from this object.
    fn object_iter(&self) -> ObjectIterator;
}

/// A runtime's own channel type.
pub trait ChannelArchitecture {
    /// The handle of the channel.
    fn handle(&self) -> &Channel;
}

/// A runtime's own thread memory.
pub trait MemoryArchitecture {

}

/// A runtime's own thread type.
pub trait ThreadArchitecture {
    type MA: MemoryArchitecture;

    /// The handle of the thread.
    fn unarch(&self) -> &Thread;

    /// The thread's memory.
    fn memory(&self) -> &Self::MA;
}

/// Services of one kind, gathered by a runtime.
pub struct ServiceArchSet<S: ServiceArchitecture>(Vec<S>);

/// Channels of one kind, gathered by a runtime.
pub struct ChannelArchSet<C: ChannelArchitecture>(Vec<C>);

/// Objects of one kind, gathered by a runtime.
pub struct ObjectArchSet<O: ObjectArchitecture>(Vec<O>);

impl<S: ServiceArchitecture> ServiceArchSet<S> {
    pub closed spec fn spec_len(&self) -> nat {
        self.0@.len()
    }

    /// How many services the set holds.
    pub fn len(&self) -> (r: usize)
        ensures
            r == self.spec_len(),
    {
        self.0.len()
    }
}

impl<S: ServiceArchitecture> Default for ServiceArchSet<S> {
    /// The empty set.
    fn default() -> (r: ServiceArchSet<S>)
        ensures
            r.spec_len() == 0,
    {
        ServiceArchSet(Vec::new())
    }
}

impl<C: ChannelArchitecture> ChannelArchSet<C> {
    pub closed spec fn spec_len(&self) -> nat {
        self.0@.len()
    }

    /// How many channels the set holds.
    pub fn len(&self) -> (r: usize)
        ensures
            r == self.spec_len(),
    {
        self.0.len()
    }
}

impl<C: ChannelArchitecture> Default for ChannelArchSet<C> {
    /// The empty set.
    fn default() -> (r: ChannelArchSet<C>)
        ensures
            r.spec_len() == 0,
    {
        ChannelArchSet(Vec::new())
    }
}

impl<O: ObjectArchitecture> ObjectArchSet<O> {
    pub closed spec fn spec_len(&self) -> nat {
        self.0@.len()
    }

    /// How many objects the set holds.
    pub fn len(&self) -> (r: usize)
        ensures
            r == self.spec_len(),
    {
        self.0.len()
    }
}

impl<O: ObjectArchitecture> Default for ObjectArchSet<O> {
    /// The empty set.
    fn default() -> (r: ObjectArchSet<O>)
        ensures
            r.spec_len() == 0,
    {
        ObjectArchSet(Vec::new())
    }
}

/// An object's services grouped by visibility.
pub struct ServiceGroup<S: ServiceArchitecture> {
    pub public: ServiceArchSet<S>,
    pub private: ServiceArchSet<S>,
    pub internal: ServiceArchSet<S>,
}

impl<S: ServiceArchitecture> Default for ServiceGroup<S> {
    /// Three empty groups.
    fn default() -> (r: ServiceGroup<S>)
        ensures
            r.public.spec_len() == 0,
            r.private.spec_len() == 0,
            r.internal.spec_len() == 0,
    {
        ServiceGroup {
            public: ServiceArchSet::default(),
            private: ServiceArchSet::default(),
            internal: ServiceArchSet::default(),
        }
    }
}

} // verus!
