//! Iterators over lists of handles.

use vstd::prelude::*;

use crate::handles::{Channel, Object, Service};

verus! {

/// Hands out copies of a list of object handles, in order.
pub struct ObjectIterator {
    vec: Vec<Object>,
    i: usize,
}

/// Hands out copies of a list of service handles, in order.
pub struct ServiceIterator {
    vec: Vec<Service>,
    i: usize,
}

/// Hands out copies of a list of channel handles, in order.
pub struct ChannelIterator {
    vec: Vec<Channel>,
    i: usize,
}

impl ObjectIterator {
    /// The objects still to come.
    pub closed spec fn items(&self) -> Seq<Object> {
        self.vec@.subrange(self.i as int, self.vec@.len() as int)
    }

    pub closed spec fn wf(&self) -> bool {
        self.i <= self.vec@.len()
    }

    pub fn new(vec: Vec<Object>) -> (r: ObjectIterator)
        ensures
            r.wf(),
            r.items() == vec@,
    {
        let r = ObjectIterator { vec, i: 0 };
        proof {
            assert(r.vec@.subrange(0, r.vec@.len() as int) =~= r.vec@);
        }
        r
    }

    /// The next object, or `None` once all have been handed out.
    pub fn next(&mut self) -> (r: Option<Object>)
        requires
            old(self).wf(),
        ensures
            final(self).wf(),
            old(self).items().len() == 0 ==> r is None && final(self).items() == old(self).items(),
            old(self).items().len() > 0 ==> (r matches Some(o) && o.spec_id() == old(self).items()[0].spec_id()
                && o.spec_path()@ == old(self).items()[0].spec_path()@
                && final(self).items() == old(self).items().drop_first()),
    {
        if self.i >= self.vec.len() {
            return None;
        }
        let o = self.vec[self.i].clone();
        self.i = self.i + 1;
        proof {
            assert(self.items() =~= old(self).items().drop_first());
        }
        Some(o)
    }

    /// How many objects are still to come.
    pub fn len(&self) -> (r: usize)
        requires
            self.wf(),
        ensures
            r == self.items().len(),
    {
        self.vec.len() - self.i
    }
}

impl ServiceIterator {
    /// The services still to come.
    pub closed spec fn items(&self) -> Seq<Service> {
        self.vec@.subrange(self.i as int, self.vec@.len() as int)
    }

    pub closed spec fn wf(&self) -> bool {
        self.i <= self.vec@.len()
    }

    pub fn new(vec: Vec<Service>) -> (r: ServiceIterator)
        ensures
            r.wf(),
            r.items() == vec@,
    {
        let r = ServiceIterator { vec, i: 0 };
        proof {
            assert(r.vec@.subrange(0, r.vec@.len() as int) =~= r.vec@);
        }
        r
    }

    /// The next service, or `None` once all have been handed out.
    pub fn next(&mut self) -> (r: Option<Service>)
        requires
            old(self).wf(),
        ensures
            final(self).wf(),
            old(self).items().len() == 0 ==> r is None && final(self).items() == old(self).items(),
            old(self).items().len() > 0 ==> (r matches Some(s) && s.spec_id() == old(self).items()[0].spec_id()
                && s.spec_path()@ == old(self).items()[0].spec_path()@
                && s.spec_object().spec_id() == old(self).items()[0].spec_object().spec_id()
                && s.spec_object().spec_path()@ == old(self).items()[0].spec_object().spec_path()@
                && final(self).items() == old(self).items().drop_first()),
    {
        if self.i >= self.vec.len() {
            return None;
        }
        let s = self.vec[self.i].clone();
        self.i = self.i + 1;
        proof {
            assert(self.items() =~= old(self).items().drop_first());
        }
        Some(s)
    }

    /// How many services are still to come.
    pub fn len(&self) -> (r: usize)
        requires
            self.wf(),
        ensures
            r == self.items().len(),
    {
        self.vec.len() - self.i
    }
}

impl ChannelIterator {
    /// The channels still to come.
    pub closed spec fn items(&self) -> Seq<Channel> {
        self.vec@.subrange(self.i as int, self.vec@.len() as int)
    }

    pub closed spec fn wf(&self) -> bool {
        self.i <= self.vec@.len()
    }

    pub fn new(vec: Vec<Channel>) -> (r: ChannelIterator)
        ensures
            r.wf(),
            r.items() == vec@,
    {
        let r = ChannelIterator { vec, i: 0 };
        proof {
            assert(r.vec@.subrange(0, r.vec@.len() as int) =~= r.vec@);
        }
        r
    }

    /// The next channel, or `None` once all have been handed out.
    pub fn next(&mut self) -> (r: Option<Channel>)
        requires
            old(self).wf(),
        ensures
            final(self).wf(),
            old(self).items().len() == 0 ==> r is None && final(self).items() == old(self).items(),
            old(self).items().len() > 0 ==> (r matches Some(c) && c.spec_id() == old(self).items()[0].spec_id()
                && c.spec_origin().spec_id() == old(self).items()[0].spec_origin().spec_id()
                && c.spec_policy() == old(self).items()[0].spec_policy()
                && final(self).items() == old(self).items().drop_first()),
    {
        if self.i >= self.vec.len() {
            return None;
        }
        let c = self.vec[self.i].clone();
        self.i = self.i + 1;
        proof {
            assert(self.items() =~= old(self).items().drop_first());
        }
        Some(c)
    }

    /// How many channels are still to come.
    pub fn len(&self) -> (r: usize)
        requires
            self.wf(),
        ensures
            r == self.items().len(),
    {
        self.vec.len() - self.i
    }
}

} // verus!
