//! Handles on objects, services, threads and channels.

use vstd::prelude::*;

use crate::network::{Network, NetworkView, ThreadEntry, ThreadState};
use crate::path::{runs_below, valid_name, Path};
use crate::policy::{invite_verdict, leave_verdict, ChannelError, Policy};
use crate::registry::ChannelState;

verus! {

/// An object of the network: its path, whose last node is its name, and an
/// id unique within its local network.
pub struct Object {
    path: Path,
    id: usize,
}

impl Object {
    pub closed spec fn spec_id(&self) -> usize {
        self.id
    }

    pub closed spec fn spec_path(&self) -> &Path {
        &self.path
    }

    pub fn new(path: Path, id: usize) -> (r: Object)
        ensures
            r.spec_id() == id,
            r.spec_path()@ == path@,
    {
        Object { path, id }
    }

    /// The full path of the object, its own name last.
    pub fn path(&self) -> (r: &Path)
        ensures
            r@ == self.spec_path()@,
    {
        &self.path
    }

    /// The object's name: the last node of its path.
    pub fn name(&self) -> (r: &str)
        ensures
            r@ == self.spec_path()@.nodes.last(),
            valid_name(r@),
    {
        self.path.name()
    }

    #[verifier::when_used_as_spec(spec_id)]
    pub fn id(&self) -> (r: usize)
        ensures
            r == self.spec_id(),
    {
        self.id
    }
}

impl Clone for Object {
    fn clone(&self) -> (r: Object)
        ensures
            r.spec_id() == self.spec_id(),
            r.spec_path()@ == self.spec_path()@,
    {
        Object { path: self.path.clone(), id: self.id }
    }
}

/// A service living in an object; its path runs below the object's path.
pub struct Service {
    object: Object,
    path: Path,
    id: usize,
}

impl Service {
    #[verifier::type_invariant]
    spec fn path_below_object(&self) -> bool {
        runs_below(self.path@, self.object.spec_path()@)
    }

    pub closed spec fn spec_id(&self) -> usize {
        self.id
    }

    pub closed spec fn spec_path(&self) -> &Path {
        &self.path
    }

    pub closed spec fn spec_object(&self) -> &Object {
        &self.object
    }

    /// The service `id` of `object` at `path`, if `path` runs below the
    /// object's path.
    pub fn new(object: Object, path: Path, id: usize) -> (r: Option<Service>)
        ensures
            r is Some <==> runs_below(path@, object.spec_path()@),
            r matches Some(s) ==> s.spec_id() == id && s.spec_path()@ == path@
                && s.spec_object().spec_id() == object.spec_id()
                && s.spec_object().spec_path()@ == object.spec_path()@,
    {
        if path.extends(object.path()) {
            Some(Service { object, path, id })
        } else {
            None
        }
    }

    /// The object the service lives in.
    pub fn object(&self) -> (r: &Object)
        ensures
            r == self.spec_object(),
            runs_below(self.spec_path()@, r.spec_path()@),
    {
        proof {
            use_type_invariant(self);
        }
        &self.object
    }

    /// The service's name: the last node of its path.
    pub fn name(&self) -> (r: &str)
        ensures
            r@ == self.spec_path()@.nodes.last(),
            valid_name(r@),
    {
        self.path.name()
    }

    #[verifier::when_used_as_spec(spec_id)]
    pub fn id(&self) -> (r: usize)
        ensures
            r == self.spec_id(),
    {
        self.id
    }

    /// The path of the service, strictly below its object's path.
    pub fn path(&self) -> (r: &Path)
        ensures
            r@ == self.spec_path()@,
            runs_below(r@, self.spec_object().spec_path()@),
    {
        proof {
            use_type_invariant(self);
        }
        &self.path
    }
}

impl Clone for Service {
    fn clone(&self) -> (r: Service)
        ensures
            r.spec_id() == self.spec_id(),
            r.spec_path()@ == self.spec_path()@,
            r.spec_object().spec_id() == self.spec_object().spec_id(),
            r.spec_object().spec_path()@ == self.spec_object().spec_path()@,
    {
        proof {
            use_type_invariant(self);
        }
        Service { object: self.object.clone(), path: self.path.clone(), id: self.id }
    }
}

/// A handle on a thread of the network.
pub struct Thread {
    id: usize,
    origin: Service,
}

impl Thread {
    pub closed spec fn spec_id(&self) -> usize {
        self.id
    }

    pub closed spec fn spec_origin(&self) -> &Service {
        &self.origin
    }

    /// The thread's id in its network's thread table.
    #[verifier::when_used_as_spec(spec_id)]
    pub fn id(&self) -> (r: usize)
        ensures
            r == self.spec_id(),
    {
        self.id
    }

    /// The service the thread runs for.
    pub fn origin(&self) -> (r: &Service)
        ensures
            r == self.spec_origin(),
    {
        &self.origin
    }

    /// Reports the thread's new state to `net`; see [`Network::set_state`].
    pub fn set_state(&self, net: &mut Network, s: ThreadState)
        requires
            old(net).wf(),
            self.spec_id() < old(net)@.threads.len(),
        ensures
            final(net).wf(),
            old(net)@.threads[self.spec_id() as int].state == ThreadState::Dead ==> final(net)@
                == old(net)@,
            old(net)@.threads[self.spec_id() as int].state != ThreadState::Dead ==> final(net)@.threads
                == old(net)@.threads.update(
                self.spec_id() as int,
                ThreadEntry { state: s, ..old(net)@.threads[self.spec_id() as int] },
            ),
            old(net)@.threads[self.spec_id() as int].state != ThreadState::Dead && s
                == ThreadState::Dead ==> final(net)@.channels == old(net)@.released_everywhere(
                self.spec_id(),
            ) && final(net)@.pending.to_set() == old(net)@.pending.to_set().union(
                old(net)@.neighbours(self.spec_id()),
            ),
            old(net)@.threads[self.spec_id() as int].state != ThreadState::Dead && s
                == ThreadState::Wait ==> final(net)@.channels == old(net)@.channels
                && final(net)@.pending == old(net)@.pending.push(self.spec_id()),
            old(net)@.threads[self.spec_id() as int].state != ThreadState::Dead && s
                == ThreadState::Active ==> final(net)@.channels == old(net)@.channels
                && final(net)@.pending == old(net)@.pending,
    {
        net.set_state(self.id, s)
    }
}

impl Clone for Thread {
    fn clone(&self) -> (r: Thread)
        ensures
            r.spec_id() == self.spec_id(),
            r.spec_origin().spec_id() == self.spec_origin().spec_id(),
    {
        Thread { id: self.id, origin: self.origin.clone() }
    }
}

/// A handle on a channel of the network: its id, the service that created
/// it, and its policy, none of which ever change.
pub struct Channel {
    id: usize,
    origin: Service,
    policy: Policy,
}

impl Channel {
    pub closed spec fn spec_id(&self) -> usize {
        self.id
    }

    pub closed spec fn spec_origin(&self) -> &Service {
        &self.origin
    }

    pub closed spec fn spec_policy(&self) -> Policy {
        self.policy
    }

    /// The handle names channel `spec_id()` of network `v`, and agrees with
    /// the registry on the channel's origin service and policy.
    pub open spec fn registered_in(&self, v: NetworkView) -> bool {
        &&& self.spec_id() < v.channels.len()
        &&& v.channels[self.spec_id() as int].origin == self.spec_origin().spec_id()
        &&& v.channels[self.spec_id() as int].policy == self.spec_policy()@
    }

    /// The channel's id in its network's registry.
    #[verifier::when_used_as_spec(spec_id)]
    pub fn id(&self) -> (r: usize)
        ensures
            r == self.spec_id(),
    {
        self.id
    }

    /// The service that created the channel, even after it left.
    pub fn origin(&self) -> (r: &Service)
        ensures
            r == self.spec_origin(),
    {
        &self.origin
    }

    /// The channel's policy: the one its registry applies, for a handle
    /// registered in the network.
    pub fn policy(&self) -> (r: Policy)
        ensures
            r == self.spec_policy(),
            forall|v: NetworkView| #[trigger] self.registered_in(v) ==> r@ == v.channels[self.spec_id() as int].policy,
    {
        self.policy
    }

    /// `thread` asks to join this channel; see [`Network::join`].
    pub fn join(&self, net: &mut Network, thread: &Thread) -> (r: Result<(), ChannelError>)
        requires
            old(net).wf(),
            self.spec_id() < old(net)@.channels.len(),
            thread.spec_id() < old(net)@.threads.len(),
        ensures
            final(net).wf(),
            r == old(net)@.join_result(self.spec_id(), thread.spec_id()),
            r is Ok ==> old(net)@.after_join(final(net)@, self.spec_id(), thread.spec_id()),
            r is Err ==> final(net)@ == old(net)@,
            self.registered_in(old(net)@) ==> self.registered_in(final(net)@),
    {
        net.join(self.id, thread.id)
    }

    /// `thread` asks to leave this channel; see [`Network::leave`].
    pub fn leave(&self, net: &mut Network, thread: &Thread) -> (r: Result<(), ChannelError>)
        requires
            old(net).wf(),
            self.spec_id() < old(net)@.channels.len(),
            thread.spec_id() < old(net)@.threads.len(),
        ensures
            final(net).wf(),
            r == leave_verdict(
                old(net)@.channels[self.spec_id() as int].policy,
                old(net)@.is_member(self.spec_id(), thread.spec_id()),
                old(net)@.is_origin(self.spec_id(), thread.spec_id()),
                old(net)@.channels[self.spec_id() as int].members.len() > 1,
            ),
            r is Ok ==> old(net)@.after_removal(final(net)@, self.spec_id(), thread.spec_id()),
            r is Err ==> final(net)@ == old(net)@,
            self.registered_in(old(net)@) ==> self.registered_in(final(net)@),
    {
        net.leave(self.id, thread.id)
    }

    /// `inviter` invites `invitee` to this channel; see [`Network::invite`].
    pub fn invite(&self, net: &mut Network, inviter: &Thread, invitee: &Thread) -> (r: Result<
        (),
        ChannelError,
    >)
        requires
            old(net).wf(),
            self.spec_id() < old(net)@.channels.len(),
        ensures
            final(net).wf(),
            r == invite_verdict(
                old(net)@.channels[self.spec_id() as int].policy,
                old(net)@.is_member(self.spec_id(), inviter.spec_id()),
            ),
            r is Ok ==> final(net)@ == (NetworkView {
                channels: old(net)@.channels.update(
                    self.spec_id() as int,
                    ChannelState {
                        invited: old(net)@.channels[self.spec_id() as int].invited.insert(
                            invitee.spec_id(),
                        ),
                        ..old(net)@.channels[self.spec_id() as int]
                    },
                ),
                ..old(net)@
            }),
            r is Err ==> final(net)@ == old(net)@,
            self.registered_in(old(net)@) ==> self.registered_in(final(net)@),
    {
        net.invite(self.id, inviter.id, invitee.id)
    }

    /// How many threads are connected to this channel.
    pub fn connections_count(&self, net: &Network) -> (r: usize)
        requires
            net.wf(),
            self.spec_id() < net@.channels.len(),
        ensures
            r == net@.channels[self.spec_id() as int].members.len(),
    {
        net.connections_count(self.id)
    }

    /// How many threads are connected to this channel.
    pub fn connections(&self, net: &Network) -> (r: usize)
        requires
            net.wf(),
            self.spec_id() < net@.channels.len(),
        ensures
            r == net@.channels[self.spec_id() as int].members.len(),
    {
        net.connections_count(self.id)
    }
}

impl Clone for Channel {
    fn clone(&self) -> (r: Channel)
        ensures
            r.spec_id() == self.spec_id(),
            r.spec_origin().spec_id() == self.spec_origin().spec_id(),
            r.spec_policy() == self.spec_policy(),
    {
        Channel { id: self.id, origin: self.origin.clone(), policy: self.policy }
    }
}

impl Network {
    /// Creates a channel for service `origin` with `policy`, and returns a
    /// handle on it.
    pub fn open_channel(&mut self, origin: Service, policy: Policy) -> (ch: Channel)
        requires
            old(self).wf(),
        ensures
            final(self).wf(),
            ch.spec_id() == old(self)@.channels.len(),
            ch.spec_origin() == origin,
            ch.spec_policy() == policy,
            ch.registered_in(final(self)@),
            final(self)@.channels == old(self)@.channels.push(
                ChannelState {
                    id: ch.spec_id(),
                    origin: origin.spec_id(),
                    policy: policy@,
                    members: Set::empty(),
                    invited: Set::empty(),
                    origin_left: false,
                },
            ),
            final(self)@.threads == old(self)@.threads,
            final(self)@.pending == old(self)@.pending,
    {
        let id = self.create_channel(origin.id(), policy);
        Channel { id, origin, policy }
    }

    /// Records a new `Active` thread of service `origin`, and returns a
    /// handle on it.
    pub fn start_thread(&mut self, origin: Service) -> (th: Thread)
        requires
            old(self).wf(),
        ensures
            final(self).wf(),
            th.spec_id() == old(self)@.threads.len(),
            th.spec_origin() == origin,
            final(self)@.threads == old(self)@.threads.push(
                ThreadEntry { origin: origin.spec_id(), state: ThreadState::Active },
            ),
            final(self)@.channels == old(self)@.channels,
            final(self)@.pending == old(self)@.pending,
    {
        let id = self.spawn_thread(origin.id());
        Thread { id, origin }
    }
}

} // verus!
