//! The registry's record of one channel and the membership changes it
//! allows.

use vstd::prelude::*;

use crate::policy::{
    decide_invite, decide_join, decide_leave, invite_verdict, join_verdict, leave_verdict,
    ChannelError, Policy, PolicyView,
};

verus! {

broadcast use vstd::seq_lib::group_seq_properties;

/// What a channel record holds, as mathematical values.
pub ghost struct ChannelState {
    pub id: usize,
    /// The service that created the channel; it never changes.
    pub origin: usize,
    pub policy: PolicyView,
    /// The threads connected to the channel.
    pub members: Set<usize>,
    /// Threads holding an invitation not yet used by a join.
    pub invited: Set<usize>,
    /// An origin thread has left and none has joined since.
    pub origin_left: bool,
}

impl ChannelState {
    pub open spec fn wf(self) -> bool {
        &&& self.members.finite()
        &&& self.policy.no_multiple_connections ==> self.members.len() <= 2
    }

    /// The state after thread `t` joined; `origin` whether `t` belongs to
    /// the origin service.
    pub open spec fn joined(self, t: usize, origin: bool) -> ChannelState {
        ChannelState {
            members: self.members.insert(t),
            invited: self.invited.remove(t),
            origin_left: self.origin_left && !origin,
            ..self
        }
    }

    /// The state after thread `t` left or was released.
    pub open spec fn without(self, t: usize, origin: bool) -> ChannelState {
        ChannelState {
            members: self.members.remove(t),
            origin_left: self.origin_left || (origin && self.members.contains(t)),
            ..self
        }
    }

    /// Nobody is connected and the origin has gone: the channel may be torn
    /// down by its owner.
    pub open spec fn teardown_eligible(self) -> bool {
        self.members.len() == 0 && self.origin_left
    }
}

/// The registry's record of one channel: its fixed identity and policy, and
/// its mutable membership.
pub struct ChannelRecord {
    id: usize,
    origin: usize,
    policy: Policy,
    members: Vec<usize>,
    invited: Vec<usize>,
    origin_left: bool,
}

impl View for ChannelRecord {
    type V = ChannelState;

    closed spec fn view(&self) -> ChannelState {
        ChannelState {
            id: self.id,
            origin: self.origin,
            policy: self.policy@,
            members: self.members@.to_set(),
            invited: self.invited@.to_set(),
            origin_left: self.origin_left,
        }
    }
}

/// The elements of `v` other than `t`, in order, without repetition when
/// `v` has none.
fn without_value(v: &Vec<usize>, t: usize) -> (r: Vec<usize>)
    requires
        v@.no_duplicates(),
    ensures
        r@.no_duplicates(),
        r@.to_set() == v@.to_set().remove(t),
        v@.contains(t) ==> r@.len() + 1 == v@.len(),
        !v@.contains(t) ==> r@.len() == v@.len(),
{
    let mut r: Vec<usize> = Vec::new();
    let mut i: usize = 0;
    while i < v.len()
        invariant
            i <= v.len(),
            v@.no_duplicates(),
            r@.no_duplicates(),
            forall|x: usize| r@.contains(x) <==> (exists|j: int| 0 <= j < i && v@[j] == x && x != t),
            (exists|j: int| 0 <= j < i && v@[j] == t) ==> r@.len() + 1 == i,
            !(exists|j: int| 0 <= j < i && v@[j] == t) ==> r@.len() == i,
        decreases v.len() - i,
    {
        let x = v[i];
        let ghost before = r@;
        if x != t {
            proof {
                assert(!r@.contains(x));
            }
            r.push(x);
        }
        proof {
            assert forall|y: usize| r@.contains(y) <==> (exists|j: int|
                0 <= j < i + 1 && v@[j] == y && y != t) by {
                if before.contains(y) {
                    let j = choose|j: int| 0 <= j < i && v@[j] == y && y != t;
                    assert(0 <= j < i + 1 && v@[j] == y && y != t);
                }
                if y == x && y != t {
                    assert(v@[i as int] == y);
                }
                if exists|j: int| 0 <= j < i + 1 && v@[j] == y && y != t {
                    let j = choose|j: int| 0 <= j < i + 1 && v@[j] == y && y != t;
                    if j < i {
                        assert(before.contains(y));
                    }
                }
            }
            if exists|j: int| 0 <= j < i + 1 && v@[j] == t {
                if x != t {
                    let j = choose|j: int| 0 <= j < i + 1 && v@[j] == t;
                    assert(j < i);
                }
            }
        }
        i = i + 1;
    }
    proof {
        assert(r@.to_set() =~= v@.to_set().remove(t));
    }
    r
}

impl ChannelRecord {
    pub closed spec fn wf(&self) -> bool {
        &&& self.members@.no_duplicates()
        &&& self.invited@.no_duplicates()
        &&& self.policy@.no_multiple_connections ==> self.members@.len() <= 2
    }

    /// A channel created by service `origin`, with no member yet.
    pub fn new(id: usize, origin: usize, policy: Policy) -> (r: ChannelRecord)
        ensures
            r.wf(),
            r@ == (ChannelState {
                id,
                origin,
                policy: policy@,
                members: Set::empty(),
                invited: Set::empty(),
                origin_left: false,
            }),
    {
        let r = ChannelRecord {
            id,
            origin,
            policy,
            members: Vec::new(),
            invited: Vec::new(),
            origin_left: false,
        };
        proof {
            assert(r@.members =~= Set::empty());
            assert(r@.invited =~= Set::empty());
        }
        r
    }

    proof fn lemma_wf(&self)
        requires
            self.wf(),
        ensures
            self@.wf(),
            self@.members.len() == self.members@.len(),
    {
        self.members@.unique_seq_to_set();
    }

    /// A well-formed record has a well-formed state.
    pub proof fn lemma_view_wf(&self)
        requires
            self.wf(),
        ensures
            self@.wf(),
    {
        self.lemma_wf();
    }

    pub fn id(&self) -> (r: usize)
        ensures
            r == self@.id,
    {
        self.id
    }

    /// The service that created the channel.
    pub fn origin(&self) -> (r: usize)
        ensures
            r == self@.origin,
    {
        self.origin
    }

    pub fn policy(&self) -> (r: Policy)
        ensures
            r@ == self@.policy,
    {
        self.policy
    }

    /// How many threads are connected.
    pub fn connections_count(&self) -> (r: usize)
        requires
            self.wf(),
        ensures
            r == self@.members.len(),
    {
        proof {
            self.lemma_wf();
        }
        self.members.len()
    }

    /// The connected threads, in the order they joined.
    pub fn members(&self) -> (r: &Vec<usize>)
        requires
            self.wf(),
        ensures
            r@.to_set() == self@.members,
            r@.no_duplicates(),
    {
        &self.members
    }

    pub fn is_member(&self, t: usize) -> (r: bool)
        ensures
            r == self@.members.contains(t),
    {
        contains(&self.members, t)
    }

    pub fn is_invited(&self, t: usize) -> (r: bool)
        ensures
            r == self@.invited.contains(t),
    {
        contains(&self.invited, t)
    }

    /// Whether the channel is empty and its origin has left.
    pub fn teardown_eligible(&self) -> (r: bool)
        requires
            self.wf(),
        ensures
            r == self@.teardown_eligible(),
    {
        proof {
            self.lemma_wf();
        }
        self.members.len() == 0 && self.origin_left
    }

    /// Thread `t` asks to join; `origin` says whether it belongs to the
    /// origin service. On success its invitation, if any, is used up.
    pub fn join(&mut self, t: usize, origin: bool) -> (r: Result<(), ChannelError>)
        requires
            old(self).wf(),
        ensures
            final(self).wf(),
            r == join_verdict(
                old(self)@.policy,
                old(self)@.members.contains(t),
                old(self)@.invited.contains(t),
                old(self)@.members.len(),
            ),
            r is Ok ==> final(self)@ == old(self)@.joined(t, origin),
            r is Err ==> final(self)@ == old(self)@,
    {
        proof {
            self.lemma_wf();
        }
        let member = self.is_member(t);
        let invited = self.is_invited(t);
        let count = self.members.len();
        let verdict = decide_join(&self.policy, member, invited, count);
        if verdict.is_ok() {
            let ghost before = self@;
            let ghost ms = self.members@;
            self.members.push(t);
            self.invited = without_value(&self.invited, t);
            if origin {
                self.origin_left = false;
            }
            proof {
                assert(self.members@.no_duplicates());
                ms.lemma_push_to_set_commute(t);
            }
        }
        verdict
    }

    /// Thread `inviter`, a member or not, invites thread `invitee`; the
    /// invitation lets `invitee` join once.
    pub fn invite(&mut self, inviter: usize, invitee: usize) -> (r: Result<(), ChannelError>)
        requires
            old(self).wf(),
        ensures
            final(self).wf(),
            r == invite_verdict(old(self)@.policy, old(self)@.members.contains(inviter)),
            r is Ok ==> final(self)@ == (ChannelState {
                invited: old(self)@.invited.insert(invitee),
                ..old(self)@
            }),
            r is Err ==> final(self)@ == old(self)@,
    {
        let member = self.is_member(inviter);
        let verdict = decide_invite(&self.policy, member);
        if verdict.is_ok() {
            if !contains(&self.invited, invitee) {
                let ghost vs = self.invited@;
                self.invited.push(invitee);
                proof {
                    vs.lemma_push_to_set_commute(invitee);
                    assert(self.invited@.no_duplicates());
                }
            } else {
                proof {
                    assert(self@.invited =~= old(self)@.invited.insert(invitee));
                }
            }
        }
        verdict
    }

    /// Thread `t` asks to leave; `origin` says whether it belongs to the
    /// origin service.
    pub fn leave(&mut self, t: usize, origin: bool) -> (r: Result<(), ChannelError>)
        requires
            old(self).wf(),
        ensures
            final(self).wf(),
            r == leave_verdict(
                old(self)@.policy,
                old(self)@.members.contains(t),
                origin,
                old(self)@.members.len() > 1,
            ),
            r is Ok ==> final(self)@ == old(self)@.without(t, origin),
            r is Err ==> final(self)@ == old(self)@,
    {
        proof {
            self.lemma_wf();
        }
        let member = self.is_member(t);
        let others = self.members.len() > 1;
        let verdict = decide_leave(&self.policy, member, origin, others);
        if verdict.is_ok() {
            self.release(t, origin);
        }
        verdict
    }

    /// Removes thread `t` whatever the policy says: a thread that died, or
    /// one released after a deadlock. Nothing changes if `t` is no member.
    pub fn release(&mut self, t: usize, origin: bool)
        requires
            old(self).wf(),
        ensures
            final(self).wf(),
            final(self)@ == old(self)@.without(t, origin),
    {
        proof {
            self.lemma_wf();
        }
        let member = self.is_member(t);
        self.members = without_value(&self.members, t);
        if origin && member {
            self.origin_left = true;
        }
        proof {
            self.lemma_wf();
        }
    }
}

/// Whether `v` holds `t`.
pub(crate) fn contains(v: &Vec<usize>, t: usize) -> (r: bool)
    ensures
        r == v@.contains(t),
{
    let mut i: usize = 0;
    while i < v.len()
        invariant
            i <= v.len(),
            forall|j: int| 0 <= j < i ==> v@[j] != t,
        decreases v.len() - i,
    {
        if v[i] == t {
            return true;
        }
        i = i + 1;
    }
    false
}

} // verus!
