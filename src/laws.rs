//! Properties that hold of every reachable state of the network.

use vstd::prelude::*;

use crate::detector::{is_component, is_halted};
use crate::network::{NetworkView, ThreadState};
use crate::policy::{leave_verdict, ChannelError, PolicyView};

verus! {

/// A channel restricted to one pair never has more than two members, in
/// any state that the network's operations reach.
pub proof fn law_pair_channel_bounded(v: NetworkView, c: usize)
    requires
        v.inv(),
        c < v.channels.len(),
        v.channels[c as int].policy.no_multiple_connections,
    ensures
        v.channels[c as int].members.len() <= 2,
{
    assert(v.channels[c as int].wf());
}

/// A join that a pair channel accepts leaves it with at most two members.
pub proof fn law_accepted_join_keeps_pair(v: NetworkView, c: usize, t: usize)
    requires
        v.inv(),
        c < v.channels.len(),
        t < v.threads.len(),
        v.channels[c as int].policy.no_multiple_connections,
        v.join_result(c, t) is Ok,
    ensures
        v.channels[c as int].joined(t, v.is_origin(c, t)).members.len() <= 2,
{
    assert(v.channels[c as int].wf());
}

/// A join by a thread that is already a member is refused with
/// `AlreadyMember`; a refused join changes nothing.
pub proof fn law_join_by_member(v: NetworkView, c: usize, t: usize)
    requires
        v.inv(),
        c < v.channels.len(),
        v.is_member(c, t),
    ensures
        v.join_result(c, t) == Err::<(), ChannelError>(ChannelError::AlreadyMember),
{
    assert(v.channels[c as int].members.contains(t));
}

/// A leave by a thread that is not a member is refused with `NotMember`,
/// whatever the policy; a refused leave changes nothing.
pub proof fn law_leave_by_non_member(p: PolicyView, origin: bool, others: bool)
    ensures
        leave_verdict(p, false, origin, others) == Err::<(), ChannelError>(ChannelError::NotMember),
{
}

/// A thread that dies holds no channel afterwards: releasing it everywhere
/// removes it from every membership set.
pub proof fn law_dead_thread_released(v: NetworkView, t: usize)
    requires
        v.inv(),
        t < v.threads.len(),
    ensures
        forall|c: int|
            0 <= c < v.channels.len() ==> !(#[trigger] v.released_everywhere(t)[c]).members.contains(t),
        v.released_everywhere(t).len() == v.channels.len(),
{
}

/// In any reachable state a dead thread is a member of no channel.
pub proof fn law_dead_thread_holds_nothing(v: NetworkView, t: usize, c: usize)
    requires
        v.inv(),
        t < v.threads.len(),
        v.threads[t as int].state == ThreadState::Dead,
        c < v.channels.len(),
    ensures
        !v.channels[c as int].members.contains(t),
{
}

/// When a member is taken out of a channel, every thread left in it is
/// queued for the detector: a component that lost its last active thread
/// is examined on the next pass.
pub proof fn law_survivors_queued(old: NetworkView, new: NetworkView, c: usize, t: usize, m: usize)
    requires
        old.after_removal(new, c, t),
        old.is_member(c, t),
        new.channels[c as int].members.contains(m),
    ensures
        new.pending.contains(m),
{
    assert(new.pending.to_set().contains(m));
}

/// A component in which some channel has an active member is not halted.
pub proof fn law_active_member_prevents_halt(
    v: NetworkView,
    t0: usize,
    ts: Set<usize>,
    cs: Set<usize>,
    c: usize,
    m: usize,
)
    requires
        is_component(v, t0, ts, cs),
        cs.contains(c),
        v.channels[c as int].members.contains(m),
        v.threads[m as int].state == ThreadState::Active,
    ensures
        !is_halted(v, cs),
{
}

} // verus!
