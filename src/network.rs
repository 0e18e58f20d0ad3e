//! The coordination state of a local network: channel registry, thread
//! table, and the membership operations over both.

use vstd::prelude::*;

use crate::policy::{join_verdict, ChannelError, Policy};
use crate::registry::{ChannelRecord, ChannelState};

verus! {

/// Where a thread stands.
#[derive(Clone, Copy, PartialEq, Eq, Structural, Debug)]
pub enum ThreadState {
    /// Running; it can still signal its channels.
    Active,
    /// Blocked until one of its channels signals.
    Wait,
    /// Finished; it holds no channel any more.
    Dead,
}

/// The thread table's record of one thread.
#[derive(Clone, Copy, PartialEq, Eq, Structural, Debug)]
pub struct ThreadEntry {
    /// The service the thread runs for; it never changes.
    pub origin: usize,
    pub state: ThreadState,
}

/// The whole coordination state of one local network, as mathematical values.
pub ghost struct NetworkView {
    /// Channel records, indexed by channel id.
    pub channels: Seq<ChannelState>,
    /// Thread records, indexed by thread id.
    pub threads: Seq<ThreadEntry>,
    /// Threads that entered `Wait` since the last detector pass, in order.
    pub pending: Seq<usize>,
}

impl NetworkView {
    /// The invariant that every operation keeps.
    pub open spec fn inv(self) -> bool {
        &&& forall|c: int|
            0 <= c < self.channels.len() ==> #[trigger] self.channels[c].wf()
                && self.channels[c].id == c
        &&& forall|c: int, t: usize|
            0 <= c < self.channels.len() && #[trigger] self.channels[c].members.contains(t) ==> t
                < self.threads.len() && self.threads[t as int].state != ThreadState::Dead
        &&& forall|i: int| 0 <= i < self.pending.len() ==> #[trigger] self.pending[i] < self.threads.len()
    }

    /// Thread `t` runs for the service that created channel `c`.
    pub open spec fn is_origin(self, c: usize, t: usize) -> bool {
        self.threads[t as int].origin == self.channels[c as int].origin
    }

    pub open spec fn is_member(self, c: usize, t: usize) -> bool {
        self.channels[c as int].members.contains(t)
    }

    /// The answer to a join of channel `c` by thread `t`: a dead thread may
    /// not join; otherwise the policy decides.
    pub open spec fn join_result(self, c: usize, t: usize) -> Result<(), ChannelError> {
        if self.threads[t as int].state == ThreadState::Dead {
            Err(ChannelError::JoinForbidden)
        } else {
            let ch = self.channels[c as int];
            join_verdict(ch.policy, ch.members.contains(t), ch.invited.contains(t), ch.members.len())
        }
    }

    /// The threads that share a channel with `t`, other than `t`.
    pub open spec fn neighbours(self, t: usize) -> Set<usize> {
        Set::new(
            |m: usize|
                exists|c: int|
                    0 <= c < self.channels.len() && #[trigger] self.channels[c].members.contains(t)
                        && self.channels[c].members.contains(m) && m != t,
        )
    }

    /// `new` is this network after thread `t` joined channel `c`; a waiting
    /// thread that joins is queued for the detector, since its component
    /// grew.
    pub open spec fn after_join(self, new: NetworkView, c: usize, t: usize) -> bool {
        &&& new.channels == self.channels.update(
            c as int,
            self.channels[c as int].joined(t, self.is_origin(c, t)),
        )
        &&& new.threads == self.threads
        &&& new.pending == if self.threads[t as int].state == ThreadState::Wait {
            self.pending.push(t)
        } else {
            self.pending
        }
    }

    /// `new` is this network after thread `t` was taken out of channel `c`;
    /// if `t` was a member, the members that remain are queued for the
    /// detector, since their component may have lost its last active thread.
    pub open spec fn after_removal(self, new: NetworkView, c: usize, t: usize) -> bool {
        &&& new.channels == self.channels.update(
            c as int,
            self.channels[c as int].without(t, self.is_origin(c, t)),
        )
        &&& new.threads == self.threads
        &&& new.pending.to_set() == self.pending.to_set().union(
            if self.is_member(c, t) {
                new.channels[c as int].members
            } else {
                Set::empty()
            },
        )
    }

    /// The channels once thread `t` has been released from all of them.
    pub open spec fn released_everywhere(self, t: usize) -> Seq<ChannelState> {
        Seq::new(
            self.channels.len(),
            |c: int| self.channels[c].without(t, self.is_origin(c as usize, t)),
        )
    }
}

/// The coordination core of one local network: the channel registry, the
/// thread table, and the threads waiting to be examined by the detector.
pub struct Network {
    channels: Vec<ChannelRecord>,
    threads: Vec<ThreadEntry>,
    pending: Vec<usize>,
}

impl View for Network {
    type V = NetworkView;

    closed spec fn view(&self) -> NetworkView {
        NetworkView {
            channels: self.channels@.map_values(|r: ChannelRecord| r@),
            threads: self.threads@,
            pending: self.pending@,
        }
    }
}

impl Network {
    pub closed spec fn wf(&self) -> bool {
        &&& forall|c: int| 0 <= c < self.channels@.len() ==> #[trigger] self.channels@[c].wf()
        &&& self@.inv()
    }

    /// A well-formed network satisfies the invariant.
    pub proof fn lemma_inv(&self)
        requires
            self.wf(),
        ensures
            self@.inv(),
    {
    }

    /// A network with no channel and no thread.
    pub fn new() -> (r: Network)
        ensures
            r.wf(),
            r@.channels.len() == 0,
            r@.threads.len() == 0,
            r@.pending.len() == 0,
    {
        let r = Network { channels: Vec::new(), threads: Vec::new(), pending: Vec::new() };
        proof {
            assert(r@.channels =~= Seq::empty());
        }
        r
    }

    /// Records a new thread of service `origin`, `Active`; returns its id.
    pub fn spawn_thread(&mut self, origin: usize) -> (t: usize)
        requires
            old(self).wf(),
        ensures
            final(self).wf(),
            t == old(self)@.threads.len(),
            final(self)@.threads == old(self)@.threads.push(
                ThreadEntry { origin, state: ThreadState::Active },
            ),
            final(self)@.channels == old(self)@.channels,
            final(self)@.pending == old(self)@.pending,
    {
        let t = self.threads.len();
        self.threads.push(ThreadEntry { origin, state: ThreadState::Active });
        proof {
            assert(self@.channels == old(self)@.channels);
            assert forall|i: int| 0 <= i < self@.pending.len() implies #[trigger] self@.pending[i]
                < self@.threads.len() by {
                assert(self@.pending[i] == old(self)@.pending[i]);
            }
            assert forall|c: int, m: usize|
                0 <= c < self@.channels.len() && #[trigger] self@.channels[c].members.contains(
                    m,
                ) implies m < self@.threads.len() && self@.threads[m as int].state
                != ThreadState::Dead by {
                assert(old(self)@.channels[c].members.contains(m));
                assert(self@.threads[m as int] == old(self)@.threads[m as int]);
            }
        }
        t
    }

    /// Registers a channel created by service `origin`, with no member;
    /// returns its id.
    pub fn create_channel(&mut self, origin: usize, policy: Policy) -> (c: usize)
        requires
            old(self).wf(),
        ensures
            final(self).wf(),
            c == old(self)@.channels.len(),
            final(self)@.channels == old(self)@.channels.push(
                ChannelState {
                    id: c,
                    origin,
                    policy: policy@,
                    members: Set::empty(),
                    invited: Set::empty(),
                    origin_left: false,
                },
            ),
            final(self)@.threads == old(self)@.threads,
            final(self)@.pending == old(self)@.pending,
    {
        let c = self.channels.len();
        let rec = ChannelRecord::new(c, origin, policy);
        self.channels.push(rec);
        proof {
            rec.lemma_view_wf();
            assert forall|i: int| 0 <= i < self@.pending.len() implies #[trigger] self@.pending[i]
                < self@.threads.len() by {
                assert(self@.pending[i] == old(self)@.pending[i]);
            }
            assert(self@.channels =~= old(self)@.channels.push(rec@));
            assert forall|i: int| 0 <= i < self.channels@.len() implies #[trigger] self.channels@[i].wf() by {
                if i < c {
                    assert(self.channels@[i] == old(self).channels@[i]);
                }
            }
            assert forall|i: int|
                0 <= i < self@.channels.len() implies #[trigger] self@.channels[i].wf()
                && self@.channels[i].id == i by {
                if i < c {
                    assert(self@.channels[i] == old(self)@.channels[i]);
                }
            }
            assert forall|i: int, m: usize|
                0 <= i < self@.channels.len() && #[trigger] self@.channels[i].members.contains(
                    m,
                ) implies m < self@.threads.len() && self@.threads[m as int].state
                != ThreadState::Dead by {
                if i < c {
                    assert(self@.channels[i] == old(self)@.channels[i]);
                    assert(old(self)@.channels[i].members.contains(m));
                }
            }
        }
        c
    }

    pub fn channel_count(&self) -> (r: usize)
        ensures
            r == self@.channels.len(),
    {
        self.channels.len()
    }

    pub fn thread_count(&self) -> (r: usize)
        ensures
            r == self@.threads.len(),
    {
        self.threads.len()
    }

    /// The record of channel `c`.
    pub fn channel(&self, c: usize) -> (r: &ChannelRecord)
        requires
            self.wf(),
            c < self@.channels.len(),
        ensures
            r.wf(),
            r@ == self@.channels[c as int],
    {
        &self.channels[c]
    }

    /// The state of thread `t`.
    pub fn state(&self, t: usize) -> (r: ThreadState)
        requires
            t < self@.threads.len(),
        ensures
            r == self@.threads[t as int].state,
    {
        self.threads[t].state
    }

    /// The service thread `t` runs for.
    pub fn thread_origin(&self, t: usize) -> (r: usize)
        requires
            t < self@.threads.len(),
        ensures
            r == self@.threads[t as int].origin,
    {
        self.threads[t].origin
    }

    /// The threads that entered `Wait` since the detector last ran.
    pub fn pending(&self) -> (r: &Vec<usize>)
        ensures
            r@ == self@.pending,
    {
        &self.pending
    }

    pub fn policy(&self, c: usize) -> (r: Policy)
        requires
            c < self@.channels.len(),
        ensures
            r@ == self@.channels[c as int].policy,
    {
        self.channels[c].policy()
    }

    /// How many threads are connected to channel `c`.
    pub fn connections_count(&self, c: usize) -> (r: usize)
        requires
            self.wf(),
            c < self@.channels.len(),
        ensures
            r == self@.channels[c as int].members.len(),
    {
        self.channels[c].connections_count()
    }

    /// Whether channel `c` is empty and its origin has left, so that its
    /// owner may tear it down.
    pub fn teardown_eligible(&self, c: usize) -> (r: bool)
        requires
            self.wf(),
            c < self@.channels.len(),
        ensures
            r == self@.channels[c as int].teardown_eligible(),
    {
        self.channels[c].teardown_eligible()
    }

    /// Replacing one channel record by a well-formed one whose members are
    /// live threads keeps the network well-formed.
    proof fn lemma_channel_replaced(pre: &Network, post: &Network, c: int)
        requires
            pre.wf(),
            0 <= c < pre.channels@.len(),
            post.channels@.len() == pre.channels@.len(),
            post.channels@ == pre.channels@.update(c, post.channels@[c]),
            post.threads@ == pre.threads@,
            post.pending@ == pre.pending@,
            post.channels@[c].wf(),
            post.channels@[c]@.id == pre.channels@[c]@.id,
            forall|t: usize| #[trigger]
                post.channels@[c]@.members.contains(t) ==> pre.channels@[c]@.members.contains(t) || (
                t < pre.threads@.len() && pre.threads@[t as int].state != ThreadState::Dead),
        ensures
            post.wf(),
            post@.channels == pre@.channels.update(c, post.channels@[c]@),
            post@.threads == pre@.threads,
            post@.pending == pre@.pending,
    {
        post.channels@[c].lemma_view_wf();
        assert(pre@.channels[c] == pre.channels@[c]@);
        assert(post@.pending == pre@.pending);
        assert(post@.threads == pre@.threads);
        assert(post@.channels =~= pre@.channels.update(c, post.channels@[c]@));
        assert forall|i: int| 0 <= i < post.channels@.len() implies #[trigger] post.channels@[i].wf() by {
            if i != c {
                assert(post.channels@[i] == pre.channels@[i]);
            }
        }
        assert forall|i: int|
            0 <= i < post@.channels.len() implies #[trigger] post@.channels[i].wf()
            && post@.channels[i].id == i by {
            if i != c {
                assert(post@.channels[i] == pre@.channels[i]);
            } else {
                assert(pre@.channels[c].wf());
                assert(post@.channels[c] == post.channels@[c]@);
            }
        }
        assert forall|i: int, m: usize|
            0 <= i < post@.channels.len() && #[trigger] post@.channels[i].members.contains(
                m,
            ) implies m < post@.threads.len() && post@.threads[m as int].state
            != ThreadState::Dead by {
            if i != c {
                assert(post@.channels[i] == pre@.channels[i]);
                assert(pre@.channels[i].members.contains(m));
            } else if pre.channels@[c]@.members.contains(m) {
                assert(pre@.channels[c].members.contains(m));
            }
        }
    }

    /// Thread `t` asks to join channel `c`. A dead thread is refused; for
    /// any other the channel's policy decides. A refusal changes nothing; a
    /// waiting thread that joins is queued for the detector.
    pub fn join(&mut self, c: usize, t: usize) -> (r: Result<(), ChannelError>)
        requires
            old(self).wf(),
            c < old(self)@.channels.len(),
            t < old(self)@.threads.len(),
        ensures
            final(self).wf(),
            r == old(self)@.join_result(c, t),
            r is Ok ==> old(self)@.after_join(final(self)@, c, t),
            r is Err ==> final(self)@ == old(self)@,
    {
        let state = self.threads[t].state;
        if state == ThreadState::Dead {
            return Err(ChannelError::JoinForbidden);
        }
        let origin = self.is_origin(c, t);
        let r = self.channels[c].join(t, origin);
        proof {
            Self::lemma_channel_replaced(old(self), self, c as int);
            if r is Err {
                assert(self@.channels =~= old(self)@.channels);
            }
        }
        if r.is_ok() && state == ThreadState::Wait {
            let ghost before = self@;
            self.pending.push(t);
            proof {
                assert(self@.channels =~= before.channels);
                assert forall|i: int| 0 <= i < self@.pending.len() implies #[trigger] self@.pending[i]
                    < self@.threads.len() by {
                    if i < before.pending.len() {
                        assert(self@.pending[i] == before.pending[i]);
                    }
                }
            }
        }
        r
    }

    /// Thread `inviter` invites thread `invitee` to channel `c`. The
    /// invitation lets `invitee` join once, whatever `join_by_handle` says.
    pub fn invite(&mut self, c: usize, inviter: usize, invitee: usize) -> (r: Result<
        (),
        ChannelError,
    >)
        requires
            old(self).wf(),
            c < old(self)@.channels.len(),
        ensures
            final(self).wf(),
            r == crate::policy::invite_verdict(
                old(self)@.channels[c as int].policy,
                old(self)@.is_member(c, inviter),
            ),
            r is Ok ==> final(self)@ == (NetworkView {
                channels: old(self)@.channels.update(
                    c as int,
                    ChannelState {
                        invited: old(self)@.channels[c as int].invited.insert(invitee),
                        ..old(self)@.channels[c as int]
                    },
                ),
                ..old(self)@
            }),
            r is Err ==> final(self)@ == old(self)@,
    {
        let r = self.channels[c].invite(inviter, invitee);
        proof {
            Self::lemma_channel_replaced(old(self), self, c as int);
            if r is Err {
                assert(self@.channels =~= old(self)@.channels);
            }
        }
        r
    }

    /// Thread `t` asks to leave channel `c`. The origin may not leave while
    /// others are connected unless the policy allows it. After a leave the
    /// members left are queued for the detector.
    pub fn leave(&mut self, c: usize, t: usize) -> (r: Result<(), ChannelError>)
        requires
            old(self).wf(),
            c < old(self)@.channels.len(),
            t < old(self)@.threads.len(),
        ensures
            final(self).wf(),
            r == crate::policy::leave_verdict(
                old(self)@.channels[c as int].policy,
                old(self)@.is_member(c, t),
                old(self)@.is_origin(c, t),
                old(self)@.channels[c as int].members.len() > 1,
            ),
            r is Ok ==> old(self)@.after_removal(final(self)@, c, t),
            r is Err ==> final(self)@ == old(self)@,
    {
        let origin = self.is_origin(c, t);
        let r = self.channels[c].leave(t, origin);
        proof {
            Self::lemma_channel_replaced(old(self), self, c as int);
            if r is Err {
                assert(self@.channels =~= old(self)@.channels);
            }
        }
        if r.is_ok() {
            self.queue_members(c);
        }
        r
    }

    /// Removes thread `t` from channel `c` without queuing anybody.
    pub(crate) fn drop_member(&mut self, c: usize, t: usize)
        requires
            old(self).wf(),
            c < old(self)@.channels.len(),
            t < old(self)@.threads.len(),
        ensures
            final(self).wf(),
            final(self)@ == (NetworkView {
                channels: old(self)@.channels.update(
                    c as int,
                    old(self)@.channels[c as int].without(t, old(self)@.is_origin(c, t)),
                ),
                ..old(self)@
            }),
    {
        let origin = self.is_origin(c, t);
        self.channels[c].release(t, origin);
        proof {
            Self::lemma_channel_replaced(old(self), self, c as int);
        }
    }

    /// Queues every member of channel `c` for the detector.
    pub(crate) fn queue_members(&mut self, c: usize)
        requires
            old(self).wf(),
            c < old(self)@.channels.len(),
        ensures
            final(self).wf(),
            final(self)@.channels == old(self)@.channels,
            final(self)@.threads == old(self)@.threads,
            final(self)@.pending.to_set() == old(self)@.pending.to_set().union(
                old(self)@.channels[c as int].members,
            ),
    {
        proof {
            self.lemma_inv();
        }
        let ghost v = self@;
        let members = self.channels[c].members();
        let mut k: usize = 0;
        let mut added: Vec<usize> = Vec::new();
        while k < members.len()
            invariant
                k <= members@.len(),
                members@.to_set() == v.channels[c as int].members,
                added@ == members@.subrange(0, k as int),
            decreases members@.len() - k,
        {
            added.push(members[k]);
            proof {
                assert(added@ =~= members@.subrange(0, k + 1));
            }
            k = k + 1;
        }
        proof {
            assert(added@ =~= members@);
        }
        let mut j: usize = 0;
        while j < added.len()
            invariant
                self.wf(),
                v.inv(),
                c < v.channels.len(),
                j <= added@.len(),
                added@.to_set() == v.channels[c as int].members,
                self@.channels == v.channels,
                self@.threads == v.threads,
                self@.pending.to_set() == v.pending.to_set().union(added@.subrange(0, j as int).to_set()),
            decreases added@.len() - j,
        {
            let m = added[j];
            proof {
                assert(added@.to_set().contains(m));
                assert(v.channels[c as int].members.contains(m));
            }
            let ghost before = self@.pending;
            self.pending.push(m);
            proof {
                before.lemma_push_to_set_commute(m);
                assert(added@.subrange(0, j + 1) =~= added@.subrange(0, j as int).push(m));
                added@.subrange(0, j as int).lemma_push_to_set_commute(m);
                assert(self@.pending.to_set() =~= v.pending.to_set().union(
                    added@.subrange(0, j + 1).to_set(),
                ));
                assert(self@.channels =~= v.channels);
                assert forall|i: int| 0 <= i < self@.pending.len() implies #[trigger] self@.pending[i]
                    < self@.threads.len() by {
                    if i < before.len() {
                        assert(self@.pending[i] == before[i]);
                    }
                }
            }
            j = j + 1;
        }
        proof {
            assert(added@.subrange(0, added@.len() as int) =~= added@);
        }
    }

    /// Removes thread `t` from channel `c` whatever the policy says; if it
    /// was a member, the members that remain are queued for the detector.
    pub fn release(&mut self, c: usize, t: usize)
        requires
            old(self).wf(),
            c < old(self)@.channels.len(),
            t < old(self)@.threads.len(),
        ensures
            final(self).wf(),
            old(self)@.after_removal(final(self)@, c, t),
    {
        let member = self.channels[c].is_member(t);
        self.drop_member(c, t);
        if member {
            self.queue_members(c);
        } else {
            proof {
                assert(self@.pending.to_set() =~= old(self)@.pending.to_set().union(Set::empty()));
            }
        }
    }

    /// Records that thread `t` is now in state `s`; a dead thread stays dead.
    /// A thread that dies is released from every channel it holds, whatever
    /// the policies say, and the threads it shared a channel with are queued
    /// for the detector; a thread that starts to wait is queued too.
    #[verifier::rlimit(40)]
    pub fn set_state(&mut self, t: usize, s: ThreadState)
        requires
            old(self).wf(),
            t < old(self)@.threads.len(),
        ensures
            final(self).wf(),
            old(self)@.threads[t as int].state == ThreadState::Dead ==> final(self)@ == old(self)@,
            old(self)@.threads[t as int].state != ThreadState::Dead ==> final(self)@.threads
                == old(self)@.threads.update(
                t as int,
                ThreadEntry { state: s, ..old(self)@.threads[t as int] },
            ),
            old(self)@.threads[t as int].state != ThreadState::Dead && s == ThreadState::Dead
                ==> final(self)@.channels == old(self)@.released_everywhere(t)
                && final(self)@.pending.to_set() == old(self)@.pending.to_set().union(
                old(self)@.neighbours(t),
            ),
            old(self)@.threads[t as int].state != ThreadState::Dead && s == ThreadState::Wait
                ==> final(self)@.channels == old(self)@.channels && final(self)@.pending == old(
                self,
            )@.pending.push(t),
            old(self)@.threads[t as int].state != ThreadState::Dead && s == ThreadState::Active
                ==> final(self)@.channels == old(self)@.channels && final(self)@.pending == old(
                self,
            )@.pending,
    {
        let entry = self.threads[t];
        if entry.state == ThreadState::Dead {
            return ;
        }
        match s {
            ThreadState::Dead => {
                let n = self.channels.len();
                let mut c: usize = 0;
                while c < n
                    invariant
                        self.wf(),
                        n == self@.channels.len(),
                        c <= n,
                        t < self@.threads.len(),
                        self@.threads == old(self)@.threads,
                        self@.pending.to_set() == old(self)@.pending.to_set().union(
                            Set::new(
                                |m: usize|
                                    exists|i: int|
                                        0 <= i < c && #[trigger] old(self)@.channels[i].members.contains(t)
                                            && old(self)@.channels[i].members.contains(m) && m != t,
                            ),
                        ),
                        self@.channels.len() == old(self)@.channels.len(),
                        forall|i: int|
                            0 <= i < c ==> #[trigger] self@.channels[i] == old(
                                self,
                            )@.released_everywhere(t)[i],
                        forall|i: int| c <= i < n ==> #[trigger] self@.channels[i] == old(self)@.channels[i],
                    decreases n - c,
                {
                    let ghost before = self@;
                    self.release(c, t);
                    proof {
                        let ch = old(self)@.channels[c as int];
                        assert(before.channels[c as int] == ch);
                        assert(self@.channels[c as int] == ch.without(t, old(self)@.is_origin(c, t)));
                        assert(self@.pending.to_set() =~= old(self)@.pending.to_set().union(
                            Set::new(
                                |m: usize|
                                    exists|i: int|
                                        0 <= i < c + 1 && #[trigger] old(self)@.channels[i].members.contains(t)
                                            && old(self)@.channels[i].members.contains(m) && m != t,
                            ),
                        )) by {
                            assert forall|m: usize|
                                (exists|i: int|
                                    0 <= i < c + 1 && #[trigger] old(self)@.channels[i].members.contains(t)
                                        && old(self)@.channels[i].members.contains(m) && m != t)
                                    <==> ((exists|i: int|
                                    0 <= i < c && #[trigger] old(self)@.channels[i].members.contains(t)
                                        && old(self)@.channels[i].members.contains(m) && m != t) || (
                                ch.members.contains(t) && ch.members.contains(m) && m != t)) by {
                                if ch.members.contains(t) && ch.members.contains(m) && m != t {
                                    assert(old(self)@.channels[c as int].members.contains(t));
                                }
                            }
                        }
                        assert forall|i: int| c + 1 <= i < n implies #[trigger] self@.channels[i]
                            == old(self)@.channels[i] by {
                            assert(self@.channels[i] == before.channels[i]);
                        }
                        assert forall|i: int| 0 <= i < c + 1 implies #[trigger] self@.channels[i]
                            == old(self)@.released_everywhere(t)[i] by {
                            if i < c {
                                assert(self@.channels[i] == before.channels[i]);
                            }
                        }
                    }
                    c = c + 1;
                }
                proof {
                    assert(Set::new(
                        |m: usize|
                            exists|i: int|
                                0 <= i < n && #[trigger] old(self)@.channels[i].members.contains(t)
                                    && old(self)@.channels[i].members.contains(m) && m != t,
                    ) =~= old(self)@.neighbours(t));
                }
                let ghost released = self@;
                let ghost recs = self.channels@;
                self.threads[t] = ThreadEntry { origin: entry.origin, state: ThreadState::Dead };
                proof {
                    assert(self@.pending == released.pending);
                    assert(self@.threads.len() == released.threads.len());
                    assert forall|i: int| 0 <= i < self@.pending.len() implies #[trigger] self@.pending[i]
                        < self@.threads.len() by {
                        assert(released.pending[i] < released.threads.len());
                    }
                    assert forall|c: int| 0 <= c < self.channels@.len() implies #[trigger] self.channels@[c].wf() by {
                        assert(recs[c].wf());
                    }
                    assert(self@.channels =~= old(self)@.released_everywhere(t));
                    assert(self.channels@ == recs);
                    assert forall|i: int, m: usize|
                        0 <= i < self@.channels.len() && #[trigger] self@.channels[i].members.contains(
                            m,
                        ) implies m < self@.threads.len() && self@.threads[m as int].state
                        != ThreadState::Dead by {
                        assert(released.channels[i].members.contains(m));
                        assert(m != t);
                    }
                }
            },
            _ => {
                self.threads[t] = ThreadEntry { origin: entry.origin, state: s };
                if s == ThreadState::Wait {
                    self.pending.push(t);
                }
                proof {
                    assert(self@.channels =~= old(self)@.channels);
                    assert forall|i: int, m: usize|
                        0 <= i < self@.channels.len() && #[trigger] self@.channels[i].members.contains(
                            m,
                        ) implies m < self@.threads.len() && self@.threads[m as int].state
                        != ThreadState::Dead by {
                        assert(old(self)@.channels[i].members.contains(m));
                    }
                    assert forall|i: int| 0 <= i < self@.pending.len() implies #[trigger] self@.pending[i]
                        < self@.threads.len() by {
                        if i < old(self)@.pending.len() {
                            assert(self@.pending[i] == old(self)@.pending[i]);
                        }
                    }
                }
            },
        }
    }

    /// Empties the detector's queue.
    pub fn clear_pending(&mut self)
        requires
            old(self).wf(),
        ensures
            final(self).wf(),
            final(self)@ == (NetworkView { pending: Seq::empty(), ..old(self)@ }),
    {
        self.pending.clear();
        proof {
            assert(self@.pending =~= Seq::<usize>::empty());
            assert(self@.channels == old(self)@.channels);
        }
    }

    fn is_origin(&self, c: usize, t: usize) -> (r: bool)
        requires
            c < self@.channels.len(),
            t < self@.threads.len(),
        ensures
            r == self@.is_origin(c, t),
    {
        self.threads[t].origin == self.channels[c].origin()
    }
}

} // verus!
