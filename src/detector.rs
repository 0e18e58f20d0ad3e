//! The wait-for graph, the deadlock detector, and recovery of the channels
//! of halted components.

use vstd::prelude::*;

use crate::network::{Network, NetworkView, ThreadState};
use crate::registry::ChannelState;

verus! {

broadcast use vstd::seq_lib::group_seq_properties;

/// Thread `t` exists and is blocked in `Wait`.
pub open spec fn is_waiting(v: NetworkView, t: usize) -> bool {
    t < v.threads.len() && v.threads[t as int].state == ThreadState::Wait
}

/// Threads `ts` and channels `cs` are closed under the edges of the
/// wait-for graph: each channel that a thread of `ts` holds is in `cs`, and
/// each waiting member of a channel of `cs` is in `ts`.
pub open spec fn closed(v: NetworkView, ts: Set<usize>, cs: Set<usize>) -> bool {
    &&& forall|t: usize, c: usize|
        #![trigger ts.contains(t), v.channels[c as int].members.contains(t)]
        ts.contains(t) && c < v.channels.len() && v.channels[c as int].members.contains(t)
            ==> cs.contains(c)
    &&& forall|c: usize, m: usize|
        #![trigger cs.contains(c), v.channels[c as int].members.contains(m)]
        cs.contains(c) && c < v.channels.len() && v.channels[c as int].members.contains(m)
            && is_waiting(v, m) ==> ts.contains(m)
}

/// `ts` and `cs` are the component of waiting thread `t0` in the wait-for
/// graph: the least closed pair that holds `t0`.
pub open spec fn is_component(v: NetworkView, t0: usize, ts: Set<usize>, cs: Set<usize>) -> bool {
    &&& ts.contains(t0)
    &&& closed(v, ts, cs)
    &&& forall|t: usize| #[trigger] ts.contains(t) ==> is_waiting(v, t)
    &&& forall|c: usize| #[trigger] cs.contains(c) ==> c < v.channels.len()
    &&& forall|ts2: Set<usize>, cs2: Set<usize>|
        #[trigger] closed(v, ts2, cs2) && ts2.contains(t0) ==> ts.subset_of(ts2) && cs.subset_of(
            cs2,
        )
}

/// A component is halted when every member of each of its channels waits:
/// nobody is left who could signal. A waiting thread that holds no channel
/// forms a halted component of its own.
pub open spec fn is_halted(v: NetworkView, cs: Set<usize>) -> bool {
    forall|c: usize, m: usize|
        #![trigger cs.contains(c), v.channels[c as int].members.contains(m)]
        cs.contains(c) && v.channels[c as int].members.contains(m) ==> is_waiting(v, m)
}

/// A deadlock found by the detector: the threads and channels of one halted
/// component.
#[derive(Debug)]
pub struct HaltedState {
    pub thread_ids: Vec<usize>,
    pub channel_ids: Vec<usize>,
}

impl HaltedState {
    pub open spec fn threads(&self) -> Set<usize> {
        self.thread_ids@.to_set()
    }

    pub open spec fn channels(&self) -> Set<usize> {
        self.channel_ids@.to_set()
    }
}

/// `h` names a halted component of a thread queued for the detector.
pub open spec fn is_report(v: NetworkView, h: HaltedState) -> bool {
    exists|i: int|
        0 <= i < v.pending.len() && #[trigger] is_component(
            v,
            v.pending[i],
            h.threads(),
            h.channels(),
        ) && is_halted(v, h.channels())
}

/// Some event of `events` names exactly threads `ts` and channels `cs`.
pub open spec fn reported(events: Seq<HaltedState>, ts: Set<usize>, cs: Set<usize>) -> bool {
    exists|k: int|
        0 <= k < events.len() && #[trigger] events[k].threads() == ts && events[k].channels() == cs
}

/// No two events share a thread.
pub open spec fn pairwise_disjoint(events: Seq<HaltedState>) -> bool {
    forall|k: int, l: int|
        0 <= k < events.len() && 0 <= l < events.len() && k != l ==> #[trigger] events[k].threads().disjoint(
            #[trigger] events[l].threads(),
        )
}

/// Recovery may release member `m` of channel `c`: the origin keeps its
/// place unless the policy lets it leave.
pub open spec fn releasable(v: NetworkView, c: usize, m: usize) -> bool {
    v.channels[c as int].policy.origin_can_leave || !v.is_origin(c, m)
}

/// Channel `c` once recovery released every member it may release.
pub open spec fn recovered(v: NetworkView, c: usize) -> ChannelState {
    let ch = v.channels[c as int];
    ChannelState {
        members: ch.members.filter(|m: usize| !releasable(v, c, m)),
        origin_left: ch.origin_left || exists|m: usize|
            #![trigger ch.members.contains(m)]
            ch.members.contains(m) && releasable(v, c, m) && v.is_origin(c, m),
        ..ch
    }
}

/// Recovery of channel `c` releases at least one member.
pub open spec fn recovery_releases(v: NetworkView, c: usize) -> bool {
    exists|m: usize| #[trigger] v.channels[c as int].members.contains(m) && releasable(v, c, m)
}

/// The threads that recovery of channel `c` queues for the detector: those
/// it leaves in the channel, if it released anybody.
pub open spec fn requeued(v: NetworkView, c: usize) -> Set<usize> {
    if recovery_releases(v, c) {
        recovered(v, c).members
    } else {
        Set::empty()
    }
}

/// The threads that recovering the channels named by `events`, or listed
/// in `more`, queues for the detector.
pub open spec fn requeued_by(v: NetworkView, events: Seq<HaltedState>, more: Seq<usize>) -> Set<
    usize,
> {
    Set::new(
        |m: usize|
            exists|c: usize|
                c < v.channels.len() && (in_events(events, c) || more.contains(c))
                    && #[trigger] requeued(v, c).contains(m),
    )
}

/// Recovering a channel a second time changes nothing and queues nobody.
proof fn lemma_requeue_step(v: NetworkView, before: NetworkView, c: usize)
    requires
        before.threads == v.threads,
        before.channels.len() == v.channels.len(),
        c < v.channels.len(),
        before.channels[c as int] == v.channels[c as int] || before.channels[c as int]
            == recovered(v, c),
    ensures
        recovered(before, c) == recovered(v, c),
        before.channels[c as int] == v.channels[c as int] ==> requeued(before, c) == requeued(v, c),
        requeued(before, c).subset_of(requeued(v, c)),
{
    let r = recovered(v, c);
    let b = before.channels[c as int];
    assert(b.policy == v.channels[c as int].policy);
    assert(b.origin == v.channels[c as int].origin);
    assert forall|m: usize| #[trigger] releasable(before, c, m) == releasable(v, c, m) by {}
    assert(recovered(before, c).members =~= r.members);
    if b != v.channels[c as int] {
        assert(b == r);
        assert(!(exists|m: usize|
            #![trigger b.members.contains(m)]
            b.members.contains(m) && releasable(before, c, m) && before.is_origin(c, m)));
        assert(!recovery_releases(before, c));
        assert(requeued(before, c) =~= Set::empty());
    } else {
        assert(recovery_releases(before, c) == recovery_releases(v, c));
    }
}

/// Some event of `events` names channel `c`.
pub open spec fn in_events(events: Seq<HaltedState>, c: usize) -> bool {
    exists|k: int| 0 <= k < events.len() && #[trigger] events[k].channels().contains(c)
}

/// A sequence without repetition of numbers below `n` has at most `n` items.
proof fn lemma_distinct_below(s: Seq<usize>, n: usize)
    requires
        s.no_duplicates(),
        forall|i: int| 0 <= i < s.len() ==> s[i] < n,
    ensures
        s.len() <= n,
{
    broadcast use vstd::set_lib::range_set_properties;

    s.unique_seq_to_set();
    let r = Set::<usize>::range(0, n);
    assert(s.to_set().subset_of(r));
    vstd::set_lib::lemma_len_subset(s.to_set(), r);
}

/// Two components that share a thread are the same component.
pub proof fn lemma_components_meet(
    v: NetworkView,
    a: usize,
    ta: Set<usize>,
    ca: Set<usize>,
    b: usize,
    tb: Set<usize>,
    cb: Set<usize>,
    x: usize,
)
    requires
        is_component(v, a, ta, ca),
        is_component(v, b, tb, cb),
        ta.contains(x),
        tb.contains(x),
    ensures
        ta == tb,
        ca == cb,
{
    lemma_root_inside(v, a, ta, ca, b, tb, cb, x);
    lemma_root_inside(v, b, tb, cb, a, ta, ca, x);
    assert(closed(v, tb, cb) && tb.contains(a));
    assert(closed(v, ta, ca) && ta.contains(b));
    assert(ta =~= tb);
    assert(ca =~= cb);
}

/// If the components of `a` and `b` share a thread, `a` lies in the
/// component of `b`.
proof fn lemma_root_inside(
    v: NetworkView,
    a: usize,
    ta: Set<usize>,
    ca: Set<usize>,
    b: usize,
    tb: Set<usize>,
    cb: Set<usize>,
    x: usize,
)
    requires
        is_component(v, a, ta, ca),
        is_component(v, b, tb, cb),
        ta.contains(x),
        tb.contains(x),
    ensures
        tb.contains(a),
{
    if !tb.contains(a) {
        let t3 = ta.difference(tb);
        let c3 = ca.difference(cb);
        assert forall|t: usize, c: usize|
            t3.contains(t) && c < v.channels.len() && v.channels[c as int].members.contains(
                t,
            ) implies c3.contains(c) by {
            assert(ca.contains(c));
            if cb.contains(c) {
                assert(is_waiting(v, t));
                assert(tb.contains(t));
            }
        }
        assert forall|c: usize, m: usize|
            c3.contains(c) && c < v.channels.len() && v.channels[c as int].members.contains(m)
                && is_waiting(v, m) implies t3.contains(m) by {
            assert(ta.contains(m));
            if tb.contains(m) {
                assert(cb.contains(c));
            }
        }
        assert(closed(v, t3, c3));
        assert(t3.contains(a));
        assert(ta.subset_of(t3));
        assert(t3.contains(x));
    }
}

/// Whether some event of `events` names thread `t`.
fn named_by(events: &Vec<HaltedState>, t: usize) -> (r: bool)
    ensures
        r == exists|k: int| 0 <= k < events@.len() && #[trigger] events@[k].threads().contains(t),
{
    let mut k: usize = 0;
    while k < events.len()
        invariant
            k <= events@.len(),
            forall|j: int| 0 <= j < k ==> !#[trigger] events@[j].threads().contains(t),
        decreases events@.len() - k,
    {
        if crate::registry::contains(&events[k].thread_ids, t) {
            proof {
                assert(events@[k as int].threads().contains(t));
            }
            return true;
        }
        k = k + 1;
    }
    false
}

impl Network {
    /// Whether every member of every channel of `cs` waits.
    fn all_waiting(&self, cs: &Vec<usize>) -> (r: bool)
        requires
            self.wf(),
            forall|j: int| 0 <= j < cs@.len() ==> #[trigger] cs@[j] < self@.channels.len(),
        ensures
            r == is_halted(self@, cs@.to_set()),
    {
        proof {
            self.lemma_inv();
        }
        let ghost v = self@;
        let mut j: usize = 0;
        while j < cs.len()
            invariant
                self.wf(),
                v == self@,
                v.inv(),
                j <= cs@.len(),
                forall|i: int| 0 <= i < cs@.len() ==> #[trigger] cs@[i] < v.channels.len(),
                forall|i: int, m: usize|
                    0 <= i < j && #[trigger] v.channels[cs@[i] as int].members.contains(m)
                        ==> is_waiting(v, m),
            decreases cs@.len() - j,
        {
            let c = cs[j];
            let members = self.channel(c).members();
            let mut k: usize = 0;
            while k < members.len()
                invariant
                    self.wf(),
                    v == self@,
                    v.inv(),
                    j < cs@.len(),
                    c == cs@[j as int],
                    c < v.channels.len(),
                    members@.to_set() == v.channels[c as int].members,
                    k <= members@.len(),
                    forall|i: int| 0 <= i < k ==> is_waiting(v, #[trigger] members@[i]),
                decreases members@.len() - k,
            {
                let m = members[k];
                proof {
                    assert(members@.to_set().contains(m));
                    assert(v.channels[c as int].members.contains(m));
                }
                if self.state(m) != ThreadState::Wait {
                    proof {
                        assert(cs@.to_set().contains(c));
                        assert(!is_waiting(v, m));
                    }
                    return false;
                }
                k = k + 1;
            }
            proof {
                assert forall|m: usize| #[trigger]
                    v.channels[c as int].members.contains(m) implies is_waiting(v, m) by {
                    assert(members@.to_set().contains(m));
                    let i = choose|i: int| 0 <= i < members@.len() && members@[i] == m;
                    assert(is_waiting(v, members@[i]));
                }
            }
            j = j + 1;
        }
        proof {
            assert forall|c: usize, m: usize|
                cs@.to_set().contains(c) && v.channels[c as int].members.contains(
                    m,
                ) implies is_waiting(v, m) by {
                let i = choose|i: int| 0 <= i < cs@.len() && cs@[i] == c;
                assert(v.channels[cs@[i] as int].members.contains(m));
            }
        }
        true
    }

    /// One pass of the detector over the threads queued since the last pass:
    /// one event for each distinct halted component that holds one of them,
    /// and none for any other component.
    pub fn detect(&self) -> (events: Vec<HaltedState>)
        requires
            self.wf(),
        ensures
            forall|k: int| 0 <= k < events@.len() ==> is_report(self@, #[trigger] events@[k]),
            forall|i: int, ts: Set<usize>, cs: Set<usize>|
                0 <= i < self@.pending.len() && #[trigger] is_component(self@, self@.pending[i], ts, cs)
                    && is_halted(self@, cs) ==> reported(events@, ts, cs),
            pairwise_disjoint(events@),
    {
        let ghost v = self@;
        let pending = self.pending();
        let mut events: Vec<HaltedState> = Vec::new();
        let mut i: usize = 0;
        while i < pending.len()
            invariant
                self.wf(),
                v == self@,
                pending@ == v.pending,
                i <= pending@.len(),
                forall|k: int| 0 <= k < events@.len() ==> is_report(v, #[trigger] events@[k]),
                forall|j: int, ts: Set<usize>, cs: Set<usize>|
                    0 <= j < i && #[trigger] is_component(v, v.pending[j], ts, cs) && is_halted(v, cs)
                        ==> reported(events@, ts, cs),
                pairwise_disjoint(events@),
            decreases pending@.len() - i,
        {
            let p = pending[i];
            if named_by(&events, p) {
                proof {
                    let k = choose|k: int| 0 <= k < events@.len() && #[trigger] events@[k].threads().contains(p);
                    let e = events@[k];
                    assert(is_report(v, e));
                    let i2 = choose|i2: int|
                        0 <= i2 < v.pending.len() && #[trigger] is_component(
                            v,
                            v.pending[i2],
                            e.threads(),
                            e.channels(),
                        ) && is_halted(v, e.channels());
                    assert forall|ts: Set<usize>, cs: Set<usize>|
                        #[trigger] is_component(v, v.pending[i as int], ts, cs) && is_halted(v, cs)
                        implies reported(events@, ts, cs) by {
                        lemma_components_meet(
                            v,
                            p,
                            ts,
                            cs,
                            v.pending[i2],
                            e.threads(),
                            e.channels(),
                            p,
                        );
                    }
                }
            } else {
                match self.halted_component(p) {
                    Some(h) => {
                        let ghost before = events@;
                        proof {
                            assert(is_report(v, h));
                            assert forall|k: int|
                                0 <= k < before.len() implies #[trigger] before[k].threads().disjoint(
                                h.threads(),
                            ) by {
                                let e = before[k];
                                assert(is_report(v, e));
                                let i2 = choose|i2: int|
                                    0 <= i2 < v.pending.len() && #[trigger] is_component(
                                        v,
                                        v.pending[i2],
                                        e.threads(),
                                        e.channels(),
                                    ) && is_halted(v, e.channels());
                                if !e.threads().disjoint(h.threads()) {
                                    let x = choose|x: usize|
                                        e.threads().contains(x) && h.threads().contains(x);
                                    lemma_components_meet(
                                        v,
                                        p,
                                        h.threads(),
                                        h.channels(),
                                        v.pending[i2],
                                        e.threads(),
                                        e.channels(),
                                        x,
                                    );
                                    assert(e.threads().contains(p));
                                }
                            }
                        }
                        events.push(h);
                        proof {
                            assert forall|k: int| 0 <= k < events@.len() implies is_report(
                                v,
                                #[trigger] events@[k],
                            ) by {
                                if k < before.len() {
                                    assert(events@[k] == before[k]);
                                }
                            }
                            assert forall|k: int, l: int|
                                0 <= k < events@.len() && 0 <= l < events@.len() && k != l
                                    implies #[trigger] events@[k].threads().disjoint(
                                #[trigger] events@[l].threads(),
                            ) by {
                                if k < before.len() && l < before.len() {
                                    assert(events@[k] == before[k]);
                                    assert(events@[l] == before[l]);
                                } else if k < before.len() {
                                    assert(events@[k] == before[k]);
                                    assert(before[k].threads().disjoint(h.threads()));
                                } else {
                                    assert(events@[l] == before[l]);
                                    assert(before[l].threads().disjoint(h.threads()));
                                }
                            }
                            assert forall|j: int, ts: Set<usize>, cs: Set<usize>|
                                0 <= j < i + 1 && #[trigger] is_component(v, v.pending[j], ts, cs)
                                    && is_halted(v, cs) implies reported(events@, ts, cs) by {
                                if j < i {
                                    assert(reported(before, ts, cs));
                                    let k = choose|k: int|
                                        0 <= k < before.len() && #[trigger] before[k].threads()
                                            == ts && before[k].channels() == cs;
                                    assert(events@[k] == before[k]);
                                } else {
                                    lemma_components_meet(
                                        v,
                                        p,
                                        ts,
                                        cs,
                                        p,
                                        h.threads(),
                                        h.channels(),
                                        p,
                                    );
                                    assert(events@[before.len() as int] == h);
                                }
                            }
                        }
                    },
                    None => {},
                }
            }
            i = i + 1;
        }
        events
    }

    /// Releases from channel `c` every member that recovery may release;
    /// if it released anybody, the members left are queued for the
    /// detector.
    pub fn recover_channel(&mut self, c: usize)
        requires
            old(self).wf(),
            c < old(self)@.channels.len(),
        ensures
            final(self).wf(),
            final(self)@.channels == old(self)@.channels.update(c as int, recovered(old(self)@, c)),
            final(self)@.threads == old(self)@.threads,
            final(self)@.pending.to_set() == old(self)@.pending.to_set().union(
                requeued(old(self)@, c),
            ),
    {
        let ghost v = self@;
        let ghost ch = v.channels[c as int];
        let members = self.channel(c).members();
        let mut ms: Vec<usize> = Vec::new();
        let mut i: usize = 0;
        while i < members.len()
            invariant
                i <= members@.len(),
                ms@ == members@.subrange(0, i as int),
            decreases members@.len() - i,
        {
            ms.push(members[i]);
            proof {
                assert(ms@ =~= members@.subrange(0, i + 1));
            }
            i = i + 1;
        }
        proof {
            assert(ms@ =~= members@);
            self.lemma_inv();
        }
        let can_leave = self.policy(c).origin_can_leave();
        let origin = self.channel(c).origin();
        let mut k: usize = 0;
        let mut removed = false;
        while k < ms.len()
            invariant
                self.wf(),
                removed == exists|j: int| 0 <= j < k && releasable(v, c, #[trigger] ms@[j]),
                v.inv(),
                c < v.channels.len(),
                ch == v.channels[c as int],
                can_leave == ch.policy.origin_can_leave,
                origin == ch.origin,
                k <= ms@.len(),
                ms@.to_set() == ch.members,
                self@.threads == v.threads,
                self@.pending == v.pending,
                self@.channels.len() == v.channels.len(),
                forall|i: int| 0 <= i < v.channels.len() && i != c ==> self@.channels[i] == v.channels[i],
                self@.channels[c as int].id == ch.id,
                self@.channels[c as int].origin == ch.origin,
                self@.channels[c as int].policy == ch.policy,
                self@.channels[c as int].invited == ch.invited,
                forall|m: usize|
                    self@.channels[c as int].members.contains(m) <==> ch.members.contains(m) && !(
                    releasable(v, c, m) && exists|j: int| 0 <= j < k && ms@[j] == m),
                self@.channels[c as int].origin_left == (ch.origin_left || exists|j: int|
                    0 <= j < k && releasable(v, c, #[trigger] ms@[j]) && v.is_origin(c, ms@[j])),
            decreases ms@.len() - k,
        {
            let m = ms[k];
            proof {
                assert(ms@.to_set().contains(m));
                assert(v.channels[c as int].members.contains(m));
            }
            let ghost before = self@;
            if can_leave || self.thread_origin(m) != origin {
                self.drop_member(c, m);
                removed = true;
                proof {
                    assert(releasable(v, c, ms@[k as int]));
                    assert forall|x: usize|
                        self@.channels[c as int].members.contains(x) <==> ch.members.contains(x)
                            && !(releasable(v, c, x) && exists|j: int| 0 <= j < k + 1 && ms@[j] == x) by {
                        if x == m {
                            assert(ms@[k as int] == x);
                        } else if exists|j: int| 0 <= j < k + 1 && ms@[j] == x {
                            let j = choose|j: int| 0 <= j < k + 1 && ms@[j] == x;
                            assert(j < k);
                        }
                    }
                    if before.channels[c as int].origin_left {
                    } else if v.is_origin(c, m) {
                        assert(releasable(v, c, ms@[k as int]) && v.is_origin(c, ms@[k as int]));
                    } else {
                        if exists|j: int|
                            0 <= j < k + 1 && releasable(v, c, #[trigger] ms@[j]) && v.is_origin(
                                c,
                                ms@[j],
                            ) {
                            let j = choose|j: int|
                                0 <= j < k + 1 && releasable(v, c, #[trigger] ms@[j])
                                    && v.is_origin(c, ms@[j]);
                            assert(j < k);
                        }
                    }
                    assert forall|i: int| 0 <= i < v.channels.len() && i != c implies self@.channels[i]
                        == v.channels[i] by {
                        assert(self@.channels[i] == before.channels[i]);
                    }
                }
            } else {
                proof {
                    assert(!releasable(v, c, ms@[k as int]));
                    if exists|j: int| 0 <= j < k + 1 && releasable(v, c, #[trigger] ms@[j]) {
                        let j = choose|j: int| 0 <= j < k + 1 && releasable(v, c, #[trigger] ms@[j]);
                        assert(j < k);
                    }
                    assert forall|x: usize|
                        self@.channels[c as int].members.contains(x) <==> ch.members.contains(x)
                            && !(releasable(v, c, x) && exists|j: int| 0 <= j < k + 1 && ms@[j] == x) by {
                        if exists|j: int| 0 <= j < k + 1 && ms@[j] == x && x != m {
                            let j = choose|j: int| 0 <= j < k + 1 && ms@[j] == x && x != m;
                            assert(j < k);
                        }
                    }
                    if exists|j: int|
                        0 <= j < k + 1 && releasable(v, c, #[trigger] ms@[j]) && v.is_origin(
                            c,
                            ms@[j],
                        ) {
                        let j = choose|j: int|
                            0 <= j < k + 1 && releasable(v, c, #[trigger] ms@[j]) && v.is_origin(
                                c,
                                ms@[j],
                            );
                        assert(j < k);
                    }
                }
            }
            k = k + 1;
        }
        proof {
            let r = recovered(v, c);
            assert(self@.channels[c as int].members =~= r.members) by {
                assert forall|m: usize| #[trigger] self@.channels[c as int].members.contains(m) <==> r.members.contains(m) by {
                    if ch.members.contains(m) {
                        assert(ms@.to_set().contains(m));
                        let j = choose|j: int| 0 <= j < ms@.len() && ms@[j] == m;
                    }
                }
            }
            if r.origin_left && !ch.origin_left {
                let m = choose|m: usize|
                    #![trigger ch.members.contains(m)]
                    ch.members.contains(m) && releasable(v, c, m) && v.is_origin(c, m);
                assert(ms@.to_set().contains(m));
                let j = choose|j: int| 0 <= j < ms@.len() && ms@[j] == m;
                assert(releasable(v, c, ms@[j]) && v.is_origin(c, ms@[j]));
            }
            if self@.channels[c as int].origin_left && !ch.origin_left {
                let j = choose|j: int|
                    0 <= j < ms@.len() && releasable(v, c, #[trigger] ms@[j]) && v.is_origin(c, ms@[j]);
                assert(ms@.to_set().contains(ms@[j]));
                assert(ch.members.contains(ms@[j]));
            }
            assert(self@.channels[c as int] == r);
            assert(self@.channels =~= v.channels.update(c as int, r));
            if recovery_releases(v, c) {
                let m = choose|m: usize| #[trigger] v.channels[c as int].members.contains(m) && releasable(v, c, m);
                assert(ms@.to_set().contains(m));
                let j = choose|j: int| 0 <= j < ms@.len() && ms@[j] == m;
                assert(releasable(v, c, ms@[j]));
            }
            if removed {
                let j = choose|j: int| 0 <= j < ms@.len() && releasable(v, c, #[trigger] ms@[j]);
                assert(ms@.to_set().contains(ms@[j]));
                assert(v.channels[c as int].members.contains(ms@[j]));
            }
        }
        if removed {
            self.queue_members(c);
        } else {
            proof {
                assert(self@.pending.to_set() =~= v.pending.to_set().union(requeued(v, c)));
            }
        }
    }

    /// Recovers every channel that an event of `events` names, and queues
    /// for the detector the threads left in the channels it released from.
    pub fn recover(&mut self, events: &Vec<HaltedState>)
        requires
            old(self).wf(),
            forall|k: int, c: usize|
                0 <= k < events@.len() && #[trigger] events@[k].channels().contains(c) ==> c < old(
                    self,
                )@.channels.len(),
        ensures
            final(self).wf(),
            final(self)@.threads == old(self)@.threads,
            final(self)@.pending.to_set() == old(self)@.pending.to_set().union(
                requeued_by(old(self)@, events@, Seq::empty()),
            ),
            final(self)@.channels.len() == old(self)@.channels.len(),
            forall|c: usize|
                c < old(self)@.channels.len() ==> #[trigger] final(self)@.channels[c as int] == if in_events(
                    events@,
                    c,
                ) {
                    recovered(old(self)@, c)
                } else {
                    old(self)@.channels[c as int]
                },
    {
        let ghost v = self@;
        let mut k: usize = 0;
        proof {
            assert(requeued_by(v, events@.subrange(0, 0), Seq::empty()) =~= Set::empty());
            assert(self@.pending.to_set() =~= v.pending.to_set().union(Set::empty()));
        }
        while k < events.len()
            invariant
                self.wf(),
                k <= events@.len(),
                forall|k2: int, c: usize|
                    0 <= k2 < events@.len() && #[trigger] events@[k2].channels().contains(c) ==> c
                        < v.channels.len(),
                self@.threads == v.threads,
                self@.pending.to_set() == v.pending.to_set().union(
                    requeued_by(v, events@.subrange(0, k as int), Seq::empty()),
                ),
                self@.channels.len() == v.channels.len(),
                forall|c: usize|
                    c < v.channels.len() ==> #[trigger] self@.channels[c as int] == if in_events(
                        events@.subrange(0, k as int),
                        c,
                    ) {
                        recovered(v, c)
                    } else {
                        v.channels[c as int]
                    },
            decreases events@.len() - k,
        {
            let ids = &events[k].channel_ids;
            let mut j: usize = 0;
            proof {
                assert(requeued_by(v, events@.subrange(0, k as int), ids@.subrange(0, 0))
                    =~= requeued_by(v, events@.subrange(0, k as int), Seq::empty()));
            }
            while j < ids.len()
                invariant
                    self.wf(),
                    k < events@.len(),
                    ids@ == events@[k as int].channel_ids@,
                    j <= ids@.len(),
                    forall|k2: int, c: usize|
                        0 <= k2 < events@.len() && #[trigger] events@[k2].channels().contains(c) ==> c
                            < v.channels.len(),
                    self@.threads == v.threads,
                    self@.pending.to_set() == v.pending.to_set().union(
                        requeued_by(v, events@.subrange(0, k as int), ids@.subrange(0, j as int)),
                    ),
                    self@.channels.len() == v.channels.len(),
                    forall|c: usize|
                        c < v.channels.len() ==> #[trigger] self@.channels[c as int] == if in_events(
                            events@.subrange(0, k as int),
                            c,
                        ) || exists|i: int| 0 <= i < j && ids@[i] == c {
                            recovered(v, c)
                        } else {
                            v.channels[c as int]
                        },
                decreases ids@.len() - j,
            {
                let c = ids[j];
                proof {
                    assert(events@[k as int].channels().contains(c));
                }
                let ghost before = self@;
                self.recover_channel(c);
                proof {
                    lemma_requeue_step(v, before, c);
                    let sub = events@.subrange(0, k as int);
                    let old_done = ids@.subrange(0, j as int);
                    let done = ids@.subrange(0, j + 1);
                    assert forall|x: usize| done.contains(x) <==> old_done.contains(x) || x == c by {
                        if old_done.contains(x) {
                            let i = choose|i: int| 0 <= i < old_done.len() && old_done[i] == x;
                            assert(done[i] == x);
                        }
                        if x == c {
                            assert(done[j as int] == x);
                        }
                        if done.contains(x) {
                            let i = choose|i: int| 0 <= i < done.len() && done[i] == x;
                            if i < j {
                                assert(old_done[i] == x);
                            }
                        }
                    }
                    let processed = in_events(sub, c) || exists|i: int| 0 <= i < j && ids@[i] == c;
                    if processed {
                        if exists|i: int| 0 <= i < j && ids@[i] == c {
                            let i = choose|i: int| 0 <= i < j && ids@[i] == c;
                            assert(old_done[i] == c);
                        }
                    } else {
                        assert(!old_done.contains(c));
                    }
                    assert(self@.pending.to_set() =~= v.pending.to_set().union(
                        requeued_by(v, sub, done),
                    )) by {
                        assert forall|m: usize| #[trigger] requeued_by(v, sub, done).contains(m) <==> (
                        requeued_by(v, sub, old_done).contains(m) || requeued(before, c).contains(m)) by {
                            if requeued_by(v, sub, done).contains(m) {
                                let c2 = choose|c2: usize|
                                    c2 < v.channels.len() && (in_events(sub, c2) || done.contains(c2))
                                        && #[trigger] requeued(v, c2).contains(m);
                                if c2 != c || in_events(sub, c2) || old_done.contains(c2) {
                                    assert(requeued_by(v, sub, old_done).contains(m));
                                } else if !processed {
                                    assert(requeued(before, c).contains(m));
                                } else {
                                    assert(requeued_by(v, sub, old_done).contains(m));
                                }
                            }
                            if requeued(before, c).contains(m) {
                                assert(requeued(v, c).contains(m));
                                assert(done.contains(c));
                            }
                        }
                    }
                    assert forall|c2: usize| c2 < v.channels.len() implies #[trigger] self@.channels[c2 as int]
                        == if in_events(events@.subrange(0, k as int), c2) || exists|i: int|
                        0 <= i < j + 1 && ids@[i] == c2 {
                        recovered(v, c2)
                    } else {
                        v.channels[c2 as int]
                    } by {
                        if c2 == c {
                            assert(ids@[j as int] == c2);
                        } else {
                            assert(self@.channels[c2 as int] == before.channels[c2 as int]);
                            if exists|i: int| 0 <= i < j + 1 && ids@[i] == c2 {
                                let i = choose|i: int| 0 <= i < j + 1 && ids@[i] == c2;
                                assert(i < j);
                            }
                        }
                    }
                }
                j = j + 1;
            }
            proof {
                let sub = events@.subrange(0, k as int);
                let sub1 = events@.subrange(0, k + 1);
                assert forall|c: usize|
                    in_events(sub1, c) <==> in_events(sub, c) || ids@.contains(c) by {
                    if in_events(sub, c) {
                        let k2 = choose|k2: int| 0 <= k2 < sub.len() && #[trigger] sub[k2].channels().contains(c);
                        assert(sub1[k2] == sub[k2]);
                    }
                    if ids@.contains(c) {
                        assert(sub1[k as int].channels().contains(c));
                    }
                    if in_events(sub1, c) {
                        let k2 = choose|k2: int| 0 <= k2 < sub1.len() && #[trigger] sub1[k2].channels().contains(c);
                        if k2 < k {
                            assert(sub[k2] == sub1[k2]);
                        } else {
                            assert(ids@.to_set().contains(c));
                        }
                    }
                }
                assert(ids@.subrange(0, ids@.len() as int) =~= ids@);
                assert(requeued_by(v, sub1, Seq::empty()) =~= requeued_by(v, sub, ids@));
                assert forall|c: usize| c < v.channels.len() implies #[trigger] self@.channels[c as int]
                    == if in_events(sub1, c) {
                    recovered(v, c)
                } else {
                    v.channels[c as int]
                } by {
                    if exists|i: int| 0 <= i < ids@.len() && ids@[i] == c {
                        assert(ids@.contains(c));
                    }
                    if ids@.contains(c) {
                        let i = choose|i: int| 0 <= i < ids@.len() && ids@[i] == c;
                    }
                }
            }
            k = k + 1;
        }
        proof {
            assert(events@.subrange(0, events@.len() as int) =~= events@);
        }
    }

    /// Runs the detector over the queued threads, empties the queue,
    /// recovers the channels of each halted component found, and returns
    /// one event per distinct halted component. The threads that recovery
    /// leaves in a channel it released from are queued for the next pass.
    pub fn poll(&mut self) -> (events: Vec<HaltedState>)
        requires
            old(self).wf(),
        ensures
            final(self).wf(),
            forall|k: int| 0 <= k < events@.len() ==> is_report(old(self)@, #[trigger] events@[k]),
            forall|i: int, ts: Set<usize>, cs: Set<usize>|
                0 <= i < old(self)@.pending.len() && #[trigger] is_component(
                    old(self)@,
                    old(self)@.pending[i],
                    ts,
                    cs,
                ) && is_halted(old(self)@, cs) ==> reported(events@, ts, cs),
            pairwise_disjoint(events@),
            final(self)@.threads == old(self)@.threads,
            final(self)@.pending.to_set() == requeued_by(old(self)@, events@, Seq::empty()),
            final(self)@.channels.len() == old(self)@.channels.len(),
            forall|c: usize|
                c < old(self)@.channels.len() ==> #[trigger] final(self)@.channels[c as int] == if in_events(
                    events@,
                    c,
                ) {
                    recovered(old(self)@, c)
                } else {
                    old(self)@.channels[c as int]
                },
    {
        let events = self.detect();
        proof {
            assert forall|k: int, c: usize|
                0 <= k < events@.len() && #[trigger] events@[k].channels().contains(c) implies c
                < self@.channels.len() by {
                let e = events@[k];
                assert(is_report(self@, e));
                let i = choose|i: int|
                    0 <= i < self@.pending.len() && #[trigger] is_component(
                        self@,
                        self@.pending[i],
                        e.threads(),
                        e.channels(),
                    ) && is_halted(self@, e.channels());
            }
        }
        self.clear_pending();
        let ghost mid = self@;
        self.recover(&events);
        proof {
            let o = old(self)@;
            assert(mid.channels == o.channels && mid.threads == o.threads);
            assert forall|c: usize| c < o.channels.len() implies #[trigger] recovered(mid, c) == recovered(o, c)
                && requeued(mid, c) == requeued(o, c) by {
                assert forall|m: usize| #[trigger] releasable(mid, c, m) == releasable(o, c, m) by {}
                assert(recovered(mid, c).members =~= recovered(o, c).members);
                assert(recovery_releases(mid, c) == recovery_releases(o, c));
            }
            assert forall|m: usize| #[trigger] requeued_by(mid, events@, Seq::empty()).contains(m)
                <==> requeued_by(o, events@, Seq::empty()).contains(m) by {
                if requeued_by(mid, events@, Seq::empty()).contains(m) {
                    let c = choose|c: usize|
                        c < mid.channels.len() && (in_events(events@, c) || Seq::<usize>::empty().contains(c))
                            && #[trigger] requeued(mid, c).contains(m);
                    assert(requeued(o, c).contains(m));
                }
                if requeued_by(o, events@, Seq::empty()).contains(m) {
                    let c = choose|c: usize|
                        c < o.channels.len() && (in_events(events@, c) || Seq::<usize>::empty().contains(c))
                            && #[trigger] requeued(o, c).contains(m);
                    assert(requeued(mid, c).contains(m));
                }
            }
            assert(requeued_by(mid, events@, Seq::empty()) =~= requeued_by(o, events@, Seq::empty()));
            assert(mid.pending.to_set() =~= Set::<usize>::empty());
            assert(Seq::<usize>::empty().to_set() =~= Set::<usize>::empty());
            assert(self@.pending.to_set() =~= requeued_by(old(self)@, events@, Seq::empty()));
        }
        events
    }

    /// The halted component that holds thread `t`, if `t` waits and its
    /// component is halted; `None` otherwise.
    pub fn halted_component(&self, t: usize) -> (r: Option<HaltedState>)
        requires
            self.wf(),
        ensures
            r matches Some(h) ==> is_component(self@, t, h.threads(), h.channels()) && is_halted(
                self@,
                h.channels(),
            ),
            r is None ==> forall|ts: Set<usize>, cs: Set<usize>|
                #[trigger] is_component(self@, t, ts, cs) ==> !is_halted(self@, cs),
    {
        if t >= self.thread_count() || self.state(t) != ThreadState::Wait {
            return None;
        }
        let (ts, cs) = self.component(t);
        proof {
            assert forall|j: int| 0 <= j < cs@.len() implies #[trigger] cs@[j] < self@.channels.len() by {
                assert(cs@.to_set().contains(cs@[j]));
            }
        }
        if self.all_waiting(&cs) {
            Some(HaltedState { thread_ids: ts, channel_ids: cs })
        } else {
            proof {
                assert forall|ts2: Set<usize>, cs2: Set<usize>|
                    #[trigger] is_component(self@, t, ts2, cs2) implies !is_halted(self@, cs2) by {
                    lemma_components_meet(self@, t, ts2, cs2, t, ts@.to_set(), cs@.to_set(), t);
                }
            }
            None
        }
    }

    /// The component of waiting thread `t0`, found by a breadth-first walk
    /// that alternates between threads and the channels they hold.
    pub fn component(&self, t0: usize) -> (r: (Vec<usize>, Vec<usize>))
        requires
            self.wf(),
            is_waiting(self@, t0),
        ensures
            is_component(self@, t0, r.0@.to_set(), r.1@.to_set()),
            r.0@.no_duplicates(),
            r.1@.no_duplicates(),
    {
        proof {
            self.lemma_inv();
        }
        let ghost v = self@;
        let n_t = self.thread_count();
        let n_c = self.channel_count();
        let mut seen_t: Vec<bool> = vec![false; n_t];
        let mut seen_c: Vec<bool> = vec![false; n_c];
        let mut ts: Vec<usize> = vec![t0];
        let mut cs: Vec<usize> = Vec::new();
        seen_t.set(t0, true);
        let mut head: usize = 0;
        proof {
            assert forall|ts2: Set<usize>, cs2: Set<usize>|
                #[trigger] closed(v, ts2, cs2) && ts2.contains(t0) implies (forall|j: int|
                0 <= j < ts@.len() ==> ts2.contains(ts@[j])) && (forall|j: int|
                0 <= j < cs@.len() ==> cs2.contains(cs@[j])) by {
            }
        }
        while head < ts.len()
            invariant
                self.wf(),
                v == self@,
                v.inv(),
                is_waiting(v, t0),
                n_t == v.threads.len(),
                n_c == v.channels.len(),
                seen_t@.len() == n_t,
                seen_c@.len() == n_c,
                head <= ts@.len(),
                ts@[0] == t0,
                ts@.len() > 0,
                ts@.no_duplicates(),
                cs@.no_duplicates(),
                forall|i: int| 0 <= i < n_t ==> seen_t@[i] == ts@.contains(i as usize),
                forall|i: int| 0 <= i < n_c ==> seen_c@[i] == cs@.contains(i as usize),
                forall|j: int| 0 <= j < ts@.len() ==> #[trigger] is_waiting(v, ts@[j]),
                forall|j: int| 0 <= j < cs@.len() ==> #[trigger] cs@[j] < n_c,
                forall|j: int, c: usize|
                    0 <= j < head && c < n_c && #[trigger] v.channels[c as int].members.contains(
                        ts@[j],
                    ) ==> cs@.contains(c),
                forall|c: usize, m: usize|
                    cs@.contains(c) && #[trigger] v.channels[c as int].members.contains(m)
                        && is_waiting(v, m) ==> ts@.contains(m),
                forall|ts2: Set<usize>, cs2: Set<usize>|
                    #[trigger] closed(v, ts2, cs2) && ts2.contains(t0) ==> (forall|j: int|
                        0 <= j < ts@.len() ==> ts2.contains(ts@[j])) && (forall|j: int|
                        0 <= j < cs@.len() ==> cs2.contains(cs@[j])),
            decreases n_t - head,
        {
            proof {
                assert forall|i: int| 0 <= i < ts@.len() implies ts@[i] < n_t by {
                    assert(is_waiting(v, ts@[i]));
                }
                lemma_distinct_below(ts@, n_t);
            }
            let t = ts[head];
            let mut c: usize = 0;
            while c < n_c
                invariant
                    self.wf(),
                    v == self@,
                    v.inv(),
                    is_waiting(v, t0),
                    n_t == v.threads.len(),
                    n_c == v.channels.len(),
                    seen_t@.len() == n_t,
                    seen_c@.len() == n_c,
                    head < ts@.len(),
                    t == ts@[head as int],
                    c <= n_c,
                    ts@[0] == t0,
                    ts@.no_duplicates(),
                    cs@.no_duplicates(),
                    forall|i: int| 0 <= i < n_t ==> seen_t@[i] == ts@.contains(i as usize),
                    forall|i: int| 0 <= i < n_c ==> seen_c@[i] == cs@.contains(i as usize),
                    forall|j: int| 0 <= j < ts@.len() ==> #[trigger] is_waiting(v, ts@[j]),
                    forall|j: int| 0 <= j < cs@.len() ==> #[trigger] cs@[j] < n_c,
                    forall|j: int, c2: usize|
                        0 <= j < head && c2 < n_c && #[trigger] v.channels[c2 as int].members.contains(
                            ts@[j],
                        ) ==> cs@.contains(c2),
                    forall|c2: usize|
                        c2 < c && #[trigger] v.channels[c2 as int].members.contains(t)
                            ==> cs@.contains(c2),
                    forall|c2: usize, m: usize|
                        cs@.contains(c2) && #[trigger] v.channels[c2 as int].members.contains(m)
                            && is_waiting(v, m) ==> ts@.contains(m),
                    forall|ts2: Set<usize>, cs2: Set<usize>|
                        #[trigger] closed(v, ts2, cs2) && ts2.contains(t0) ==> (forall|j: int|
                            0 <= j < ts@.len() ==> ts2.contains(ts@[j])) && (forall|j: int|
                            0 <= j < cs@.len() ==> cs2.contains(cs@[j])),
                decreases n_c - c,
            {
                if !seen_c[c] && self.channel(c).is_member(t) {
                    let members = self.channel(c).members();
                    let mut k: usize = 0;
                    while k < members.len()
                        invariant
                            self.wf(),
                            v == self@,
                            v.inv(),
                            is_waiting(v, t0),
                            n_t == v.threads.len(),
                            n_c == v.channels.len(),
                            seen_t@.len() == n_t,
                            seen_c@.len() == n_c,
                            head < ts@.len(),
                            t == ts@[head as int],
                            c < n_c,
                            !cs@.contains(c),
                            v.channels[c as int].members.contains(t),
                            members@.to_set() == v.channels[c as int].members,
                            k <= members@.len(),
                            ts@[0] == t0,
                            ts@.no_duplicates(),
                            cs@.no_duplicates(),
                            forall|i: int| 0 <= i < n_t ==> seen_t@[i] == ts@.contains(i as usize),
                            forall|i: int| 0 <= i < n_c ==> seen_c@[i] == cs@.contains(i as usize),
                            forall|j: int| 0 <= j < ts@.len() ==> #[trigger] is_waiting(v, ts@[j]),
                            forall|j: int| 0 <= j < cs@.len() ==> #[trigger] cs@[j] < n_c,
                            forall|j: int, c2: usize|
                                0 <= j < head && c2 < n_c
                                    && #[trigger] v.channels[c2 as int].members.contains(ts@[j])
                                    ==> cs@.contains(c2),
                            forall|c2: usize|
                                c2 < c && #[trigger] v.channels[c2 as int].members.contains(t)
                                    ==> cs@.contains(c2),
                            forall|c2: usize, m: usize|
                                cs@.contains(c2) && #[trigger] v.channels[c2 as int].members.contains(
                                    m,
                                ) && is_waiting(v, m) ==> ts@.contains(m),
                            forall|i: int|
                                0 <= i < k && #[trigger] is_waiting(v, members@[i]) ==> ts@.contains(
                                    members@[i],
                                ),
                            forall|ts2: Set<usize>, cs2: Set<usize>|
                                #[trigger] closed(v, ts2, cs2) && ts2.contains(t0) ==> (forall|
                                    j: int,
                                |
                                    0 <= j < ts@.len() ==> ts2.contains(ts@[j])) && (forall|j: int|
                                    0 <= j < cs@.len() ==> cs2.contains(cs@[j])),
                        decreases members@.len() - k,
                    {
                        let m = members[k];
                        proof {
                            assert(members@.to_set().contains(m));
                            assert(v.channels[c as int].members.contains(m));
                        }
                        if self.state(m) == ThreadState::Wait && !seen_t[m] {
                            let ghost old_ts = ts@;
                            ts.push(m);
                            seen_t.set(m, true);
                            proof {
                                assert forall|i: int| 0 <= i < n_t implies seen_t@[i] == ts@.contains(
                                    i as usize,
                                ) by {
                                    if i as usize != m {
                                        assert(old_ts.contains(i as usize) == ts@.contains(
                                            i as usize,
                                        ));
                                    }
                                }
                                assert forall|j: int| 0 <= j < ts@.len() implies #[trigger] is_waiting(
                                    v,
                                    ts@[j],
                                ) by {
                                    if j < old_ts.len() {
                                        assert(ts@[j] == old_ts[j]);
                                    }
                                }
                                assert forall|j: int, c2: usize|
                                    0 <= j < head && c2 < n_c
                                        && #[trigger] v.channels[c2 as int].members.contains(
                                        ts@[j],
                                    ) implies cs@.contains(c2) by {
                                    assert(ts@[j] == old_ts[j]);
                                }
                                assert forall|ts2: Set<usize>, cs2: Set<usize>|
                                    #[trigger] closed(v, ts2, cs2) && ts2.contains(
                                        t0,
                                    ) implies (forall|j: int|
                                    0 <= j < ts@.len() ==> ts2.contains(ts@[j])) && (forall|j: int|
                                    0 <= j < cs@.len() ==> cs2.contains(cs@[j])) by {
                                    assert(ts2.contains(old_ts[head as int]));
                                    assert(cs2.contains(c));
                                    assert(ts2.contains(m));
                                    assert forall|j: int| 0 <= j < ts@.len() implies ts2.contains(
                                        ts@[j],
                                    ) by {
                                        if j < old_ts.len() {
                                            assert(ts@[j] == old_ts[j]);
                                        }
                                    }
                                }
                            }
                        }
                        k = k + 1;
                    }
                    let ghost old_cs = cs@;
                    cs.push(c);
                    seen_c.set(c, true);
                    proof {
                        assert forall|i: int| 0 <= i < n_c implies seen_c@[i] == cs@.contains(
                            i as usize,
                        ) by {
                            if i as usize != c {
                                assert(old_cs.contains(i as usize) == cs@.contains(i as usize));
                            }
                        }
                        assert forall|j: int| 0 <= j < cs@.len() implies #[trigger] cs@[j] < n_c by {
                            if j < old_cs.len() {
                                assert(cs@[j] == old_cs[j]);
                            }
                        }
                        assert forall|c2: usize, m: usize|
                            cs@.contains(c2) && #[trigger] v.channels[c2 as int].members.contains(m)
                                && is_waiting(v, m) implies ts@.contains(m) by {
                            if c2 == c {
                                assert(members@.to_set().contains(m));
                                let i = choose|i: int| 0 <= i < members@.len() && members@[i] == m;
                                assert(is_waiting(v, members@[i]));
                            } else {
                                assert(old_cs.contains(c2));
                            }
                        }
                        assert forall|ts2: Set<usize>, cs2: Set<usize>|
                            #[trigger] closed(v, ts2, cs2) && ts2.contains(t0) implies (forall|j: int|
                            0 <= j < ts@.len() ==> ts2.contains(ts@[j])) && (forall|j: int|
                            0 <= j < cs@.len() ==> cs2.contains(cs@[j])) by {
                            assert(ts2.contains(ts@[head as int]));
                            assert(cs2.contains(c));
                            assert forall|j: int| 0 <= j < cs@.len() implies cs2.contains(cs@[j]) by {
                                if j < old_cs.len() {
                                    assert(cs@[j] == old_cs[j]);
                                }
                            }
                        }
                    }
                }
                c = c + 1;
            }
            head = head + 1;
        }
        proof {
            let tset = ts@.to_set();
            let cset = cs@.to_set();
            assert(closed(v, tset, cset)) by {
                assert forall|t: usize, c: usize|
                    tset.contains(t) && c < v.channels.len() && v.channels[c as int].members.contains(
                        t,
                    ) implies cset.contains(c) by {
                    let j = choose|j: int| 0 <= j < ts@.len() && ts@[j] == t;
                    assert(v.channels[c as int].members.contains(ts@[j]));
                }
            }
            assert forall|t: usize| #[trigger] tset.contains(t) implies is_waiting(v, t) by {
                let j = choose|j: int| 0 <= j < ts@.len() && ts@[j] == t;
                assert(is_waiting(v, ts@[j]));
            }
            assert forall|c: usize| #[trigger] cset.contains(c) implies c < v.channels.len() by {
                let j = choose|j: int| 0 <= j < cs@.len() && cs@[j] == c;
                assert(cs@[j] < n_c);
            }
            assert forall|ts2: Set<usize>, cs2: Set<usize>|
                #[trigger] closed(v, ts2, cs2) && ts2.contains(t0) implies tset.subset_of(ts2)
                && cset.subset_of(cs2) by {
                assert forall|t: usize| tset.contains(t) implies ts2.contains(t) by {
                    let j = choose|j: int| 0 <= j < ts@.len() && ts@[j] == t;
                }
                assert forall|c: usize| cset.contains(c) implies cs2.contains(c) by {
                    let j = choose|j: int| 0 <= j < cs@.len() && cs@[j] == c;
                }
            }
            assert(tset.contains(ts@[0]));
        }
        (ts, cs)
    }
}

} // verus!
