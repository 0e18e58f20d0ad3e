use kobzar_ccs_usr::handles::{Object, Service};
use kobzar_ccs_usr::network::{Network, ThreadState};
use kobzar_ccs_usr::path::Path;
use kobzar_ccs_usr::policy::{Policy, PolicyBuilder};

fn policy(origin_leaves: bool) -> Policy {
    let mut b = PolicyBuilder::new();
    b.invitation_from_not_member(true);
    b.origin_can_leave(origin_leaves);
    b.join_by_handle(true);
    b.no_multiple_connectons(false);
    b.build().unwrap()
}

#[test]
fn sole_waiting_member_is_halted() {
    let mut net = Network::new();
    let c = net.create_channel(1, policy(true));
    let t = net.spawn_thread(2);
    assert_eq!(net.join(c, t), Ok(()));
    net.set_state(t, ThreadState::Wait);
    assert_eq!(net.pending().len(), 1);
    let events = net.poll();
    assert_eq!(events.len(), 1);
    assert_eq!(events[0].thread_ids, vec![t]);
    assert_eq!(events[0].channel_ids, vec![c]);
    assert_eq!(net.pending().len(), 0);
    assert_eq!(net.connections_count(c), 0);
    assert!(net.poll().is_empty());
}

#[test]
fn active_member_prevents_report() {
    let mut net = Network::new();
    let c = net.create_channel(1, policy(true));
    let x = net.spawn_thread(2);
    let y = net.spawn_thread(3);
    assert_eq!(net.join(c, x), Ok(()));
    assert_eq!(net.join(c, y), Ok(()));
    net.set_state(x, ThreadState::Wait);
    assert!(net.halted_component(x).is_none());
    let events = net.poll();
    assert!(events.is_empty());
    assert_eq!(net.connections_count(c), 2);
}

#[test]
fn cycle_through_two_channels_is_one_event() {
    let mut net = Network::new();
    let a = net.create_channel(1, policy(true));
    let b = net.create_channel(1, policy(true));
    let unrelated = net.create_channel(1, policy(true));
    let t1 = net.spawn_thread(2);
    let t2 = net.spawn_thread(3);
    let t3 = net.spawn_thread(4);
    assert_eq!(net.join(a, t1), Ok(()));
    assert_eq!(net.join(a, t2), Ok(()));
    assert_eq!(net.join(b, t2), Ok(()));
    assert_eq!(net.join(b, t1), Ok(()));
    assert_eq!(net.join(unrelated, t3), Ok(()));
    net.set_state(t1, ThreadState::Wait);
    net.set_state(t2, ThreadState::Wait);
    let events = net.poll();
    assert_eq!(events.len(), 1);
    let mut threads = events[0].thread_ids.clone();
    threads.sort();
    assert_eq!(threads, vec![t1, t2]);
    let mut channels = events[0].channel_ids.clone();
    channels.sort();
    assert_eq!(channels, vec![a, b]);
    assert_eq!(net.connections_count(unrelated), 1);
}

#[test]
fn chain_with_active_end_is_not_halted() {
    let mut net = Network::new();
    let a = net.create_channel(1, policy(true));
    let b = net.create_channel(1, policy(true));
    let t1 = net.spawn_thread(2);
    let t2 = net.spawn_thread(3);
    let t3 = net.spawn_thread(4);
    assert_eq!(net.join(a, t1), Ok(()));
    assert_eq!(net.join(a, t2), Ok(()));
    assert_eq!(net.join(b, t2), Ok(()));
    assert_eq!(net.join(b, t3), Ok(()));
    net.set_state(t1, ThreadState::Wait);
    net.set_state(t2, ThreadState::Wait);
    assert!(net.poll().is_empty());
    net.set_state(t3, ThreadState::Wait);
    let events = net.poll();
    assert_eq!(events.len(), 1);
    assert_eq!(events[0].thread_ids.len(), 3);
}

#[test]
fn timeout_to_active_clears_report() {
    let mut net = Network::new();
    let c = net.create_channel(1, policy(true));
    let t = net.spawn_thread(2);
    assert_eq!(net.join(c, t), Ok(()));
    net.set_state(t, ThreadState::Wait);
    net.set_state(t, ThreadState::Active);
    assert!(net.poll().is_empty());
    assert_eq!(net.connections_count(c), 1);
}

#[test]
fn recovery_keeps_origin_when_it_may_not_leave() {
    let mut net = Network::new();
    let c = net.create_channel(9, policy(false));
    let o = net.spawn_thread(9);
    let m = net.spawn_thread(8);
    assert_eq!(net.join(c, o), Ok(()));
    assert_eq!(net.join(c, m), Ok(()));
    net.set_state(o, ThreadState::Wait);
    net.set_state(m, ThreadState::Wait);
    let events = net.poll();
    assert_eq!(events.len(), 1);
    assert_eq!(events[0].thread_ids.len(), 2);
    assert!(net.channel(c).is_member(o));
    assert!(!net.channel(c).is_member(m));
    assert!(!net.teardown_eligible(c));
}

#[test]
fn recovery_releases_origin_when_allowed() {
    let mut net = Network::new();
    let c = net.create_channel(9, policy(true));
    let o = net.spawn_thread(9);
    let m = net.spawn_thread(8);
    assert_eq!(net.join(c, o), Ok(()));
    assert_eq!(net.join(c, m), Ok(()));
    net.set_state(o, ThreadState::Wait);
    net.set_state(m, ThreadState::Wait);
    assert_eq!(net.poll().len(), 1);
    assert_eq!(net.connections_count(c), 0);
    assert!(net.teardown_eligible(c));
}

#[test]
fn thread_handle_reports_state() {
    let mut root = Path::new("net").unwrap();
    let path = root.try_new("svc").unwrap();
    let svc = Service::new(Object::new(root, 0), path, 3).unwrap();
    let mut net = Network::new();
    let ch = net.open_channel(svc.clone(), policy(true));
    let th = net.start_thread(svc);
    assert_eq!(ch.join(&mut net, &th), Ok(()));
    th.set_state(&mut net, ThreadState::Wait);
    assert_eq!(net.state(th.id()), ThreadState::Wait);
    let events = net.poll();
    assert_eq!(events.len(), 1);
    assert_eq!(events[0].thread_ids, vec![th.id()]);
    th.set_state(&mut net, ThreadState::Dead);
    assert_eq!(ch.connections_count(&net), 0);
}

#[test]
fn waiting_without_channel_is_reported() {
    let mut net = Network::new();
    let t = net.spawn_thread(1);
    net.set_state(t, ThreadState::Wait);
    assert!(net.halted_component(t).is_some());
    let events = net.poll();
    assert_eq!(events.len(), 1);
    assert_eq!(events[0].thread_ids, vec![t]);
    assert!(events[0].channel_ids.is_empty());
    assert!(net.poll().is_empty());
}

#[test]
fn halt_after_active_member_leaves() {
    let mut net = Network::new();
    let c = net.create_channel(1, policy(true));
    let x = net.spawn_thread(2);
    let y = net.spawn_thread(3);
    assert_eq!(net.join(c, x), Ok(()));
    assert_eq!(net.join(c, y), Ok(()));
    net.set_state(x, ThreadState::Wait);
    assert!(net.poll().is_empty());
    assert_eq!(net.leave(c, y), Ok(()));
    let events = net.poll();
    assert_eq!(events.len(), 1);
    assert_eq!(events[0].thread_ids, vec![x]);
    assert_eq!(events[0].channel_ids, vec![c]);
}

#[test]
fn halt_after_active_member_dies() {
    let mut net = Network::new();
    let c = net.create_channel(1, policy(false));
    let x = net.spawn_thread(2);
    let y = net.spawn_thread(3);
    assert_eq!(net.join(c, x), Ok(()));
    assert_eq!(net.join(c, y), Ok(()));
    net.set_state(x, ThreadState::Wait);
    assert!(net.poll().is_empty());
    net.set_state(y, ThreadState::Dead);
    let events = net.poll();
    assert_eq!(events.len(), 1);
    assert_eq!(events[0].thread_ids, vec![x]);
}

#[test]
fn waiting_thread_joining_halted_channel_is_examined() {
    let mut net = Network::new();
    let c = net.create_channel(1, policy(true));
    let x = net.spawn_thread(2);
    net.set_state(x, ThreadState::Wait);
    assert_eq!(net.poll().len(), 1);
    assert_eq!(net.join(c, x), Ok(()));
    let events = net.poll();
    assert_eq!(events.len(), 1);
    assert_eq!(events[0].channel_ids, vec![c]);
}

#[test]
fn origin_left_after_recovery_is_reported_once() {
    let mut net = Network::new();
    let c = net.create_channel(9, policy(false));
    let o = net.spawn_thread(9);
    let m = net.spawn_thread(8);
    assert_eq!(net.join(c, o), Ok(()));
    assert_eq!(net.join(c, m), Ok(()));
    net.set_state(o, ThreadState::Wait);
    net.set_state(m, ThreadState::Wait);
    assert_eq!(net.poll().len(), 1);
    let events = net.poll();
    assert_eq!(events.len(), 1);
    assert_eq!(events[0].thread_ids, vec![o]);
    assert!(net.channel(c).is_member(o));
    assert!(net.poll().is_empty());
}
