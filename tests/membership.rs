use kobzar_ccs_usr::handles::{Object, Service};
use kobzar_ccs_usr::network::{Network, ThreadState};
use kobzar_ccs_usr::path::Path;
use kobzar_ccs_usr::policy::{ChannelError, Policy, PolicyBuilder};

fn service(id: usize) -> Service {
    let mut root = Path::new("net").unwrap();
    let path = root.try_new("svc").unwrap();
    Service::new(Object::new(root, 0), path, id).unwrap()
}

fn policy(invite_any: bool, origin_leaves: bool, by_handle: bool, pair: bool) -> Policy {
    let mut b = PolicyBuilder::new();
    b.invitation_from_not_member(invite_any);
    b.origin_can_leave(origin_leaves);
    b.join_by_handle(by_handle);
    b.no_multiple_connectons(pair);
    b.build().unwrap()
}

#[test]
fn builder_complete() {
    let mut builder = PolicyBuilder::new();
    builder.invitation_from_not_member(true);
    builder.origin_can_leave(true);
    builder.join_by_handle(false);
    builder.no_multiple_connectons(false);
    let result = builder.build();
    assert!(result.is_ok());
    let p = result.unwrap();
    assert!(p.invitation_from_not_member());
    assert!(p.origin_can_leave());
    assert!(!p.join_by_handle());
    assert!(!p.no_multiple_connectons());
}

#[test]
fn builder_incomplete_returns_itself() {
    let mut builder = PolicyBuilder::new();
    builder.invitation_from_not_member(true);
    builder.origin_can_leave(true);
    let result = builder.build();
    assert!(result.is_err());
    let mut builder = result.unwrap_err();
    builder.join_by_handle(false);
    builder.no_multiple_connectons(false);
    let result = builder.build();
    assert!(result.is_ok());
}

#[test]
fn pair_channel_refuses_third_member() {
    let mut net = Network::new();
    let ch = net.open_channel(service(1), policy(true, true, true, true));
    let t1 = net.start_thread(service(2));
    let t2 = net.start_thread(service(3));
    let t3 = net.start_thread(service(4));
    assert_eq!(ch.join(&mut net, &t1), Ok(()));
    assert_eq!(ch.join(&mut net, &t2), Ok(()));
    assert_eq!(ch.join(&mut net, &t3), Err(ChannelError::MultipleConnectionsForbidden));
    assert_eq!(ch.connections_count(&net), 2);
    assert!(net.channel(ch.id()).is_member(t1.id()));
    assert!(net.channel(ch.id()).is_member(t2.id()));
    assert!(!net.channel(ch.id()).is_member(t3.id()));
    assert_eq!(ch.leave(&mut net, &t1), Ok(()));
    assert_eq!(ch.join(&mut net, &t3), Ok(()));
    assert_eq!(ch.connections(&net), 2);
}

#[test]
fn open_channel_accepts_many_members() {
    let mut net = Network::new();
    let c = net.create_channel(1, policy(true, true, true, false));
    for _ in 0..5 {
        let t = net.spawn_thread(7);
        assert_eq!(net.join(c, t), Ok(()));
    }
    assert_eq!(net.connections_count(c), 5);
}

#[test]
fn join_twice_is_already_member() {
    let mut net = Network::new();
    let c = net.create_channel(1, policy(true, true, true, false));
    let t = net.spawn_thread(2);
    assert_eq!(net.join(c, t), Ok(()));
    assert_eq!(net.join(c, t), Err(ChannelError::AlreadyMember));
    assert_eq!(net.connections_count(c), 1);
    assert!(net.channel(c).is_member(t));
}

#[test]
fn leave_by_non_member_is_not_member() {
    let mut net = Network::new();
    let c = net.create_channel(1, policy(true, false, true, false));
    let a = net.spawn_thread(2);
    let b = net.spawn_thread(3);
    assert_eq!(net.join(c, a), Ok(()));
    assert_eq!(net.leave(c, b), Err(ChannelError::NotMember));
    assert_eq!(net.connections_count(c), 1);
    assert_eq!(net.leave(c, a), Ok(()));
    assert_eq!(net.leave(c, a), Err(ChannelError::NotMember));
    assert_eq!(net.connections_count(c), 0);
}

#[test]
fn origin_cannot_leave_while_others_connected() {
    let mut net = Network::new();
    let origin = service(10);
    let ch = net.open_channel(origin, policy(true, false, true, false));
    let o = net.start_thread(service(10));
    let m = net.start_thread(service(11));
    assert_eq!(ch.join(&mut net, &o), Ok(()));
    assert_eq!(ch.join(&mut net, &m), Ok(()));
    assert_eq!(ch.leave(&mut net, &o), Err(ChannelError::LeaveForbidden));
    assert_eq!(ch.connections_count(&net), 2);
    assert!(net.channel(ch.id()).is_member(o.id()));
    assert_eq!(ch.leave(&mut net, &m), Ok(()));
    assert!(!net.teardown_eligible(ch.id()));
    assert_eq!(ch.leave(&mut net, &o), Ok(()));
    assert_eq!(ch.connections_count(&net), 0);
    assert!(net.teardown_eligible(ch.id()));
}

#[test]
fn origin_may_leave_when_policy_allows() {
    let mut net = Network::new();
    let c = net.create_channel(10, policy(true, true, true, false));
    let o = net.spawn_thread(10);
    let m = net.spawn_thread(11);
    assert_eq!(net.join(c, o), Ok(()));
    assert_eq!(net.join(c, m), Ok(()));
    assert_eq!(net.leave(c, o), Ok(()));
    assert_eq!(net.connections_count(c), 1);
}

#[test]
fn non_member_invite_forbidden() {
    let mut net = Network::new();
    let ch = net.open_channel(service(1), policy(false, true, false, false));
    let outsider = net.start_thread(service(2));
    let guest = net.start_thread(service(3));
    assert_eq!(ch.invite(&mut net, &outsider, &guest), Err(ChannelError::JoinForbidden));
    assert!(!net.channel(ch.id()).is_invited(guest.id()));
}

#[test]
fn invitation_admits_once() {
    let mut net = Network::new();
    let c = net.create_channel(1, policy(true, true, false, false));
    let host = net.spawn_thread(1);
    let guest = net.spawn_thread(2);
    assert_eq!(net.join(c, guest), Err(ChannelError::JoinForbidden));
    assert_eq!(net.invite(c, host, host), Ok(()));
    assert_eq!(net.join(c, host), Ok(()));
    assert_eq!(net.invite(c, host, guest), Ok(()));
    assert!(net.channel(c).is_invited(guest));
    assert_eq!(net.join(c, guest), Ok(()));
    assert!(!net.channel(c).is_invited(guest));
    assert_eq!(net.leave(c, guest), Ok(()));
    assert_eq!(net.join(c, guest), Err(ChannelError::JoinForbidden));
}

#[test]
fn member_invites_where_outsiders_cannot() {
    let mut net = Network::new();
    let c = net.create_channel(1, policy(false, true, true, false));
    let host = net.spawn_thread(1);
    let guest = net.spawn_thread(2);
    assert_eq!(net.join(c, host), Ok(()));
    assert_eq!(net.invite(c, host, guest), Ok(()));
    assert!(net.channel(c).is_invited(guest));
}

#[test]
fn dead_thread_leaves_every_channel() {
    let mut net = Network::new();
    let strict = policy(true, false, true, false);
    let c0 = net.create_channel(5, strict);
    let c1 = net.create_channel(5, strict);
    let c2 = net.create_channel(6, policy(true, true, true, true));
    let t = net.spawn_thread(5);
    let other = net.spawn_thread(6);
    for c in [c0, c1, c2] {
        assert_eq!(net.join(c, t), Ok(()));
        assert_eq!(net.join(c, other), Ok(()));
    }
    net.set_state(t, ThreadState::Dead);
    assert_eq!(net.state(t), ThreadState::Dead);
    for c in [c0, c1, c2] {
        assert!(!net.channel(c).is_member(t));
        assert!(net.channel(c).is_member(other));
        assert_eq!(net.connections_count(c), 1);
    }
    assert_eq!(net.join(c0, t), Err(ChannelError::JoinForbidden));
    net.set_state(t, ThreadState::Active);
    assert_eq!(net.state(t), ThreadState::Dead);
}
