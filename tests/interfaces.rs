use kobzar_ccs_usr::handles::{Object, Service};
use kobzar_ccs_usr::interface::Interface;
use kobzar_ccs_usr::iters::{ChannelIterator, ObjectIterator, ServiceIterator};
use kobzar_ccs_usr::local::{MyInterfaceSource, MyObject};
use kobzar_ccs_usr::master::{ImplementerRequirements, InterfaceRequirements, VersionRule};
use kobzar_ccs_usr::network::Network;
use kobzar_ccs_usr::path::Path;
use kobzar_ccs_usr::policy::PolicyBuilder;
use kobzar_ccs_usr::version::Version;

fn vendor(name: &str) -> Path {
    Path::new(name).unwrap()
}

fn interface(name: &str, v: (usize, usize, usize), services: &[&str]) -> Interface {
    let services = services.iter().map(|s| s.to_string()).collect();
    Interface::new(vendor(name), Version::from(v), services, Vec::new())
}

#[test]
fn interface_accessors() {
    let dep = interface("base", (1, 0, 0), &[]);
    let i = Interface::new(
        vendor("acme"),
        Version::new(2, 1, 0),
        vec!["Log".to_string(), "Store".to_string()],
        vec![dep],
    );
    assert_eq!(i.vendor().name(), "acme");
    assert_eq!(*i.version(), Version::new(2, 1, 0));
    assert_eq!(i.services().len(), 2);
    assert_eq!(i.dependencies().len(), 1);
    assert_eq!(i.dependencies()[0].vendor().name(), "base");
}

#[test]
fn interface_equality_and_order() {
    let a = interface("acme", (1, 0, 0), &["Log", "Store"]);
    let b = interface("acme", (1, 0, 0), &["Store", "Log"]);
    let c = interface("acme", (1, 0, 0), &["Log"]);
    let d = interface("acme", (1, 2, 0), &["Log"]);
    let e = interface("beta", (0, 1, 0), &["Log"]);
    assert!(a == b);
    assert!(a != c);
    assert_eq!(a.partial_cmp(&c), Some(std::cmp::Ordering::Equal));
    assert!(c < d);
    assert!(d < e);
    assert!(a <= b);
}

#[test]
fn version_rules() {
    let exact = VersionRule::Equal(Version::new(1, 2, 3));
    assert!(exact.accepts(&Version::new(1, 2, 3)));
    assert!(!exact.accepts(&Version::new(1, 2, 4)));
    let newer = VersionRule::NewerOrEqual(Version::new(1, 2, 0));
    assert!(newer.accepts(&Version::new(1, 2, 0)));
    assert!(newer.accepts(&Version::new(1, 5, 1)));
    assert!(!newer.accepts(&Version::new(1, 1, 9)));
    assert!(!newer.accepts(&Version::new(2, 0, 0)));
}

#[test]
fn requirements_match_vendor_and_version() {
    let req = InterfaceRequirements::new(vendor("acme"), VersionRule::NewerOrEqual(Version::new(1, 0, 0)));
    assert!(req.matches(&interface("acme", (1, 3, 0), &[])));
    assert!(!req.matches(&interface("acme", (0, 9, 0), &[])));
    assert!(!req.matches(&interface("other", (1, 3, 0), &[])));
}

#[test]
fn interface_source_keeps_one_per_key() {
    let mut src = MyInterfaceSource::new();
    let a = interface("acme", (1, 0, 0), &["Log"]);
    assert!(!src.declares(&a));
    src.append(interface("acme", (1, 0, 0), &["Log"]));
    assert!(src.declares(&a));
    src.append(interface("acme", (1, 0, 0), &["Other"]));
    assert!(!src.declares(&interface("acme", (2, 0, 0), &[])));
}

#[test]
fn handle_iterators() {
    let mut root = Path::new("net").unwrap();
    let p1 = root.try_new("one").unwrap();
    let p2 = root.try_new("two").unwrap();
    let objects = vec![Object::new(vendor("x"), 4), Object::new(vendor("y"), 5)];
    let mut it = ObjectIterator::new(objects);
    assert_eq!(it.len(), 2);
    assert_eq!(it.next().unwrap().id(), 4);
    assert_eq!(it.len(), 1);
    assert_eq!(it.next().unwrap().name(), "y");
    assert!(it.next().is_none());
    let s1 = Service::new(Object::new(root.clone(), 0), p1, 11).unwrap();
    let s2 = Service::new(Object::new(root.clone(), 0), p2, 12).unwrap();
    assert!(Service::new(Object::new(root.clone(), 0), vendor("net"), 13).is_none());
    assert_eq!(s1.name(), "one");
    assert_eq!(s1.object().id(), 0);
    let mut sit = ServiceIterator::new(vec![s1, s2.clone()]);
    assert_eq!(sit.next().unwrap().id(), 11);
    assert_eq!(sit.next().unwrap().path().name(), "two");
    assert!(sit.next().is_none());
    let mut net = Network::new();
    let mut b = PolicyBuilder::new();
    b.invitation_from_not_member(true);
    b.origin_can_leave(true);
    b.join_by_handle(true);
    b.no_multiple_connectons(false);
    let ch = net.open_channel(s2, b.build().unwrap());
    let th = net.start_thread(ch.origin().clone());
    assert_eq!(th.origin().id(), 12);
    assert_eq!(ch.join(&mut net, &th), Ok(()));
    let mut cit = ChannelIterator::new(vec![ch.clone()]);
    assert_eq!(cit.len(), 1);
    assert_eq!(cit.next().unwrap().id(), ch.id());
    assert_eq!(cit.len(), 0);
}

#[test]
fn interface_keeps_sorted_distinct_members() {
    let deps = vec![
        interface("beta", (1, 0, 0), &[]),
        interface("acme", (2, 0, 0), &[]),
        interface("acme", (1, 0, 0), &["X"]),
        interface("acme", (1, 0, 0), &["Y"]),
    ];
    let i = Interface::new(
        vendor("top"),
        Version::new(1, 0, 0),
        vec!["Store".to_string(), "Log".to_string(), "Store".to_string(), "Cache".to_string()],
        deps,
    );
    assert_eq!(i.services(), &vec!["Cache".to_string(), "Log".to_string(), "Store".to_string()]);
    let d = i.dependencies();
    assert_eq!(d.len(), 3);
    assert_eq!(d[0].vendor().name(), "acme");
    assert_eq!(*d[0].version(), Version::new(1, 0, 0));
    assert_eq!(d[1].vendor().name(), "acme");
    assert_eq!(*d[1].version(), Version::new(2, 0, 0));
    assert_eq!(d[2].vendor().name(), "beta");
}

#[test]
fn interface_source_lists_in_order() {
    let mut src = MyInterfaceSource::new();
    src.append(interface("zeta", (1, 0, 0), &[]));
    src.append(interface("alpha", (3, 0, 0), &[]));
    src.append(interface("alpha", (1, 0, 0), &[]));
    src.append(interface("zeta", (1, 0, 0), &["Again"]));
    let all = src.interfaces();
    assert_eq!(all.len(), 3);
    assert_eq!(all[0].vendor().name(), "alpha");
    assert_eq!(all[0].version().major(), 1);
    assert_eq!(all[1].version().major(), 3);
    assert_eq!(all[2].vendor().name(), "zeta");
}

#[test]
fn implementer_requirements_count_each_key_once() {
    let req = ImplementerRequirements::new(vec![
        interface("acme", (1, 0, 0), &[]),
        interface("acme", (1, 0, 0), &["Other"]),
        interface("base", (0, 1, 0), &[]),
    ]);
    assert_eq!(req.interfaces().len(), 2);
    assert_eq!(req.interfaces()[1].vendor().name(), "base");
    let obj = MyObject::new(Object::new(vendor("o"), 7));
    assert_eq!(obj.object().id(), 7);
}
