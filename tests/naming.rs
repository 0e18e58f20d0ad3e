use kobzar_ccs_usr::path::{Name, Path, WeakName};
use kobzar_ccs_usr::version::Version;

#[test]
fn name_validation0() {
    let result = Name::try_new("Hello");
    result.unwrap();
}

#[test]
fn name_validation1() {
    let result = Name::try_new("1hello");
    assert!(result.is_none());
}

#[test]
fn name_validation2() {
    let result = Name::try_new("_underscore_test");
    result.unwrap();
}

#[test]
fn name_validation3() {
    let result = Name::try_new("Cannot contain spaces");
    assert!(result.is_none())
}

#[test]
fn name_rejects_empty_and_foreign_letters() {
    assert!(Name::try_new("").is_none());
    assert!(Name::try_new("caf\u{e9}").is_none());
    assert!(Name::try_new("dash-name").is_none());
    assert_eq!(Name::try_new("a1_B2").unwrap().as_str(), "a1_B2");
}

#[test]
fn path_registers_children() {
    let mut root = Path::new("root").unwrap();
    assert!(Path::new("9root").is_none());
    let child = root.try_new("child").unwrap();
    assert_eq!(child.name(), "child");
    assert_eq!(root.name(), "root");
    assert!(root.try_new("bad name").is_none());
    assert!(child.extends(&root));
    assert!(!root.extends(&child));
    assert!(!root.extends(&root));
    let parent = child.parent().unwrap();
    assert_eq!(parent.name(), "root");
    assert!(parent.parent().is_none());
    let mut again = Path::new("root").unwrap();
    again.try_new("child").unwrap();
    assert!(again == *parent);
    assert!(again != Path::new("root").unwrap());
}

#[test]
fn path_iterates_to_root() {
    let mut a = Path::new("a").unwrap();
    let mut b = a.try_new("b").unwrap();
    let c = b.try_new("c").unwrap();
    let mut it = c.iter();
    assert_eq!(it.next().unwrap().as_str(), "c");
    assert_eq!(it.next().unwrap().as_str(), "b");
    assert_eq!(it.next().unwrap().as_str(), "a");
    assert!(it.next().is_none());
}

#[test]
fn version_from_parts() {
    let parts = (1, 0, 0);
    let version = Version::from(parts);
    assert_eq!(Version::new(1, 0, 0), version);
    let back: (usize, usize, usize) = Version::new(3, 2, 1).into();
    assert_eq!(back, (3, 2, 1));
    assert_eq!(Version::default(), Version::new(0, 0, 0));
}

#[test]
fn version_order() {
    let ver1 = Version::from((1, 0, 0));
    let ver2: Version = (1, 1, 0).into();
    assert!(ver1 < ver2);
    assert!(Version::new(2, 0, 0) > Version::new(1, 9, 9));
    assert!(Version::new(1, 2, 3) < Version::new(1, 2, 4));
    assert!(Version::new(1, 2, 3) <= Version::new(1, 2, 3));
    assert_eq!(Version::new(4, 5, 6).major(), 4);
    assert_eq!(Version::new(4, 5, 6).minor(), 5);
    assert_eq!(Version::new(4, 5, 6).patch(), 6);
}

#[test]
fn child_parent_is_registering_node() {
    let mut node = Path::new("top").unwrap();
    node.try_new("x").unwrap();
    let n = node.try_new("n").unwrap();
    assert!(*n.parent().unwrap() == node);
    let mut grand = n.clone();
    let leaf = grand.try_new("leaf").unwrap();
    assert!(*leaf.parent().unwrap() == grand);
    assert!(*leaf.parent().unwrap().parent().unwrap() == node);
}

#[test]
fn weak_names_order_by_text() {
    let a = Name::try_new("alpha").unwrap();
    let b = Name::try_new("beta").unwrap();
    let wa = a.weak();
    let wb = WeakName::from(&b);
    assert_eq!(wa.as_str(), "alpha");
    assert!(wa < wb);
    assert!(wa == Name::try_new("alpha").unwrap().weak());
    assert!(Name::try_new("ab").unwrap().weak() < Name::try_new("abc").unwrap().weak());
}
