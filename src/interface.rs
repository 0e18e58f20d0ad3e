//! Interfaces: the groups of services objects implement.

use vstd::prelude::*;

use core::cmp::Ordering;

use crate::path::{
    cmp_chars, cmp_nodes, compare_str, flip, lemma_cmp_chars_flip, lemma_cmp_chars_trans,
    lemma_cmp_nodes_flip, lemma_cmp_nodes_trans, Path, PathView,
};
use crate::version::Version;

verus! {

/// A group of services that an object must implement: who defines it, its
/// version, the names of its services, and the interfaces it builds on.
pub struct Interface {
    vendor_path: Path,
    version: Version,
    services: Vec<String>,
    dependencies: Vec<Interface>,
}

/// What identifies an interface: its vendor's node names and its version.
pub type InterfaceKey = (Seq<Seq<char>>, Version);

pub ghost struct InterfaceView {
    pub vendor: PathView,
    pub version: Version,
    pub services: Set<Seq<char>>,
    /// The interfaces required first, by key.
    pub dependencies: Set<InterfaceKey>,
}

pub open spec fn strings_of(v: Seq<String>) -> Seq<Seq<char>> {
    v.map_values(|s: String| s@)
}

pub open spec fn keys_of(v: Seq<Interface>) -> Seq<InterfaceKey> {
    v.map_values(|i: Interface| i.key())
}

impl View for Interface {
    type V = InterfaceView;

    closed spec fn view(&self) -> InterfaceView {
        InterfaceView {
            vendor: self.vendor_path@,
            version: self.version,
            services: strings_of(self.services@).to_set(),
            dependencies: keys_of(self.dependencies@).to_set(),
        }
    }
}

/// Interface keys order by vendor nodes, then version.
pub open spec fn cmp_keys(a: InterfaceKey, b: InterfaceKey) -> Ordering {
    if cmp_nodes(a.0, b.0) != Ordering::Equal {
        cmp_nodes(a.0, b.0)
    } else {
        a.1.spec_cmp(&b.1)
    }
}

/// Each string is less than every later one: no two are equal.
pub open spec fn ascending_strings(s: Seq<Seq<char>>) -> bool {
    forall|i: int, j: int| 0 <= i < j < s.len() ==> cmp_chars(#[trigger] s[i], #[trigger] s[j]) == Ordering::Less
}

/// Each key is less than every later one: no two are equal.
pub open spec fn ascending_keys(s: Seq<InterfaceKey>) -> bool {
    forall|i: int, j: int| 0 <= i < j < s.len() ==> cmp_keys(#[trigger] s[i], #[trigger] s[j]) == Ordering::Less
}

proof fn lemma_cmp_keys_flip(a: InterfaceKey, b: InterfaceKey)
    ensures
        cmp_keys(b, a) == flip(cmp_keys(a, b)),
        cmp_keys(a, b) == Ordering::Equal <==> a == b,
{
    lemma_cmp_nodes_flip(a.0, b.0);
    Version::lemma_cmp_flip(a.1, b.1);
}

proof fn lemma_cmp_keys_trans(a: InterfaceKey, b: InterfaceKey, c: InterfaceKey)
    requires
        cmp_keys(a, b) == Ordering::Less,
        cmp_keys(b, c) == Ordering::Less,
    ensures
        cmp_keys(a, c) == Ordering::Less,
{
    lemma_cmp_nodes_flip(a.0, b.0);
    lemma_cmp_nodes_flip(b.0, c.0);
    lemma_cmp_nodes_flip(a.0, c.0);
    if cmp_nodes(a.0, b.0) == Ordering::Less && cmp_nodes(b.0, c.0) == Ordering::Less {
        lemma_cmp_nodes_trans(a.0, b.0, c.0);
    }
    if a.0 == b.0 && b.0 == c.0 {
        Version::lemma_cmp_trans(a.1, b.1, c.1);
    }
}

/// Inserts `s` into the ascending list `v` unless an equal string is there.
fn insert_string(v: &mut Vec<String>, s: String)
    requires
        ascending_strings(strings_of(old(v)@)),
    ensures
        ascending_strings(strings_of(final(v)@)),
        strings_of(final(v)@).to_set() == strings_of(old(v)@).to_set().insert(s@),
{
    let ghost old_v = strings_of(v@);
    let mut p: usize = 0;
    let mut stop = false;
    while p < v.len() && !stop
        invariant
            p <= v@.len(),
            strings_of(v@) == old_v,
            ascending_strings(old_v),
            forall|i: int| 0 <= i < p ==> cmp_chars(#[trigger] old_v[i], s@) == Ordering::Less,
            stop ==> p < v@.len() && cmp_chars(old_v[p as int], s@) == Ordering::Greater,
        decreases v@.len() - p + if stop { 0int } else { 1int },
    {
        match compare_str(v[p].as_str(), s.as_str()) {
            Ordering::Less => {
                p = p + 1;
            },
            Ordering::Greater => {
                stop = true;
            },
            Ordering::Equal => {
                proof {
                    lemma_cmp_chars_flip(old_v[p as int], s@);
                    assert(old_v.to_set().contains(s@));
                    assert(old_v.to_set().insert(s@) =~= old_v.to_set());
                }
                return;
            },
        }
    }
    let ghost sv = s@;
    v.insert(p, s);
    proof {
        let nv = strings_of(v@);
        assert(nv =~= old_v.insert(p as int, sv));
        assert forall|i: int, j: int| 0 <= i < j < nv.len() implies cmp_chars(
            #[trigger] nv[i],
            #[trigger] nv[j],
        ) == Ordering::Less by {
            if j < p {
            } else if j == p {
            } else if i < p {
                assert(nv[j] == old_v[j - 1]);
            } else if i == p {
                assert(nv[j] == old_v[j - 1]);
                lemma_cmp_chars_flip(old_v[p as int], sv);
                if j - 1 > p {
                    lemma_cmp_chars_trans(sv, old_v[p as int], old_v[j - 1]);
                }
            } else {
                assert(nv[i] == old_v[i - 1]);
                assert(nv[j] == old_v[j - 1]);
            }
        }
        assert forall|x: Seq<char>| nv.to_set().contains(x) <==> old_v.to_set().insert(sv).contains(x) by {
            if old_v.contains(x) {
                let k = choose|k: int| 0 <= k < old_v.len() && old_v[k] == x;
                if k < p {
                    assert(nv[k] == x);
                } else {
                    assert(nv[k + 1] == x);
                }
            }
            if x == sv {
                assert(nv[p as int] == x);
            }
            if nv.contains(x) {
                let k = choose|k: int| 0 <= k < nv.len() && nv[k] == x;
                if k < p {
                    assert(old_v[k] == x);
                } else if k > p {
                    assert(old_v[k - 1] == x);
                }
            }
        }
        assert(nv.to_set() =~= old_v.to_set().insert(sv));
    }
}

/// How the keys of `a` and `b` compare.
fn compare_keys(a: &Interface, b: &Interface) -> (r: Ordering)
    ensures
        r == cmp_keys(a.key(), b.key()),
{
    match a.vendor_path.compare(&b.vendor_path) {
        Ordering::Less => Ordering::Less,
        Ordering::Greater => Ordering::Greater,
        Ordering::Equal => match a.version.partial_cmp(&b.version) {
            Some(o) => o,
            None => Ordering::Equal,
        },
    }
}

/// Inserts `d` into the list `v`, ascending by key, unless an interface
/// with the same key is there.
pub(crate) fn insert_dependency(v: &mut Vec<Interface>, d: Interface)
    requires
        ascending_keys(keys_of(old(v)@)),
    ensures
        ascending_keys(keys_of(final(v)@)),
        keys_of(final(v)@).to_set() == keys_of(old(v)@).to_set().insert(d.key()),
{
    let ghost old_v = keys_of(v@);
    let mut p: usize = 0;
    let mut stop = false;
    while p < v.len() && !stop
        invariant
            p <= v@.len(),
            keys_of(v@) == old_v,
            ascending_keys(old_v),
            forall|i: int| 0 <= i < p ==> cmp_keys(#[trigger] old_v[i], d.key()) == Ordering::Less,
            stop ==> p < v@.len() && cmp_keys(old_v[p as int], d.key()) == Ordering::Greater,
        decreases v@.len() - p + if stop { 0int } else { 1int },
    {
        match compare_keys(&v[p], &d) {
            Ordering::Less => {
                p = p + 1;
            },
            Ordering::Greater => {
                stop = true;
            },
            Ordering::Equal => {
                proof {
                    lemma_cmp_keys_flip(old_v[p as int], d.key());
                    assert(old_v.to_set().contains(d.key()));
                    assert(old_v.to_set().insert(d.key()) =~= old_v.to_set());
                }
                return;
            },
        }
    }
    let ghost dk = d.key();
    v.insert(p, d);
    proof {
        let nv = keys_of(v@);
        assert(nv =~= old_v.insert(p as int, dk));
        assert forall|i: int, j: int| 0 <= i < j < nv.len() implies cmp_keys(
            #[trigger] nv[i],
            #[trigger] nv[j],
        ) == Ordering::Less by {
            if j < p {
            } else if j == p {
            } else if i < p {
                assert(nv[j] == old_v[j - 1]);
            } else if i == p {
                assert(nv[j] == old_v[j - 1]);
                lemma_cmp_keys_flip(old_v[p as int], dk);
                if j - 1 > p {
                    lemma_cmp_keys_trans(dk, old_v[p as int], old_v[j - 1]);
                }
            } else {
                assert(nv[i] == old_v[i - 1]);
                assert(nv[j] == old_v[j - 1]);
            }
        }
        assert forall|x: InterfaceKey| nv.to_set().contains(x) <==> old_v.to_set().insert(dk).contains(x) by {
            if old_v.contains(x) {
                let k = choose|k: int| 0 <= k < old_v.len() && old_v[k] == x;
                if k < p {
                    assert(nv[k] == x);
                } else {
                    assert(nv[k + 1] == x);
                }
            }
            if x == dk {
                assert(nv[p as int] == x);
            }
            if nv.contains(x) {
                let k = choose|k: int| 0 <= k < nv.len() && nv[k] == x;
                if k < p {
                    assert(old_v[k] == x);
                } else if k > p {
                    assert(old_v[k - 1] == x);
                }
            }
        }
        assert(nv.to_set() =~= old_v.to_set().insert(dk));
    }
}

/// Whether `v` holds a string equal to `s`.
fn holds_string(v: &Vec<String>, s: &String) -> (r: bool)
    ensures
        r == strings_of(v@).contains(s@),
{
    let mut i: usize = 0;
    while i < v.len()
        invariant
            i <= v@.len(),
            forall|j: int| 0 <= j < i ==> v@[j]@ != s@,
        decreases v@.len() - i,
    {
        if v[i] == *s {
            proof {
                assert(strings_of(v@)[i as int] == s@);
            }
            return true;
        }
        i = i + 1;
    }
    proof {
        if strings_of(v@).contains(s@) {
            let j = choose|j: int| 0 <= j < v@.len() && strings_of(v@)[j] == s@;
            assert(v@[j]@ == s@);
        }
    }
    false
}

/// Whether every string of `a` is in `b`.
fn strings_within(a: &Vec<String>, b: &Vec<String>) -> (r: bool)
    ensures
        r == strings_of(a@).to_set().subset_of(strings_of(b@).to_set()),
{
    let mut i: usize = 0;
    while i < a.len()
        invariant
            i <= a@.len(),
            forall|j: int| 0 <= j < i ==> strings_of(b@).contains(#[trigger] a@[j]@),
        decreases a@.len() - i,
    {
        if !holds_string(b, &a[i]) {
            proof {
                assert(strings_of(a@)[i as int] == a@[i as int]@);
                assert(strings_of(a@).to_set().contains(a@[i as int]@));
            }
            return false;
        }
        i = i + 1;
    }
    proof {
        assert forall|x: Seq<char>| strings_of(a@).to_set().contains(x) implies strings_of(
            b@,
        ).to_set().contains(x) by {
            let j = choose|j: int| 0 <= j < a@.len() && strings_of(a@)[j] == x;
            assert(a@[j]@ == x);
        }
    }
    true
}

/// Whether `v` holds an interface with the key of `d`.
pub(crate) fn holds_key(v: &Vec<Interface>, d: &Interface) -> (r: bool)
    ensures
        r == keys_of(v@).contains(d.key()),
{
    let mut i: usize = 0;
    while i < v.len()
        invariant
            i <= v@.len(),
            forall|j: int| 0 <= j < i ==> v@[j].key() != d.key(),
        decreases v@.len() - i,
    {
        if v[i].same_key(d) {
            proof {
                assert(keys_of(v@)[i as int] == d.key());
            }
            return true;
        }
        i = i + 1;
    }
    proof {
        if keys_of(v@).contains(d.key()) {
            let j = choose|j: int| 0 <= j < v@.len() && keys_of(v@)[j] == d.key();
            assert(v@[j].key() == d.key());
        }
    }
    false
}

impl Interface {
    pub closed spec fn key(&self) -> InterfaceKey {
        (self.vendor_path@.nodes, self.version)
    }

    #[verifier::type_invariant]
    spec fn ordered(&self) -> bool {
        &&& ascending_strings(strings_of(self.services@))
        &&& ascending_keys(keys_of(self.dependencies@))
    }

    /// The interface of `vendor_path` at `version`. The service names and
    /// the dependencies are kept once each, in ascending order.
    pub fn new(
        vendor_path: Path,
        version: Version,
        services: Vec<String>,
        dependencies: Vec<Interface>,
    ) -> (r: Interface)
        ensures
            r@.vendor == vendor_path@,
            r@.version == version,
            r@.services == strings_of(services@).to_set(),
            r@.dependencies == keys_of(dependencies@).to_set(),
    {
        let ghost all_services = strings_of(services@).to_set();
        let ghost all_deps = keys_of(dependencies@).to_set();
        let mut input = services;
        let mut sorted: Vec<String> = Vec::new();
        proof {
            assert(strings_of(sorted@).to_set() =~= Set::<Seq<char>>::empty());
            assert(strings_of(sorted@).to_set().union(strings_of(input@).to_set()) =~= all_services);
        }
        while input.len() > 0
            invariant
                ascending_strings(strings_of(sorted@)),
                strings_of(sorted@).to_set().union(strings_of(input@).to_set()) == all_services,
            decreases input@.len(),
        {
            let ghost before = strings_of(input@);
            let s = input.pop().unwrap();
            let ghost sv = s@;
            let ghost sorted_before = strings_of(sorted@).to_set();
            insert_string(&mut sorted, s);
            proof {
                assert(before =~= strings_of(input@).push(sv));
                strings_of(input@).lemma_push_to_set_commute(sv);
                assert(strings_of(sorted@).to_set().union(strings_of(input@).to_set()) =~= sorted_before.union(
                    before.to_set(),
                ));
            }
        }
        proof {
            assert(strings_of(input@).to_set() =~= Set::<Seq<char>>::empty());
            assert(strings_of(sorted@).to_set() =~= all_services);
        }
        let mut pending = dependencies;
        let mut deps: Vec<Interface> = Vec::new();
        proof {
            assert(keys_of(deps@).to_set() =~= Set::<InterfaceKey>::empty());
            assert(keys_of(deps@).to_set().union(keys_of(pending@).to_set()) =~= all_deps);
        }
        while pending.len() > 0
            invariant
                ascending_keys(keys_of(deps@)),
                keys_of(deps@).to_set().union(keys_of(pending@).to_set()) == all_deps,
            decreases pending@.len(),
        {
            let ghost before = keys_of(pending@);
            let d = pending.pop().unwrap();
            let ghost dk = d.key();
            let ghost deps_before = keys_of(deps@).to_set();
            insert_dependency(&mut deps, d);
            proof {
                assert(before =~= keys_of(pending@).push(dk));
                keys_of(pending@).lemma_push_to_set_commute(dk);
                assert(keys_of(deps@).to_set().union(keys_of(pending@).to_set()) =~= deps_before.union(
                    before.to_set(),
                ));
            }
        }
        proof {
            assert(keys_of(pending@).to_set() =~= Set::<InterfaceKey>::empty());
            assert(keys_of(deps@).to_set() =~= all_deps);
        }
        Interface { vendor_path, version, services: sorted, dependencies: deps }
    }

    /// The vendor of this interface.
    pub fn vendor(&self) -> (r: &Path)
        ensures
            r@ == self@.vendor,
    {
        &self.vendor_path
    }

    /// The version of this interface's definition.
    pub fn version(&self) -> (r: &Version)
        ensures
            *r == self@.version,
    {
        &self.version
    }

    /// Names of the services an implementer must provide, each once, in
    /// ascending order.
    pub fn services(&self) -> (r: &Vec<String>)
        ensures
            strings_of(r@).to_set() == self@.services,
            ascending_strings(strings_of(r@)),
    {
        proof {
            use_type_invariant(self);
        }
        &self.services
    }

    /// Interfaces an object must implement before this one, one per vendor
    /// and version, in ascending order of vendor, then version.
    pub fn dependencies(&self) -> (r: &Vec<Interface>)
        ensures
            keys_of(r@).to_set() == self@.dependencies,
            ascending_keys(keys_of(r@)),
    {
        proof {
            use_type_invariant(self);
        }
        &self.dependencies
    }

    /// Whether the two interfaces have the same vendor nodes and version.
    pub fn same_key(&self, other: &Interface) -> (r: bool)
        ensures
            r == (self.key() == other.key()),
    {
        self.vendor_path.same_nodes(&other.vendor_path) && self.version == other.version
    }
}

impl Interface {
    /// Same vendor, version and services, and dependencies that are the
    /// same interfaces, compared in their ascending order.
    pub closed spec fn same_as(&self, other: &Interface) -> bool
        decreases self,
    {
        &&& self@.vendor == other@.vendor
        &&& self@.version == other@.version
        &&& self@.services == other@.services
        &&& self.dependencies@.len() == other.dependencies@.len()
        &&& forall|i: int|
            0 <= i < self.dependencies@.len() ==> (#[trigger] self.dependencies@[i]).same_as(
                &other.dependencies@[i],
            )
    }

    /// Whether the two interfaces are the same, dependencies included.
    fn same(&self, other: &Interface) -> (r: bool)
        ensures
            r == self.same_as(other),
        decreases self,
    {
        if self.version != other.version {
            return false;
        }
        if self.vendor_path != other.vendor_path {
            return false;
        }
        let services = strings_within(&self.services, &other.services) && strings_within(
            &other.services,
            &self.services,
        );
        if !services {
            return false;
        }
        proof {
            assert(self@.services =~= other@.services);
        }
        if self.dependencies.len() != other.dependencies.len() {
            return false;
        }
        let mut i: usize = 0;
        while i < self.dependencies.len()
            invariant
                i <= self.dependencies@.len(),
                self.dependencies@.len() == other.dependencies@.len(),
                forall|j: int| 0 <= j < i ==> (#[trigger] self.dependencies@[j]).same_as(
                    &other.dependencies@[j],
                ),
            decreases self.dependencies@.len() - i,
        {
            proof {
                assert(decreases_to!(self => self.dependencies));
                assert(decreases_to!(self.dependencies => self.dependencies@[i as int]));
            }
            if !self.dependencies[i].same(&other.dependencies[i]) {
                return false;
            }
            i = i + 1;
        }
        true
    }
}

impl PartialEq for Interface {
    /// Same vendor, version and services, and the same dependencies.
    fn eq(&self, other: &Interface) -> (r: bool) {
        self.same(other)
    }
}

impl vstd::std_specs::cmp::PartialEqSpecImpl for Interface {
    open spec fn obeys_eq_spec() -> bool {
        true
    }

    open spec fn eq_spec(&self, other: &Interface) -> bool {
        self.same_as(other)
    }
}

impl PartialOrd for Interface {
    /// Orders by vendor nodes, then version; nothing else counts.
    fn partial_cmp(&self, other: &Interface) -> (r: Option<Ordering>) {
        match self.vendor_path.compare(&other.vendor_path) {
            Ordering::Less => Some(Ordering::Less),
            Ordering::Greater => Some(Ordering::Greater),
            Ordering::Equal => self.version.partial_cmp(&other.version),
        }
    }
}

impl vstd::std_specs::cmp::PartialOrdSpecImpl for Interface {
    open spec fn obeys_partial_cmp_spec() -> bool {
        true
    }

    open spec fn partial_cmp_spec(&self, other: &Interface) -> Option<Ordering> {
        let by_vendor = cmp_nodes(self@.vendor.nodes, other@.vendor.nodes);
        if by_vendor != Ordering::Equal {
            Some(by_vendor)
        } else {
            Some(self@.version.spec_cmp(&other@.version))
        }
    }
}

} // verus!
