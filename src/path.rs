//! Node names and paths of the naming tree.

use vstd::prelude::*;
use vstd::string::StrSliceExecFns;

use core::cmp::Ordering;

verus! {

/// A character that may begin a name: a latin letter or an underscore.
pub open spec fn first_char_allowed(c: char) -> bool {
    ('A' <= c && c <= 'Z') || ('a' <= c && c <= 'z') || c == '_'
}

/// A character that may appear in a name after the first.
pub open spec fn char_allowed(c: char) -> bool {
    first_char_allowed(c) || ('0' <= c && c <= '9')
}

/// A valid name: not empty, made of latin letters, digits and underscores,
/// and not beginning with a digit.
pub open spec fn valid_name(s: Seq<char>) -> bool {
    &&& s.len() > 0
    &&& first_char_allowed(s[0])
    &&& forall|i: int| 1 <= i < s.len() ==> char_allowed(#[trigger] s[i])
}

/// Strings order lexicographically by character.
pub open spec fn cmp_chars(a: Seq<char>, b: Seq<char>) -> Ordering
    decreases a.len(),
{
    if a.len() == 0 {
        if b.len() == 0 {
            Ordering::Equal
        } else {
            Ordering::Less
        }
    } else if b.len() == 0 {
        Ordering::Greater
    } else if a[0] != b[0] {
        if a[0] < b[0] {
            Ordering::Less
        } else {
            Ordering::Greater
        }
    } else {
        cmp_chars(a.drop_first(), b.drop_first())
    }
}

/// Paths order lexicographically by node name, from the root down.
pub open spec fn cmp_nodes(a: Seq<Seq<char>>, b: Seq<Seq<char>>) -> Ordering
    decreases a.len(),
{
    if a.len() == 0 {
        if b.len() == 0 {
            Ordering::Equal
        } else {
            Ordering::Less
        }
    } else if b.len() == 0 {
        Ordering::Greater
    } else if cmp_chars(a[0], b[0]) != Ordering::Equal {
        cmp_chars(a[0], b[0])
    } else {
        cmp_nodes(a.drop_first(), b.drop_first())
    }
}

/// The ordering seen from the other side.
pub open spec fn flip(o: Ordering) -> Ordering {
    match o {
        Ordering::Less => Ordering::Greater,
        Ordering::Greater => Ordering::Less,
        Ordering::Equal => Ordering::Equal,
    }
}

/// Comparing strings the other way round flips the result, and only equal
/// strings compare equal.
pub proof fn lemma_cmp_chars_flip(a: Seq<char>, b: Seq<char>)
    ensures
        cmp_chars(b, a) == flip(cmp_chars(a, b)),
        cmp_chars(a, b) == Ordering::Equal <==> a == b,
    decreases a.len(),
{
    if a.len() > 0 && b.len() > 0 && a[0] == b[0] {
        lemma_cmp_chars_flip(a.drop_first(), b.drop_first());
        if a.drop_first() == b.drop_first() {
            assert(a =~= b) by {
                assert forall|i: int| 0 <= i < a.len() implies a[i] == b[i] by {
                    if i > 0 {
                        assert(a[i] == a.drop_first()[i - 1]);
                        assert(b[i] == b.drop_first()[i - 1]);
                    }
                }
            }
        }
    }
    if a == b && a.len() > 0 {
        assert(a.drop_first() == b.drop_first());
        lemma_cmp_chars_flip(a.drop_first(), b.drop_first());
    }
    if a.len() == 0 && b.len() == 0 {
        assert(a =~= b);
    }
}

/// The order on strings is transitive.
pub proof fn lemma_cmp_chars_trans(a: Seq<char>, b: Seq<char>, c: Seq<char>)
    requires
        cmp_chars(a, b) == Ordering::Less,
        cmp_chars(b, c) == Ordering::Less,
    ensures
        cmp_chars(a, c) == Ordering::Less,
    decreases a.len(),
{
    if a.len() > 0 && b.len() > 0 && c.len() > 0 && a[0] == b[0] && b[0] == c[0] {
        lemma_cmp_chars_trans(a.drop_first(), b.drop_first(), c.drop_first());
    }
}

/// Comparing paths the other way round flips the result, and only equal
/// node lists compare equal.
pub proof fn lemma_cmp_nodes_flip(a: Seq<Seq<char>>, b: Seq<Seq<char>>)
    ensures
        cmp_nodes(b, a) == flip(cmp_nodes(a, b)),
        cmp_nodes(a, b) == Ordering::Equal <==> a == b,
    decreases a.len(),
{
    if a.len() > 0 && b.len() > 0 {
        lemma_cmp_chars_flip(a[0], b[0]);
        if a[0] == b[0] {
            lemma_cmp_nodes_flip(a.drop_first(), b.drop_first());
            if a.drop_first() == b.drop_first() {
                assert(a =~= b) by {
                    assert forall|i: int| 0 <= i < a.len() implies a[i] == b[i] by {
                        if i > 0 {
                            assert(a[i] == a.drop_first()[i - 1]);
                            assert(b[i] == b.drop_first()[i - 1]);
                        }
                    }
                }
            }
        }
    }
    if a == b && a.len() > 0 {
        assert(a.drop_first() == b.drop_first());
        lemma_cmp_nodes_flip(a.drop_first(), b.drop_first());
    }
    if a.len() == 0 && b.len() == 0 {
        assert(a =~= b);
    }
}

/// The order on paths is transitive.
pub proof fn lemma_cmp_nodes_trans(a: Seq<Seq<char>>, b: Seq<Seq<char>>, c: Seq<Seq<char>>)
    requires
        cmp_nodes(a, b) == Ordering::Less,
        cmp_nodes(b, c) == Ordering::Less,
    ensures
        cmp_nodes(a, c) == Ordering::Less,
    decreases a.len(),
{
    if a.len() > 0 && b.len() > 0 && c.len() > 0 {
        lemma_cmp_chars_flip(a[0], b[0]);
        lemma_cmp_chars_flip(b[0], c[0]);
        lemma_cmp_chars_flip(a[0], c[0]);
        if cmp_chars(a[0], b[0]) == Ordering::Less && cmp_chars(b[0], c[0]) == Ordering::Less {
            lemma_cmp_chars_trans(a[0], b[0], c[0]);
        }
        if a[0] == b[0] && b[0] == c[0] {
            lemma_cmp_nodes_trans(a.drop_first(), b.drop_first(), c.drop_first());
        }
    }
}

/// How strings `a` and `b` compare.
pub(crate) fn compare_str(a: &str, b: &str) -> (r: Ordering)
    ensures
        r == cmp_chars(a@, b@),
{
    let n = a.unicode_len();
    let m = b.unicode_len();
    let mut i: usize = 0;
    proof {
        assert(a@.skip(0) =~= a@);
        assert(b@.skip(0) =~= b@);
    }
    while i < n && i < m
        invariant
            n == a@.len(),
            m == b@.len(),
            i <= n,
            i <= m,
            cmp_chars(a@, b@) == cmp_chars(a@.skip(i as int), b@.skip(i as int)),
        decreases n - i,
    {
        let x = a.get_char(i);
        let y = b.get_char(i);
        proof {
            assert(a@.skip(i as int)[0] == x);
            assert(b@.skip(i as int)[0] == y);
        }
        if x < y {
            return Ordering::Less;
        } else if x > y {
            return Ordering::Greater;
        }
        proof {
            assert(a@.skip(i as int).drop_first() =~= a@.skip(i + 1));
            assert(b@.skip(i as int).drop_first() =~= b@.skip(i + 1));
        }
        i = i + 1;
    }
    if i == n && i == m {
        Ordering::Equal
    } else if i == n {
        Ordering::Less
    } else {
        Ordering::Greater
    }
}

/// A node name used as an ordered key: a copy of the name, compared and
/// ordered by its text.
#[derive(Debug)]
pub struct WeakName(Name);

impl View for WeakName {
    type V = Seq<char>;

    closed spec fn view(&self) -> Seq<char> {
        self.0@
    }
}

impl WeakName {
    /// The key for `name`.
    pub fn from(name: &Name) -> (r: WeakName)
        ensures
            r@ == name@,
    {
        WeakName(name.clone())
    }

    pub fn as_str(&self) -> (r: &str)
        ensures
            r@ == self@,
            valid_name(r@),
    {
        self.0.as_str()
    }
}

impl PartialEq for WeakName {
    fn eq(&self, other: &WeakName) -> (r: bool) {
        self.0 == other.0
    }
}

impl vstd::std_specs::cmp::PartialEqSpecImpl for WeakName {
    open spec fn obeys_eq_spec() -> bool {
        true
    }

    open spec fn eq_spec(&self, other: &WeakName) -> bool {
        self@ == other@
    }
}

impl PartialOrd for WeakName {
    fn partial_cmp(&self, other: &WeakName) -> (r: Option<Ordering>) {
        Some(compare_str(self.0.as_str(), other.0.as_str()))
    }
}

impl vstd::std_specs::cmp::PartialOrdSpecImpl for WeakName {
    open spec fn obeys_partial_cmp_spec() -> bool {
        true
    }

    open spec fn partial_cmp_spec(&self, other: &WeakName) -> Option<Ordering> {
        Some(cmp_chars(self@, other@))
    }
}

/// Path `p` runs strictly below path `base`: it starts with all the nodes
/// of `base` and has more.
pub open spec fn runs_below(p: PathView, base: PathView) -> bool {
    base.nodes.len() < p.nodes.len() && base.nodes == p.nodes.subrange(0, base.nodes.len() as int)
}

/// The name of one node of a path; always valid.
#[derive(Debug)]
pub struct Name(String);

impl View for Name {
    type V = Seq<char>;

    closed spec fn view(&self) -> Seq<char> {
        self.0@
    }
}

impl Name {
    #[verifier::type_invariant]
    spec fn is_valid(&self) -> bool {
        valid_name(self.0@)
    }

    /// The name `s`, if it is valid.
    pub fn try_new(s: &str) -> (r: Option<Name>)
        ensures
            r is Some <==> valid_name(s@),
            r matches Some(n) ==> n@ == s@,
    {
        let n = s.unicode_len();
        if n == 0 {
            return None;
        }
        if !Self::is_allowed_first_char(s.get_char(0)) {
            return None;
        }
        let mut i: usize = 1;
        while i < n
            invariant
                n == s@.len(),
                1 <= i <= n,
                first_char_allowed(s@[0]),
                forall|j: int| 1 <= j < i ==> char_allowed(#[trigger] s@[j]),
            decreases n - i,
        {
            if !Self::is_allowed_char(s.get_char(i)) {
                return None;
            }
            i = i + 1;
        }
        Some(Name(s.to_owned()))
    }

    /// Whether `c` may appear in a name after the first character.
    fn is_allowed_char(c: char) -> (r: bool)
        ensures
            r == char_allowed(c),
    {
        Self::is_allowed_first_char(c) || ('0' <= c && c <= '9')
    }

    /// Whether `c` may begin a name.
    fn is_allowed_first_char(c: char) -> (r: bool)
        ensures
            r == first_char_allowed(c),
    {
        ('A' <= c && c <= 'Z') || ('a' <= c && c <= 'z') || c == '_'
    }

    pub fn as_str(&self) -> (r: &str)
        ensures
            r@ == self@,
            valid_name(r@),
    {
        proof {
            use_type_invariant(self);
        }
        self.0.as_str()
    }

}

impl Name {
    /// The ordered key for this name.
    pub fn weak(&self) -> (r: WeakName)
        ensures
            r@ == self@,
    {
        WeakName::from(self)
    }
}

impl Clone for Name {
    fn clone(&self) -> (r: Name)
        ensures
            r@ == self@,
    {
        proof {
            use_type_invariant(self);
        }
        Name(self.0.clone())
    }
}

impl PartialEq for Name {
    fn eq(&self, other: &Name) -> (r: bool) {
        self.0 == other.0
    }
}

impl vstd::std_specs::cmp::PartialEqSpecImpl for Name {
    open spec fn obeys_eq_spec() -> bool {
        true
    }

    open spec fn eq_spec(&self, other: &Name) -> bool {
        self@ == other@
    }
}

/// A path of the naming tree: the names of its nodes from the root down to
/// this node, the names of the children registered under this node, and
/// the parent node as it stood when this node was registered under it.
pub struct Path {
    nodes: Vec<Name>,
    children: Vec<Name>,
    parent: Option<Box<Path>>,
}

pub ghost struct PathView {
    /// Node names from the root down; never empty.
    pub nodes: Seq<Seq<char>>,
    /// Names of the children registered under the last node.
    pub children: Set<Seq<char>>,
}

pub open spec fn names_of(v: Seq<Name>) -> Seq<Seq<char>> {
    v.map_values(|n: Name| n@)
}

impl View for Path {
    type V = PathView;

    closed spec fn view(&self) -> PathView {
        PathView { nodes: names_of(self.nodes@), children: names_of(self.children@).to_set() }
    }
}

/// Copies of the first `k` names of `v`.
fn clone_prefix(v: &Vec<Name>, k: usize) -> (r: Vec<Name>)
    requires
        k <= v@.len(),
    ensures
        names_of(r@) == names_of(v@.subrange(0, k as int)),
{
    let mut r: Vec<Name> = Vec::new();
    let mut i: usize = 0;
    while i < k
        invariant
            i <= k,
            k <= v@.len(),
            names_of(r@) == names_of(v@.subrange(0, i as int)),
        decreases k - i,
    {
        let n = v[i].clone();
        assert(n@ == v@[i as int]@);
        let ghost r0 = r@;
        r.push(n);
        proof {
            assert(names_of(r0) == names_of(v@.subrange(0, i as int)));
            assert forall|j: int| 0 <= j < i + 1 implies names_of(r@)[j] == names_of(
                v@.subrange(0, i + 1),
            )[j] by {
                if j < i {
                    assert(names_of(r0)[j] == names_of(v@.subrange(0, i as int))[j]);
                }
            }
            assert(names_of(r@) =~= names_of(v@.subrange(0, i + 1)));
        }
        i = i + 1;
    }
    r
}

/// Copies of the names of `v`.
fn clone_names(v: &Vec<Name>) -> (r: Vec<Name>)
    ensures
        names_of(r@) == names_of(v@),
{
    let r = clone_prefix(v, v.len());
    proof {
        assert(v@.subrange(0, v@.len() as int) =~= v@);
    }
    r
}

/// Whether some name of `v` equals `n`.
fn holds_name(v: &Vec<Name>, n: &Name) -> (r: bool)
    ensures
        r == names_of(v@).contains(n@),
{
    let mut i: usize = 0;
    while i < v.len()
        invariant
            i <= v@.len(),
            forall|j: int| 0 <= j < i ==> v@[j]@ != n@,
        decreases v@.len() - i,
    {
        if v[i] == *n {
            proof {
                assert(names_of(v@)[i as int] == n@);
            }
            return true;
        }
        i = i + 1;
    }
    proof {
        if names_of(v@).contains(n@) {
            let j = choose|j: int| 0 <= j < v@.len() && names_of(v@)[j] == n@;
            assert(v@[j]@ == n@);
        }
    }
    false
}

impl Path {
    #[verifier::type_invariant]
    spec fn has_node(&self) -> bool {
        &&& self.nodes@.len() > 0
        &&& self.parent is Some <==> self.nodes@.len() > 1
        &&& self.parent matches Some(p) ==> (*p)@.nodes == names_of(self.nodes@).drop_last()
    }

    /// The parent node as it stood once this node was registered under it;
    /// `None` for a root.
    pub closed spec fn parent_view(&self) -> Option<PathView> {
        match self.parent {
            Some(p) => Some((*p)@),
            None => None,
        }
    }

    /// A copy of this path and of its parents.
    fn copy(&self) -> (r: Path)
        ensures
            r@ == self@,
            r.parent_view() == self.parent_view(),
        decreases self,
    {
        proof {
            use_type_invariant(self);
        }
        let nodes = clone_names(&self.nodes);
        let children = clone_names(&self.children);
        let parent = match &self.parent {
            Some(p) => Some(Box::new(p.copy())),
            None => None,
        };
        proof {
            assert(names_of(nodes@).len() == nodes@.len());
            assert(names_of(self.nodes@).len() == self.nodes@.len());
        }
        Path { nodes, children, parent }
    }

    /// A root node named `name`, with no child, if the name is valid.
    pub fn new(name: &str) -> (r: Option<Path>)
        ensures
            r is Some <==> valid_name(name@),
            r matches Some(p) ==> p@.nodes == seq![name@] && p@.children == Set::<Seq<char>>::empty(),
    {
        match Name::try_new(name) {
            Some(n) => {
                let nodes = vec![n];
                let p = Path { nodes, children: Vec::new(), parent: None };
                proof {
                    assert(p@.nodes =~= seq![name@]);
                    assert(p@.children =~= Set::<Seq<char>>::empty());
                }
                Some(p)
            },
            None => None,
        }
    }

    /// A child of this node named `name`, if the name is valid; the child
    /// is registered under this node. An invalid name changes nothing.
    pub fn try_new(&mut self, name: &str) -> (r: Option<Path>)
        ensures
            r is Some <==> valid_name(name@),
            r matches Some(p) ==> p@.nodes == old(self)@.nodes.push(name@) && p@.children == Set::<
                Seq<char>,
            >::empty() && p.parent_view() == Some(final(self)@),
            r is Some ==> final(self)@ == (PathView {
                children: old(self)@.children.insert(name@),
                ..old(self)@
            }),
            r is None ==> final(self)@ == old(self)@,
    {
        proof {
            use_type_invariant(&*self);
        }
        let n = match Name::try_new(name) {
            Some(n) => n,
            None => return None,
        };
        if !holds_name(&self.children, &n) {
            let mut children = clone_names(&self.children);
            let ghost cs = children@;
            children.push(n.clone());
            self.children = children;
            proof {
                assert(names_of(self.children@) =~= names_of(cs).push(name@));
                names_of(cs).lemma_push_to_set_commute(name@);
            }
        } else {
            proof {
                assert(self@.children =~= old(self)@.children.insert(name@));
            }
        }
        let mut nodes = clone_names(&self.nodes);
        let ghost before = nodes@;
        nodes.push(n);
        let parent = self.copy();
        proof {
            assert(names_of(nodes@) =~= names_of(before).push(name@));
            assert(names_of(nodes@).drop_last() =~= names_of(before));
            assert(names_of(before).len() == before.len());
        }
        let child = Path { nodes, children: Vec::new(), parent: Some(Box::new(parent)) };
        proof {
            assert(child@.children =~= Set::<Seq<char>>::empty());
        }
        Some(child)
    }

    /// The name of this node.
    pub fn name(&self) -> (r: &str)
        ensures
            r@ == self@.nodes.last(),
            valid_name(r@),
    {
        proof {
            use_type_invariant(self);
        }
        self.nodes[self.nodes.len() - 1].as_str()
    }

    /// The parent node, as it stood once this node was registered under
    /// it; `None` for a root.
    pub fn parent(&self) -> (r: Option<&Path>)
        ensures
            r is None <==> self@.nodes.len() == 1,
            r matches Some(p) ==> Some(p@) == self.parent_view() && p@.nodes == self@.nodes.drop_last(),
    {
        proof {
            use_type_invariant(self);
        }
        match &self.parent {
            Some(p) => Some(&**p),
            None => None,
        }
    }

    /// Whether this path runs strictly below `base`: it starts with all the
    /// nodes of `base` and has more.
    pub fn extends(&self, base: &Path) -> (r: bool)
        ensures
            r == runs_below(self@, base@),
    {
        let n = base.nodes.len();
        if n >= self.nodes.len() {
            return false;
        }
        let mut i: usize = 0;
        while i < n
            invariant
                n == base.nodes@.len(),
                n < self.nodes@.len(),
                i <= n,
                forall|j: int| 0 <= j < i ==> base.nodes@[j]@ == self.nodes@[j]@,
            decreases n - i,
        {
            if base.nodes[i] != self.nodes[i] {
                proof {
                    assert(base@.nodes[i as int] != self@.nodes.subrange(0, n as int)[i as int]);
                }
                return false;
            }
            i = i + 1;
        }
        proof {
            assert(base@.nodes =~= self@.nodes.subrange(0, n as int));
        }
        true
    }

    /// Whether the two paths name the same nodes, whatever their children.
    pub fn same_nodes(&self, other: &Path) -> (r: bool)
        ensures
            r == (self@.nodes == other@.nodes),
    {
        if self.nodes.len() != other.nodes.len() {
            proof {
                assert(self@.nodes.len() != other@.nodes.len());
            }
            return false;
        }
        let mut i: usize = 0;
        while i < self.nodes.len()
            invariant
                i <= self.nodes@.len(),
                self.nodes@.len() == other.nodes@.len(),
                forall|j: int| 0 <= j < i ==> self.nodes@[j]@ == other.nodes@[j]@,
            decreases self.nodes@.len() - i,
        {
            if self.nodes[i] != other.nodes[i] {
                proof {
                    assert(self@.nodes[i as int] != other@.nodes[i as int]);
                }
                return false;
            }
            i = i + 1;
        }
        proof {
            assert(self@.nodes =~= other@.nodes);
        }
        true
    }

    /// How the node names of the two paths compare, from the root down.
    pub fn compare(&self, other: &Path) -> (r: Ordering)
        ensures
            r == cmp_nodes(self@.nodes, other@.nodes),
    {
        let n = self.nodes.len();
        let m = other.nodes.len();
        let ghost a = self@.nodes;
        let ghost b = other@.nodes;
        let mut i: usize = 0;
        proof {
            assert(a.skip(0) =~= a);
            assert(b.skip(0) =~= b);
        }
        while i < n && i < m
            invariant
                n == a.len(),
                m == b.len(),
                a == self@.nodes,
                b == other@.nodes,
                i <= n,
                i <= m,
                cmp_nodes(a, b) == cmp_nodes(a.skip(i as int), b.skip(i as int)),
            decreases n - i,
        {
            let o = compare_str(self.nodes[i].as_str(), other.nodes[i].as_str());
            proof {
                assert(a.skip(i as int)[0] == self.nodes@[i as int]@);
                assert(b.skip(i as int)[0] == other.nodes@[i as int]@);
                assert(a.skip(i as int).len() > 0 && b.skip(i as int).len() > 0);
                assert(cmp_nodes(a.skip(i as int), b.skip(i as int)) == if o != Ordering::Equal {
                    o
                } else {
                    cmp_nodes(a.skip(i as int).drop_first(), b.skip(i as int).drop_first())
                });
            }
            match o {
                Ordering::Equal => {},
                _ => return o,
            }
            proof {
                assert(a.skip(i as int).drop_first() =~= a.skip(i + 1));
                assert(b.skip(i as int).drop_first() =~= b.skip(i + 1));
            }
            i = i + 1;
        }
        if i == n && i == m {
            Ordering::Equal
        } else if i == n {
            Ordering::Less
        } else {
            Ordering::Greater
        }
    }

    /// The nodes of this path from this node up to the root.
    pub fn iter(&self) -> (r: PathNodeIterator)
        ensures
            r@ == self@.nodes.reverse(),
    {
        PathNodeIterator::new(self)
    }
}

impl Clone for Path {
    fn clone(&self) -> (r: Path)
        ensures
            r@ == self@,
            r.parent_view() == self.parent_view(),
    {
        self.copy()
    }
}

impl PartialEq for Path {
    fn eq(&self, other: &Path) -> (r: bool) {
        if self.nodes.len() != other.nodes.len() {
            proof {
                assert(self@.nodes.len() != other@.nodes.len());
            }
            return false;
        }
        let mut i: usize = 0;
        while i < self.nodes.len()
            invariant
                i <= self.nodes@.len(),
                self.nodes@.len() == other.nodes@.len(),
                forall|j: int| 0 <= j < i ==> self.nodes@[j]@ == other.nodes@[j]@,
            decreases self.nodes@.len() - i,
        {
            if self.nodes[i] != other.nodes[i] {
                proof {
                    assert(self@.nodes[i as int] != other@.nodes[i as int]);
                }
                return false;
            }
            i = i + 1;
        }
        proof {
            assert(self@.nodes =~= other@.nodes);
        }
        let mut k: usize = 0;
        while k < self.children.len()
            invariant
                k <= self.children@.len(),
                forall|j: int| 0 <= j < k ==> other@.children.contains(#[trigger] self.children@[j]@),
            decreases self.children@.len() - k,
        {
            if !holds_name(&other.children, &self.children[k]) {
                proof {
                    assert(names_of(self.children@)[k as int] == self.children@[k as int]@);
                    assert(self@.children.contains(self.children@[k as int]@));
                }
                return false;
            }
            k = k + 1;
        }
        let mut k: usize = 0;
        while k < other.children.len()
            invariant
                k <= other.children@.len(),
                forall|j: int| 0 <= j < k ==> self@.children.contains(#[trigger] other.children@[j]@),
            decreases other.children@.len() - k,
        {
            if !holds_name(&self.children, &other.children[k]) {
                proof {
                    assert(names_of(other.children@)[k as int] == other.children@[k as int]@);
                    assert(other@.children.contains(other.children@[k as int]@));
                }
                return false;
            }
            k = k + 1;
        }
        proof {
            assert forall|x: Seq<char>| self@.children.contains(x) <==> other@.children.contains(x) by {
                if self@.children.contains(x) {
                    let j = choose|j: int| 0 <= j < self.children@.len() && names_of(self.children@)[j] == x;
                    assert(self.children@[j]@ == x);
                }
                if other@.children.contains(x) {
                    let j = choose|j: int| 0 <= j < other.children@.len() && names_of(other.children@)[j] == x;
                    assert(other.children@[j]@ == x);
                }
            }
            assert(self@.children =~= other@.children);
        }
        true
    }
}

impl vstd::std_specs::cmp::PartialEqSpecImpl for Path {
    open spec fn obeys_eq_spec() -> bool {
        true
    }

    open spec fn eq_spec(&self, other: &Path) -> bool {
        self@ == other@
    }
}

/// Walks the nodes of a path from its last node up to the root.
pub struct PathNodeIterator {
    nodes: Vec<Name>,
    remaining: usize,
}

impl View for PathNodeIterator {
    type V = Seq<Seq<char>>;

    /// The names still to come, in the order they come.
    closed spec fn view(&self) -> Seq<Seq<char>> {
        names_of(self.nodes@.subrange(0, self.remaining as int)).reverse()
    }
}

impl PathNodeIterator {
    pub closed spec fn wf(&self) -> bool {
        self.remaining <= self.nodes@.len()
    }

    /// An iterator over the nodes of `node`, from `node` itself up to the
    /// root.
    pub fn new(node: &Path) -> (r: PathNodeIterator)
        ensures
            r.wf(),
            r@ == node@.nodes.reverse(),
    {
        let nodes = clone_names(&node.nodes);
        let remaining = nodes.len();
        let r = PathNodeIterator { nodes, remaining };
        proof {
            assert(nodes@.subrange(0, remaining as int) =~= nodes@);
        }
        r
    }

    /// The next node name, nearest to the starting node first.
    pub fn next(&mut self) -> (r: Option<Name>)
        requires
            old(self).wf(),
        ensures
            final(self).wf(),
            old(self)@.len() == 0 ==> r is None && final(self)@ == old(self)@,
            old(self)@.len() > 0 ==> (r matches Some(n) && n@ == old(self)@[0] && final(self)@
                == old(self)@.drop_first()),
    {
        if self.remaining == 0 {
            return None;
        }
        let ghost before = self@;
        self.remaining = self.remaining - 1;
        let n = self.nodes[self.remaining].clone();
        proof {
            assert(self@ =~= before.drop_first());
        }
        Some(n)
    }
}

} // verus!
