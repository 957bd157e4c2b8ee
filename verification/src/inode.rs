//! An inode of the tree: its name, its parent and, for a directory, its
//! children, kept in the byte order of their names.
use vstd::prelude::*;
use vstd::utf8::encode_utf8;
use crate::names::{precedes, lemma_precedes_irreflexive, lemma_precedes_transitive, compare_bytes, NameOrder};

verus! {

broadcast use vstd::utf8::encode_utf8_decode_utf8;

/// The bytes of a name, as the name is stored.
pub open spec fn name_bytes(name: Seq<char>) -> Seq<u8> {
    encode_utf8(name)
}

/// Each name of the listing comes strictly before the next in byte order.
pub open spec fn sorted_by_name(s: Seq<(Seq<char>, u64)>) -> bool {
    forall|i: int, j: int|
        0 <= i < j < s.len() ==> #[trigger] precedes(name_bytes(s[i].0), name_bytes(s[j].0))
}

/// The listing holds an entry called `k`.
pub open spec fn lists(s: Seq<(Seq<char>, u64)>, k: Seq<char>) -> bool {
    exists|i: int| 0 <= i < s.len() && s[i].0 == k
}

/// A position of the listing that holds the name `k`, where there is one.
pub open spec fn position_of(s: Seq<(Seq<char>, u64)>, k: Seq<char>) -> int {
    choose|i: int| 0 <= i < s.len() && s[i].0 == k
}

/// What a listing maps each name to.
pub open spec fn entries_map(s: Seq<(Seq<char>, u64)>) -> Map<Seq<char>, u64> {
    Map::new(|k: Seq<char>| lists(s, k), |k: Seq<char>| s[position_of(s, k)].1)
}

/// The abstract value of an inode.
pub struct InodeView {
    pub name: Seq<char>,
    pub listing: Seq<(Seq<char>, u64)>,
    pub parent: u64,
}

impl InodeView {
    /// The children by name.
    pub open spec fn children(self) -> Map<Seq<char>, u64> {
        entries_map(self.listing)
    }

    /// The listing is in strictly increasing byte order of the names.
    pub open spec fn wf(self) -> bool {
        sorted_by_name(self.listing)
    }
}

/// An inode as the file system sees it: its name, its children by name and
/// its parent.
pub struct NodeView {
    pub name: Seq<char>,
    pub children: Map<Seq<char>, u64>,
    pub parent: u64,
}

impl InodeView {
    /// The inode with its children as a map.
    pub open spec fn node(self) -> NodeView {
        NodeView { name: self.name, children: self.children(), parent: self.parent }
    }
}

/// A sorted listing names each entry once.
pub proof fn lemma_sorted_names_distinct(s: Seq<(Seq<char>, u64)>, i: int, j: int)
    requires
        sorted_by_name(s),
        0 <= i < s.len(),
        0 <= j < s.len(),
        i != j,
    ensures
        s[i].0 != s[j].0,
{
    lemma_precedes_irreflexive(name_bytes(s[i].0));
    if i < j {
        assert(precedes(name_bytes(s[i].0), name_bytes(s[j].0)));
    } else {
        assert(precedes(name_bytes(s[j].0), name_bytes(s[i].0)));
    }
}

/// In a sorted listing, the entry at `i` is what its name maps to.
pub proof fn lemma_entry_in_map(s: Seq<(Seq<char>, u64)>, i: int)
    requires
        sorted_by_name(s),
        0 <= i < s.len(),
    ensures
        entries_map(s).contains_key(s[i].0),
        entries_map(s)[s[i].0] == s[i].1,
{
    let k = s[i].0;
    assert(lists(s, k));
    let j = position_of(s, k);
    if j != i {
        lemma_sorted_names_distinct(s, i, j);
    }
}

/// Putting a new name into a sorted listing puts it into the map.
pub proof fn lemma_map_after_insert(s: Seq<(Seq<char>, u64)>, p: int, n: Seq<char>, v: u64)
    requires
        sorted_by_name(s),
        0 <= p <= s.len(),
        !lists(s, n),
        sorted_by_name(s.insert(p, (n, v))),
    ensures
        entries_map(s.insert(p, (n, v))) =~= entries_map(s).insert(n, v),
{
    let t = s.insert(p, (n, v));
    assert forall|k: Seq<char>| lists(t, k) <==> (lists(s, k) || k == n) by {
        if lists(t, k) {
            let i = choose|i: int| 0 <= i < t.len() && t[i].0 == k;
            if i < p {
                assert(s[i].0 == k);
            } else if i > p {
                assert(s[i - 1].0 == k);
            }
        }
        if lists(s, k) {
            let i = choose|i: int| 0 <= i < s.len() && s[i].0 == k;
            if i < p {
                assert(t[i].0 == k);
            } else {
                assert(t[i + 1].0 == k);
            }
        }
        if k == n {
            assert(t[p].0 == k);
        }
    }
    assert forall|k: Seq<char>| #[trigger] entries_map(t).contains_key(k) implies entries_map(t)[k]
        == entries_map(s).insert(n, v)[k] by {
        if k == n {
            lemma_entry_in_map(t, p);
        } else {
            let i = choose|i: int| 0 <= i < s.len() && s[i].0 == k;
            lemma_entry_in_map(s, i);
            if i < p {
                lemma_entry_in_map(t, i);
            } else {
                lemma_entry_in_map(t, i + 1);
            }
        }
    }
}

/// Replacing the entry that carries a name changes what the name maps to.
pub proof fn lemma_map_after_update(s: Seq<(Seq<char>, u64)>, p: int, v: u64)
    requires
        sorted_by_name(s),
        0 <= p < s.len(),
    ensures
        sorted_by_name(s.update(p, (s[p].0, v))),
        entries_map(s.update(p, (s[p].0, v))) =~= entries_map(s).insert(s[p].0, v),
{
    let n = s[p].0;
    let t = s.update(p, (n, v));
    assert forall|i: int, j: int| 0 <= i < j < t.len() implies #[trigger] precedes(
        name_bytes(t[i].0),
        name_bytes(t[j].0),
    ) by {
        assert(t[i].0 == s[i].0 && t[j].0 == s[j].0);
    }
    assert forall|k: Seq<char>| lists(t, k) <==> lists(s, k) by {
        if lists(t, k) {
            let i = choose|i: int| 0 <= i < t.len() && t[i].0 == k;
            assert(s[i].0 == k);
        }
        if lists(s, k) {
            let i = choose|i: int| 0 <= i < s.len() && s[i].0 == k;
            assert(t[i].0 == k);
        }
    }
    assert(lists(s, n)) by {
        assert(s[p].0 == n);
    }
    assert forall|k: Seq<char>| #[trigger] entries_map(t).contains_key(k) implies entries_map(t)[k]
        == entries_map(s).insert(n, v)[k] by {
        let i = choose|i: int| 0 <= i < s.len() && s[i].0 == k;
        lemma_entry_in_map(s, i);
        lemma_entry_in_map(t, i);
        if i != p {
            lemma_sorted_names_distinct(s, i, p);
        }
    }
}

/// Taking an entry out of a sorted listing takes its name out of the map,
/// and the listing stays sorted.
pub proof fn lemma_map_after_remove(s: Seq<(Seq<char>, u64)>, p: int)
    requires
        sorted_by_name(s),
        0 <= p < s.len(),
    ensures
        sorted_by_name(s.remove(p)),
        entries_map(s.remove(p)) =~= entries_map(s).remove(s[p].0),
{
    let n = s[p].0;
    let t = s.remove(p);
    assert forall|i: int, j: int| 0 <= i < j < t.len() implies #[trigger] precedes(
        name_bytes(t[i].0),
        name_bytes(t[j].0),
    ) by {
        let i0 = if i < p { i } else { i + 1 };
        let j0 = if j < p { j } else { j + 1 };
        assert(t[i].0 == s[i0].0 && t[j].0 == s[j0].0);
        assert(precedes(name_bytes(s[i0].0), name_bytes(s[j0].0)));
    }
    assert forall|k: Seq<char>| lists(t, k) <==> (lists(s, k) && k != n) by {
        if lists(t, k) {
            let i = choose|i: int| 0 <= i < t.len() && t[i].0 == k;
            let i0 = if i < p { i } else { i + 1 };
            assert(s[i0].0 == k);
            lemma_sorted_names_distinct(s, i0, p);
        }
        if lists(s, k) && k != n {
            let i = choose|i: int| 0 <= i < s.len() && s[i].0 == k;
            if i < p {
                assert(t[i].0 == k);
            } else {
                assert(t[i - 1].0 == k);
            }
        }
    }
    assert forall|k: Seq<char>| #[trigger] entries_map(t).contains_key(k) implies entries_map(t)[k]
        == entries_map(s).remove(n)[k] by {
        let i = choose|i: int| 0 <= i < t.len() && t[i].0 == k;
        let i0 = if i < p { i } else { i + 1 };
        lemma_entry_in_map(t, i);
        lemma_entry_in_map(s, i0);
    }
}

/// Putting a name into a sorted listing at the first place whose name comes
/// after it keeps the listing sorted.
pub proof fn lemma_sorted_after_insert(s: Seq<(Seq<char>, u64)>, p: int, n: Seq<char>, v: u64)
    requires
        sorted_by_name(s),
        0 <= p <= s.len(),
        forall|j: int| 0 <= j < p ==> #[trigger] precedes(name_bytes(s[j].0), name_bytes(n)),
        p < s.len() ==> precedes(name_bytes(n), name_bytes(s[p].0)),
    ensures
        sorted_by_name(s.insert(p, (n, v))),
        !lists(s, n),
{
    let t = s.insert(p, (n, v));
    assert forall|i: int, j: int| 0 <= i < j < t.len() implies #[trigger] precedes(
        name_bytes(t[i].0),
        name_bytes(t[j].0),
    ) by {
        if j < p {
            assert(precedes(name_bytes(s[i].0), name_bytes(s[j].0)));
        } else if j == p {
            assert(precedes(name_bytes(s[i].0), name_bytes(n)));
        } else if i == p {
            if j - 1 > p {
                assert(precedes(name_bytes(s[p].0), name_bytes(s[j - 1].0)));
                lemma_precedes_transitive(name_bytes(n), name_bytes(s[p].0), name_bytes(s[j - 1].0));
            }
        } else if i < p {
            assert(precedes(name_bytes(s[i].0), name_bytes(n)));
            lemma_precedes_transitive(name_bytes(s[i].0), name_bytes(n), name_bytes(s[p].0));
            if j - 1 > p {
                assert(precedes(name_bytes(s[p].0), name_bytes(s[j - 1].0)));
                lemma_precedes_transitive(name_bytes(s[i].0), name_bytes(s[p].0), name_bytes(s[j - 1].0));
            }
        } else {
            assert(precedes(name_bytes(s[i - 1].0), name_bytes(s[j - 1].0)));
        }
    }
    assert forall|i: int| 0 <= i < s.len() implies s[i].0 != n by {
        lemma_precedes_irreflexive(name_bytes(n));
        if i < p {
            assert(precedes(name_bytes(s[i].0), name_bytes(n)));
        } else if i == p {
        } else {
            assert(precedes(name_bytes(s[p].0), name_bytes(s[i].0)));
            lemma_precedes_transitive(name_bytes(n), name_bytes(s[p].0), name_bytes(s[i].0));
        }
    }
}

/// Two sorted listings that map the same names to the same numbers are the
/// same listing.
pub proof fn lemma_sorted_listing_unique(l1: Seq<(Seq<char>, u64)>, l2: Seq<(Seq<char>, u64)>)
    requires
        sorted_by_name(l1),
        sorted_by_name(l2),
        entries_map(l1) == entries_map(l2),
    ensures
        l1 == l2,
    decreases l1.len(),
{
    if l1.len() == 0 {
        if l2.len() > 0 {
            lemma_entry_in_map(l2, 0);
            assert(lists(l1, l2[0].0));
        }
        assert(l1 =~= l2);
    } else {
        lemma_entry_in_map(l1, 0);
        assert(lists(l2, l1[0].0));
        let j = choose|j: int| 0 <= j < l2.len() && l2[j].0 == l1[0].0;
        lemma_entry_in_map(l2, 0);
        assert(lists(l1, l2[0].0));
        let i = choose|i: int| 0 <= i < l1.len() && l1[i].0 == l2[0].0;
        if j != 0 {
            assert(precedes(name_bytes(l2[0].0), name_bytes(l2[j].0)));
            if i == 0 {
                lemma_sorted_names_distinct(l2, 0, j);
            } else {
                assert(precedes(name_bytes(l1[0].0), name_bytes(l1[i].0)));
                lemma_precedes_transitive(name_bytes(l1[0].0), name_bytes(l1[i].0), name_bytes(l1[0].0));
                lemma_precedes_irreflexive(name_bytes(l1[0].0));
            }
        }
        assert(l1[0].0 == l2[0].0);
        lemma_entry_in_map(l2, 0);
        assert(l1[0].1 == l2[0].1);
        lemma_map_after_remove(l1, 0);
        lemma_map_after_remove(l2, 0);
        lemma_sorted_listing_unique(l1.remove(0), l2.remove(0));
        assert(l1 =~= seq![l1[0]] + l1.remove(0));
        assert(l2 =~= seq![l2[0]] + l2.remove(0));
    }
}

/// One entry of a directory: a child's name and its inode number.
#[derive(Clone, Debug)]
struct Entry {
    name: String,
    ino: u64,
}

/// An inode of the tree. `nodes` holds the children of a directory in the
/// byte order of their names (the order a `BTreeMap<String, _>` would keep;
/// vstd gives `BTreeMap` no specification for `String` keys, so the order is
/// kept and proved here); `root` is the inode number of the parent.
#[derive(Clone, Debug)]
pub struct Inode {
    name: String,
    nodes: Vec<Entry>,
    root: u64,
}

impl View for Inode {
    type V = InodeView;

    closed spec fn view(&self) -> InodeView {
        InodeView {
            name: self.name@,
            listing: self.nodes@.map_values(|e: Entry| (e.name@, e.ino)),
            parent: self.root,
        }
    }
}

impl Inode {
    /// A new inode called `label` under the parent `parent`, with no children.
    pub fn new_inode(label: String, parent: u64) -> (i: Inode)
        ensures
            i@.name == label@,
            i@.listing == Seq::<(Seq<char>, u64)>::empty(),
            i@.parent == parent,
            i@.wf(),
    {
        let i = Inode { name: label, nodes: Vec::new(), root: parent };
        assert(i@.listing =~= Seq::<(Seq<char>, u64)>::empty());
        i
    }

    /// The inode number of the parent.
    pub fn parent(&self) -> (p: u64)
        ensures
            p == self@.parent,
    {
        self.root
    }

    /// The name the inode was made with.
    pub fn label(&self) -> (n: &String)
        ensures
            n@ == self@.name,
    {
        &self.name
    }

    /// Whether the inode has no children.
    pub fn is_empty(&self) -> (r: bool)
        ensures
            r == (self@.listing.len() == 0),
    {
        self.nodes.len() == 0
    }

    /// The number of children.
    pub fn child_count(&self) -> (n: usize)
        ensures
            n == self@.listing.len(),
    {
        self.nodes.len()
    }

    /// The child at position `i` of the listing: its name and inode number.
    pub fn child_at(&self, i: usize) -> (r: (String, u64))
        requires
            i < self@.listing.len(),
        ensures
            r.0@ == self@.listing[i as int].0,
            r.1 == self@.listing[i as int].1,
    {
        let e = &self.nodes[i];
        (e.name.clone(), e.ino)
    }

    /// The inode number the child called `name` has, if there is one.
    pub fn child(&self, name: &String) -> (r: Option<u64>)
        requires
            self@.wf(),
        ensures
            r == (if self@.children().contains_key(name@) {
                Some(self@.children()[name@])
            } else {
                None
            }),
    {
        let n = self.nodes.len();
        let mut i: usize = 0;
        while i < n
            invariant
                n == self@.listing.len(),
                self@.wf(),
                0 <= i <= n,
                forall|j: int| 0 <= j < i ==> self@.listing[j].0 != name@,
            decreases n - i,
        {
            if self.nodes[i].name == *name {
                proof {
                    lemma_entry_in_map(self@.listing, i as int);
                }
                return Some(self.nodes[i].ino);
            }
            i = i + 1;
        }
        None
    }

    /// Makes `name` a child that maps to `ino`: a new entry in its place in
    /// the order, or a new number for the entry that has the name.
    pub fn insert_child(&mut self, name: String, ino: u64)
        requires
            old(self)@.wf(),
        ensures
            final(self)@.wf(),
            final(self)@.children() == old(self)@.children().insert(name@, ino),
            final(self)@.name == old(self)@.name,
            final(self)@.parent == old(self)@.parent,
    {
        let ghost s = self@.listing;
        let n = self.nodes.len();
        let mut i: usize = 0;
        while i < n
            invariant
                n == self@.listing.len(),
                self@ == old(self)@,
                s == old(self)@.listing,
                s.len() == n,
                sorted_by_name(s),
                0 <= i <= n,
                forall|j: int| 0 <= j < i ==> #[trigger] precedes(name_bytes(s[j].0), name_bytes(name@)),
            decreases n - i,
        {
            let ord = compare_bytes(self.nodes[i].name.as_str().as_bytes(), name.as_str().as_bytes());
            match ord {
                NameOrder::Same => {
                    proof {
                        assert(vstd::utf8::decode_utf8(name_bytes(s[i as int].0)) == s[i as int].0);
                        assert(vstd::utf8::decode_utf8(name_bytes(name@)) == name@);
                        lemma_map_after_update(s, i as int, ino);
                    }
                    let old_name = self.nodes[i].name.clone();
                    self.nodes.set(i, Entry { name: old_name, ino });
                    assert(self@.listing =~= s.update(i as int, (s[i as int].0, ino)));
                    return;
                },
                NameOrder::After => {
                    proof {
                        lemma_sorted_after_insert(s, i as int, name@, ino);
                        lemma_map_after_insert(s, i as int, name@, ino);
                    }
                    self.nodes.insert(i, Entry { name, ino });
                    assert(self@.listing =~= s.insert(i as int, (name@, ino)));
                    return;
                },
                NameOrder::Before => {
                    i = i + 1;
                },
            }
        }
        proof {
            lemma_sorted_after_insert(s, n as int, name@, ino);
            lemma_map_after_insert(s, n as int, name@, ino);
        }
        let ghost name_view = name@;
        self.nodes.push(Entry { name, ino });
        assert(self@.listing =~= s.insert(n as int, (name_view, ino)));
    }

    /// Takes the child called `name` out, and gives back its inode number if
    /// there was one.
    pub fn remove_child(&mut self, name: &String) -> (r: Option<u64>)
        requires
            old(self)@.wf(),
        ensures
            final(self)@.wf(),
            r == (if old(self)@.children().contains_key(name@) {
                Some(old(self)@.children()[name@])
            } else {
                None
            }),
            final(self)@.children() == old(self)@.children().remove(name@),
            r is None ==> final(self)@ == old(self)@,
            final(self)@.name == old(self)@.name,
            final(self)@.parent == old(self)@.parent,
    {
        let ghost s = self@.listing;
        let n = self.nodes.len();
        let mut i: usize = 0;
        while i < n
            invariant
                n == self@.listing.len(),
                self@ == old(self)@,
                s == old(self)@.listing,
                sorted_by_name(s),
                0 <= i <= n,
                forall|j: int| 0 <= j < i ==> s[j].0 != name@,
            decreases n - i,
        {
            if self.nodes[i].name == *name {
                proof {
                    lemma_entry_in_map(s, i as int);
                    lemma_map_after_remove(s, i as int);
                }
                let e = self.nodes.remove(i);
                assert(self@.listing =~= s.remove(i as int));
                return Some(e.ino);
            }
            i = i + 1;
        }
        assert(self@.children() =~= old(self)@.children().remove(name@));
        None
    }
}

} // verus!
