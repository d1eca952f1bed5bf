//! The seam between a runtime that lets a user edit a node tree visually and whatever turns
//! those edits into a real change: nodes are named by their path from the root, and
//! [`InMemoryEditBackend`] applies the edits to an in-memory picture of the tree, nothing
//! more (no undo, no persistence).

use vstd::prelude::*;

use crate::collections::{distinct_keys, has_key, key_position, lemma_position, spec_get, spec_insert, spec_remove};
use crate::history::opt_view;
pub use crate::scaffold::{NodePath, PathStep};

verus! {

/// The kind tag of nodes inserted through an edit backend.
pub const NODE_EDIT_KIND: u64 = 1;

/// The position of the entry keyed by `key`, if any.
fn find_key<V>(list: &Vec<(NodePath, V)>, key: &NodePath) -> (r: Option<usize>)
    ensures
        match r {
            Some(i) => i < list@.len() && list@[i as int].0@ == key@,
            None => forall|j: int| 0 <= j < list@.len() ==> (#[trigger] list@[j]).0@ != key@,
        },
{
    let n = list.len();
    let mut i: usize = 0;
    while i < n
        invariant
            n == list@.len(),
            i <= n,
            forall|j: int| 0 <= j < i ==> (#[trigger] list@[j]).0@ != key@,
        decreases n - i,
    {
        if list[i].0.same_as(key) {
            return Some(i);
        }
        i = i + 1;
    }
    None
}

/// The children in `list` other than the node at `path`, in order.
fn without_path(list: &Vec<NodePath>, path: &NodePath) -> (r: Vec<NodePath>)
    ensures
        r@.map_values(|p: NodePath| p@) == list@.map_values(|p: NodePath| p@).filter(not_path(path@)),
{
    let ghost views = list@.map_values(|p: NodePath| p@);
    let mut out: Vec<NodePath> = Vec::new();
    let n = list.len();
    let mut i: usize = 0;
    while i < n
        invariant
            n == list@.len(),
            i <= n,
            views == list@.map_values(|p: NodePath| p@),
            out@.map_values(|p: NodePath| p@) == views.take(i as int).filter(not_path(path@)),
        decreases n - i,
    {
        proof {
            reveal_with_fuel(Seq::filter, 1);
            assert(views.take(i + 1).drop_last() =~= views.take(i as int));
            assert(views.take(i + 1).last() == list@[i as int]@);
        }
        if !list[i].same_as(path) {
            let ghost before = out@;
            out.push(list[i].duplicate());
            proof {
                assert(out@.map_values(|p: NodePath| p@) =~= before.map_values(|p: NodePath| p@).push(list@[i as int]@));
            }
        }
        i = i + 1;
    }
    proof {
        assert(views.take(n as int) =~= views);
    }
    out
}

/// A node to insert: the element's kind name and its text content, if any.
#[derive(Debug, Default)]
pub struct NodeEdit {
    pub element: String,
    pub content: Option<String>,
}

/// An edit referred to a node the backend never saw inserted.
#[derive(Debug)]
pub enum InMemoryEditError {
    UnknownNode(NodePath),
}

/// Each node's children, in insertion order.
pub type ChildrenView = Seq<(Seq<PathStep>, Seq<Seq<PathStep>>)>;

/// Each node's style properties, in the order they were set.
pub type StylesView<P> = Seq<(Seq<PathStep>, Seq<P>)>;

/// Each node's text content.
pub type ContentView = Seq<(Seq<PathStep>, Option<Seq<char>>)>;

/// Each parent's count of children inserted so far.
pub type NextIndexView = Seq<(Seq<PathStep>, usize)>;

/// The list stored under `k`, or an empty one.
pub open spec fn list_or_empty<T>(s: Seq<(Seq<PathStep>, Seq<T>)>, k: Seq<PathStep>) -> Seq<T> {
    match spec_get(s, k) {
        Some(l) => l,
        None => Seq::empty(),
    }
}

/// Whether a child is not the node at `path`.
pub open spec fn not_path(path: Seq<PathStep>) -> spec_fn(Seq<PathStep>) -> bool {
    |c: Seq<PathStep>| c != path
}

/// One child-list entry with every occurrence of `path` dropped.
pub open spec fn detach_entry(e: (Seq<PathStep>, Seq<Seq<PathStep>>), path: Seq<PathStep>) -> (Seq<PathStep>, Seq<Seq<PathStep>>) {
    (e.0, e.1.filter(not_path(path)))
}

/// Every child list with every occurrence of `path` dropped.
pub open spec fn detach(children: ChildrenView, path: Seq<PathStep>) -> ChildrenView {
    children.map_values(|e: (Seq<PathStep>, Seq<Seq<PathStep>>)| detach_entry(e, path))
}

/// Whether a node path is not `path` and does not lie below it.
pub open spec fn outside(path: Seq<PathStep>) -> spec_fn(Seq<PathStep>) -> bool {
    |p: Seq<PathStep>| !path.is_prefix_of(p)
}

/// Whether a table entry belongs to a node that is not `path` and does not lie below it.
pub open spec fn entry_outside<V>(path: Seq<PathStep>) -> spec_fn((Seq<PathStep>, V)) -> bool {
    |e: (Seq<PathStep>, V)| !path.is_prefix_of(e.0)
}

/// A table without the entries of `path` and of every node below it, the rest in order.
pub open spec fn prune<V>(t: Seq<(Seq<PathStep>, V)>, path: Seq<PathStep>) -> Seq<(Seq<PathStep>, V)> {
    t.filter(entry_outside::<V>(path))
}

/// Every child list with `path` and every node below it dropped.
pub open spec fn detach_under(children: ChildrenView, path: Seq<PathStep>) -> ChildrenView {
    children.map_values(|e: (Seq<PathStep>, Seq<Seq<PathStep>>)| (e.0, e.1.filter(outside(path))))
}

/// The child lists once `path` and everything below it are gone: their own lists are
/// dropped, and they leave every other list.
pub open spec fn prune_children(children: ChildrenView, path: Seq<PathStep>) -> ChildrenView {
    detach_under(prune(children, path), path)
}

/// The smaller of `index` and `len`: where an insertion at `index` lands in a list of `len`.
pub open spec fn clamp_index(index: usize, len: nat) -> int {
    if index < len {
        index as int
    } else {
        len as int
    }
}

/// `l` with `x` inserted at `index`, or at the end when `index` is past it.
pub open spec fn placed(l: Seq<Seq<PathStep>>, index: usize, x: Seq<PathStep>) -> Seq<Seq<PathStep>> {
    l.insert(clamp_index(index, l.len()), x)
}

/// The child lists with `x` placed at `index` among `parent`'s children.
pub open spec fn place(children: ChildrenView, parent: Seq<PathStep>, x: Seq<PathStep>, index: usize) -> ChildrenView {
    spec_insert(children, parent, placed(list_or_empty(children, parent), index, x))
}

/// A style property that knows which kind of property it is: setting a property replaces
/// one of the same kind.
pub trait StyleKind {
    /// The property's kind.
    spec fn kind_of(&self) -> u64;

    /// The property's kind.
    fn kind(&self) -> (r: u64)
        ensures
            r == self.kind_of(),
    ;
}

/// A property tagged by its kind: the tag is the kind.
impl<V> StyleKind for (u64, V) {
    open spec fn kind_of(&self) -> u64 {
        self.0
    }

    fn kind(&self) -> (r: u64) {
        self.0
    }
}

/// Whether `l` holds a property of kind `k`.
pub open spec fn has_kind<P: StyleKind>(l: Seq<P>, k: u64) -> bool {
    exists|i: int| 0 <= i < l.len() && #[trigger] l[i].kind_of() == k
}

/// The first position in `l` of a property of kind `k` (meaningful when [`has_kind`] holds).
pub open spec fn first_of_kind<P: StyleKind>(l: Seq<P>, k: u64) -> int {
    choose|i: int|
        0 <= i < l.len() && #[trigger] l[i].kind_of() == k && forall|j: int| 0 <= j < i ==> (#[trigger] l[j]).kind_of() != k
}

/// `l` once `p` is set: it replaces the first property of its kind, or goes last.
pub open spec fn set_property<P: StyleKind>(l: Seq<P>, p: P) -> Seq<P> {
    if has_kind(l, p.kind_of()) {
        l.update(first_of_kind(l, p.kind_of()), p)
    } else {
        l.push(p)
    }
}

/// Filtering a table keeps its keys distinct.
proof fn lemma_filter_distinct<K, V>(t: Seq<(K, V)>, p: spec_fn((K, V)) -> bool)
    requires
        distinct_keys(t),
    ensures
        distinct_keys(t.filter(p)),
    decreases t.len(),
{
    reveal_with_fuel(Seq::filter, 1);
    if t.len() > 0 {
        let rest = t.drop_last();
        let last = t.last();
        lemma_filter_distinct(rest, p);
        let f = rest.filter(p);
        if p(last) {
            assert forall|a: int, b: int| 0 <= a < b < f.push(last).len() implies #[trigger] f.push(last)[a].0
                != #[trigger] f.push(last)[b].0 by {
                if b == f.len() {
                    assert(f.contains(f[a]));
                    rest.lemma_filter_contains_rev(p, f[a]);
                    let j = choose|j: int| 0 <= j < rest.len() && rest[j] == f[a];
                    assert(t[j] == rest[j]);
                    assert(t[t.len() - 1] == last);
                } else {
                    assert(f.push(last)[a] == f[a]);
                    assert(f.push(last)[b] == f[b]);
                }
            }
        }
    }
}

/// Filtering keeps every element that passes.
proof fn lemma_filter_all<A>(s: Seq<A>, p: spec_fn(A) -> bool)
    requires
        forall|i: int| 0 <= i < s.len() ==> #[trigger] p(s[i]),
    ensures
        s.filter(p) == s,
    decreases s.len(),
{
    reveal_with_fuel(Seq::filter, 1);
    if s.len() > 0 {
        let rest = s.drop_last();
        assert forall|i: int| 0 <= i < rest.len() implies #[trigger] p(rest[i]) by {
            assert(rest[i] == s[i]);
        }
        lemma_filter_all(rest, p);
        assert(p(s[s.len() - 1]));
        assert(rest.push(s.last()) =~= s);
    }
}

/// A lookup in a pruned table: nothing at or below `path` is left, the rest is as it was.
proof fn lemma_prune_get<V>(t: Seq<(Seq<PathStep>, V)>, path: Seq<PathStep>, k: Seq<PathStep>)
    requires
        distinct_keys(t),
    ensures
        distinct_keys(prune(t, path)),
        spec_get(prune(t, path), k) == (if path.is_prefix_of(k) {
            None
        } else {
            spec_get(t, k)
        }),
{
    let pr = entry_outside::<V>(path);
    let f = t.filter(pr);
    lemma_filter_distinct(t, pr);
    if path.is_prefix_of(k) {
        assert(!has_key(f, k)) by {
            if has_key(f, k) {
                let j = key_position(f, k);
                t.lemma_filter_pred(pr, j);
            }
        }
    } else if has_key(t, k) {
        let i = key_position(t, k);
        t.lemma_filter_contains(pr, i);
        let j = choose|j: int| 0 <= j < f.len() && f[j] == t[i];
        lemma_position(f, k, j);
    } else {
        assert(!has_key(f, k)) by {
            if has_key(f, k) {
                let j = key_position(f, k);
                assert(f.contains(f[j]));
                t.lemma_filter_contains_rev(pr, f[j]);
                let i = choose|i: int| 0 <= i < t.len() && t[i] == f[j];
                assert(t[i].0 == k);
            }
        }
    }
}

/// A lookup in child lists with a subtree dropped from each.
proof fn lemma_detach_under_get(s: ChildrenView, path: Seq<PathStep>, k: Seq<PathStep>)
    requires
        distinct_keys(s),
    ensures
        distinct_keys(detach_under(s, path)),
        spec_get(detach_under(s, path), k) == (match spec_get(s, k) {
            Some(l) => Some(l.filter(outside(path))),
            None => None,
        }),
{
    let d = detach_under(s, path);
    assert forall|a: int, b: int| 0 <= a < b < d.len() implies #[trigger] d[a].0 != #[trigger] d[b].0 by {
        assert(d[a].0 == s[a].0);
        assert(d[b].0 == s[b].0);
    }
    if has_key(s, k) {
        let i = key_position(s, k);
        assert(d[i].0 == k);
        lemma_position(d, k, i);
    } else {
        assert(!has_key(d, k)) by {
            if has_key(d, k) {
                let j = key_position(d, k);
                assert(s[j].0 == d[j].0);
            }
        }
    }
}

/// The entries of `t` other than those of `path` and of the nodes below it, in order; `f`
/// is how the table is viewed.
fn prune_entries<V, W>(
    t: Vec<(NodePath, V)>,
    path: &NodePath,
    Ghost(f): Ghost<spec_fn((NodePath, V)) -> (Seq<PathStep>, W)>,
) -> (r: Vec<(NodePath, V)>)
    requires
        forall|e: (NodePath, V)| #[trigger] f(e).0 == e.0@,
    ensures
        r@.map_values(f) == t@.map_values(f).filter(entry_outside::<W>(path@)),
{
    let ghost all = t@.map_values(f);
    let ghost n = t@.len();
    let mut rest = t;
    let mut out: Vec<(NodePath, V)> = Vec::new();
    while rest.len() > 0
        invariant
            forall|e: (NodePath, V)| #[trigger] f(e).0 == e.0@,
            all.len() == n,
            rest@.len() <= n,
            forall|j: int| 0 <= j < rest@.len() ==> f(#[trigger] rest@[j]) == all[n - rest@.len() + j],
            out@.map_values(f) == all.take(n - rest@.len()).filter(entry_outside::<W>(path@)),
        decreases rest@.len(),
    {
        let ghost k = n - rest@.len();
        let ghost r0 = rest@;
        let e = rest.remove(0);
        proof {
            assert(f(r0[0]) == all[k]);
            assert(forall|j: int| 0 <= j < rest@.len() ==> #[trigger] rest@[j] == r0[j + 1]);
            assert(all.take(k + 1) =~= all.take(k).push(all[k]));
            all.take(k).lemma_filter_push(all[k], entry_outside::<W>(path@));
            assert(f(e).0 == e.0@);
        }
        let ghost before = out@;
        if !e.0.starts_with(path) {
            out.push(e);
            proof {
                assert(out@.map_values(f) =~= before.map_values(f).push(f(e)));
            }
        }
    }
    proof {
        assert(all.take(n as int) =~= all);
    }
    out
}

/// The children in `list` that are not `path` and do not lie below it, in order.
fn without_under(list: &Vec<NodePath>, path: &NodePath) -> (r: Vec<NodePath>)
    ensures
        r@.map_values(|p: NodePath| p@) == list@.map_values(|p: NodePath| p@).filter(outside(path@)),
{
    let ghost views = list@.map_values(|p: NodePath| p@);
    let mut out: Vec<NodePath> = Vec::new();
    let n = list.len();
    let mut i: usize = 0;
    while i < n
        invariant
            n == list@.len(),
            i <= n,
            views == list@.map_values(|p: NodePath| p@),
            out@.map_values(|p: NodePath| p@) == views.take(i as int).filter(outside(path@)),
        decreases n - i,
    {
        proof {
            assert(views.take(i + 1) =~= views.take(i as int).push(views[i as int]));
            views.take(i as int).lemma_filter_push(views[i as int], outside(path@));
            assert(views[i as int] == list@[i as int]@);
        }
        if !list[i].starts_with(path) {
            let ghost before = out@;
            out.push(list[i].duplicate());
            proof {
                assert(out@.map_values(|p: NodePath| p@) =~= before.map_values(|p: NodePath| p@).push(list@[i as int]@));
            }
        }
        i = i + 1;
    }
    proof {
        assert(views.take(n as int) =~= views);
    }
    out
}

/// Inserting a node and deleting it again leaves its parent's child list as it was, and
/// the node has no styles left, as long as no node at or below the new node's path was
/// already among the parent's children (which holds for paths the backend hands out, unless
/// a node was moved there under such a path).
pub proof fn law_insert_then_delete_round_trips<P>(
    children: ChildrenView,
    styles: StylesView<P>,
    parent: Seq<PathStep>,
    step: PathStep,
    index: usize,
)
    requires
        distinct_keys(children),
        distinct_keys(styles),
        forall|i: int|
            0 <= i < list_or_empty(children, parent).len() ==> !parent.push(step).is_prefix_of(
                #[trigger] list_or_empty(children, parent)[i],
            ),
    ensures
        spec_get(prune_children(place(children, parent, parent.push(step), index), parent.push(step)), parent)
            == Some(list_or_empty(children, parent)),
        spec_get(prune(styles, parent.push(step)), parent.push(step)) is None,
{
    let child = parent.push(step);
    let l = list_or_empty(children, parent);
    let at = clamp_index(index, l.len());
    let pl = placed(l, index, child);
    let inserted = spec_insert(children, parent, pl);
    crate::collections::law_insert_keeps_keys_distinct(children, parent, pl);
    crate::collections::law_get_after_insert(children, parent, pl);
    assert(!child.is_prefix_of(parent));
    lemma_prune_get(inserted, child, parent);
    lemma_detach_under_get(prune(inserted, child), child, parent);
    assert(child.is_prefix_of(child));
    // The parent's list, filtered: the new child goes, the old children stay.
    let a = l.subrange(0, at);
    let b = l.subrange(at, l.len() as int);
    assert(pl == a.push(child) + b);
    assert(l == a + b);
    Seq::filter_distributes_over_add(a.push(child), b, outside(child));
    Seq::filter_distributes_over_add(a, b, outside(child));
    a.lemma_filter_push(child, outside(child));
    assert forall|i: int| 0 <= i < a.len() implies #[trigger] outside(child)(a[i]) by {
        assert(a[i] == l[i]);
    }
    assert forall|i: int| 0 <= i < b.len() implies #[trigger] outside(child)(b[i]) by {
        assert(b[i] == l[i + at]);
    }
    lemma_filter_all(a, outside(child));
    lemma_filter_all(b, outside(child));
    lemma_prune_get(styles, child, child);
}

/// A pure in-memory edit backend: a node tree's child lists, styles and contents, keyed by
/// node path, and the paths its inserts handed out. `P` is the style property type.
pub struct InMemoryEditBackend<P> {
    children: Vec<(NodePath, Vec<NodePath>)>,
    styles: Vec<(NodePath, Vec<P>)>,
    content: Vec<(NodePath, Option<String>)>,
    next_index: Vec<(NodePath, usize)>,
    known: Vec<NodePath>,
}

impl<P: StyleKind> InMemoryEditBackend<P> {
    /// The child lists.
    pub closed spec fn children_view(&self) -> ChildrenView {
        self.children@.map_values(|e: (NodePath, Vec<NodePath>)| (e.0@, e.1@.map_values(|p: NodePath| p@)))
    }

    /// The style lists.
    pub closed spec fn styles_view(&self) -> StylesView<P> {
        self.styles@.map_values(|e: (NodePath, Vec<P>)| (e.0@, e.1@))
    }

    /// The contents.
    pub closed spec fn content_view(&self) -> ContentView {
        self.content@.map_values(|e: (NodePath, Option<String>)| (e.0@, opt_view(e.1)))
    }

    /// The per-parent insertion counts.
    pub closed spec fn next_index_view(&self) -> NextIndexView {
        self.next_index@.map_values(|e: (NodePath, usize)| (e.0@, e.1))
    }

    /// Every path an insert returned, in order.
    pub closed spec fn known_view(&self) -> Seq<Seq<PathStep>> {
        self.known@.map_values(|p: NodePath| p@)
    }

    /// Whether an insert on this backend ever returned `path`.
    pub open spec fn knows(&self, path: Seq<PathStep>) -> bool {
        self.known_view().contains(path)
    }

    /// Whether two backends hold the same tables.
    pub open spec fn same_tables(&self, other: &Self) -> bool {
        &&& self.children_view() == other.children_view()
        &&& self.styles_view() == other.styles_view()
        &&& self.content_view() == other.content_view()
        &&& self.next_index_view() == other.next_index_view()
        &&& self.known_view() == other.known_view()
    }

    /// Every table holds one entry per node.
    pub closed spec fn wf(&self) -> bool {
        &&& distinct_keys(self.children_view())
        &&& distinct_keys(self.styles_view())
        &&& distinct_keys(self.content_view())
        &&& distinct_keys(self.next_index_view())
    }

    /// A backend that has seen no edits.
    pub fn new() -> (r: Self)
        ensures
            r.wf(),
            r.children_view() == Seq::<(Seq<PathStep>, Seq<Seq<PathStep>>)>::empty(),
            r.styles_view() == Seq::<(Seq<PathStep>, Seq<P>)>::empty(),
            r.content_view() == Seq::<(Seq<PathStep>, Option<Seq<char>>)>::empty(),
            r.next_index_view() == Seq::<(Seq<PathStep>, usize)>::empty(),
            r.known_view() == Seq::<Seq<PathStep>>::empty(),
    {
        let r = InMemoryEditBackend {
            children: Vec::new(),
            styles: Vec::new(),
            content: Vec::new(),
            next_index: Vec::new(),
            known: Vec::new(),
        };
        proof {
            assert(r.children_view() =~= Seq::<(Seq<PathStep>, Seq<Seq<PathStep>>)>::empty());
            assert(r.styles_view() =~= Seq::<(Seq<PathStep>, Seq<P>)>::empty());
            assert(r.content_view() =~= Seq::<(Seq<PathStep>, Option<Seq<char>>)>::empty());
            assert(r.next_index_view() =~= Seq::<(Seq<PathStep>, usize)>::empty());
            assert(r.known_view() =~= Seq::<Seq<PathStep>>::empty());
        }
        r
    }

    /// Whether an insert ever returned `path`.
    fn is_known(&self, path: &NodePath) -> (r: bool)
        ensures
            r == self.knows(path@),
    {
        let ghost v = self.known_view();
        let n = self.known.len();
        let mut i: usize = 0;
        while i < n
            invariant
                n == self.known@.len(),
                v == self.known_view(),
                i <= n,
                forall|j: int| 0 <= j < i ==> (#[trigger] v[j]) != path@,
            decreases n - i,
        {
            if self.known[i].same_as(path) {
                proof {
                    assert(v[i as int] == path@);
                }
                return true;
            }
            i = i + 1;
        }
        proof {
            assert(!v.contains(path@)) by {
                if v.contains(path@) {
                    let j = choose|j: int| 0 <= j < v.len() && v[j] == path@;
                    assert(v[j] == path@);
                }
            }
        }
        false
    }

    /// Counts one more child inserted under `parent`, returning the count before.
    fn bump_next_index(&mut self, parent: &NodePath) -> (r: usize)
        requires
            old(self).wf(),
            spec_get(old(self).next_index_view(), parent@) matches Some(n) ==> n < usize::MAX,
        ensures
            final(self).wf(),
            r == (match spec_get(old(self).next_index_view(), parent@) {
                Some(n) => n,
                None => 0,
            }),
            final(self).next_index_view() == spec_insert(old(self).next_index_view(), parent@, (r + 1) as usize),
            final(self).children_view() == old(self).children_view(),
            final(self).styles_view() == old(self).styles_view(),
            final(self).content_view() == old(self).content_view(),
            final(self).known_view() == old(self).known_view(),
    {
        let ghost v = self.next_index_view();
        match find_key(&self.next_index, parent) {
            Some(i) => {
                let n = self.next_index[i].1;
                proof {
                    assert(v[i as int].0 == parent@);
                    lemma_position(v, parent@, i as int);
                }
                let key = parent.duplicate();
                self.next_index.set(i, (key, n + 1));
                proof {
                    assert(self.next_index_view() =~= v.update(i as int, (parent@, (n + 1) as usize)));
                    crate::collections::law_insert_keeps_keys_distinct(v, parent@, (n + 1) as usize);
                }
                n
            },
            None => {
                proof {
                    assert(!has_key(v, parent@)) by {
                        if has_key(v, parent@) {
                            let j = key_position(v, parent@);
                            assert(self.next_index@[j].0@ == v[j].0);
                        }
                    }
                }
                let key = parent.duplicate();
                self.next_index.push((key, 1));
                proof {
                    assert(self.next_index_view() =~= v.push((parent@, 1usize)));
                    crate::collections::law_insert_keeps_keys_distinct(v, parent@, 1usize);
                }
                0
            },
        }
    }

    /// Places `child` at `index` in `parent`'s child list (last when `index` is past the
    /// end), creating the list if needed.
    fn place_child(&mut self, parent: NodePath, child: NodePath, index: usize)
        requires
            old(self).wf(),
        ensures
            final(self).wf(),
            final(self).children_view() == place(old(self).children_view(), parent@, child@, index),
            final(self).next_index_view() == old(self).next_index_view(),
            final(self).styles_view() == old(self).styles_view(),
            final(self).content_view() == old(self).content_view(),
            final(self).known_view() == old(self).known_view(),
    {
        let ghost v = self.children_view();
        let ghost cv = child@;
        match find_key(&self.children, &parent) {
            Some(i) => {
                proof {
                    assert(v[i as int].0 == parent@);
                    lemma_position(v, parent@, i as int);
                }
                let (key, mut list) = self.children.remove(i);
                let ghost before = list@;
                let at = if index < list.len() {
                    index
                } else {
                    list.len()
                };
                list.insert(at, child);
                self.children.insert(i, (key, list));
                proof {
                    let bv = before.map_values(|p: NodePath| p@);
                    assert(bv == v[i as int].1);
                    assert(at as int == clamp_index(index, bv.len()));
                    assert(list@.map_values(|p: NodePath| p@) =~= bv.insert(at as int, cv));
                    assert(self.children_view() =~= v.update(i as int, (parent@, placed(v[i as int].1, index, cv))));
                    crate::collections::law_insert_keeps_keys_distinct(v, parent@, placed(v[i as int].1, index, cv));
                }
            },
            None => {
                proof {
                    assert(!has_key(v, parent@)) by {
                        if has_key(v, parent@) {
                            let j = key_position(v, parent@);
                            assert(self.children@[j].0@ == v[j].0);
                        }
                    }
                }
                let ghost pv = parent@;
                let mut list: Vec<NodePath> = Vec::new();
                list.push(child);
                self.children.push((parent, list));
                proof {
                    let e = Seq::<Seq<PathStep>>::empty();
                    assert(placed(e, index, cv) =~= e.push(cv));
                    assert(list@.map_values(|p: NodePath| p@) =~= e.push(cv));
                    assert(self.children_view() =~= v.push((pv, e.push(cv))));
                    crate::collections::law_insert_keeps_keys_distinct(v, pv, e.push(cv));
                }
            },
        }
    }

    /// Stores `content` for `path`, replacing what was there.
    fn put_content(&mut self, path: NodePath, content: Option<String>)
        requires
            old(self).wf(),
        ensures
            final(self).wf(),
            final(self).content_view() == spec_insert(old(self).content_view(), path@, opt_view(content)),
            final(self).next_index_view() == old(self).next_index_view(),
            final(self).styles_view() == old(self).styles_view(),
            final(self).children_view() == old(self).children_view(),
            final(self).known_view() == old(self).known_view(),
    {
        let ghost v = self.content_view();
        let ghost pv = path@;
        let ghost c = opt_view(content);
        match find_key(&self.content, &path) {
            Some(i) => {
                proof {
                    assert(v[i as int].0 == pv);
                    lemma_position(v, pv, i as int);
                }
                self.content.set(i, (path, content));
                proof {
                    assert(self.content_view() =~= v.update(i as int, (pv, c)));
                    crate::collections::law_insert_keeps_keys_distinct(v, pv, c);
                }
            },
            None => {
                proof {
                    assert(!has_key(v, pv)) by {
                        if has_key(v, pv) {
                            let j = key_position(v, pv);
                            assert(self.content@[j].0@ == v[j].0);
                        }
                    }
                }
                self.content.push((path, content));
                proof {
                    assert(self.content_view() =~= v.push((pv, c)));
                    crate::collections::law_insert_keeps_keys_distinct(v, pv, c);
                }
            },
        }
    }

    /// Sets `property` in `list`: over the first property of its kind, or last.
    fn set_in_list(list: &mut Vec<P>, property: P)
        ensures
            final(list)@ == set_property(old(list)@, property),
    {
        let ghost l0 = list@;
        let k = property.kind();
        let n = list.len();
        let mut i: usize = 0;
        while i < n
            invariant
                n == list@.len(),
                list@ == l0,
                l0 == old(list)@,
                k == property.kind_of(),
                i <= n,
                forall|j: int| 0 <= j < i ==> (#[trigger] l0[j]).kind_of() != k,
            decreases n - i,
        {
            if list[i].kind() == k {
                proof {
                    assert(l0[i as int].kind_of() == k);
                    assert(has_kind(l0, k));
                    let c = first_of_kind(l0, k);
                    assert(0 <= c < l0.len() && l0[c].kind_of() == k && forall|j: int|
                        0 <= j < c ==> (#[trigger] l0[j]).kind_of() != k);
                    if c < i {
                        assert(l0[c].kind_of() != k);
                    }
                    if c > i {
                        assert(l0[i as int].kind_of() != k);
                    }
                    assert(c == i as int);
                }
                list.set(i, property);
                proof {
                    assert(list@ == l0.update(first_of_kind(l0, property.kind_of()), property));
                }
                return;
            }
            i = i + 1;
        }
        proof {
            assert(!has_kind(l0, k)) by {
                if has_kind(l0, k) {
                    let j = choose|j: int| 0 <= j < l0.len() && #[trigger] l0[j].kind_of() == k;
                    assert(l0[j].kind_of() != k);
                }
            }
        }
        list.push(property);
    }

    /// Sets a style property on `path`'s list, creating the list if needed.
    fn put_style(&mut self, path: NodePath, property: P)
        requires
            old(self).wf(),
        ensures
            final(self).wf(),
            final(self).styles_view() == spec_insert(
                old(self).styles_view(),
                path@,
                set_property(list_or_empty(old(self).styles_view(), path@), property),
            ),
            final(self).next_index_view() == old(self).next_index_view(),
            final(self).children_view() == old(self).children_view(),
            final(self).content_view() == old(self).content_view(),
            final(self).known_view() == old(self).known_view(),
    {
        let ghost v = self.styles_view();
        let ghost pv = path@;
        let ghost pr = property;
        match find_key(&self.styles, &path) {
            Some(i) => {
                proof {
                    assert(v[i as int].0 == pv);
                    lemma_position(v, pv, i as int);
                }
                let (key, mut list) = self.styles.remove(i);
                Self::set_in_list(&mut list, property);
                self.styles.insert(i, (key, list));
                proof {
                    assert(self.styles_view() =~= v.update(i as int, (pv, set_property(v[i as int].1, pr))));
                    crate::collections::law_insert_keeps_keys_distinct(v, pv, set_property(v[i as int].1, pr));
                }
            },
            None => {
                proof {
                    assert(!has_key(v, pv)) by {
                        if has_key(v, pv) {
                            let j = key_position(v, pv);
                            assert(self.styles@[j].0@ == v[j].0);
                        }
                    }
                    assert(!has_kind(Seq::<P>::empty(), pr.kind_of()));
                }
                let mut list: Vec<P> = Vec::new();
                list.push(property);
                self.styles.push((path, list));
                proof {
                    assert(list@ =~= Seq::<P>::empty().push(pr));
                    assert(self.styles_view() =~= v.push((pv, Seq::<P>::empty().push(pr))));
                    crate::collections::law_insert_keeps_keys_distinct(v, pv, Seq::<P>::empty().push(pr));
                }
            },
        }
    }

    /// Inserts `node` as a new child of `parent`, at `index` among its children (last when
    /// `index` is past the end), and returns the new node's path: the parent's path plus
    /// one step, numbered by how many children were inserted under `parent` before. The
    /// node's content is recorded under its path, and the path becomes known.
    pub fn insert(&mut self, parent: NodePath, index: usize, node: NodeEdit) -> (r: Result<NodePath, InMemoryEditError>)
        requires
            old(self).wf(),
            spec_get(old(self).next_index_view(), parent@) matches Some(n) ==> n < usize::MAX,
        ensures
            final(self).wf(),
            r matches Ok(child) && {
                let slot = match spec_get(old(self).next_index_view(), parent@) {
                    Some(n) => n,
                    None => 0,
                };
                &&& child@ == parent@.push((NODE_EDIT_KIND, slot))
                &&& final(self).next_index_view() == spec_insert(old(self).next_index_view(), parent@, (slot + 1) as usize)
                &&& final(self).children_view() == place(old(self).children_view(), parent@, child@, index)
                &&& final(self).content_view() == spec_insert(old(self).content_view(), child@, opt_view(node.content))
                &&& final(self).styles_view() == old(self).styles_view()
                &&& final(self).known_view() == old(self).known_view().push(child@)
            },
    {
        let slot = self.bump_next_index(&parent);
        let child = parent.child((NODE_EDIT_KIND, slot));
        let content_key = child.duplicate();
        let result = child.duplicate();
        let ghost kv = self.known_view();
        self.known.push(child.duplicate());
        proof {
            assert(self.known_view() =~= kv.push(child@));
        }
        self.place_child(parent, child, index);
        self.put_content(content_key, node.content);
        Ok(result)
    }

    /// Sets (or overwrites) one style property on the node at `path`: it replaces the first
    /// property of its kind there, or goes last. Fails with `UnknownNode`, changing nothing,
    /// when no insert returned `path`.
    pub fn set_style(&mut self, path: NodePath, property: P) -> (r: Result<(), InMemoryEditError>)
        requires
            old(self).wf(),
        ensures
            final(self).wf(),
            match r {
                Ok(_) => {
                    &&& old(self).knows(path@)
                    &&& final(self).styles_view() == spec_insert(
                        old(self).styles_view(),
                        path@,
                        set_property(list_or_empty(old(self).styles_view(), path@), property),
                    )
                    &&& final(self).next_index_view() == old(self).next_index_view()
                    &&& final(self).children_view() == old(self).children_view()
                    &&& final(self).content_view() == old(self).content_view()
                    &&& final(self).known_view() == old(self).known_view()
                },
                Err(InMemoryEditError::UnknownNode(p)) => !old(self).knows(path@) && p@ == path@
                    && final(self).same_tables(old(self)),
            },
    {
        if !self.is_known(&path) {
            return Err(InMemoryEditError::UnknownNode(path));
        }
        self.put_style(path, property);
        Ok(())
    }

    /// Sets (or clears, with `None`) the text content of the node at `path`. Fails with
    /// `UnknownNode`, changing nothing, when no insert returned `path`.
    pub fn set_content(&mut self, path: NodePath, content: Option<String>) -> (r: Result<(), InMemoryEditError>)
        requires
            old(self).wf(),
        ensures
            final(self).wf(),
            match r {
                Ok(_) => {
                    &&& old(self).knows(path@)
                    &&& final(self).content_view() == spec_insert(old(self).content_view(), path@, opt_view(content))
                    &&& final(self).next_index_view() == old(self).next_index_view()
                    &&& final(self).styles_view() == old(self).styles_view()
                    &&& final(self).children_view() == old(self).children_view()
                    &&& final(self).known_view() == old(self).known_view()
                },
                Err(InMemoryEditError::UnknownNode(p)) => !old(self).knows(path@) && p@ == path@
                    && final(self).same_tables(old(self)),
            },
    {
        if !self.is_known(&path) {
            return Err(InMemoryEditError::UnknownNode(path));
        }
        self.put_content(path, content);
        Ok(())
    }

    /// Drops the node at `path` from every child list.
    fn detach_all(&mut self, path: &NodePath)
        requires
            old(self).wf(),
        ensures
            final(self).wf(),
            final(self).children_view() == detach(old(self).children_view(), path@),
            final(self).next_index_view() == old(self).next_index_view(),
            final(self).styles_view() == old(self).styles_view(),
            final(self).content_view() == old(self).content_view(),
            final(self).known_view() == old(self).known_view(),
    {
        let ghost v = self.children_view();
        let ghost d = detach(v, path@);
        let n = self.children.len();
        let mut i: usize = 0;
        while i < n
            invariant
                n == v.len(),
                i <= n,
                v == old(self).children_view(),
                d == detach(v, path@),
                self.children@.len() == n,
                forall|j: int| 0 <= j < i ==> (#[trigger] self.children_view()[j]) == d[j],
                forall|j: int| i <= j < n ==> (#[trigger] self.children_view()[j]) == v[j],
                self.styles@ == old(self).styles@,
                self.content@ == old(self).content@,
                self.next_index@ == old(self).next_index@,
                self.known@ == old(self).known@,
            decreases n - i,
        {
            let ghost before = self.children_view();
            let (key, list) = self.children.remove(i);
            let kept = without_path(&list, path);
            self.children.insert(i, (key, kept));
            proof {
                assert(before[i as int] == v[i as int]);
                assert(d[i as int] == detach_entry(v[i as int], path@));
                assert(self.children_view() =~= before.update(i as int, d[i as int]));
            }
            i = i + 1;
        }
        proof {
            assert(self.children_view() =~= d);
            assert forall|a: int, b: int| 0 <= a < b < d.len() implies #[trigger] d[a].0 != #[trigger] d[b].0 by {
                assert(d[a].0 == v[a].0);
                assert(d[b].0 == v[b].0);
            }
        }
    }

    /// Drops `path` and every node below it from every child list.
    fn detach_all_under(&mut self, path: &NodePath)
        requires
            old(self).wf(),
        ensures
            final(self).wf(),
            final(self).children_view() == detach_under(old(self).children_view(), path@),
            final(self).next_index_view() == old(self).next_index_view(),
            final(self).styles_view() == old(self).styles_view(),
            final(self).content_view() == old(self).content_view(),
            final(self).known_view() == old(self).known_view(),
    {
        let ghost v = self.children_view();
        let ghost d = detach_under(v, path@);
        let n = self.children.len();
        let mut i: usize = 0;
        while i < n
            invariant
                n == v.len(),
                i <= n,
                v == old(self).children_view(),
                d == detach_under(v, path@),
                self.children@.len() == n,
                forall|j: int| 0 <= j < i ==> (#[trigger] self.children_view()[j]) == d[j],
                forall|j: int| i <= j < n ==> (#[trigger] self.children_view()[j]) == v[j],
                self.styles@ == old(self).styles@,
                self.content@ == old(self).content@,
                self.next_index@ == old(self).next_index@,
                self.known@ == old(self).known@,
            decreases n - i,
        {
            let ghost before = self.children_view();
            let (key, list) = self.children.remove(i);
            let kept = without_under(&list, path);
            self.children.insert(i, (key, kept));
            proof {
                assert(before[i as int] == v[i as int]);
                assert(self.children_view() =~= before.update(i as int, d[i as int]));
            }
            i = i + 1;
        }
        proof {
            assert(self.children_view() =~= d);
            assert forall|a: int, b: int| 0 <= a < b < d.len() implies #[trigger] d[a].0 != #[trigger] d[b].0 by {
                assert(d[a].0 == v[a].0);
                assert(d[b].0 == v[b].0);
            }
        }
    }

    /// Removes the node at `path` and everything under it: every node whose path is `path`
    /// or extends it loses its child list, styles and content, and leaves every child list.
    /// Known paths and insertion counts stay, so later inserts never hand out a path twice.
    /// Fails with `UnknownNode`, changing nothing, when no insert returned `path`.
    pub fn delete(&mut self, path: NodePath) -> (r: Result<(), InMemoryEditError>)
        requires
            old(self).wf(),
        ensures
            final(self).wf(),
            match r {
                Ok(_) => {
                    &&& old(self).knows(path@)
                    &&& final(self).children_view() == prune_children(old(self).children_view(), path@)
                    &&& final(self).styles_view() == prune(old(self).styles_view(), path@)
                    &&& final(self).content_view() == prune(old(self).content_view(), path@)
                    &&& final(self).next_index_view() == old(self).next_index_view()
                    &&& final(self).known_view() == old(self).known_view()
                },
                Err(InMemoryEditError::UnknownNode(p)) => !old(self).knows(path@) && p@ == path@
                    && final(self).same_tables(old(self)),
            },
    {
        if !self.is_known(&path) {
            return Err(InMemoryEditError::UnknownNode(path));
        }
        let ghost c0 = self.children_view();
        let ghost s0 = self.styles_view();
        let ghost t0 = self.content_view();
        let ghost fc = |e: (NodePath, Vec<NodePath>)| (e.0@, e.1@.map_values(|p: NodePath| p@));
        let ghost fs = |e: (NodePath, Vec<P>)| (e.0@, e.1@);
        let ghost ft = |e: (NodePath, Option<String>)| (e.0@, opt_view(e.1));
        let mut children: Vec<(NodePath, Vec<NodePath>)> = Vec::new();
        std::mem::swap(&mut children, &mut self.children);
        proof {
            assert(children@.map_values(fc) =~= c0);
        }
        self.children = prune_entries::<Vec<NodePath>, Seq<Seq<PathStep>>>(children, &path, Ghost(fc));
        proof {
            assert(self.children_view() =~= self.children@.map_values(fc));
            lemma_filter_distinct(c0, entry_outside::<Seq<Seq<PathStep>>>(path@));
        }
        self.detach_all_under(&path);
        let mut styles: Vec<(NodePath, Vec<P>)> = Vec::new();
        std::mem::swap(&mut styles, &mut self.styles);
        proof {
            assert(styles@.map_values(fs) =~= s0);
        }
        self.styles = prune_entries::<Vec<P>, Seq<P>>(styles, &path, Ghost(fs));
        proof {
            assert(self.styles_view() =~= self.styles@.map_values(fs));
            lemma_filter_distinct(s0, entry_outside::<Seq<P>>(path@));
        }
        let mut content: Vec<(NodePath, Option<String>)> = Vec::new();
        std::mem::swap(&mut content, &mut self.content);
        proof {
            assert(content@.map_values(ft) =~= t0);
        }
        self.content = prune_entries::<Option<String>, Option<Seq<char>>>(content, &path, Ghost(ft));
        proof {
            assert(self.content_view() =~= self.content@.map_values(ft));
            lemma_filter_distinct(t0, entry_outside::<Option<Seq<char>>>(path@));
        }
        Ok(())
    }

    /// Moves the node at `path` under `new_parent`: it leaves every child list and goes at
    /// `index` among `new_parent`'s children (last when `index` is past the end). Fails with
    /// `UnknownNode`, changing nothing, when no insert returned `path`.
    pub fn move_node(&mut self, path: NodePath, new_parent: NodePath, index: usize) -> (r: Result<(), InMemoryEditError>)
        requires
            old(self).wf(),
        ensures
            final(self).wf(),
            match r {
                Ok(_) => {
                    &&& old(self).knows(path@)
                    &&& final(self).children_view() == place(
                        detach(old(self).children_view(), path@),
                        new_parent@,
                        path@,
                        index,
                    )
                    &&& final(self).styles_view() == old(self).styles_view()
                    &&& final(self).content_view() == old(self).content_view()
                    &&& final(self).next_index_view() == old(self).next_index_view()
                    &&& final(self).known_view() == old(self).known_view()
                },
                Err(InMemoryEditError::UnknownNode(p)) => !old(self).knows(path@) && p@ == path@
                    && final(self).same_tables(old(self)),
            },
    {
        if !self.is_known(&path) {
            return Err(InMemoryEditError::UnknownNode(path));
        }
        self.detach_all(&path);
        self.place_child(new_parent, path, index);
        Ok(())
    }

    /// The children recorded under `path`, if it has a child list.
    pub fn children_of(&self, path: &NodePath) -> (r: Option<usize>)
        requires
            self.wf(),
        ensures
            r == (match spec_get(self.children_view(), path@) {
                Some(l) => Some(l.len() as usize),
                None => None::<usize>,
            }),
    {
        let ghost v = self.children_view();
        match find_key(&self.children, path) {
            Some(i) => {
                proof {
                    lemma_position(v, path@, i as int);
                }
                Some(self.children[i].1.len())
            },
            None => {
                proof {
                    assert(!has_key(v, path@)) by {
                        if has_key(v, path@) {
                            let j = key_position(v, path@);
                            assert(self.children@[j].0@ == v[j].0);
                        }
                    }
                }
                None
            },
        }
    }

    /// The children recorded under `path`, in order (none when it has no child list).
    pub fn child_paths(&self, path: &NodePath) -> (r: Vec<NodePath>)
        requires
            self.wf(),
        ensures
            r@.map_values(|p: NodePath| p@) == list_or_empty(self.children_view(), path@),
    {
        let ghost v = self.children_view();
        match find_key(&self.children, path) {
            Some(i) => {
                proof {
                    lemma_position(v, path@, i as int);
                }
                let list = &self.children[i].1;
                let ghost lv = list@.map_values(|p: NodePath| p@);
                let mut out: Vec<NodePath> = Vec::new();
                let n = list.len();
                let mut j: usize = 0;
                while j < n
                    invariant
                        n == list@.len(),
                        j <= n,
                        lv == list@.map_values(|p: NodePath| p@),
                        out@.map_values(|p: NodePath| p@) == lv.take(j as int),
                    decreases n - j,
                {
                    let ghost before = out@;
                    out.push(list[j].duplicate());
                    proof {
                        assert(out@.map_values(|p: NodePath| p@) =~= before.map_values(|p: NodePath| p@).push(lv[j as int]));
                        assert(lv.take(j + 1) =~= lv.take(j as int).push(lv[j as int]));
                    }
                    j = j + 1;
                }
                proof {
                    assert(lv.take(n as int) =~= lv);
                    assert(lv == v[i as int].1);
                }
                out
            },
            None => {
                proof {
                    assert(!has_key(v, path@)) by {
                        if has_key(v, path@) {
                            let j = key_position(v, path@);
                            assert(self.children@[j].0@ == v[j].0);
                        }
                    }
                }
                let out: Vec<NodePath> = Vec::new();
                proof {
                    assert(out@.map_values(|p: NodePath| p@) =~= Seq::<Seq<PathStep>>::empty());
                }
                out
            },
        }
    }

    /// The number of style properties set on `path`, if any were.
    pub fn styles_of(&self, path: &NodePath) -> (r: Option<usize>)
        requires
            self.wf(),
        ensures
            r == (match spec_get(self.styles_view(), path@) {
                Some(l) => Some(l.len() as usize),
                None => None::<usize>,
            }),
    {
        let ghost v = self.styles_view();
        match find_key(&self.styles, path) {
            Some(i) => {
                proof {
                    lemma_position(v, path@, i as int);
                }
                Some(self.styles[i].1.len())
            },
            None => {
                proof {
                    assert(!has_key(v, path@)) by {
                        if has_key(v, path@) {
                            let j = key_position(v, path@);
                            assert(self.styles@[j].0@ == v[j].0);
                        }
                    }
                }
                None
            },
        }
    }

    /// Edits apply at once here, so there is nothing to flush.
    pub fn commit(&mut self) -> (r: Result<(), InMemoryEditError>)
        ensures
            r is Ok,
            final(self).children_view() == old(self).children_view(),
            final(self).styles_view() == old(self).styles_view(),
            final(self).content_view() == old(self).content_view(),
            final(self).next_index_view() == old(self).next_index_view(),
            final(self).known_view() == old(self).known_view(),
    {
        Ok(())
    }
}

} // verus!
