//! The tree loader: an indexed node graph built from parser events.
//!
//! The parent, child and sibling links live in an `indextree` arena; the
//! node data sits beside it, at the same index. Nodes are numbered in the
//! order they were added, so every node comes after its parent and after its
//! earlier siblings. Names are interned into a symbol table; a node holds the
//! index of its name there.
use vstd::prelude::*;
use crate::attribute::{parse_attr, AttrParse, AttrV, AttributeValue};
use crate::error::Error;
use crate::low::{FbxFooter, FbxVersion};
use crate::parser::{from_seekable_reader, from_seekable_reader_fails, AnyParser, AnyParserError, Event, Parser, ParserState};
use crate::reader::SeekableReader;
use crate::wire::bytes_eq;
use indextree::{Arena, NodeId as ArenaId};

verus! {

/// The index of a node in its tree's arena.
#[derive(Debug, Clone, Copy, PartialEq, Eq, Structural)]
pub struct TreeNodeId {
    index: usize,
}

impl TreeNodeId {
    pub closed spec fn spec_index(&self) -> nat {
        self.index as nat
    }

    /// Returns the arena index.
    pub fn index(&self) -> (r: usize)
        ensures
            r == self.spec_index(),
    {
        self.index
    }
}

/// The data of a node: its name symbol and its attributes.
#[derive(Debug)]
pub struct NodeData {
    name_sym: usize,
    attributes: Vec<AttributeValue>,
}

impl NodeData {
    /// A node with the given name symbol and no attributes.
    pub fn new(name_sym: usize) -> (r: NodeData)
        ensures
            r.spec_name_sym() == name_sym,
            r.spec_attributes().len() == 0,
    {
        NodeData { name_sym, attributes: Vec::new() }
    }

    pub closed spec fn spec_name_sym(&self) -> nat {
        self.name_sym as nat
    }

    pub closed spec fn spec_attributes(&self) -> Seq<AttrV> {
        self.attributes@.map_values(|a: AttributeValue| a@)
    }

    /// Returns the name symbol.
    pub fn name_sym(&self) -> (r: usize)
        ensures
            r == self.spec_name_sym(),
    {
        self.name_sym
    }

    /// Returns the attributes.
    pub fn attributes(&self) -> (r: &Vec<AttributeValue>)
        ensures
            r@.map_values(|a: AttributeValue| a@) == self.spec_attributes(),
    {
        &self.attributes
    }

    /// Appends an attribute.
    pub fn append_attribute(&mut self, v: AttributeValue)
        ensures
            final(self).spec_name_sym() == old(self).spec_name_sym(),
            final(self).spec_attributes() == old(self).spec_attributes().push(v@),
    {
        self.attributes.push(v);
        assert(self.spec_attributes() =~= old(self).spec_attributes().push(v@));
    }
}

/// The links of an arena node, as zero-based indices.
pub struct Links {
    pub parent: Option<usize>,
    pub first_child: Option<usize>,
    pub last_child: Option<usize>,
    pub previous_sibling: Option<usize>,
    pub next_sibling: Option<usize>,
}

#[verifier::external_type_specification]
#[verifier::external_body]
#[verifier::reject_recursive_types(T)]
pub struct ExArena<T>(indextree::Arena<T>);

#[verifier::external_type_specification]
#[verifier::external_body]
pub struct ExArenaId(indextree::NodeId);

/// The links of the nodes of an arena, in the order they were made.
pub uninterp spec fn arena_links(a: Arena<usize>) -> Seq<Links>;

/// Whether no node of an arena was ever removed.
pub uninterp spec fn arena_never_removed(a: Arena<usize>) -> bool;

/// The one-based index of an arena node.
pub uninterp spec fn index1_of(id: ArenaId) -> nat;

/// The links of a new detached node.
pub open spec fn detached() -> Links {
    Links {
        parent: None,
        first_child: None,
        last_child: None,
        previous_sibling: None,
        next_sibling: None,
    }
}

/// A zero-based link as a one-based index.
pub open spec fn one_based(o: Option<usize>) -> Option<usize> {
    match o {
        Some(i) => Some((i + 1) as usize),
        None => None,
    }
}

/// Relies on `indextree::Arena::new`: an empty arena.
#[verifier::external_body]
fn arena_new() -> (r: Arena<usize>)
    ensures
        arena_links(r) == Seq::<Links>::empty(),
        arena_never_removed(r),
{
    Arena::new()
}

/// Relies on `indextree::Arena::new_node`: with no removed slot to reuse, the
/// node is detached and goes at the end; it panics only when the arena is
/// full.
#[verifier::external_body]
fn arena_new_node(a: &mut Arena<usize>, v: usize) -> (r: ArenaId)
    requires
        arena_never_removed(*old(a)),
        arena_links(*old(a)).len() < usize::MAX,
    ensures
        arena_links(*final(a)) == arena_links(*old(a)).push(detached()),
        index1_of(r) == arena_links(*old(a)).len() + 1,
        arena_never_removed(*final(a)),
{
    a.new_node(v)
}

/// Relies on `indextree::NodeId::append_value`: a new node (made as by
/// `Arena::new_node`) is linked as the last child of `parent`: its previous
/// sibling is the former last child, whose next sibling it becomes, and it is
/// the parent's first child when the parent had no last child.
#[verifier::external_body]
fn arena_append_value(a: &mut Arena<usize>, parent: ArenaId, v: usize) -> (r: ArenaId)
    requires
        arena_never_removed(*old(a)),
        1 <= index1_of(parent) <= arena_links(*old(a)).len(),
        arena_links(*old(a)).len() < usize::MAX,
    ensures
        arena_links(*final(a)) == appended_links(arena_links(*old(a)), index1_of(parent) - 1),
        index1_of(r) == arena_links(*old(a)).len() + 1,
        arena_never_removed(*final(a)),
{
    parent.append_value(v, a)
}

/// Relies on `indextree::NodeId::parent`: the parent link, one-based.
#[verifier::external_body]
fn arena_parent(a: &Arena<usize>, id: ArenaId) -> (r: Option<usize>)
    requires
        1 <= index1_of(id) <= arena_links(*a).len(),
    ensures
        r == one_based(arena_links(*a)[index1_of(id) - 1].parent),
{
    id.parent(a).map(usize::from)
}

/// Relies on `indextree::NodeId::first_child`: the first child link,
/// one-based.
#[verifier::external_body]
fn arena_first_child(a: &Arena<usize>, id: ArenaId) -> (r: Option<usize>)
    requires
        1 <= index1_of(id) <= arena_links(*a).len(),
    ensures
        r == one_based(arena_links(*a)[index1_of(id) - 1].first_child),
{
    id.first_child(a).map(usize::from)
}

/// Relies on `indextree::NodeId::last_child`: the last child link, one-based.
#[verifier::external_body]
fn arena_last_child(a: &Arena<usize>, id: ArenaId) -> (r: Option<usize>)
    requires
        1 <= index1_of(id) <= arena_links(*a).len(),
    ensures
        r == one_based(arena_links(*a)[index1_of(id) - 1].last_child),
{
    id.last_child(a).map(usize::from)
}

/// Relies on `indextree::NodeId::previous_sibling`: the previous sibling
/// link, one-based.
#[verifier::external_body]
fn arena_previous_sibling(a: &Arena<usize>, id: ArenaId) -> (r: Option<usize>)
    requires
        1 <= index1_of(id) <= arena_links(*a).len(),
    ensures
        r == one_based(arena_links(*a)[index1_of(id) - 1].previous_sibling),
{
    id.previous_sibling(a).map(usize::from)
}

/// Relies on `indextree::NodeId::next_sibling`: the next sibling link,
/// one-based.
#[verifier::external_body]
fn arena_next_sibling(a: &Arena<usize>, id: ArenaId) -> (r: Option<usize>)
    requires
        1 <= index1_of(id) <= arena_links(*a).len(),
    ensures
        r == one_based(arena_links(*a)[index1_of(id) - 1].next_sibling),
{
    id.next_sibling(a).map(usize::from)
}

/// Whether no node strictly between `lo` and `hi` has parent `p`.
spec fn none_between(links: Seq<Links>, p: usize, lo: int, hi: int) -> bool {
    forall|j: int| lo < j < hi ==> #[trigger] links[j].parent != Some(p)
}

/// Whether the child and sibling links agree with the parents: first and
/// last child are the first and last node with that parent, and siblings are
/// the previous and next node with the same parent.
spec fn links_exact(links: Seq<Links>) -> bool {
    forall|i: int| 0 <= i < links.len() ==> #[trigger] link_exact(links, i)
}

spec fn link_exact(links: Seq<Links>, i: int) -> bool {
    let len = links.len() as int;
    let l = links[i];
    &&& match l.first_child {
        Some(c) => links[c as int].parent == Some(i as usize) && none_between(links, i as usize, -1, c as int),
        None => none_between(links, i as usize, -1, len),
    }
    &&& match l.last_child {
        Some(c) => links[c as int].parent == Some(i as usize) && none_between(links, i as usize, c as int, len),
        None => none_between(links, i as usize, -1, len),
    }
    &&& match l.parent {
        Some(p) => {
            &&& match l.next_sibling {
                Some(d) => links[d as int].parent == Some(p) && none_between(links, p, i, d as int),
                None => none_between(links, p, i, len),
            }
            &&& match l.previous_sibling {
                Some(d) => links[d as int].parent == Some(p) && none_between(links, p, d as int, i),
                None => none_between(links, p, -1, i),
            }
        },
        None => l.next_sibling is None && l.previous_sibling is None,
    }
}

/// Appending a last child to `p` keeps the links exact.
proof fn lemma_append_links(old: Seq<Links>, p: int)
    requires
        links_exact(old),
        0 <= p < old.len(),
        old.len() <= usize::MAX,
        forall|i: int| 0 <= i < old.len() ==> opt_lt(#[trigger] old[i].last_child, old.len()) && opt_lt(old[i].next_sibling, old.len()) && opt_lt(old[i].first_child, old.len()) && opt_lt(old[i].previous_sibling, old.len()),
        forall|i: int| 0 <= i < old.len() ==> opt_lt(#[trigger] old[i].parent, i as nat),
    ensures
        links_exact(appended_links(old, p)),
{
    let n = old.len() as int;
    let new = appended_links(old, p);
    let prev = old[p].last_child;
    assert(link_exact(old, p));
    assert(new.len() == n + 1);
    assert forall|j: int| 0 <= j < n implies #[trigger] new[j].parent == old[j].parent by {}
    assert(new[n].parent == Some(p as usize));
    assert forall|i: int| 0 <= i < new.len() implies #[trigger] link_exact(new, i) by {
        if i == n {
            assert forall|j: int| -1 < j < n + 1 implies #[trigger] new[j].parent != Some(n as usize) by {
                if j < n {
                    assert(opt_lt(old[j].parent, j as nat));
                }
            }
            match prev {
                Some(s) => {
                    assert(none_between(old, p as usize, s as int, n));
                    assert forall|j: int| s < j < n implies #[trigger] new[j].parent != Some(p as usize) by {
                        assert(old[j].parent != Some(p as usize));
                    }
                },
                None => {
                    assert forall|j: int| -1 < j < n implies #[trigger] new[j].parent != Some(p as usize) by {
                        assert(old[j].parent != Some(p as usize));
                    }
                },
            }
        } else {
            assert(link_exact(old, i));
            let l = old[i];
            assert(new[i].parent == l.parent);
            if i == p {
                match l.first_child {
                    Some(c) => {
                        assert forall|j: int| -1 < j < c implies #[trigger] new[j].parent != Some(p as usize) by {
                            assert(old[j].parent != Some(p as usize));
                        }
                    },
                    None => {
                        assert forall|j: int| -1 < j < n implies #[trigger] new[j].parent != Some(p as usize) by {
                            assert(old[j].parent != Some(p as usize));
                        }
                    },
                }
            } else {
                assert(new[i].first_child == l.first_child);
                assert(new[i].last_child == l.last_child);
                assert(new[i].previous_sibling == l.previous_sibling);
                assert forall|q: usize, lo: int, hi: int|
                    none_between(old, q, lo, hi) && -1 <= lo && hi <= n implies #[trigger] none_between(new, q, lo, hi) by {
                    assert forall|j: int| lo < j < hi implies #[trigger] new[j].parent != Some(q) by {
                        assert(old[j].parent != Some(q));
                    }
                }
                assert forall|q: usize, lo: int|
                    none_between(old, q, lo, n) && -1 <= lo && q != p implies #[trigger] none_between(new, q, lo, n + 1) by {
                    assert forall|j: int| lo < j < n + 1 implies #[trigger] new[j].parent != Some(q) by {
                        if j < n {
                            assert(old[j].parent != Some(q));
                        }
                    }
                }
                if prev == Some(i as usize) {
                    assert(new[i].next_sibling == Some(n as usize));
                    assert(old[i].parent == Some(p as usize));
                    assert(none_between(old, p as usize, i, n));
                    assert forall|j: int| i < j < n implies #[trigger] new[j].parent != Some(p as usize) by {
                        assert(old[j].parent != Some(p as usize));
                    }
                } else {
                    assert(new[i].next_sibling == l.next_sibling);
                    if l.parent == Some(p as usize) && l.next_sibling is None {
                        match prev {
                            Some(s) => {
                                assert(old[s as int].parent == Some(p as usize));
                                if (s as int) < i {
                                    assert(none_between(old, p as usize, s as int, n));
                                    assert(old[i].parent != Some(p as usize));
                                } else {
                                    assert(none_between(old, p as usize, i, n));
                                    assert(old[s as int].parent != Some(p as usize));
                                }
                            },
                            None => {
                                assert(none_between(old, p as usize, -1, n));
                                assert(old[i].parent != Some(p as usize));
                            },
                        }
                    }
                }
            }
        }
    }
}

/// The links after appending a last child to `p`.
spec fn appended_links(old: Seq<Links>, p: int) -> Seq<Links> {
    let n = old.len() as usize;
    let prev = old[p].last_child;
    let pushed = old.push(
        Links {
            parent: Some(p as usize),
            first_child: None,
            last_child: None,
            previous_sibling: prev,
            next_sibling: None,
        },
    );
    let linked = match prev {
        Some(s) => pushed.update(s as int, Links { next_sibling: Some(n), ..pushed[s as int] }),
        None => pushed,
    };
    let pl = linked[p];
    linked.update(
        p,
        Links {
            first_child: if prev is None {
                Some(n)
            } else if pl.first_child is None {
                prev
            } else {
                pl.first_child
            },
            last_child: Some(n),
            ..pl
        },
    )
}

/// The mathematical value of a node: name, attributes, and parent index.
pub struct NodeV {
    pub name: Seq<char>,
    pub attributes: Seq<AttrV>,
    pub parent: Option<nat>,
}

/// A tree of nodes. The root is synthetic: empty name, no attributes, and
/// the file's top-level nodes as children.
#[derive(Debug)]
pub struct Tree {
    data: Vec<NodeData>,
    arena: Arena<usize>,
    ids: Vec<ArenaId>,
    symbols: Vec<String>,
}

pub open spec fn opt_lt(o: Option<usize>, bound: nat) -> bool {
    match o {
        Some(i) => i < bound,
        None => true,
    }
}

pub open spec fn opt_gt(o: Option<usize>, i: nat) -> bool {
    match o {
        Some(j) => j > i,
        None => true,
    }
}

impl Tree {
    /// The number of nodes, the root included.
    pub closed spec fn len(&self) -> nat {
        self.data@.len()
    }

    /// The value of node `i`.
    pub closed spec fn node(&self, i: int) -> NodeV {
        NodeV {
            name: self.symbols@[self.data@[i].name_sym as int]@,
            attributes: self.data@[i].spec_attributes(),
            parent: match self.links()[i].parent {
                Some(p) => Some(p as nat),
                None => None,
            },
        }
    }

    /// The values of all nodes, in arena order.
    pub open spec fn nodes(&self) -> Seq<NodeV> {
        Seq::new(self.len(), |i: int| self.node(i))
    }

    pub open spec fn has(&self, id: TreeNodeId) -> bool {
        id.spec_index() < self.len()
    }

    pub closed spec fn wf(&self) -> bool {
        &&& self.data@.len() == self.links().len()
        &&& self.data@.len() == self.ids@.len()
        &&& self.data@.len() < usize::MAX
        &&& forall|i: int| 0 <= i < self.ids@.len() ==> index1_of(#[trigger] self.ids@[i]) == i + 1
        &&& arena_never_removed(self.arena)
        &&& self.data@.len() >= 1
        &&& self.links()[0].parent is None
        &&& forall|i: int| 0 <= i < self.data@.len() ==> {
            let l = #[trigger] self.links()[i];
            &&& (i > 0 ==> l.parent is Some && l.parent->0 < i)
            &&& opt_gt(l.first_child, i as nat) && opt_lt(l.first_child, self.data@.len())
            &&& opt_gt(l.last_child, i as nat) && opt_lt(l.last_child, self.data@.len())
            &&& opt_lt(l.previous_sibling, i as nat)
            &&& opt_gt(l.next_sibling, i as nat) && opt_lt(l.next_sibling, self.data@.len())
            &&& self.data@[i].name_sym < self.symbols@.len()
        }
        &&& self.symbols@.len() >= 1
        &&& self.symbols@[0]@.len() == 0
        &&& self.data@[0].name_sym == 0
        &&& self.data@[0].attributes@.len() == 0
        &&& self.links_exact()
    }

    /// The child and sibling links agree with the parents.
    pub closed spec fn links_exact(&self) -> bool {
        links_exact(self.links())
    }

    /// The links of the nodes.
    pub closed spec fn links(&self) -> Seq<Links> {
        arena_links(self.arena)
    }

    /// The first child of node `i`, if any.
    pub closed spec fn spec_first_child(&self, i: nat) -> Option<nat> {
        match self.links()[i as int].first_child {
            Some(c) => Some(c as nat),
            None => None,
        }
    }

    /// The next sibling of node `i`, if any.
    pub closed spec fn spec_next_sibling(&self, i: nat) -> Option<nat> {
        match self.links()[i as int].next_sibling {
            Some(c) => Some(c as nat),
            None => None,
        }
    }

    /// A tree holding only the root.
    pub fn new() -> (r: Tree)
        ensures
            r.wf(),
            r.len() == 1,
            r.node(0).name.len() == 0,
            r.node(0).attributes.len() == 0,
            r.node(0).parent is None,
    {
        let mut symbols: Vec<String> = Vec::new();
        symbols.push(String::new());
        let mut data: Vec<NodeData> = Vec::new();
        data.push(NodeData::new(0));
        let mut arena = arena_new();
        let root = arena_new_node(&mut arena, 0);
        let mut ids: Vec<ArenaId> = Vec::new();
        ids.push(root);
        let t = Tree { data, arena, ids, symbols };
        assert(t.links() =~= seq![detached()]);
        assert(t.data@[0].spec_attributes() =~= Seq::<AttrV>::empty());
        t
    }

    /// Returns the root.
    pub fn root(&self) -> (r: TreeNodeId)
        requires
            self.wf(),
        ensures
            r.spec_index() == 0,
            self.has(r),
    {
        TreeNodeId { index: 0 }
    }

    /// Returns the number of nodes, the root included.
    pub fn node_count(&self) -> (r: usize)
        requires
            self.wf(),
        ensures
            r == self.len(),
            r >= 1,
    {
        self.data.len()
    }

    /// Returns the node with the given arena index.
    pub fn node_id(&self, index: usize) -> (r: Option<TreeNodeId>)
        requires
            self.wf(),
        ensures
            match r {
                Some(id) => index < self.len() && id.spec_index() == index,
                None => index >= self.len(),
            },
    {
        if index < self.data.len() {
            Some(TreeNodeId { index })
        } else {
            None
        }
    }

    /// Returns the parent of a node.
    pub fn parent(&self, id: TreeNodeId) -> (r: Option<TreeNodeId>)
        requires
            self.wf(),
            self.has(id),
        ensures
            match self.node(id.spec_index() as int).parent {
                Some(p) => r is Some && r->0.spec_index() == p,
                None => r is None,
            },
            id.spec_index() > 0 <==> r is Some,
            r matches Some(p) ==> p.spec_index() < id.spec_index(),
    {
        match arena_parent(&self.arena, self.ids[id.index]) {
            Some(p) => Some(TreeNodeId { index: p - 1 }),
            None => None,
        }
    }

    /// Whether node `j` is a child of node `i`.
    pub open spec fn is_child(&self, j: int, i: nat) -> bool {
        self.node(j).parent == Some(i)
    }

    /// Whether no node strictly between `lo` and `hi` is a child of `i`.
    pub open spec fn no_child_between(&self, i: nat, lo: int, hi: int) -> bool {
        forall|j: int| lo < j < hi ==> !#[trigger] self.is_child(j, i)
    }

    proof fn lemma_none_between(&self, i: usize, lo: int, hi: int)
        requires
            self.wf(),
            -1 <= lo,
            hi <= self.len(),
            none_between(self.links(), i, lo, hi),
        ensures
            self.no_child_between(i as nat, lo, hi),
    {
        assert forall|j: int| lo < j < hi implies !#[trigger] self.is_child(j, i as nat) by {
            assert(self.links()[j].parent != Some(i));
        }
    }

    /// Returns the first child of a node.
    pub fn first_child(&self, id: TreeNodeId) -> (r: Option<TreeNodeId>)
        requires
            self.wf(),
            self.has(id),
        ensures
            match r {
                Some(c) => self.has(c) && c.spec_index() > id.spec_index() && self.is_child(
                    c.spec_index() as int,
                    id.spec_index(),
                ) && self.no_child_between(id.spec_index(), -1, c.spec_index() as int),
                None => self.no_child_between(id.spec_index(), -1, self.len() as int),
            },
            match r {
                Some(c) => self.spec_first_child(id.spec_index()) == Some(c.spec_index()),
                None => self.spec_first_child(id.spec_index()) is None,
            },
    {
        proof {
            assert(link_exact(self.links(), id.index as int));
            match self.links()[id.index as int].first_child {
                Some(c) => self.lemma_none_between(id.index, -1, c as int),
                None => self.lemma_none_between(id.index, -1, self.len() as int),
            }
        }
        match arena_first_child(&self.arena, self.ids[id.index]) {
            Some(c) => Some(TreeNodeId { index: c - 1 }),
            None => None,
        }
    }

    /// Returns the last child of a node.
    pub fn last_child(&self, id: TreeNodeId) -> (r: Option<TreeNodeId>)
        requires
            self.wf(),
            self.has(id),
        ensures
            match r {
                Some(c) => self.has(c) && c.spec_index() > id.spec_index() && self.is_child(
                    c.spec_index() as int,
                    id.spec_index(),
                ) && self.no_child_between(id.spec_index(), c.spec_index() as int, self.len() as int),
                None => self.no_child_between(id.spec_index(), -1, self.len() as int),
            },
    {
        proof {
            assert(link_exact(self.links(), id.index as int));
            match self.links()[id.index as int].last_child {
                Some(c) => self.lemma_none_between(id.index, c as int, self.len() as int),
                None => self.lemma_none_between(id.index, -1, self.len() as int),
            }
        }
        match arena_last_child(&self.arena, self.ids[id.index]) {
            Some(c) => Some(TreeNodeId { index: c - 1 }),
            None => None,
        }
    }

    /// Returns the previous sibling of a node.
    pub fn previous_sibling(&self, id: TreeNodeId) -> (r: Option<TreeNodeId>)
        requires
            self.wf(),
            self.has(id),
        ensures
            match self.node(id.spec_index() as int).parent {
                Some(p) => match r {
                    Some(c) => self.has(c) && c.spec_index() < id.spec_index() && self.is_child(
                        c.spec_index() as int,
                        p,
                    ) && self.no_child_between(p, c.spec_index() as int, id.spec_index() as int),
                    None => self.no_child_between(p, -1, id.spec_index() as int),
                },
                None => r is None,
            },
    {
        proof {
            assert(link_exact(self.links(), id.index as int));
            let l = self.links()[id.index as int];
            if let Some(p) = l.parent {
                match l.previous_sibling {
                    Some(c) => self.lemma_none_between(p, c as int, id.index as int),
                    None => self.lemma_none_between(p, -1, id.index as int),
                }
            }
        }
        match arena_previous_sibling(&self.arena, self.ids[id.index]) {
            Some(c) => Some(TreeNodeId { index: c - 1 }),
            None => None,
        }
    }

    /// Returns the next sibling of a node.
    pub fn next_sibling(&self, id: TreeNodeId) -> (r: Option<TreeNodeId>)
        requires
            self.wf(),
            self.has(id),
        ensures
            match self.node(id.spec_index() as int).parent {
                Some(p) => match r {
                    Some(c) => self.has(c) && c.spec_index() > id.spec_index() && self.is_child(
                        c.spec_index() as int,
                        p,
                    ) && self.no_child_between(p, id.spec_index() as int, c.spec_index() as int),
                    None => self.no_child_between(p, id.spec_index() as int, self.len() as int),
                },
                None => r is None,
            },
            match r {
                Some(c) => self.spec_next_sibling(id.spec_index()) == Some(c.spec_index()),
                None => self.spec_next_sibling(id.spec_index()) is None,
            },
    {
        proof {
            assert(link_exact(self.links(), id.index as int));
            let l = self.links()[id.index as int];
            if let Some(p) = l.parent {
                match l.next_sibling {
                    Some(c) => self.lemma_none_between(p, id.index as int, c as int),
                    None => self.lemma_none_between(p, id.index as int, self.len() as int),
                }
            }
        }
        match arena_next_sibling(&self.arena, self.ids[id.index]) {
            Some(c) => Some(TreeNodeId { index: c - 1 }),
            None => None,
        }
    }

    /// Returns the name of a node.
    pub fn name(&self, id: TreeNodeId) -> (r: &str)
        requires
            self.wf(),
            self.has(id),
        ensures
            r@ == self.node(id.spec_index() as int).name,
    {
        self.symbols[self.data[id.index].name_sym].as_str()
    }

    /// Returns the attributes of a node.
    pub fn attributes(&self, id: TreeNodeId) -> (r: &Vec<AttributeValue>)
        requires
            self.wf(),
            self.has(id),
        ensures
            r@.map_values(|a: AttributeValue| a@) == self.node(id.spec_index() as int).attributes,
    {
        self.data[id.index].attributes()
    }

    /// The indices, in order, of the children of node `i` among the first
    /// `k` nodes.
    pub open spec fn child_indices(&self, i: nat, k: nat) -> Seq<nat>
        decreases k,
    {
        if k == 0 {
            Seq::empty()
        } else {
            let before = self.child_indices(i, (k - 1) as nat);
            if self.node(k - 1).parent == Some(i) {
                before.push((k - 1) as nat)
            } else {
                before
            }
        }
    }

    /// The indices, in order, of the children of node `i` named `name`
    /// among the first `k` nodes.
    pub open spec fn named_child_indices(&self, i: nat, name: Seq<char>, k: nat) -> Seq<nat>
        decreases k,
    {
        if k == 0 {
            Seq::empty()
        } else {
            let before = self.named_child_indices(i, name, (k - 1) as nat);
            if self.node(k - 1).parent == Some(i) && self.node(k - 1).name == name {
                before.push((k - 1) as nat)
            } else {
                before
            }
        }
    }

    /// Returns the children of a node, in order.
    pub fn children(&self, id: TreeNodeId) -> (r: Vec<TreeNodeId>)
        requires
            self.wf(),
            self.has(id),
        ensures
            r@.map_values(|c: TreeNodeId| c.spec_index()) == self.child_indices(id.spec_index(), self.len()),
    {
        let mut out: Vec<TreeNodeId> = Vec::new();
        let mut k: usize = 0;
        while k < self.data.len()
            invariant
                self.wf(),
                self.has(id),
                k <= self.len(),
                out@.map_values(|c: TreeNodeId| c.spec_index()) == self.child_indices(id.spec_index(), k as nat),
            decreases self.len() - k,
        {
            if arena_parent(&self.arena, self.ids[k]) == Some(id.index + 1) {
                out.push(TreeNodeId { index: k });
            }
            k = k + 1;
            assert(out@.map_values(|c: TreeNodeId| c.spec_index()) =~= self.child_indices(id.spec_index(), k as nat));
        }
        out
    }

    /// Returns the children of a node with the given name, in order.
    pub fn children_by_name(&self, id: TreeNodeId, name: &str) -> (r: Vec<TreeNodeId>)
        requires
            self.wf(),
            self.has(id),
        ensures
            r@.map_values(|c: TreeNodeId| c.spec_index()) == self.named_child_indices(
                id.spec_index(),
                name@,
                self.len(),
            ),
    {
        let mut out: Vec<TreeNodeId> = Vec::new();
        let mut k: usize = 0;
        while k < self.data.len()
            invariant
                self.wf(),
                self.has(id),
                k <= self.len(),
                out@.map_values(|c: TreeNodeId| c.spec_index()) == self.named_child_indices(
                    id.spec_index(),
                    name@,
                    k as nat,
                ),
            decreases self.len() - k,
        {
            let c = TreeNodeId { index: k };
            if arena_parent(&self.arena, self.ids[k]) == Some(id.index + 1) && str_eq(self.name(c), name) {
                out.push(c);
            }
            k = k + 1;
            assert(out@.map_values(|c: TreeNodeId| c.spec_index()) =~= self.named_child_indices(
                id.spec_index(),
                name@,
                k as nat,
            ));
        }
        out
    }

    /// Whether two trees hold the same nodes: names, attributes in order,
    /// and parents.
    pub fn strict_eq(&self, other: &Tree) -> (r: bool)
        requires
            self.wf(),
            other.wf(),
        ensures
            r == (self.nodes() == other.nodes()),
    {
        if self.data.len() != other.data.len() {
            assert(self.nodes().len() != other.nodes().len());
            return false;
        }
        let mut i: usize = 0;
        while i < self.data.len()
            invariant
                self.wf(),
                other.wf(),
                self.len() == other.len(),
                i <= self.len(),
                forall|j: int| 0 <= j < i ==> #[trigger] self.node(j) == other.node(j),
            decreases self.len() - i,
        {
            let id = TreeNodeId { index: i };
            let same = str_eq(self.name(id), other.name(id)) && attrs_eq(
                self.attributes(id),
                other.attributes(id),
            ) && arena_parent(&self.arena, self.ids[i]) == arena_parent(&other.arena, other.ids[i]);
            if !same {
                assert(self.nodes()[i as int] != other.nodes()[i as int]);
                return false;
            }
            i = i + 1;
        }
        assert(self.nodes() =~= other.nodes());
        true
    }

    /// Returns the symbol of a name, adding it to the table if new.
    fn intern(&mut self, name: &str) -> (r: usize)
        requires
            old(self).wf(),
        ensures
            final(self).wf(),
            final(self).nodes() == old(self).nodes(),
            r < final(self).symbols@.len(),
            final(self).symbols@[r as int]@ == name@,
            final(self).data == old(self).data,
            final(self).arena == old(self).arena,
            final(self).ids == old(self).ids,
            final(self).symbols@.len() >= old(self).symbols@.len(),
            forall|i: int| 0 <= i < old(self).symbols@.len() ==> final(self).symbols@[i] == old(self).symbols@[i],
    {
        let mut k: usize = 0;
        while k < self.symbols.len()
            invariant
                k <= self.symbols@.len(),
                self.wf(),
                *self == *old(self),
            decreases self.symbols@.len() - k,
        {
            if str_eq(self.symbols[k].as_str(), name) {
                return k;
            }
            k = k + 1;
        }
        let ghost pre = self.nodes();
        self.symbols.push(name.to_owned());
        assert forall|i: int| 0 <= i < self.data@.len() implies self.data@[i].name_sym < self.symbols@.len() by {
            assert(self.links()[i] == old(self).links()[i]);
        }
        assert(self.nodes() =~= pre);
        self.symbols.len() - 1
    }

    /// Appends a node as the last child of `parent`.
    pub fn append_child(&mut self, parent: TreeNodeId, name: &str) -> (r: TreeNodeId)
        requires
            old(self).wf(),
            old(self).has(parent),
            old(self).len() + 1 < usize::MAX,
        ensures
            final(self).wf(),
            r.spec_index() == old(self).len(),
            final(self).len() == old(self).len() + 1,
            final(self).nodes() == old(self).nodes().push(
                NodeV { name: name@, attributes: Seq::empty(), parent: Some(parent.spec_index()) },
            ),
    {
        let ghost pre = self.nodes();
        let sym = self.intern(name);
        let n = self.data.len();
        let p = parent.index;
        let ghost old_links = self.links();
        proof {
            lemma_append_links(old_links, p as int);
        }
        let id = arena_append_value(&mut self.arena, self.ids[p], n);
        self.data.push(NodeData::new(sym));
        self.ids.push(id);
        assert(self.data@[n as int].spec_attributes() =~= Seq::<AttrV>::empty());
        assert(self.nodes() =~= pre.push(
            NodeV { name: name@, attributes: Seq::empty(), parent: Some(parent.spec_index()) },
        ));
        TreeNodeId { index: n }
    }

    /// Appends an attribute to a node.
    pub fn append_attribute(&mut self, id: TreeNodeId, v: AttributeValue)
        requires
            old(self).wf(),
            old(self).has(id),
            id.spec_index() > 0,
        ensures
            final(self).wf(),
            final(self).len() == old(self).len(),
            final(self).nodes() == old(self).nodes().update(
                id.spec_index() as int,
                NodeV {
                    attributes: old(self).node(id.spec_index() as int).attributes.push(v@),
                    ..old(self).node(id.spec_index() as int)
                },
            ),
    {
        let ghost pre = self.nodes();
        let ghost v_view = v@;
        let mut d = self.data.remove(id.index);
        d.append_attribute(v);
        self.data.insert(id.index, d);
        assert(self.nodes() =~= pre.update(
            id.spec_index() as int,
            NodeV {
                attributes: pre[id.spec_index() as int].attributes.push(v_view),
                ..pre[id.spec_index() as int]
            },
        ));
    }

    /// Builds a tree from the events of a parser, read to the end of the
    /// file; also returns the result of reading the footer.
    ///
    /// Each node start becomes a child of the innermost open node, holding
    /// the node's attributes as the parser decoded them; each node end
    /// closes it.
    pub fn load(parser: &mut Parser) -> (r: Result<(Tree, Result<FbxFooter, Error>), Error>)
        requires
            old(parser).wf(),
            old(parser).spec_state() == ParserState::Healthy,
            old(parser).depth() == 0,
        ensures
            r matches Ok((t, f)) ==> {
                &&& t.wf()
                &&& final(parser).depth() == 0
                &&& final(parser).spec_state() != ParserState::Healthy
                &&& loaded_from(*old(parser), t, f)
            },
            r is Err ==> final(parser).spec_state() == ParserState::Aborted,
            r is Err ==> load_stuck(*old(parser)),
    {
        let mut tree = Tree::new();
        let mut stack: Vec<usize> = Vec::new();
        stack.push(0);
        proof {
            parser.lemma_pos_within();
        }
        let ghost init = parser.pos();
        let ghost start = *parser;
        let ghost mut evs: Seq<Event> = Seq::empty();
        let ghost mut attrs: Seq<Seq<AttrV>> = Seq::empty();
        let ghost mut pres: Seq<Parser> = Seq::empty();
        let ghost mut posts: Seq<Parser> = Seq::empty();
        assert(tree.node(0).name =~= Seq::<char>::empty());
        assert(tree.node(0).attributes =~= Seq::<AttrV>::empty());
        assert(tree.nodes() =~= replay(evs, attrs).0);
        assert(stack@.map_values(|k: usize| k as nat) =~= replay(evs, attrs).1);
        loop
            invariant
                start == *old(parser),
                parser.origin() <= init,
                13 * (tree.len() - 1) + init <= parser.pos(),
                parser.wf(),
                tree.wf(),
                parser.spec_state() == ParserState::Healthy,
                stack@.len() == parser.depth() + 1,
                forall|k: int| 0 <= k < stack@.len() ==> #[trigger] stack@[k] < tree.len(),
                stack@[0] == 0,
                forall|k: int| 1 <= k < stack@.len() ==> #[trigger] stack@[k] > 0,
                parser.pos() <= parser.limit(),
                tree.len() <= parser.pos() + 1,
                tree.nodes() == replay(evs, attrs).0,
                stack@.map_values(|k: usize| k as nat) == replay(evs, attrs).1,
                run_so_far(start, *parser, evs, attrs, pres, posts),
            decreases parser.limit() - parser.pos(), parser.depth(),
        {
            let ghost pre = *parser;
            let ghost pres0 = pres;
            let ghost posts0 = posts;
            proof {
                parser.lemma_pos_within();
            }
            let ev = match parser.next_event() {
                Ok(ev) => ev,
                Err(e) => {
                    proof {
                        assert(event_stuck(*old(parser), evs, attrs, pres, posts, pre));
                    }
                    return Err(e);
                },
            };
            let ghost post = *parser;
            let ghost evs0 = evs;
            let ghost attrs0 = attrs;
            proof {
                evs = evs.push(ev);
                pres = pres.push(pre);
                posts = posts.push(post);
                assert(pres.drop_last() =~= pres0);
                assert(posts.drop_last() =~= posts0);
            }
            match ev {
                Event::StartNode(s) => {
                    proof {
                        parser.lemma_pos_within();
                    }
                    let top = stack[stack.len() - 1];
                    let id = tree.append_child(TreeNodeId { index: top }, s.name.as_str());
                    let ghost mut cur: Seq<AttrV> = Seq::empty();
                    let ghost mut ps: Seq<nat> = seq![post.pos()];
                    proof {
                        attrs = attrs0.push(cur);
                        assert(evs.drop_last() =~= evs0);
                        assert(attrs.drop_last() =~= attrs0);
                        assert(stack@.map_values(|k: usize| k as nat).last() == top as nat);
                        assert(tree.nodes() =~= replay(evs, attrs).0);
                    }
                    let mut k: u64 = 0;
                    while k < s.attribute_count
                        invariant
                            parser.wf(),
                            tree.wf(),
                            tree.has(id),
                            id.spec_index() > 0,
                            id.spec_index() == replay(evs0, attrs0).0.len(),
                            k <= s.attribute_count,
                            cur.len() == k,
                            attrs == attrs0.push(cur),
                            evs == evs0.push(ev),
                            pres == pres0.push(pre),
                            posts == posts0.push(post),
                            ev == Event::StartNode(s),
                            parser.spec_state() == ParserState::Healthy,
                            parser.spec_rest_count() == s.attribute_count - k,
                            parser.depth() == pre.depth() + 1,
                            parser.limit() == pre.limit(),
                            parser.pos() > pre.pos(),
                            parser.pos() <= parser.limit(),
                            parser.origin() == pre.origin(),
                            13 * (tree.len() - 1) + init <= parser.pos(),
                            tree.len() <= parser.pos() + 1,
                            tree.nodes() == replay(evs, attrs).0,
                            parser.pos() <= parser.spec_attr_end(),
                            parser.spec_attr_end() == post.spec_attr_end(),
                            parser.end_offsets() == post.end_offsets(),
                            parser.bytes() == post.bytes(),
                            parser.spec_version() == post.spec_version(),
                            parser.pos() == parser.spec_next_attr_start(),
                            post.origin() == pre.origin(),
                            parser.fatal_kinds() == post.fatal_kinds(),
                            run_so_far(start, pre, evs0, attrs0, pres0, posts0),
                            start == *old(parser),
                            pre.event_post(&post, &ev),
                            pre.spec_state() == ParserState::Healthy,
                            decoded_at(post, post.pos(), cur, ps),
                            ps.last() == parser.pos(),
                        decreases s.attribute_count - k,
                    {
                        let ghost before = *parser;
                        match parser.load_next_attribute() {
                            Ok(Some(v)) => {
                                let ghost vv = v@;
                                let ghost tn = tree.nodes();
                                tree.append_attribute(id, v);
                                proof {
                                    let ghost old_attrs = attrs;
                                    let ghost old_cur = cur;
                                    let ghost base = replay(evs0, attrs0);
                                    assert(old_attrs.drop_last() =~= attrs0);
                                    assert(evs.drop_last() =~= evs0);
                                    assert(replay(evs, old_attrs).0 == base.0.push(
                                        NodeV { name: s.name@, attributes: old_cur, parent: Some(base.1.last()) },
                                    ));
                                    let ghost x_old = NodeV { name: s.name@, attributes: old_cur, parent: Some(base.1.last()) };
                                    assert(tn == base.0.push(x_old));
                                    assert(tn[id.spec_index() as int] == x_old);
                                    before.lemma_same_source(&post);
                                    let ghost old_ps = ps;
                                    ps = ps.push(parser.pos());
                                    assert forall|j: int| 0 <= j < cur.len() + 1 implies match parse_attr(#[trigger] post.bytes_from(ps[j])) {
                                        AttrParse::Done(v, len, _) => v == cur.push(vv)[j] && ps[j + 1] == ps[j] + len,
                                        _ => false,
                                    } by {
                                        if j < cur.len() {
                                            assert(ps[j] == old_ps[j]);
                                            assert(ps[j + 1] == old_ps[j + 1]);
                                        } else {
                                            assert(ps[j] == before.pos());
                                            assert(post.bytes_from(ps[j]) == before.bytes_from(before.pos()));
                                        }
                                    }
                                    cur = cur.push(vv);
                                    attrs = attrs0.push(cur);
                                    assert(attrs.drop_last() =~= attrs0);
                                    assert(attrs.last() == cur);
                                    assert(replay(evs, attrs).0 == base.0.push(
                                        NodeV { name: s.name@, attributes: cur, parent: Some(base.1.last()) },
                                    ));
                                    assert(evs.drop_last() =~= evs0);
                                    assert(attrs.drop_last() =~= attrs0);
                                    assert(old_attrs.drop_last() =~= attrs0);
                                    assert(tree.nodes() =~= replay(evs, attrs).0);
                                }
                            },
                            Ok(None) => {},
                            Err(e) => {
                                proof {
                                    assert(evs.drop_last() =~= evs0);
                                    assert(pres.drop_last() =~= pres0);
                                    assert(posts.drop_last() =~= posts0);
                                    assert(pres.last() == pre);
                                    assert(posts.last() == post);
                                    assert(evs.last() == ev);
                                    assert(run_so_far(*old(parser), pres.last(), evs.drop_last(), attrs0, pres.drop_last(), posts.drop_last()));
                                    assert(cur.len() < announced(evs.last()));
                                    assert(before.spec_rest_count() > 0);
                                    assert(!before.attr_ready());
                                    assert(before.spec_rest_count() == announced(evs.last()) - cur.len());
                                    assert(attr_stuck(*old(parser), evs, attrs0, pres, posts, cur, ps, before));
                                }
                                return Err(e);
                            },
                        }
                        k = k + 1;
                    }
                    let ghost st0 = stack@;
                    stack.push(id.index());
                    proof {
                        assert(decoded_at(post, post.pos(), cur, ps));
                        assert(evs.drop_last() =~= evs0);
                        assert(attrs.drop_last() =~= attrs0);
                        assert(stack@.map_values(|k: usize| k as nat) =~= replay(evs, attrs).1);
                        lemma_run_step(start, *parser, evs0, attrs0, pres, posts, ev, cur);
                    }
                },
                Event::EndNode => {
                    let ghost st0 = stack@;
                    stack.pop();
                    proof {
                        attrs = attrs0.push(Seq::empty());
                        assert(decoded_at(post, post.pos(), Seq::empty(), seq![post.pos()]));
                        assert(evs.drop_last() =~= evs0);
                        assert(attrs.drop_last() =~= attrs0);
                        assert(stack@ =~= st0.drop_last());
                        assert(tree.nodes() =~= replay(evs, attrs).0);
                        assert(stack@.map_values(|k: usize| k as nat) =~= replay(evs, attrs).1);
                        lemma_run_step(start, *parser, evs0, attrs0, pres, posts, ev, Seq::empty());
                    }
                },
                Event::EndOfFile(footer) => {
                    proof {
                        attrs = attrs0.push(Seq::empty());
                        assert(decoded_at(post, post.pos(), Seq::empty(), seq![post.pos()]));
                        assert(evs.drop_last() =~= evs0);
                        assert(attrs.drop_last() =~= attrs0);
                        assert(tree.nodes() =~= replay(evs, attrs).0);
                        lemma_run_step(start, *parser, evs0, attrs0, pres, posts, ev, Seq::empty());
                        assert(load_run(start, evs, attrs, pres, posts));
                        assert(evs.last() == Event::EndOfFile(footer));
                        assert(start == *old(parser));
                        assert(load_run(*old(parser), evs, attrs, pres, posts) && evs.last()
                            == Event::EndOfFile(footer) && tree.nodes() == replay(evs, attrs).0);
                        assert(loaded_from(*old(parser), tree, footer));
                    }
                    return Ok((tree, footer));
                },
            }
        }
    }
}


/// The nodes and the stack of open nodes after replaying parser events,
/// each node start with the attributes loaded for it.
pub open spec fn replay(evs: Seq<Event>, attrs: Seq<Seq<AttrV>>) -> (Seq<NodeV>, Seq<nat>)
    decreases evs.len(),
{
    if evs.len() == 0 {
        (seq![NodeV { name: Seq::empty(), attributes: Seq::empty(), parent: None }], seq![0nat])
    } else {
        let (nodes, stack) = replay(evs.drop_last(), attrs.drop_last());
        match evs.last() {
            Event::StartNode(s) => (
                nodes.push(
                    NodeV { name: s.name@, attributes: attrs.last(), parent: Some(stack.last()) },
                ),
                stack.push(nodes.len()),
            ),
            Event::EndNode => (nodes, stack.drop_last()),
            Event::EndOfFile(_) => (nodes, stack),
        }
    }
}

/// The attributes expected after an event: as many as a node start
/// announces, none otherwise.
pub open spec fn announced(ev: Event) -> nat {
    match ev {
        Event::StartNode(s) => s.attribute_count as nat,
        _ => 0,
    }
}

/// A run of the loader so far: the events, the attributes loaded after each,
/// and the parser before and after each event. Each event is one that
/// `next_event` may return from the state before it, and each state before
/// an event continues from the state after the previous one where the next
/// record starts.
pub open spec fn run_so_far(
    start: Parser,
    now: Parser,
    evs: Seq<Event>,
    attrs: Seq<Seq<AttrV>>,
    pres: Seq<Parser>,
    posts: Seq<Parser>,
) -> bool {
    &&& evs.len() == attrs.len()
    &&& evs.len() == pres.len()
    &&& evs.len() == posts.len()
    &&& forall|i: int| 0 <= i < evs.len() ==> #[trigger] pres[i].event_post(&posts[i], &evs[i])
    &&& forall|i: int| 0 <= i < evs.len() ==> #[trigger] attrs[i].len() == announced(evs[i])
    &&& forall|i: int| 0 <= i < evs.len() ==> decoded_from(#[trigger] posts[i], posts[i].pos(), attrs[i])
    &&& forall|i: int| 0 <= i < evs.len() - 1 ==> continues(#[trigger] posts[i], pres[i + 1])
    &&& (evs.len() == 0 ==> now == start)
    &&& (evs.len() > 0 ==> pres[0] == start && continues(posts.last(), now))
}

/// Whether `vals` are attributes decoded one after another from position
/// `p` of the parser's source, the `j`-th starting at `ps[j]`.
pub open spec fn decoded_at(pa: Parser, p: nat, vals: Seq<AttrV>, ps: Seq<nat>) -> bool {
    &&& ps.len() == vals.len() + 1
    &&& ps[0] == p
    &&& forall|j: int|
        0 <= j < vals.len() ==> match parse_attr(#[trigger] pa.bytes_from(ps[j])) {
            AttrParse::Done(v, len, _) => v == vals[j] && ps[j + 1] == ps[j] + len,
            _ => false,
        }
}

/// Whether `vals` are attributes decoded one after another from position
/// `p` of the parser's source.
pub open spec fn decoded_from(pa: Parser, p: nat, vals: Seq<AttrV>) -> bool {
    exists|ps: Seq<nat>| #[trigger] decoded_at(pa, p, vals, ps)
}

/// Whether `next` picks up where `prev` left off: same source, same open
/// nodes, and the same start of the next record.
pub open spec fn continues(prev: Parser, next: Parser) -> bool {
    &&& next.bytes() == prev.bytes()
    &&& next.origin() == prev.origin()
    &&& next.limit() == prev.limit()
    &&& next.fatal_kinds() == prev.fatal_kinds()
    &&& next.spec_version() == prev.spec_version()
    &&& next.depth() == prev.depth()
    &&& next.end_offsets() == prev.end_offsets()
    &&& next.skip_target() == prev.skip_target()
}

/// Whether a run of the loader from parser `p0` ends with the end of the file
/// and footer result `f`, and builds the nodes of `t`.
pub open spec fn loaded_from(p0: Parser, t: Tree, f: Result<FbxFooter, Error>) -> bool {
    exists|evs: Seq<Event>, attrs: Seq<Seq<AttrV>>, pres: Seq<Parser>, posts: Seq<Parser>|
        #[trigger] load_run(p0, evs, attrs, pres, posts) && evs.last() == Event::EndOfFile(f)
            && t.nodes() == replay(evs, attrs).0
}

/// Whether `p` is a parser just made over the source of `reader`: the header
/// read, nothing else, and no warning made fatal.
pub open spec fn fresh_parser(p: Parser, reader: SeekableReader) -> bool {
    let rest = reader.rest();
    &&& rest.len() >= 27
    &&& rest.subrange(0, 23) == crate::low::magic()
    &&& p.spec_version().spec_raw() as nat == crate::wire::le_u32(rest, 23)
    &&& p.spec_version().spec_raw() / 1000 == 7
    &&& p.wf()
    &&& p.spec_state() == ParserState::Healthy
    &&& p.depth() == 0
    &&& p.pos() == reader.pos() + 27
    &&& p.rest() == rest.subrange(27, rest.len() as int)
    &&& p.spec_warnings().len() == 0
    &&& p.fatal_kinds().len() == 0
}

/// Whether a run of the loader from `p0`, stopped at state `q` between two
/// events, cannot go on: the next record at `q` is malformed or raises a
/// fatal warning.
pub open spec fn event_stuck(
    p0: Parser,
    evs: Seq<Event>,
    attrs: Seq<Seq<AttrV>>,
    pres: Seq<Parser>,
    posts: Seq<Parser>,
    q: Parser,
) -> bool {
    &&& run_so_far(p0, q, evs, attrs, pres, posts)
    &&& q.spec_state() == ParserState::Healthy
    &&& !(q.next_ready() && q.node_warnings_tolerated())
}

/// Whether a run of the loader from `p0`, stopped at state `q` inside the
/// attributes of the node that its last event starts, cannot go on: the
/// attributes `cur` were decoded from the node's start, and the next one
/// cannot be read.
pub open spec fn attr_stuck(
    p0: Parser,
    evs: Seq<Event>,
    attrs: Seq<Seq<AttrV>>,
    pres: Seq<Parser>,
    posts: Seq<Parser>,
    cur: Seq<AttrV>,
    ps: Seq<nat>,
    q: Parser,
) -> bool {
    &&& evs.len() > 0
    &&& pres.len() == evs.len()
    &&& posts.len() == evs.len()
    &&& run_so_far(p0, pres.last(), evs.drop_last(), attrs, pres.drop_last(), posts.drop_last())
    &&& pres.last().event_post(&posts.last(), &evs.last())
    &&& decoded_at(posts.last(), posts.last().pos(), cur, ps)
    &&& cur.len() < announced(evs.last())
    &&& q.bytes() == posts.last().bytes()
    &&& q.origin() == posts.last().origin()
    &&& q.spec_version() == posts.last().spec_version()
    &&& q.fatal_kinds() == posts.last().fatal_kinds()
    &&& q.pos() == ps.last()
    &&& q.spec_next_attr_start() == q.pos()
    &&& q.spec_attr_end() == posts.last().spec_attr_end()
    &&& q.spec_rest_count() == announced(evs.last()) - cur.len()
    &&& q.spec_state() == ParserState::Healthy
    &&& !q.attr_ready()
}

/// Whether the run of the loader from `p0` stops where parsing cannot go
/// on.
pub open spec fn load_stuck(p0: Parser) -> bool {
    ||| exists|evs: Seq<Event>, attrs: Seq<Seq<AttrV>>, pres: Seq<Parser>, posts: Seq<Parser>, q: Parser|
        #[trigger] event_stuck(p0, evs, attrs, pres, posts, q)
    ||| exists|
        evs: Seq<Event>,
        attrs: Seq<Seq<AttrV>>,
        pres: Seq<Parser>,
        posts: Seq<Parser>,
        cur: Seq<AttrV>,
        ps: Seq<nat>,
        q: Parser,
    | #[trigger] attr_stuck(p0, evs, attrs, pres, posts, cur, ps, q)
}

/// A complete run of the loader: it ends with the end of the file.
pub open spec fn load_run(
    start: Parser,
    evs: Seq<Event>,
    attrs: Seq<Seq<AttrV>>,
    pres: Seq<Parser>,
    posts: Seq<Parser>,
) -> bool {
    &&& evs.len() > 0
    &&& run_so_far(start, posts.last(), evs, attrs, pres, posts)
    &&& evs.last() is EndOfFile
}

proof fn lemma_run_step(
    start: Parser,
    now: Parser,
    evs0: Seq<Event>,
    attrs0: Seq<Seq<AttrV>>,
    pres: Seq<Parser>,
    posts: Seq<Parser>,
    ev: Event,
    cur: Seq<AttrV>,
)
    requires
        run_so_far(start, pres.last(), evs0, attrs0, pres.drop_last(), posts.drop_last()),
        pres.len() == evs0.len() + 1,
        posts.len() == evs0.len() + 1,
        pres.last().event_post(&posts.last(), &ev),
        cur.len() == announced(ev),
        decoded_from(posts.last(), posts.last().pos(), cur),
        continues(posts.last(), now),
    ensures
        run_so_far(start, now, evs0.push(ev), attrs0.push(cur), pres, posts),
{
    let evs = evs0.push(ev);
    let attrs = attrs0.push(cur);
    let n = evs0.len() as int;
    assert forall|i: int| 0 <= i < evs.len() implies #[trigger] pres[i].event_post(&posts[i], &evs[i]) by {
        if i < n {
            assert(pres.drop_last()[i] == pres[i]);
            assert(posts.drop_last()[i] == posts[i]);
            assert(evs0[i] == evs[i]);
        }
    }
    assert forall|i: int| 0 <= i < evs.len() implies #[trigger] attrs[i].len() == announced(evs[i]) by {
        if i < n {
            assert(attrs0[i] == attrs[i]);
            assert(evs0[i] == evs[i]);
        }
    }
    assert forall|i: int| 0 <= i < evs.len() implies decoded_from(#[trigger] posts[i], posts[i].pos(), attrs[i]) by {
        if i < n {
            assert(posts.drop_last()[i] == posts[i]);
            assert(attrs0[i] == attrs[i]);
        }
    }
    assert forall|i: int| 0 <= i < evs.len() - 1 implies continues(#[trigger] posts[i], pres[i + 1]) by {
        if i < n - 1 {
            assert(posts.drop_last()[i] == posts[i]);
            assert(pres.drop_last()[i + 1] == pres[i + 1]);
        } else {
            assert(posts.drop_last().last() == posts[i]);
        }
    }
}

fn eq_bools(a: &Vec<bool>, b: &Vec<bool>) -> (r: bool)
    ensures
        r == (a@ == b@),
{
    if a.len() != b.len() {
        return false;
    }
    let mut i: usize = 0;
    while i < a.len()
        invariant
            a@.len() == b@.len(),
            i <= a@.len(),
            forall|j: int| 0 <= j < i ==> a@[j] == b@[j],
        decreases a@.len() - i,
    {
        if a[i] != b[i] {
            return false;
        }
        i = i + 1;
    }
    assert(a@ =~= b@);
    true
}

fn eq_i32s(a: &Vec<i32>, b: &Vec<i32>) -> (r: bool)
    ensures
        r == (a@ == b@),
{
    if a.len() != b.len() {
        return false;
    }
    let mut i: usize = 0;
    while i < a.len()
        invariant
            a@.len() == b@.len(),
            i <= a@.len(),
            forall|j: int| 0 <= j < i ==> a@[j] == b@[j],
        decreases a@.len() - i,
    {
        if a[i] != b[i] {
            return false;
        }
        i = i + 1;
    }
    assert(a@ =~= b@);
    true
}

fn eq_i64s(a: &Vec<i64>, b: &Vec<i64>) -> (r: bool)
    ensures
        r == (a@ == b@),
{
    if a.len() != b.len() {
        return false;
    }
    let mut i: usize = 0;
    while i < a.len()
        invariant
            a@.len() == b@.len(),
            i <= a@.len(),
            forall|j: int| 0 <= j < i ==> a@[j] == b@[j],
        decreases a@.len() - i,
    {
        if a[i] != b[i] {
            return false;
        }
        i = i + 1;
    }
    assert(a@ =~= b@);
    true
}

fn eq_u32s(a: &Vec<u32>, b: &Vec<u32>) -> (r: bool)
    ensures
        r == (a@ == b@),
{
    if a.len() != b.len() {
        return false;
    }
    let mut i: usize = 0;
    while i < a.len()
        invariant
            a@.len() == b@.len(),
            i <= a@.len(),
            forall|j: int| 0 <= j < i ==> a@[j] == b@[j],
        decreases a@.len() - i,
    {
        if a[i] != b[i] {
            return false;
        }
        i = i + 1;
    }
    assert(a@ =~= b@);
    true
}

fn eq_u64s(a: &Vec<u64>, b: &Vec<u64>) -> (r: bool)
    ensures
        r == (a@ == b@),
{
    if a.len() != b.len() {
        return false;
    }
    let mut i: usize = 0;
    while i < a.len()
        invariant
            a@.len() == b@.len(),
            i <= a@.len(),
            forall|j: int| 0 <= j < i ==> a@[j] == b@[j],
        decreases a@.len() - i,
    {
        if a[i] != b[i] {
            return false;
        }
        i = i + 1;
    }
    assert(a@ =~= b@);
    true
}

/// Whether two attribute values are equal; floats compare by their bits.
pub fn attr_eq(a: &AttributeValue, b: &AttributeValue) -> (r: bool)
    ensures
        r == (a@ == b@),
{
    match (a, b) {
        (AttributeValue::Bool(x), AttributeValue::Bool(y)) => *x == *y,
        (AttributeValue::I16(x), AttributeValue::I16(y)) => *x == *y,
        (AttributeValue::I32(x), AttributeValue::I32(y)) => *x == *y,
        (AttributeValue::I64(x), AttributeValue::I64(y)) => *x == *y,
        (AttributeValue::F32(x), AttributeValue::F32(y)) => *x == *y,
        (AttributeValue::F64(x), AttributeValue::F64(y)) => *x == *y,
        (AttributeValue::ArrBool(x), AttributeValue::ArrBool(y)) => eq_bools(x, y),
        (AttributeValue::ArrI32(x), AttributeValue::ArrI32(y)) => eq_i32s(x, y),
        (AttributeValue::ArrI64(x), AttributeValue::ArrI64(y)) => eq_i64s(x, y),
        (AttributeValue::ArrF32(x), AttributeValue::ArrF32(y)) => eq_u32s(x, y),
        (AttributeValue::ArrF64(x), AttributeValue::ArrF64(y)) => eq_u64s(x, y),
        (AttributeValue::Binary(x), AttributeValue::Binary(y)) => bytes_eq(x, y),
        (AttributeValue::String(x), AttributeValue::String(y)) => str_eq(x.as_str(), y.as_str()),
        _ => false,
    }
}

/// Whether two attribute lists are equal.
fn attrs_eq(a: &Vec<AttributeValue>, b: &Vec<AttributeValue>) -> (r: bool)
    ensures
        r == (a@.map_values(|v: AttributeValue| v@) == b@.map_values(|v: AttributeValue| v@)),
{
    if a.len() != b.len() {
        assert(a@.map_values(|v: AttributeValue| v@).len() != b@.map_values(|v: AttributeValue| v@).len());
        return false;
    }
    let mut i: usize = 0;
    while i < a.len()
        invariant
            a@.len() == b@.len(),
            i <= a@.len(),
            forall|j: int| 0 <= j < i ==> a@[j]@ == b@[j]@,
        decreases a@.len() - i,
    {
        if !attr_eq(&a[i], &b[i]) {
            assert(a@.map_values(|v: AttributeValue| v@)[i as int] != b@.map_values(|v: AttributeValue| v@)[i as int]);
            return false;
        }
        i = i + 1;
    }
    assert(a@.map_values(|v: AttributeValue| v@) =~= b@.map_values(|v: AttributeValue| v@));
    true
}

/// Whether two strings are equal.
fn str_eq(a: &str, b: &str) -> (r: bool)
    ensures
        r == (a@ == b@),
{
    let x = a.to_owned();
    let y = b.to_owned();
    x == y
}

/// Why a tree could not be loaded.
#[derive(Debug)]
pub enum TreeLoadError {
    /// No parser could be made for the file.
    Parser(AnyParserError),
    /// Parsing failed.
    Parse(Error),
}

/// A tree of whichever version the file header names, with the version and
/// the result of reading the footer.
#[derive(Debug)]
pub enum AnyTree {
    V7400(FbxVersion, Tree, Result<FbxFooter, Error>),
}

impl AnyTree {
    /// Reads a whole file into a tree.
    pub fn from_seekable_reader(reader: SeekableReader) -> (r: Result<AnyTree, TreeLoadError>)
        requires
            reader.wf(),
        ensures
            match r {
                Ok(AnyTree::V7400(v, t, f)) => {
                    &&& t.wf()
                    &&& exists|p0: Parser| #[trigger] fresh_parser(p0, reader) && p0.spec_version() == v
                        && loaded_from(p0, t, f)
                },
                Err(TreeLoadError::Parser(e)) => from_seekable_reader_fails(reader, e),
                Err(TreeLoadError::Parse(e)) => exists|p0: Parser| #[trigger] fresh_parser(p0, reader)
                    && load_stuck(p0),
            },
    {
        let any = match from_seekable_reader(reader) {
            Ok(p) => p,
            Err(e) => return Err(TreeLoadError::Parser(e)),
        };
        match any {
            AnyParser::V7400(parser) => {
                let mut parser = parser;
                let ghost p0 = parser;
                assert(fresh_parser(p0, reader));
                let version = parser.fbx_version();
                match Tree::load(&mut parser) {
                    Ok((tree, footer)) => Ok(AnyTree::V7400(version, tree, footer)),
                    Err(e) => Err(TreeLoadError::Parse(e)),
                }
            },
        }
    }

    /// Returns the FBX version.
    pub fn fbx_version(&self) -> (r: FbxVersion)
        ensures
            match self {
                AnyTree::V7400(v, _, _) => r == *v,
            },
    {
        match self {
            AnyTree::V7400(v, _, _) => *v,
        }
    }
}

} // verus!
