//! The queue of registrations that are due to expire, earliest first.

use core::cmp::Ordering;
use vstd::multiset::Multiset;
use vstd::prelude::*;
use vstd::seq_lib::*;

verus! {

/// A registration together with the second at which it expires.
#[derive(Debug, PartialEq, Eq)]
pub struct ExpireNode {
    pub cidr: String,
    pub expire_at: u64,
}

impl View for ExpireNode {
    type V = (Seq<char>, u64);

    open spec fn view(&self) -> (Seq<char>, u64) {
        (self.cidr@, self.expire_at)
    }
}

impl ExpireNode {
    /// Ranks nodes by urgency: the node that expires earlier is the greater one.
    pub fn cmp(&self, other: &Self) -> (order: Ordering)
        ensures
            order == Ordering::Greater <==> self.expire_at < other.expire_at,
            order == Ordering::Equal <==> self.expire_at == other.expire_at,
            order == Ordering::Less <==> self.expire_at > other.expire_at,
    {
        if other.expire_at < self.expire_at {
            Ordering::Less
        } else if other.expire_at == self.expire_at {
            Ordering::Equal
        } else {
            Ordering::Greater
        }
    }
}

impl PartialOrd for ExpireNode {
    fn partial_cmp(&self, other: &Self) -> (order: Option<Ordering>) {
        Some(self.cmp(other))
    }
}

impl vstd::std_specs::cmp::PartialOrdSpecImpl for ExpireNode {
    open spec fn obeys_partial_cmp_spec() -> bool {
        true
    }

    open spec fn partial_cmp_spec(&self, other: &Self) -> Option<Ordering> {
        if self.expire_at > other.expire_at {
            Some(Ordering::Less)
        } else if self.expire_at == other.expire_at {
            Some(Ordering::Equal)
        } else {
            Some(Ordering::Greater)
        }
    }
}

/// The index of the node above node `i` in the tree.
spec fn parent(i: int) -> int {
    (i - 1) / 2
}

/// Node `i` expires no earlier than the node above it.
spec fn ordered_at(nodes: Seq<ExpireNode>, i: int) -> bool {
    i <= 0 || nodes[parent(i)].expire_at <= nodes[i].expire_at
}

/// Every node expires no earlier than the node above it.
spec fn ordered(nodes: Seq<ExpireNode>) -> bool {
    forall|i: int| 0 <= i < nodes.len() ==> #[trigger] ordered_at(nodes, i)
}

/// The nodes as a multiset of their views.
spec fn contents(nodes: Seq<ExpireNode>) -> Multiset<(Seq<char>, u64)> {
    nodes.map_values(|node: ExpireNode| node@).to_multiset()
}

/// A sequence with the elements at two places exchanged.
spec fn swapped(nodes: Seq<ExpireNode>, i: int, j: int) -> Seq<ExpireNode> {
    nodes.update(i, nodes[j]).update(j, nodes[i])
}

proof fn lemma_swapped_contents(nodes: Seq<ExpireNode>, i: int, j: int)
    requires
        0 <= i < nodes.len(),
        0 <= j < nodes.len(),
    ensures
        contents(swapped(nodes, i, j)) == contents(nodes),
{
    broadcast use {vstd::multiset::group_multiset_axioms, vstd::multiset::group_multiset_properties};

    let views = nodes.map_values(|node: ExpireNode| node@);
    let half = views.update(i, views[j]);
    assert(swapped(nodes, i, j).map_values(|node: ExpireNode| node@) =~= half.update(j, views[i]));
    to_multiset_update(views, i, views[j]);
    to_multiset_update(half, j, views[i]);
    to_multiset_contains(views, views[i]);
    to_multiset_contains(views, views[j]);
    assert(contents(swapped(nodes, i, j)) =~= contents(nodes));
}

/// In an ordered tree the root expires first.
proof fn lemma_root_is_earliest(nodes: Seq<ExpireNode>, i: int)
    requires
        ordered(nodes),
        0 <= i < nodes.len(),
    ensures
        nodes[0].expire_at <= nodes[i].expire_at,
    decreases i,
{
    if i > 0 {
        assert(ordered_at(nodes, i));
        lemma_root_is_earliest(nodes, parent(i));
    }
}

/// Exchanges two nodes of a list.
fn swap_nodes(nodes: &mut Vec<ExpireNode>, i: usize, j: usize)
    requires
        i < old(nodes)@.len(),
        j < old(nodes)@.len(),
        i != j,
    ensures
        final(nodes)@ == swapped(old(nodes)@, i as int, j as int),
{
    let mut spare = ExpireNode { cidr: String::new(), expire_at: 0 };
    core::mem::swap(&mut nodes[i], &mut spare);
    core::mem::swap(&mut nodes[j], &mut spare);
    core::mem::swap(&mut nodes[i], &mut spare);
    assert(nodes@ =~= swapped(old(nodes)@, i as int, j as int));
}

/// Moves the node at `start` up until the tree is ordered.
fn sift_up(nodes: &mut Vec<ExpireNode>, start: usize)
    requires
        start < old(nodes)@.len(),
        forall|i: int|
            0 <= i < old(nodes)@.len() && i != start ==> #[trigger] ordered_at(old(nodes)@, i),
        forall|i: int|
            0 < i < old(nodes)@.len() && #[trigger] parent(i) == start && start > 0
                ==> old(nodes)@[parent(start as int)].expire_at <= old(nodes)@[i].expire_at,
    ensures
        ordered(final(nodes)@),
        contents(final(nodes)@) == contents(old(nodes)@),
        final(nodes)@.len() == old(nodes)@.len(),
{
    let mut pos: usize = start;
    while pos > 0
        invariant
            pos < nodes@.len(),
            nodes@.len() == old(nodes)@.len(),
            contents(nodes@) == contents(old(nodes)@),
            forall|i: int| 0 <= i < nodes@.len() && i != pos ==> #[trigger] ordered_at(nodes@, i),
            forall|i: int|
                0 < i < nodes@.len() && #[trigger] parent(i) == pos && pos > 0
                    ==> nodes@[parent(pos as int)].expire_at <= nodes@[i].expire_at,
        ensures
            ordered(nodes@),
            contents(nodes@) == contents(old(nodes)@),
            nodes@.len() == old(nodes)@.len(),
        decreases pos,
    {
        let up: usize = (pos - 1) / 2;
        if !(nodes[pos] > nodes[up]) {
            assert(ordered_at(nodes@, pos as int));
            break;
        }
        let ghost before = nodes@;
        proof {
            lemma_swapped_contents(before, pos as int, up as int);
        }
        swap_nodes(nodes, pos, up);
        proof {
            assert forall|i: int| 0 <= i < nodes@.len() && i != up implies #[trigger] ordered_at(
                nodes@,
                i,
            ) by {
                assert(ordered_at(before, i) || i == pos);
                assert(ordered_at(before, up as int));
            }
            assert forall|i: int|
                0 < i < nodes@.len() && #[trigger] parent(i) == up && up > 0 implies nodes@[parent(
                up as int,
            )].expire_at <= nodes@[i].expire_at by {
                assert(ordered_at(before, up as int));
                assert(ordered_at(before, i) || i == pos);
            }
        }
        pos = up;
    }
}

/// Moves the root down until the tree is ordered.
fn sift_down(nodes: &mut Vec<ExpireNode>)
    requires
        forall|i: int|
            0 < i < old(nodes)@.len() && parent(i) != 0 ==> #[trigger] ordered_at(old(nodes)@, i),
    ensures
        ordered(final(nodes)@),
        contents(final(nodes)@) == contents(old(nodes)@),
{
    let len: usize = nodes.len();
    let mut pos: usize = 0;
    while pos < len / 2
        invariant
            len == nodes@.len(),
            contents(nodes@) == contents(old(nodes)@),
            pos <= len,
            forall|i: int|
                0 <= i < len && parent(i) != pos ==> #[trigger] ordered_at(nodes@, i),
            forall|i: int|
                0 < i < len && #[trigger] parent(i) == pos && pos > 0
                    ==> nodes@[parent(pos as int)].expire_at <= nodes@[i].expire_at,
        ensures
            ordered(nodes@),
            contents(nodes@) == contents(old(nodes)@),
        decreases len - pos,
    {
        let left: usize = 2 * pos + 1;
        let mut child: usize = left;
        if left + 1 < len && nodes[left + 1] > nodes[left] {
            child = left + 1;
        }
        let ghost before = nodes@;
        if !(nodes[child] > nodes[pos]) {
            assert forall|i: int| 0 <= i < len implies #[trigger] ordered_at(nodes@, i) by {
                assert(parent(i) == pos && i > 0 ==> i == left || i == left + 1);
            }
            break;
        }
        proof {
            lemma_swapped_contents(before, child as int, pos as int);
        }
        swap_nodes(nodes, child, pos);
        proof {
            assert forall|i: int| 0 <= i < len && parent(i) != child implies #[trigger] ordered_at(
                nodes@,
                i,
            ) by {
                assert(parent(i) == pos && i > 0 ==> i == left || i == left + 1);
                assert(parent(i) != pos ==> ordered_at(before, i));
                if i == pos && pos > 0 {
                    assert(parent(child as int) == pos);
                }
            }
            assert forall|i: int|
                0 < i < len && #[trigger] parent(i) == child implies nodes@[parent(
                child as int,
            )].expire_at <= nodes@[i].expire_at by {
                assert(ordered_at(before, i));
            }
        }
        pos = child;
    }
}

/// A queue of nodes from which the earliest to expire is taken first.
pub struct ExpireHeap {
    nodes: Vec<ExpireNode>,
}

impl View for ExpireHeap {
    type V = Multiset<(Seq<char>, u64)>;

    closed spec fn view(&self) -> Multiset<(Seq<char>, u64)> {
        contents(self.nodes@)
    }
}

impl ExpireHeap {
    /// The nodes stand in heap order.
    pub closed spec fn wf(&self) -> bool {
        ordered(self.nodes@)
    }

    /// An empty queue.
    pub fn new() -> (heap: Self)
        ensures
            heap.wf(),
            heap@ == Multiset::<(Seq<char>, u64)>::empty(),
    {
        let heap = ExpireHeap { nodes: Vec::new() };
        proof {
            broadcast use vstd::multiset::group_multiset_axioms;

            to_multiset_len(heap.nodes@.map_values(|node: ExpireNode| node@));
            assert(heap@.len() == 0);
            assert(heap@ =~= Multiset::empty());
        }
        heap
    }

    /// The number of nodes in the queue.
    pub fn len(&self) -> (len: usize)
        ensures
            len == self@.len(),
    {
        proof {
            to_multiset_len(self.nodes@.map_values(|node: ExpireNode| node@));
        }
        self.nodes.len()
    }

    /// Adds a node.
    pub fn push(&mut self, node: ExpireNode)
        requires
            old(self).wf(),
        ensures
            final(self).wf(),
            final(self)@ == old(self)@.insert(node@),
    {
        let start: usize = self.nodes.len();
        self.nodes.push(node);
        proof {
            let before = old(self).nodes@;
            let views = before.map_values(|n: ExpireNode| n@);
            assert(self.nodes@.map_values(|n: ExpireNode| n@) =~= views.push(node@));
            to_multiset_build(views, node@);
            assert forall|i: int| 0 <= i < self.nodes@.len() && i != start implies #[trigger] ordered_at(
                self.nodes@,
                i,
            ) by {
                assert(ordered_at(before, i));
            }
        }
        sift_up(&mut self.nodes, start);
    }

    /// The node that expires first, if there is one.
    pub fn peek(&self) -> (node: Option<&ExpireNode>)
        requires
            self.wf(),
        ensures
            node is None <==> self@.len() == 0,
            node matches Some(first) ==> self@.contains(first@) && forall|other: (Seq<char>, u64)|
                self@.contains(other) ==> first.expire_at <= other.1,
    {
        proof {
            self.lemma_root();
        }
        if self.nodes.len() == 0 {
            None
        } else {
            Some(&self.nodes[0])
        }
    }

    proof fn lemma_root(&self)
        requires
            self.wf(),
        ensures
            self@.len() == self.nodes@.len(),
            self.nodes@.len() > 0 ==> self@.contains(self.nodes@[0]@) && forall|
                other: (Seq<char>, u64),
            |
                self@.contains(other) ==> self.nodes@[0].expire_at <= other.1,
    {
        let views = self.nodes@.map_values(|n: ExpireNode| n@);
        to_multiset_len(views);
        if views.len() > 0 {
            assert(views[0] == self.nodes@[0]@);
            to_multiset_contains(views, views[0]);
            assert forall|other: (Seq<char>, u64)| self@.contains(
                other,
            ) implies self.nodes@[0].expire_at <= other.1 by {
                to_multiset_contains(views, other);
                let i = choose|i: int| 0 <= i < views.len() && views[i] == other;
                lemma_root_is_earliest(self.nodes@, i);
            }
        }
    }

    /// Takes out the node that expires first, if there is one.
    pub fn pop(&mut self) -> (node: Option<ExpireNode>)
        requires
            old(self).wf(),
        ensures
            final(self).wf(),
            node is None <==> old(self)@.len() == 0,
            node is None ==> final(self)@ == old(self)@,
            node matches Some(first) ==> {
                &&& old(self)@.contains(first@)
                &&& forall|other: (Seq<char>, u64)|
                    old(self)@.contains(other) ==> first.expire_at <= other.1
                &&& final(self)@ == old(self)@.remove(first@)
            },
    {
        proof {
            self.lemma_root();
        }
        if self.nodes.len() == 0 {
            return None;
        }
        let first = self.nodes.swap_remove(0);
        proof {
            let before = old(self).nodes@;
            let views = before.map_values(|n: ExpireNode| n@);
            let last = before.len() - 1;
            let moved = views.update(0, views[last]);
            assert(self.nodes@.map_values(|n: ExpireNode| n@) =~= moved.remove(last));
            to_multiset_update(views, 0, views[last]);
            to_multiset_remove(moved, last);
            to_multiset_contains(views, views[0]);
            broadcast use {
                vstd::multiset::group_multiset_axioms,
                vstd::multiset::group_multiset_properties,
            };

            assert(self@ =~= old(self)@.remove(first@));
            assert forall|i: int|
                0 < i < self.nodes@.len() && parent(i) != 0 implies #[trigger] ordered_at(
                self.nodes@,
                i,
            ) by {
                assert(ordered_at(before, i));
            }
        }
        sift_down(&mut self.nodes);
        Some(first)
    }

    /// Drops every node.
    pub fn clear(&mut self)
        ensures
            final(self).wf(),
            final(self)@ == Multiset::<(Seq<char>, u64)>::empty(),
    {
        *self = ExpireHeap::new();
    }
}

} // verus!
