//! A binary-tree node primitive with parent back-links.
//!
//! Every node holds a payload and three optional neighbor links: left
//! child, right child and parent. The nodes live in an arena ([`Tree`])
//! and name one another by handle, so a caller can walk a tree in every
//! direction — down to a child or up to the parent — while the arena
//! alone owns the nodes. Every operation that touches a link restores the
//! mirror of that link before it returns, and carries a proof that it
//! does.

use vstd::prelude::*;

verus! {

/// One vertex of a binary tree: a payload together with three optional
/// neighbor links (left child, right child, parent).
///
/// A link is a handle: the index of the neighbor inside the [`Tree`] arena
/// that owns every node of the structure. Keeping links as handles lets a
/// caller walk both down (to the children) and up (to the parent) while the
/// arena alone holds ownership, so no two owners ever alias one node.
///
/// A node starts out detached. It becomes linked only through
/// [`Tree::replace_left`] and [`Tree::replace_right`], which establish a
/// link and its mirror together, and it is unlinked either by being replaced
/// or by [`Tree::split_mut`], which restore the mirror of every link they
/// touch before returning.
pub struct Node<T> {
    value: T,
    left: Option<usize>,
    right: Option<usize>,
    parent: Option<usize>,
}

impl<T> Node<T> {
    /// The payload, for specifications.
    pub closed spec fn val(&self) -> T {
        self.value
    }

    /// The left-child link, for specifications.
    pub closed spec fn left_link(&self) -> Option<usize> {
        self.left
    }

    /// The right-child link, for specifications.
    pub closed spec fn right_link(&self) -> Option<usize> {
        self.right
    }

    /// The parent link, for specifications.
    pub closed spec fn parent_link(&self) -> Option<usize> {
        self.parent
    }

    /// The child link of the chosen side.
    pub open spec fn child_link(&self, left_side: bool) -> Option<usize> {
        if left_side {
            self.left_link()
        } else {
            self.right_link()
        }
    }

    /// A node with no neighbors in any direction.
    pub open spec fn detached(&self) -> bool {
        &&& self.left_link() is None
        &&& self.right_link() is None
        &&& self.parent_link() is None
    }

    /// The two nodes agree on payload and child links; only the parent
    /// link may differ.
    pub open spec fn same_but_parent(&self, other: Node<T>) -> bool {
        &&& self.val() == other.val()
        &&& self.left_link() == other.left_link()
        &&& self.right_link() == other.right_link()
    }

    /// Returns a detached node holding `value`.
    pub fn new(value: T) -> (node: Node<T>)
        ensures
            node.val() == value,
            node.detached(),
    {
        Node { value, left: None, right: None, parent: None }
    }

    /// Read-only access to the payload.
    pub fn get(&self) -> (value: &T)
        ensures
            *value == self.val(),
    {
        &self.value
    }

    /// Exclusive access to the payload; the links are untouched.
    pub fn get_mut(&mut self) -> (value: &mut T)
        ensures
            *value == old(self).val(),
            final(self).val() == *final(value),
            final(self).left_link() == old(self).left_link(),
            final(self).right_link() == old(self).right_link(),
            final(self).parent_link() == old(self).parent_link(),
    {
        &mut self.value
    }

    /// The handle of the left child, if any.
    pub fn left(&self) -> (link: Option<usize>)
        ensures
            link == self.left_link(),
    {
        self.left
    }

    /// The handle of the right child, if any.
    pub fn right(&self) -> (link: Option<usize>)
        ensures
            link == self.right_link(),
    {
        self.right
    }

    /// The handle of the parent, if any.
    pub fn parent(&self) -> (link: Option<usize>)
        ensures
            link == self.parent_link(),
    {
        self.parent
    }
}

/// The arena that owns every node of one or more binary trees.
///
/// Nodes are addressed by the handle that [`Tree::insert`] returned for
/// them; handles stay valid for the life of the arena. The arena maintains
/// the symmetry invariant [`Tree::wf`]: whenever a child link exists, the
/// mirroring parent link exists, and the other way round.
pub struct Tree<T> {
    nodes: Vec<Node<T>>,
}

impl<T> View for Tree<T> {
    type V = Seq<Node<T>>;

    closed spec fn view(&self) -> Seq<Node<T>> {
        self.nodes@
    }
}

impl<T> Tree<T> {
    /// Every link of the node at `i` stays inside the arena, is mirrored by
    /// the neighbor it names, and never names `i` itself; the two children,
    /// when present, are distinct.
    pub open spec fn wf_at(&self, i: int) -> bool {
        let n = self@[i];
        &&& (n.left_link() matches Some(l) ==> l as int != i && (l as int) < self@.len()
            && self@[l as int].parent_link() == Some(i as usize))
        &&& (n.right_link() matches Some(r) ==> r as int != i && (r as int) < self@.len()
            && self@[r as int].parent_link() == Some(i as usize))
        &&& (n.left_link() is Some ==> n.left_link() != n.right_link())
        &&& (n.parent_link() matches Some(p) ==> (p as int) < self@.len()
            && (self@[p as int].left_link() == Some(i as usize)
                || self@[p as int].right_link() == Some(i as usize)))
    }

    /// The symmetry invariant: every link in the arena is mirrored.
    pub open spec fn wf(&self) -> bool {
        forall|i: int| 0 <= i < self@.len() ==> #[trigger] self.wf_at(i)
    }

    /// Returns an empty arena.
    pub fn new() -> (tree: Tree<T>)
        ensures
            tree@.len() == 0,
            tree.wf(),
    {
        Tree { nodes: Vec::new() }
    }

    /// How many nodes the arena owns.
    pub fn len(&self) -> (n: usize)
        ensures
            n == self@.len(),
    {
        self.nodes.len()
    }

    /// Moves a detached node into the arena and returns its handle.
    pub fn insert(&mut self, node: Node<T>) -> (handle: usize)
        requires
            old(self).wf(),
            node.detached(),
        ensures
            final(self).wf(),
            handle as int == old(self)@.len(),
            final(self)@ == old(self)@.push(node),
    {
        let handle: usize = self.nodes.len();
        self.nodes.push(node);
        proof {
            assert forall|i: int| 0 <= i < self@.len() implies self.wf_at(i) by {
                if i < old(self)@.len() {
                    assert(old(self).wf_at(i));
                }
            }
        }
        handle
    }

    /// Exclusive access to the payload of the node at `at`. Only that
    /// payload can change through the returned reference: every link in the
    /// arena, and every other node, stays as it was, so the invariant is
    /// kept.
    pub fn get_mut(&mut self, at: usize) -> (value: &mut T)
        requires
            (at as int) < old(self)@.len(),
        ensures
            *value == old(self)@[at as int].val(),
            final(self)@.len() == old(self)@.len(),
            final(self)@[at as int].val() == *final(value),
            final(self)@[at as int].left_link() == old(self)@[at as int].left_link(),
            final(self)@[at as int].right_link() == old(self)@[at as int].right_link(),
            final(self)@[at as int].parent_link() == old(self)@[at as int].parent_link(),
            forall|j: int|
                0 <= j < old(self)@.len() && j != at as int ==> final(self)@[j] == old(self)@[j],
            forall|i: int|
                0 <= i < old(self)@.len() && old(self).wf_at(i)
                    ==> #[trigger] final(self).wf_at(i),
    {
        &mut self.nodes[at].value
    }

    /// Replaces one child slot of the node at `at`: the old occupant, if
    /// any, is fully detached (its parent link cleared) and returned; the
    /// new child, if given, gets `at` as its parent and fills the slot.
    fn replace_child(&mut self, at: usize, left_side: bool, new_child: Option<usize>) -> (prev:
        Option<usize>)
        requires
            old(self).wf(),
            (at as int) < old(self)@.len(),
            new_child matches Some(c) ==> (c as int) < old(self)@.len() && c != at && old(self)@[c as int].parent_link() is None,
        ensures
            final(self).wf(),
            final(self)@.len() == old(self)@.len(),
            prev == old(self)@[at as int].child_link(left_side),
            final(self)@[at as int].child_link(left_side) == new_child,
            final(self)@[at as int].child_link(!left_side) == old(self)@[at as int].child_link(!left_side),
            final(self)@[at as int].parent_link() == old(self)@[at as int].parent_link(),
            final(self)@[at as int].val() == old(self)@[at as int].val(),
            prev matches Some(p) ==> (p as int) < old(self)@.len() && p != at && final(self)@[p as int].parent_link() is None && final(self)@[p as int].same_but_parent(old(self)@[p as int]),
            new_child matches Some(c) ==> final(self)@[c as int].parent_link() == Some(at) && final(self)@[c as int].same_but_parent(old(self)@[c as int]),
            forall|j: int|
                0 <= j < old(self)@.len() && j != at as int && (prev matches Some(p) ==> j
                    != p as int) && (new_child matches Some(c) ==> j != c as int) ==> final(self)@[j] == old(self)@[j],
    {
        proof {
            assert(old(self).wf_at(at as int));
        }
        let prev: Option<usize> = if left_side {
            self.nodes[at].left
        } else {
            self.nodes[at].right
        };
        if let Some(p) = prev {
            self.nodes[p].parent = None;
        }
        let ghost s1 = self@;
        if let Some(c) = new_child {
            self.nodes[c].parent = Some(at);
        }
        let ghost s2 = self@;
        if left_side {
            self.nodes[at].left = new_child;
        } else {
            self.nodes[at].right = new_child;
        }
        proof {
            assert(self.nodes.len() == self@.len());
            assert(self@.len() <= usize::MAX);
            assert(s1.len() == old(self)@.len());
            assert(forall|j: int|
                0 <= j < s1.len() && (prev is Some ==> j != prev->Some_0 as int) ==> s1[j]
                    == old(self)@[j]);
            assert(prev is Some ==> s1[prev->Some_0 as int].parent_link() is None
                && s1[prev->Some_0 as int].same_but_parent(old(self)@[prev->Some_0 as int]));
            assert(s2.len() == s1.len());
            assert(forall|j: int|
                0 <= j < s2.len() && (new_child is Some ==> j != new_child->Some_0 as int)
                    ==> s2[j] == s1[j]);
            assert(new_child is Some ==> s2[new_child->Some_0 as int].parent_link() == Some(at)
                && s2[new_child->Some_0 as int].same_but_parent(s1[new_child->Some_0 as int]));
            assert(self@.len() == s2.len());
            assert(forall|j: int| 0 <= j < s2.len() && j != at as int ==> self@[j] == s2[j]);
            assert(self@[at as int].child_link(left_side) == new_child);
            assert(self@[at as int].child_link(!left_side) == s2[at as int].child_link(
                !left_side,
            ));
            assert(self@[at as int].parent_link() == s2[at as int].parent_link());
            assert(self@[at as int].val() == s2[at as int].val());
            assert(forall|j: int|
                0 <= j < old(self)@.len() && j != at as int ==> (#[trigger] self@[j]).same_but_parent(
                    old(self)@[j],
                ));
            assert(forall|j: int|
                0 <= j < old(self)@.len() && (prev is Some ==> j != prev->Some_0 as int)
                    && (new_child is Some ==> j != new_child->Some_0 as int) ==> (
                #[trigger] self@[j]).parent_link() == old(self)@[j].parent_link());
            assert forall|i: int| 0 <= i < self@.len() implies self.wf_at(i) by {
                assert(old(self).wf_at(i));
                assert(old(self).wf_at(at as int));
                if prev is Some {
                    assert(old(self).wf_at(prev->Some_0 as int));
                }
                if new_child is Some {
                    assert(old(self).wf_at(new_child->Some_0 as int));
                }
                let n = self@[i];
                // the left-child mirror
                if n.left_link() is Some {
                    let l: int = n.left_link()->Some_0 as int;
                    if i == at as int && left_side {
                        assert(n.left_link() == new_child);
                        assert(self@[l].parent_link() == Some(at));
                    } else {
                        assert(n.left_link() == old(self)@[i].left_link());
                        assert(old(self)@[l].parent_link() == Some(i as usize));
                        assert(prev is Some ==> l != prev->Some_0 as int);
                        assert(new_child is Some ==> l != new_child->Some_0 as int);
                        assert(self@[l].parent_link() == old(self)@[l].parent_link());
                    }
                }
                // the right-child mirror
                if n.right_link() is Some {
                    let r: int = n.right_link()->Some_0 as int;
                    if i == at as int && !left_side {
                        assert(n.right_link() == new_child);
                        assert(self@[r].parent_link() == Some(at));
                    } else {
                        assert(n.right_link() == old(self)@[i].right_link());
                        assert(old(self)@[r].parent_link() == Some(i as usize));
                        assert(prev is Some ==> r != prev->Some_0 as int);
                        assert(new_child is Some ==> r != new_child->Some_0 as int);
                        assert(self@[r].parent_link() == old(self)@[r].parent_link());
                    }
                }
                // the two children stay distinct
                if i == at as int && n.left_link() is Some && n.left_link() == n.right_link() {
                    if left_side {
                        assert(old(self)@[i].right_link() == new_child);
                    } else {
                        assert(old(self)@[i].left_link() == new_child);
                    }
                    assert(false);
                }
                // the parent mirror
                if n.parent_link() is Some {
                    let q: int = n.parent_link()->Some_0 as int;
                    if prev is Some && i == prev->Some_0 as int {
                        assert(self@[i].parent_link() is None);
                        assert(false);
                    } else if new_child is Some && i == new_child->Some_0 as int {
                        assert(q == at as int);
                        assert(self@[at as int].child_link(left_side) == new_child);
                    } else {
                        assert(n.parent_link() == old(self)@[i].parent_link());
                        assert(old(self).wf_at(q));
                        if q == at as int {
                            assert(old(self)@[at as int].child_link(left_side) == prev);
                            assert(old(self)@[at as int].child_link(!left_side) == Some(
                                i as usize,
                            ));
                            assert(self@[at as int].child_link(!left_side) == Some(i as usize));
                        } else {
                            assert(self@[q].same_but_parent(old(self)@[q]));
                        }
                    }
                }
            }
        }
        prev
    }

    /// Replaces the left child of the node at `at`.
    ///
    /// The node previously in the slot, if any, is fully detached — its
    /// parent link is cleared — and its handle is returned, so the caller
    /// can re-link it elsewhere or leave it be. If `new_child` is given, it
    /// must be a root (no parent yet): its parent link is set to `at` and
    /// the slot is set to it, so the link and its mirror appear together.
    pub fn replace_left(&mut self, at: usize, new_child: Option<usize>) -> (prev: Option<usize>)
        requires
            old(self).wf(),
            (at as int) < old(self)@.len(),
            new_child matches Some(c) ==> (c as int) < old(self)@.len() && c != at && old(self)@[c as int].parent_link() is None,
        ensures
            final(self).wf(),
            final(self)@.len() == old(self)@.len(),
            prev == old(self)@[at as int].left_link(),
            final(self)@[at as int].left_link() == new_child,
            final(self)@[at as int].right_link() == old(self)@[at as int].right_link(),
            final(self)@[at as int].parent_link() == old(self)@[at as int].parent_link(),
            final(self)@[at as int].val() == old(self)@[at as int].val(),
            prev matches Some(p) ==> (p as int) < old(self)@.len() && p != at && final(self)@[p as int].parent_link() is None && final(self)@[p as int].same_but_parent(old(self)@[p as int]),
            new_child matches Some(c) ==> final(self)@[c as int].parent_link() == Some(at) && final(self)@[c as int].same_but_parent(old(self)@[c as int]),
            forall|j: int|
                0 <= j < old(self)@.len() && j != at as int && (prev matches Some(p) ==> j
                    != p as int) && (new_child matches Some(c) ==> j != c as int) ==> final(self)@[j] == old(self)@[j],
    {
        self.replace_child(at, true, new_child)
    }

    /// Replaces the right child of the node at `at`; the mirror image of
    /// [`Tree::replace_left`].
    pub fn replace_right(&mut self, at: usize, new_child: Option<usize>) -> (prev: Option<usize>)
        requires
            old(self).wf(),
            (at as int) < old(self)@.len(),
            new_child matches Some(c) ==> (c as int) < old(self)@.len() && c != at && old(self)@[c as int].parent_link() is None,
        ensures
            final(self).wf(),
            final(self)@.len() == old(self)@.len(),
            prev == old(self)@[at as int].right_link(),
            final(self)@[at as int].right_link() == new_child,
            final(self)@[at as int].left_link() == old(self)@[at as int].left_link(),
            final(self)@[at as int].parent_link() == old(self)@[at as int].parent_link(),
            final(self)@[at as int].val() == old(self)@[at as int].val(),
            prev matches Some(p) ==> (p as int) < old(self)@.len() && p != at && final(self)@[p as int].parent_link() is None && final(self)@[p as int].same_but_parent(old(self)@[p as int]),
            new_child matches Some(c) ==> final(self)@[c as int].parent_link() == Some(at) && final(self)@[c as int].same_but_parent(old(self)@[c as int]),
            forall|j: int|
                0 <= j < old(self)@.len() && j != at as int && (prev matches Some(p) ==> j
                    != p as int) && (new_child matches Some(c) ==> j != c as int) ==> final(self)@[j] == old(self)@[j],
    {
        self.replace_child(at, false, new_child)
    }

    /// Detaches both children of the node at `at` in one step: each
    /// present child's parent link is cleared and the node's own child
    /// links are emptied, so the left subtree, the node itself and the
    /// right subtree no longer reach one another. The triple of their
    /// handles is returned; afterwards each part can be mutated without
    /// the others observing a change.
    pub fn split_mut(&mut self, at: usize) -> (parts: (Option<usize>, usize, Option<usize>))
        requires
            old(self).wf(),
            (at as int) < old(self)@.len(),
        ensures
            final(self).wf(),
            final(self)@.len() == old(self)@.len(),
            parts.1 == at,
            parts.0 == old(self)@[at as int].left_link(),
            parts.2 == old(self)@[at as int].right_link(),
            final(self)@[at as int].left_link() is None,
            final(self)@[at as int].right_link() is None,
            final(self)@[at as int].parent_link() == old(self)@[at as int].parent_link(),
            final(self)@[at as int].val() == old(self)@[at as int].val(),
            parts.0 matches Some(l) ==> (l as int) < old(self)@.len() && l != at && final(self)@[l as int].parent_link() is None && final(self)@[l as int].same_but_parent(
                old(self)@[l as int],
            ),
            parts.2 matches Some(r) ==> (r as int) < old(self)@.len() && r != at && final(self)@[r as int].parent_link() is None && final(self)@[r as int].same_but_parent(
                old(self)@[r as int],
            ),
            parts.0 matches Some(l) ==> (parts.2 matches Some(r) ==> l != r),
            forall|j: int|
                0 <= j < old(self)@.len() && j != at as int && (parts.0 matches Some(l) ==> j
                    != l as int) && (parts.2 matches Some(r) ==> j != r as int) ==> final(self)@[j]
                    == old(self)@[j],
    {
        proof {
            assert(old(self).wf_at(at as int));
            assert(self.nodes.len() == self@.len());
            assert(self@.len() <= usize::MAX);
        }
        let left: Option<usize> = self.nodes[at].left;
        let right: Option<usize> = self.nodes[at].right;
        if let Some(l) = left {
            self.nodes[l].parent = None;
        }
        let ghost s1 = self@;
        if let Some(r) = right {
            self.nodes[r].parent = None;
        }
        let ghost s2 = self@;
        self.nodes[at].left = None;
        self.nodes[at].right = None;
        proof {
            assert(s1.len() == old(self)@.len());
            assert(forall|j: int|
                0 <= j < s1.len() && (left is Some ==> j != left->Some_0 as int) ==> s1[j] == old(self)@[j]);
            assert(left is Some ==> s1[left->Some_0 as int].parent_link() is None
                && s1[left->Some_0 as int].same_but_parent(old(self)@[left->Some_0 as int]));
            assert(s2.len() == s1.len());
            assert(forall|j: int|
                0 <= j < s2.len() && (right is Some ==> j != right->Some_0 as int) ==> s2[j]
                    == s1[j]);
            assert(right is Some ==> s2[right->Some_0 as int].parent_link() is None
                && s2[right->Some_0 as int].same_but_parent(s1[right->Some_0 as int]));
            assert(self@.len() == s2.len());
            assert(forall|j: int| 0 <= j < s2.len() && j != at as int ==> self@[j] == s2[j]);
            assert(self@[at as int].left_link() is None);
            assert(self@[at as int].right_link() is None);
            assert(self@[at as int].parent_link() == s2[at as int].parent_link());
            assert(self@[at as int].val() == s2[at as int].val());
            assert(left is Some ==> self@[left->Some_0 as int].parent_link() is None);
            assert(right is Some ==> self@[right->Some_0 as int].parent_link() is None);
            assert(forall|j: int|
                0 <= j < old(self)@.len() && j != at as int ==> (#[trigger] self@[j]).same_but_parent(
                    old(self)@[j],
                ));
            assert(forall|j: int|
                0 <= j < old(self)@.len() && (left is Some ==> j != left->Some_0 as int) && (
                right is Some ==> j != right->Some_0 as int) ==> (#[trigger] self@[j]).parent_link()
                    == old(self)@[j].parent_link());
            assert forall|i: int| 0 <= i < self@.len() implies self.wf_at(i) by {
                assert(old(self).wf_at(i));
                assert(old(self).wf_at(at as int));
                if left is Some {
                    assert(old(self).wf_at(left->Some_0 as int));
                }
                if right is Some {
                    assert(old(self).wf_at(right->Some_0 as int));
                }
                let n = self@[i];
                // the left-child mirror
                if n.left_link() is Some {
                    let x: int = n.left_link()->Some_0 as int;
                    assert(i != at as int);
                    assert(n.left_link() == old(self)@[i].left_link());
                    assert(old(self)@[x].parent_link() == Some(i as usize));
                    assert(left is Some ==> x != left->Some_0 as int);
                    assert(right is Some ==> x != right->Some_0 as int);
                    assert(self@[x].parent_link() == old(self)@[x].parent_link());
                }
                // the right-child mirror
                if n.right_link() is Some {
                    let x: int = n.right_link()->Some_0 as int;
                    assert(i != at as int);
                    assert(n.right_link() == old(self)@[i].right_link());
                    assert(old(self)@[x].parent_link() == Some(i as usize));
                    assert(left is Some ==> x != left->Some_0 as int);
                    assert(right is Some ==> x != right->Some_0 as int);
                    assert(self@[x].parent_link() == old(self)@[x].parent_link());
                }
                // the parent mirror
                if n.parent_link() is Some {
                    let q: int = n.parent_link()->Some_0 as int;
                    assert(left is Some ==> i != left->Some_0 as int);
                    assert(right is Some ==> i != right->Some_0 as int);
                    assert(n.parent_link() == old(self)@[i].parent_link());
                    assert(old(self).wf_at(q));
                    if q == at as int {
                        assert(old(self)@[at as int].left_link() == left);
                        assert(old(self)@[at as int].right_link() == right);
                        assert(false);
                    } else {
                        assert(self@[q].same_but_parent(old(self)@[q]));
                    }
                }
            }
        }
        (left, at, right)
    }

    /// Exclusive access to the payload of the left child of the node at
    /// `at`, if it has one. Only that payload can change through the
    /// returned reference; every link stays as it was.
    pub fn left_mut(&mut self, at: usize) -> (value: Option<&mut T>)
        requires
            old(self).wf(),
            (at as int) < old(self)@.len(),
        ensures
            value is Some <==> old(self)@[at as int].left_link() is Some,
            old(self)@[at as int].left_link() is None ==> *final(self) == *old(self),
            final(self)@.len() == old(self)@.len(),
            old(self)@[at as int].left_link() matches Some(c) ==> (value matches Some(v) && *v
                == old(self)@[c as int].val() && final(self)@[c as int].val() == *final(v)
                && final(self)@[c as int].left_link() == old(self)@[c as int].left_link()
                && final(self)@[c as int].right_link() == old(self)@[c as int].right_link()
                && final(self)@[c as int].parent_link() == old(self)@[c as int].parent_link()),
            old(self)@[at as int].left_link() matches Some(c) ==> (forall|j: int|
                0 <= j < old(self)@.len() && j != c as int ==> final(self)@[j] == old(self)@[j]),
            forall|i: int|
                0 <= i < old(self)@.len() && old(self).wf_at(i)
                    ==> #[trigger] final(self).wf_at(i),
    {
        proof {
            assert(old(self).wf_at(at as int));
        }
        let link: Option<usize> = self.nodes[at].left;
        match link {
            Some(c) => Some(&mut self.nodes[c].value),
            None => None,
        }
    }

    /// Exclusive access to the payload of the right child of the node at
    /// `at`, if it has one. Only that payload can change through the
    /// returned reference; every link stays as it was.
    pub fn right_mut(&mut self, at: usize) -> (value: Option<&mut T>)
        requires
            old(self).wf(),
            (at as int) < old(self)@.len(),
        ensures
            value is Some <==> old(self)@[at as int].right_link() is Some,
            old(self)@[at as int].right_link() is None ==> *final(self) == *old(self),
            final(self)@.len() == old(self)@.len(),
            old(self)@[at as int].right_link() matches Some(c) ==> (value matches Some(v) && *v
                == old(self)@[c as int].val() && final(self)@[c as int].val() == *final(v)
                && final(self)@[c as int].left_link() == old(self)@[c as int].left_link()
                && final(self)@[c as int].right_link() == old(self)@[c as int].right_link()
                && final(self)@[c as int].parent_link() == old(self)@[c as int].parent_link()),
            old(self)@[at as int].right_link() matches Some(c) ==> (forall|j: int|
                0 <= j < old(self)@.len() && j != c as int ==> final(self)@[j] == old(self)@[j]),
            forall|i: int|
                0 <= i < old(self)@.len() && old(self).wf_at(i)
                    ==> #[trigger] final(self).wf_at(i),
    {
        proof {
            assert(old(self).wf_at(at as int));
        }
        let link: Option<usize> = self.nodes[at].right;
        match link {
            Some(c) => Some(&mut self.nodes[c].value),
            None => None,
        }
    }

    /// Exclusive access to the payload of the parent of the node at
    /// `at`, if it has one. Only that payload can change through the
    /// returned reference; every link stays as it was.
    pub fn parent_mut(&mut self, at: usize) -> (value: Option<&mut T>)
        requires
            old(self).wf(),
            (at as int) < old(self)@.len(),
        ensures
            value is Some <==> old(self)@[at as int].parent_link() is Some,
            old(self)@[at as int].parent_link() is None ==> *final(self) == *old(self),
            final(self)@.len() == old(self)@.len(),
            old(self)@[at as int].parent_link() matches Some(c) ==> (value matches Some(v) && *v
                == old(self)@[c as int].val() && final(self)@[c as int].val() == *final(v)
                && final(self)@[c as int].left_link() == old(self)@[c as int].left_link()
                && final(self)@[c as int].right_link() == old(self)@[c as int].right_link()
                && final(self)@[c as int].parent_link() == old(self)@[c as int].parent_link()),
            old(self)@[at as int].parent_link() matches Some(c) ==> (forall|j: int|
                0 <= j < old(self)@.len() && j != c as int ==> final(self)@[j] == old(self)@[j]),
            forall|i: int|
                0 <= i < old(self)@.len() && old(self).wf_at(i)
                    ==> #[trigger] final(self).wf_at(i),
    {
        proof {
            assert(old(self).wf_at(at as int));
        }
        let link: Option<usize> = self.nodes[at].parent;
        match link {
            Some(c) => Some(&mut self.nodes[c].value),
            None => None,
        }
    }

    /// The symmetry law, read downward: whenever a node's left or right
    /// link names a child, the child's parent link names that node back.
    pub proof fn lemma_child_parent_symmetry(&self, p: int, c: usize)
        requires
            self.wf(),
            0 <= p < self@.len(),
            self@[p].left_link() == Some(c) || self@[p].right_link() == Some(c),
        ensures
            (c as int) < self@.len(),
            self@[c as int].parent_link() == Some(p as usize),
    {
        assert(self.nodes.len() == self@.len());
        assert(self.wf_at(p));
    }

    /// The symmetry law, read upward: whenever a node's parent link names
    /// a node, that node's left or right link names it back.
    pub proof fn lemma_parent_child_symmetry(&self, c: int, p: usize)
        requires
            self.wf(),
            0 <= c < self@.len(),
            self@[c].parent_link() == Some(p),
        ensures
            (p as int) < self@.len(),
            self@[p as int].left_link() == Some(c as usize) || self@[p as int].right_link()
                == Some(c as usize),
    {
        assert(self.nodes.len() == self@.len());
        assert(self.wf_at(c));
    }

    /// Shared access to the node at `at`, for reading its payload and links.
    pub fn node(&self, at: usize) -> (node: &Node<T>)
        requires
            (at as int) < self@.len(),
        ensures
            *node == self@[at as int],
    {
        &self.nodes[at]
    }
}

} // verus!
