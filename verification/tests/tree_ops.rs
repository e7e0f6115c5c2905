use base_tree::Node;
use base_tree::Tree;

/// Builds the tree the library is meant for:
/// ```text
///       2
///     /   \
///    0     3
///   / \   / \
///  -   1 -   4
/// ```
/// Returns the arena and the five handles.
fn five_nodes() -> (Tree<String>, [usize; 5]) {
    let mut tree: Tree<String> = Tree::new();
    let n0: usize = tree.insert(Node::new(String::from("0")));
    let n1: usize = tree.insert(Node::new(String::from("1")));
    let n2: usize = tree.insert(Node::new(String::from("2")));
    let n3: usize = tree.insert(Node::new(String::from("3")));
    let n4: usize = tree.insert(Node::new(String::from("4")));

    tree.replace_right(n0, Some(n1));
    tree.replace_right(n3, Some(n4));
    tree.replace_left(n2, Some(n0));
    tree.replace_right(n2, Some(n3));

    (tree, [n0, n1, n2, n3, n4])
}

#[test]
fn creation() {
    let (tree, handles) = five_nodes();
    let node0 = tree.node(handles[2]).left();
    assert_eq!(node0.map(|n| tree.node(n).get()), Some(&String::from("0")));
}

#[test]
fn walk_around() {
    let (mut tree, handles) = five_nodes();

    let Some(node0) = tree.node(handles[2]).left() else {
        panic!("Expected node 0 to be present")
    };
    assert_eq!(tree.node(node0).get(), "0");
    *tree.get_mut(node0) = "10".into();
    let None = tree.node(node0).left() else {
        panic!("Expected nothing to the left of node 0")
    };
    let Some(node1) = tree.node(node0).right() else {
        panic!("Expected node 1 to be present")
    };
    assert_eq!(tree.node(node1).get(), "1");
    let Some(node10) = tree.node(node1).parent() else {
        panic!("Expected node 1 to have a parent")
    };
    assert_eq!(tree.node(node10).get(), "10");
    let Some(last) = tree
        .node(node10)
        .parent()
        .and_then(|p| tree.node(p).right())
        .and_then(|r| tree.node(r).right()) else {
        panic!("Expected to be able to walk to node 4")
    };
    assert_eq!(tree.node(last).get(), "4");
}

#[test]
fn new_node_is_detached() {
    let node: Node<u32> = Node::new(7);
    assert_eq!(*node.get(), 7);
    assert_eq!(node.left(), None);
    assert_eq!(node.right(), None);
    assert_eq!(node.parent(), None);
}

#[test]
fn node_payload_is_writable() {
    let mut node: Node<u32> = Node::new(7);
    *node.get_mut() = 9;
    assert_eq!(*node.get(), 9);
    assert_eq!(node.left(), None);
    assert_eq!(node.right(), None);
    assert_eq!(node.parent(), None);
}

#[test]
fn insert_returns_sequential_handles() {
    let mut tree: Tree<u32> = Tree::new();
    assert_eq!(tree.len(), 0);
    let a: usize = tree.insert(Node::new(10));
    let b: usize = tree.insert(Node::new(20));
    assert_eq!(a, 0);
    assert_eq!(b, 1);
    assert_eq!(tree.len(), 2);
    assert_eq!(*tree.node(a).get(), 10);
    assert_eq!(*tree.node(b).get(), 20);
}

#[test]
fn replace_on_empty_slot_returns_none() {
    let mut tree: Tree<u32> = Tree::new();
    let a: usize = tree.insert(Node::new(1));
    let b: usize = tree.insert(Node::new(2));
    assert_eq!(tree.replace_left(a, Some(b)), None);
    assert_eq!(tree.node(a).left(), Some(b));
    assert_eq!(tree.node(b).parent(), Some(a));
    assert_eq!(tree.replace_left(a, None), Some(b));
    assert_eq!(tree.replace_left(a, None), None);
    assert_eq!(tree.replace_right(a, None), None);
}

#[test]
fn detach_left_child() {
    let mut tree: Tree<u32> = Tree::new();
    let parent: usize = tree.insert(Node::new(1));
    let child: usize = tree.insert(Node::new(2));
    tree.replace_left(parent, Some(child));

    let detached = tree.replace_left(parent, None);
    assert_eq!(detached, Some(child));
    assert_eq!(tree.node(parent).left(), None);
    assert_eq!(tree.node(child).parent(), None);
}

#[test]
fn swap_right_child() {
    let mut tree: Tree<u32> = Tree::new();
    let node: usize = tree.insert(Node::new(1));
    let c: usize = tree.insert(Node::new(2));
    let d: usize = tree.insert(Node::new(3));
    tree.replace_right(node, Some(c));

    let swapped = tree.replace_right(node, Some(d));
    assert_eq!(swapped, Some(c));
    assert_eq!(tree.node(c).parent(), None);
    assert_eq!(tree.node(d).parent(), Some(node));
    assert_eq!(tree.node(node).right(), Some(d));
}

#[test]
fn split_detaches_both_children() {
    let mut tree: Tree<u32> = Tree::new();
    let n: usize = tree.insert(Node::new(1));
    let l: usize = tree.insert(Node::new(2));
    let r: usize = tree.insert(Node::new(3));
    tree.replace_left(n, Some(l));
    tree.replace_right(n, Some(r));

    let (left, middle, right) = tree.split_mut(n);
    assert_eq!(left, Some(l));
    assert_eq!(middle, n);
    assert_eq!(right, Some(r));
    assert_eq!(tree.node(n).left(), None);
    assert_eq!(tree.node(n).right(), None);
    assert_eq!(tree.node(l).parent(), None);
    assert_eq!(tree.node(r).parent(), None);

    // The three parts can be mutated independently of one another.
    *tree.get_mut(l) = 20;
    *tree.get_mut(r) = 30;
    *tree.get_mut(n) = 10;
    assert_eq!(*tree.node(l).get(), 20);
    assert_eq!(*tree.node(n).get(), 10);
    assert_eq!(*tree.node(r).get(), 30);
}

#[test]
fn split_without_children() {
    let mut tree: Tree<u32> = Tree::new();
    let n: usize = tree.insert(Node::new(1));
    let (left, middle, right) = tree.split_mut(n);
    assert_eq!(left, None);
    assert_eq!(middle, n);
    assert_eq!(right, None);
    assert_eq!(tree.node(n).parent(), None);
}

#[test]
fn round_trip_navigation() {
    let (tree, handles) = five_nodes();
    let [n0, n1, n2, n3, n4] = handles;

    // Down from the root.
    assert_eq!(tree.node(n2).left(), Some(n0));
    assert_eq!(tree.node(n2).right(), Some(n3));
    assert_eq!(tree.node(n0).right(), Some(n1));
    assert_eq!(tree.node(n3).right(), Some(n4));
    assert_eq!(tree.node(n0).left(), None);
    assert_eq!(tree.node(n3).left(), None);
    assert_eq!(tree.node(n1).left(), None);
    assert_eq!(tree.node(n1).right(), None);
    assert_eq!(tree.node(n4).left(), None);
    assert_eq!(tree.node(n4).right(), None);

    // Up from each leaf back to the root.
    assert_eq!(tree.node(n1).parent(), Some(n0));
    assert_eq!(tree.node(n0).parent(), Some(n2));
    assert_eq!(tree.node(n4).parent(), Some(n3));
    assert_eq!(tree.node(n3).parent(), Some(n2));
    assert_eq!(tree.node(n2).parent(), None);
}

#[test]
fn symmetry_after_mutations() {
    let (mut tree, handles) = five_nodes();
    let [n0, _n1, n2, n3, _n4] = handles;

    // Re-link a few times, then check every pair of mirrored links.
    tree.replace_right(n3, None);
    tree.replace_left(n2, None);
    tree.replace_right(n2, None);
    tree.replace_left(n2, Some(n3));
    tree.replace_right(n2, Some(n0));

    for i in 0..tree.len() {
        if let Some(l) = tree.node(i).left() {
            assert_eq!(tree.node(l).parent(), Some(i));
        }
        if let Some(r) = tree.node(i).right() {
            assert_eq!(tree.node(r).parent(), Some(i));
        }
        if let Some(p) = tree.node(i).parent() {
            let points_back =
                tree.node(p).left() == Some(i) || tree.node(p).right() == Some(i);
            assert!(points_back);
        }
    }
}

#[test]
fn neighbor_payload_mut() {
    let mut tree: Tree<u32> = Tree::new();
    let a: usize = tree.insert(Node::new(1));
    let b: usize = tree.insert(Node::new(2));
    let c: usize = tree.insert(Node::new(3));
    tree.replace_left(a, Some(b));
    tree.replace_right(a, Some(c));

    if let Some(v) = tree.left_mut(a) {
        *v = 20;
    }
    if let Some(v) = tree.right_mut(a) {
        *v = 30;
    }
    if let Some(v) = tree.parent_mut(b) {
        *v = 10;
    }
    assert_eq!(*tree.node(a).get(), 10);
    assert_eq!(*tree.node(b).get(), 20);
    assert_eq!(*tree.node(c).get(), 30);
    assert!(tree.left_mut(b).is_none());
    assert!(tree.right_mut(b).is_none());
    assert!(tree.parent_mut(a).is_none());
}
