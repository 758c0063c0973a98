//! The in-memory hierarchical filesystem: a tree of named nodes, a
//! current directory, and the operations the shell and the syscall
//! surface use. Each directory keeps its children sorted by name.

use vstd::prelude::*;
use crate::text::str_eq;

verus! {

broadcast use vstd::std_specs::vec::group_vec_axioms;

/// Lexicographic "strictly less" on names, compared from position `i`.
pub open spec fn spec_lex_lt_from(a: Seq<char>, b: Seq<char>, i: int) -> bool
    decreases a.len() - i,
{
    if i < 0 || i >= a.len() {
        i < b.len()
    } else if i >= b.len() {
        false
    } else if a[i] != b[i] {
        (a[i] as int) < (b[i] as int)
    } else {
        spec_lex_lt_from(a, b, i + 1)
    }
}

/// Lexicographic "strictly less" on names.
pub open spec fn spec_lex_lt(a: Seq<char>, b: Seq<char>) -> bool {
    spec_lex_lt_from(a, b, 0)
}

/// The name order is total: two distinct names compare one way or the
/// other.
pub proof fn lemma_lex_total_from(a: Seq<char>, b: Seq<char>, i: int)
    requires
        0 <= i,
    ensures
        !spec_lex_lt_from(a, b, i) && !spec_lex_lt_from(b, a, i) && i <= a.len() && i <= b.len()
            ==> a.subrange(i, a.len() as int) == b.subrange(i, b.len() as int),
    decreases a.len() - i,
{
    if i < a.len() && i < b.len() && a[i] == b[i] {
        lemma_lex_total_from(a, b, i + 1);
        if !spec_lex_lt_from(a, b, i) && !spec_lex_lt_from(b, a, i) {
            assert(a.subrange(i, a.len() as int) =~= seq![a[i]] + a.subrange(
                i + 1,
                a.len() as int,
            ));
            assert(b.subrange(i, b.len() as int) =~= seq![b[i]] + b.subrange(
                i + 1,
                b.len() as int,
            ));
        }
    }
}

/// Two names neither of which is less than the other are equal.
pub proof fn lemma_lex_total(a: Seq<char>, b: Seq<char>)
    ensures
        !spec_lex_lt(a, b) && !spec_lex_lt(b, a) ==> a == b,
{
    lemma_lex_total_from(a, b, 0);
    if !spec_lex_lt(a, b) && !spec_lex_lt(b, a) {
        assert(a.subrange(0, a.len() as int) =~= a);
        assert(b.subrange(0, b.len() as int) =~= b);
    }
}

fn lex_lt_from(a: &str, b: &str, i: usize) -> (r: bool)
    requires
        i <= a@.len(),
        i <= b@.len(),
    ensures
        r == spec_lex_lt_from(a@, b@, i as int),
    decreases a@.len() - i,
{
    if i >= a.unicode_len() {
        i < b.unicode_len()
    } else if i >= b.unicode_len() {
        false
    } else {
        let ca = a.get_char(i);
        let cb = b.get_char(i);
        if ca != cb {
            (ca as u32) < (cb as u32)
        } else {
            lex_lt_from(a, b, i + 1)
        }
    }
}

/// Whether `a` sorts strictly before `b`.
pub fn lex_lt(a: &str, b: &str) -> (r: bool)
    ensures
        r == spec_lex_lt(a@, b@),
{
    lex_lt_from(a, b, 0)
}

/// What a node is: a file with contents, or a directory with children.
#[derive(Clone, Copy, Debug, PartialEq, Eq, Structural)]
pub enum NodeType {
    File,
    Directory,
}

/// One filesystem node: a name, a kind, an accounted size, children (for
/// directories) and contents (for files).
pub struct Node {
    pub name: String,
    pub node_type: NodeType,
    pub size: usize,
    pub children: Vec<Node>,
    pub content: Vec<u8>,
}

/// The mathematical model of a node.
pub ghost struct NodeView {
    pub name: Seq<char>,
    pub dir: bool,
    pub size: int,
    pub children: Seq<NodeView>,
    pub content: Seq<u8>,
}

/// The models of a run of sibling nodes, in order.
pub open spec fn spec_children_view(cs: Seq<Node>) -> Seq<NodeView>
    decreases cs, 0int,
{
    if cs.len() == 0 {
        Seq::empty()
    } else {
        spec_children_view(cs.drop_last()).push(spec_node_view(cs.last()))
    }
}

/// The model of `n`: the same tree over sequences.
pub open spec fn spec_node_view(n: Node) -> NodeView
    decreases n, 1int,
{
    NodeView {
        name: n.name@,
        dir: n.node_type is Directory,
        size: n.size as int,
        children: spec_children_view(n.children@),
        content: n.content@,
    }
}

/// The children model is the pointwise model of the children.
pub proof fn lemma_children_view(cs: Seq<Node>)
    ensures
        spec_children_view(cs).len() == cs.len(),
        forall|i: int|
            0 <= i < cs.len() ==> #[trigger] spec_children_view(cs)[i] == spec_node_view(cs[i]),
    decreases cs.len(),
{
    if cs.len() > 0 {
        lemma_children_view(cs.drop_last());
    }
}

impl View for Node {
    type V = NodeView;

    open spec fn view(&self) -> NodeView {
        spec_node_view(*self)
    }
}

/// Siblings strictly sorted by name.
pub open spec fn spec_sorted(cs: Seq<NodeView>) -> bool {
    forall|i: int|
        0 <= i && i + 1 < cs.len() ==> spec_lex_lt(#[trigger] cs[i].name, cs[i + 1].name)
}

impl NodeView {
    /// The tree invariant: files have no children, and every directory
    /// keeps its children strictly sorted by name.
    pub open spec fn wf(self) -> bool
        decreases self,
    {
        &&& (!self.dir ==> self.children.len() == 0)
        &&& spec_sorted(self.children)
        &&& forall|i: int| 0 <= i < self.children.len() ==> (#[trigger] self.children[i]).wf()
    }

    /// The index of the child named `name`, or -1.
    pub open spec fn child_idx(self, name: Seq<char>) -> int
        decreases self.children.len(),
    {
        spec_child_idx_from(self.children, name, 0)
    }

    /// The child named `name`, if any.
    pub open spec fn child(self, name: Seq<char>) -> Option<NodeView> {
        let i = self.child_idx(name);
        if i == -1 {
            None
        } else {
            Some(self.children[i])
        }
    }

    /// The names of the children, in stored (sorted) order.
    pub open spec fn child_names(self) -> Seq<Seq<char>> {
        Seq::new(self.children.len(), |i: int| self.children[i].name)
    }
}

/// The index of the first child at or after `i` named `name`, or -1.
pub open spec fn spec_child_idx_from(cs: Seq<NodeView>, name: Seq<char>, i: int) -> int
    decreases cs.len() - i,
{
    if i < 0 || i >= cs.len() {
        -1
    } else if cs[i].name == name {
        i
    } else {
        spec_child_idx_from(cs, name, i + 1)
    }
}

/// Where the child lookup succeeds, it returns an index into the
/// children bearing the name.
pub proof fn lemma_child_idx_bounds(cs: Seq<NodeView>, name: Seq<char>, i: int)
    requires
        0 <= i,
    ensures
        spec_child_idx_from(cs, name, i) == -1 || (i <= spec_child_idx_from(cs, name, i)
            < cs.len() && cs[spec_child_idx_from(cs, name, i)].name == name),
        spec_child_idx_from(cs, name, i) == -1 ==> forall|j: int|
            i <= j < cs.len() ==> (#[trigger] cs[j]).name != name,
    decreases cs.len() - i,
{
    if i < cs.len() && cs[i].name != name {
        lemma_child_idx_bounds(cs, name, i + 1);
    }
}

/// The directory reached from `n` by the path `path[depth..]`, following
/// directory children only.
pub open spec fn spec_dir_at(n: NodeView, path: Seq<Seq<char>>, depth: int) -> Option<NodeView>
    decreases path.len() - depth,
{
    if depth < 0 || depth >= path.len() {
        Some(n)
    } else {
        match n.child(path[depth]) {
            Some(c) => if c.dir {
                spec_dir_at(c, path, depth + 1)
            } else {
                None
            },
            None => None,
        }
    }
}

/// The model of a path: each component as a character sequence.
pub open spec fn spec_path_view(p: Seq<String>) -> Seq<Seq<char>> {
    Seq::new(p.len(), |i: int| p[i]@)
}

impl Node {
    pub fn new_dir(name: &str) -> (n: Node)
        ensures
            n@ == (NodeView {
                name: name@,
                dir: true,
                size: 0,
                children: Seq::<NodeView>::empty(),
                content: Seq::<u8>::empty(),
            }),
            n@.wf(),
    {
        let n = Node {
            name: name.to_owned(),
            node_type: NodeType::Directory,
            size: 0,
            children: Vec::new(),
            content: Vec::new(),
        };
        assert(n@.children =~= Seq::<NodeView>::empty());
        assert(n@.content =~= Seq::<u8>::empty());
        n
    }

    pub fn new_file(name: &str, content: Vec<u8>) -> (n: Node)
        ensures
            n@ == (NodeView {
                name: name@,
                dir: false,
                size: content@.len() as int,
                children: Seq::<NodeView>::empty(),
                content: content@,
            }),
            n@.wf(),
    {
        let size = content.len();
        let n = Node { name: name.to_owned(), node_type: NodeType::File, size, children: Vec::new(), content };
        assert(n@.children =~= Seq::<NodeView>::empty());
        n
    }

    /// The index of the child named `name`, if any.
    pub fn child_index(&self, name: &str) -> (r: Option<usize>)
        ensures
            match r {
                Some(i) => self@.child_idx(name@) == i && i < self@.children.len()
                    && self@.children[i as int].name == name@,
                None => self@.child_idx(name@) == -1,
            },
    {
        proof {
            lemma_child_idx_bounds(self@.children, name@, 0);
            lemma_children_view(self.children@);
        }
        let n = self.children.len();
        let mut i: usize = 0;
        while i < n
            invariant
                n == self@.children.len(),
                n == self.children@.len(),
                i <= n,
                spec_child_idx_from(self@.children, name@, 0) == spec_child_idx_from(
                    self@.children,
                    name@,
                    i as int,
                ),
            decreases n - i,
        {
            proof {
                lemma_children_view(self.children@);
            }
            assert(self@.children[i as int].name == self.children@[i as int]@.name);
            if str_eq(self.children[i].name.as_str(), name) {
                return Some(i);
            }
            i = i + 1;
        }
        None
    }

    /// The child named `name`, if any.
    pub fn get_child(&self, name: &str) -> (r: Option<&Node>)
        ensures
            match r {
                Some(c) => self@.child(name@) == Some(c@),
                None => self@.child(name@) is None,
            },
    {
        proof {
            lemma_children_view(self.children@);
        }
        match self.child_index(name) {
            Some(i) => Some(&self.children[i]),
            None => None,
        }
    }
}

/// Where a new child named `name` belongs among sorted children,
/// scanning from `i`: the first position whose name sorts after it.
pub open spec fn spec_insert_pos_from(cs: Seq<NodeView>, name: Seq<char>, i: int) -> int
    decreases cs.len() - i,
{
    if i < 0 || i >= cs.len() {
        cs.len() as int
    } else if spec_lex_lt(name, cs[i].name) {
        i
    } else {
        spec_insert_pos_from(cs, name, i + 1)
    }
}

/// Where a new child named `name` belongs among sorted children.
pub open spec fn spec_insert_pos(cs: Seq<NodeView>, name: Seq<char>) -> int {
    spec_insert_pos_from(cs, name, 0)
}

/// The insert position is a position, everything before it sorts no
/// later than the name, and what stands there sorts after it.
pub proof fn lemma_insert_pos_bounds(cs: Seq<NodeView>, name: Seq<char>, i: int)
    requires
        0 <= i,
    ensures
        i <= spec_insert_pos_from(cs, name, i) <= cs.len() || i > cs.len(),
        forall|j: int|
            i <= j < spec_insert_pos_from(cs, name, i) ==> !spec_lex_lt(
                name,
                (#[trigger] cs[j]).name,
            ),
        spec_insert_pos_from(cs, name, i) < cs.len() ==> spec_lex_lt(
            name,
            cs[spec_insert_pos_from(cs, name, i)].name,
        ),
    decreases cs.len() - i,
{
    if i < cs.len() && !spec_lex_lt(name, cs[i].name) {
        lemma_insert_pos_bounds(cs, name, i + 1);
    }
}

/// The name order is transitive.
pub proof fn lemma_lex_trans_from(a: Seq<char>, b: Seq<char>, c: Seq<char>, i: int)
    requires
        0 <= i,
        spec_lex_lt_from(a, b, i),
        spec_lex_lt_from(b, c, i),
    ensures
        spec_lex_lt_from(a, c, i),
    decreases a.len() - i,
{
    if i < a.len() && i < b.len() && i < c.len() && a[i] == b[i] && b[i] == c[i] {
        lemma_lex_trans_from(a, b, c, i + 1);
    }
}

/// Where element `k` of a sequence with one more element inserted at
/// `pos` comes from.
pub proof fn lemma_insert_index(cs: Seq<NodeView>, pos: int, x: NodeView, k: int)
    requires
        0 <= pos <= cs.len(),
        0 <= k < cs.len() + 1,
    ensures
        cs.insert(pos, x)[k] == if k < pos {
            cs[k]
        } else if k == pos {
            x
        } else {
            cs[k - 1]
        },
{
    cs.insert_ensures(pos, x);
    if k > pos {
        assert(cs.insert(pos, x)[k - 1 + 1] == cs[k - 1]);
    }
}

/// Where element `k` of a sequence with element `i` removed comes from.
pub proof fn lemma_remove_index(cs: Seq<NodeView>, i: int, k: int)
    requires
        0 <= i < cs.len(),
        0 <= k < cs.len() - 1,
    ensures
        cs.remove(i)[k] == if k < i {
            cs[k]
        } else {
            cs[k + 1]
        },
{
    cs.remove_ensures(i);
}

/// Inserting a fresh name at its sort position keeps siblings sorted.
pub proof fn lemma_sorted_insert(cs: Seq<NodeView>, child: NodeView, pos: int)
    requires
        spec_sorted(cs),
        0 <= pos <= cs.len(),
        forall|j: int| 0 <= j < pos ==> !spec_lex_lt(child.name, (#[trigger] cs[j]).name),
        pos < cs.len() ==> spec_lex_lt(child.name, cs[pos].name),
        forall|j: int| 0 <= j < cs.len() ==> (#[trigger] cs[j]).name != child.name,
    ensures
        spec_sorted(cs.insert(pos, child)),
{
    cs.insert_ensures(pos, child);
    let cs1 = cs.insert(pos, child);
    assert forall|k: int| 0 <= k && k + 1 < cs1.len() implies spec_lex_lt(
        (#[trigger] cs1[k]).name,
        cs1[k + 1].name,
    ) by {
        lemma_insert_index(cs, pos, child, k);
        lemma_insert_index(cs, pos, child, k + 1);
        if k + 1 == pos {
            lemma_lex_total(child.name, cs[k].name);
        }
    }
}

/// Removing a sibling keeps the rest sorted.
pub proof fn lemma_sorted_remove(cs: Seq<NodeView>, i: int)
    requires
        spec_sorted(cs),
        0 <= i < cs.len(),
    ensures
        spec_sorted(cs.remove(i)),
{
    cs.remove_ensures(i);
    let cs1 = cs.remove(i);
    assert forall|k: int| 0 <= k && k + 1 < cs1.len() implies spec_lex_lt(
        (#[trigger] cs1[k]).name,
        cs1[k + 1].name,
    ) by {
        lemma_remove_index(cs, i, k);
        lemma_remove_index(cs, i, k + 1);
        if k + 1 == i {
            lemma_lex_trans_from(cs[k].name, cs[k + 1].name, cs[k + 2].name, 0);
        }
    }
}

/// Replacing a sibling by one with the same name keeps the order.
pub proof fn lemma_sorted_update(cs: Seq<NodeView>, i: int, x: NodeView)
    requires
        spec_sorted(cs),
        0 <= i < cs.len(),
        x.name == cs[i].name,
    ensures
        spec_sorted(cs.update(i, x)),
{
    let cs1 = cs.update(i, x);
    assert forall|k: int| 0 <= k && k + 1 < cs1.len() implies spec_lex_lt(
        (#[trigger] cs1[k]).name,
        cs1[k + 1].name,
    ) by {
        assert(cs1[k].name == cs[k].name && cs1[k + 1].name == cs[k + 1].name);
    }
}

/// A directory view with no contents yet.
pub open spec fn spec_dir_view(name: Seq<char>) -> NodeView {
    NodeView {
        name,
        dir: true,
        size: 0,
        children: Seq::<NodeView>::empty(),
        content: Seq::<u8>::empty(),
    }
}

/// A file view holding `content`.
pub open spec fn spec_file_view(name: Seq<char>, content: Seq<u8>) -> NodeView {
    NodeView {
        name,
        dir: false,
        size: content.len() as int,
        children: Seq::<NodeView>::empty(),
        content,
    }
}

/// The tree with `child` inserted, in name order, into the directory at
/// `path[depth..]`.
pub open spec fn spec_tree_insert(
    n: NodeView,
    path: Seq<Seq<char>>,
    depth: int,
    child: NodeView,
) -> NodeView
    decreases path.len() - depth,
{
    if depth < 0 || depth >= path.len() {
        NodeView {
            children: n.children.insert(spec_insert_pos(n.children, child.name), child),
            ..n
        }
    } else {
        let i = n.child_idx(path[depth]);
        NodeView {
            children: n.children.update(i, spec_tree_insert(n.children[i], path, depth + 1, child)),
            ..n
        }
    }
}

/// The tree with the child named `name` removed from the directory at
/// `path[depth..]`.
pub open spec fn spec_tree_remove(
    n: NodeView,
    path: Seq<Seq<char>>,
    depth: int,
    name: Seq<char>,
) -> NodeView
    decreases path.len() - depth,
{
    if depth < 0 || depth >= path.len() {
        NodeView { children: n.children.remove(n.child_idx(name)), ..n }
    } else {
        let i = n.child_idx(path[depth]);
        NodeView {
            children: n.children.update(i, spec_tree_remove(n.children[i], path, depth + 1, name)),
            ..n
        }
    }
}

/// Children that agree name-for-name give the same lookup index.
pub proof fn lemma_child_idx_same_names(
    cs1: Seq<NodeView>,
    cs2: Seq<NodeView>,
    name: Seq<char>,
    i: int,
)
    requires
        cs1.len() == cs2.len(),
        forall|j: int| 0 <= j < cs1.len() ==> (#[trigger] cs1[j]).name == cs2[j].name,
        0 <= i,
    ensures
        spec_child_idx_from(cs1, name, i) == spec_child_idx_from(cs2, name, i),
    decreases cs1.len() - i,
{
    if i < cs1.len() && cs1[i].name != name {
        lemma_child_idx_same_names(cs1, cs2, name, i + 1);
    }
}

/// Inserting below a valid path keeps the path valid: the directory it
/// reaches is the old one with the child inserted.
pub proof fn lemma_dir_at_after_insert(n: NodeView, path: Seq<Seq<char>>, depth: int, child: NodeView)
    requires
        0 <= depth,
        spec_dir_at(n, path, depth) is Some,
    ensures
        ({
            let target = spec_dir_at(n, path, depth)->Some_0;
            spec_dir_at(spec_tree_insert(n, path, depth, child), path, depth) == Some(
                spec_tree_insert(target, path, path.len() as int, child),
            )
        }),
    decreases path.len() - depth,
{
    if depth < path.len() {
        let i = n.child_idx(path[depth]);
        lemma_child_idx_bounds(n.children, path[depth], 0);
        let n2 = spec_tree_insert(n, path, depth, child);
        assert(n2.children.len() == n.children.len());
        assert forall|j: int| 0 <= j < n2.children.len() implies (#[trigger] n2.children[j]).name
            == n.children[j].name by {
            if j == i {
                assert(n2.children[j] == spec_tree_insert(n.children[i], path, depth + 1, child));
            }
        }
        lemma_child_idx_same_names(n2.children, n.children, path[depth], 0);
        lemma_dir_at_after_insert(n.children[i], path, depth + 1, child);
        assert(spec_tree_insert(target_of(n, path, depth), path, path.len() as int, child)
            == spec_tree_insert(target_of(n.children[i], path, depth + 1), path, path.len() as int, child));
    } else {
        let target = spec_dir_at(n, path, depth)->Some_0;
        assert(target == n);
        assert(spec_tree_insert(n, path, depth, child) == spec_tree_insert(
            target,
            path,
            path.len() as int,
            child,
        ));
    }
}

/// The directory a valid path reaches.
pub open spec fn target_of(n: NodeView, path: Seq<Seq<char>>, depth: int) -> NodeView {
    spec_dir_at(n, path, depth)->Some_0
}

/// Removing below a valid path keeps the path valid: the directory it
/// reaches is the old one with the child removed.
pub proof fn lemma_dir_at_after_remove(n: NodeView, path: Seq<Seq<char>>, depth: int, name: Seq<char>)
    requires
        0 <= depth,
        spec_dir_at(n, path, depth) is Some,
    ensures
        spec_dir_at(spec_tree_remove(n, path, depth, name), path, depth) == Some(
            spec_tree_remove(target_of(n, path, depth), path, path.len() as int, name),
        ),
    decreases path.len() - depth,
{
    if depth < path.len() {
        let i = n.child_idx(path[depth]);
        lemma_child_idx_bounds(n.children, path[depth], 0);
        let n2 = spec_tree_remove(n, path, depth, name);
        assert(n2.children.len() == n.children.len());
        assert forall|j: int| 0 <= j < n2.children.len() implies (#[trigger] n2.children[j]).name
            == n.children[j].name by {
            if j == i {
                assert(n2.children[j] == spec_tree_remove(n.children[i], path, depth + 1, name));
            }
        }
        lemma_child_idx_same_names(n2.children, n.children, path[depth], 0);
        lemma_dir_at_after_remove(n.children[i], path, depth + 1, name);
    }
}

/// A path one component longer resolves exactly when the longer hop is a
/// directory child of where the shorter path ends.
pub proof fn lemma_dir_at_snoc(n: NodeView, path: Seq<Seq<char>>, depth: int, x: Seq<char>)
    requires
        0 <= depth <= path.len(),
    ensures
        spec_dir_at(n, path.push(x), depth) == (match spec_dir_at(n, path, depth) {
            Some(d) => match d.child(x) {
                Some(c) => if c.dir {
                    Some(c)
                } else {
                    None::<NodeView>
                },
                None => None::<NodeView>,
            },
            None => None::<NodeView>,
        }),
    decreases path.len() - depth,
{
    let p2 = path.push(x);
    if depth < path.len() {
        assert(p2[depth] == path[depth]);
        match n.child(path[depth]) {
            Some(c) => {
                if c.dir {
                    lemma_dir_at_snoc(c, path, depth + 1, x);
                }
            },
            None => {},
        }
    } else {
        assert(p2[depth] == x);
        match n.child(x) {
            Some(c) => {
                if c.dir {
                    assert(spec_dir_at(c, p2, depth + 1) == Some(c));
                }
            },
            None => {},
        }
    }
}

/// A prefix of a valid path is valid.
pub proof fn lemma_dir_at_drop_last(n: NodeView, path: Seq<Seq<char>>, depth: int)
    requires
        0 <= depth,
        path.len() > 0,
        spec_dir_at(n, path, depth) is Some,
    ensures
        spec_dir_at(n, path.drop_last(), depth) is Some,
    decreases path.len() - depth,
{
    let p2 = path.drop_last();
    if depth < p2.len() {
        assert(p2[depth] == path[depth]);
        match n.child(path[depth]) {
            Some(c) => {
                if c.dir {
                    lemma_dir_at_drop_last(c, path, depth + 1);
                }
            },
            None => {},
        }
    }
}

/// Find where `name` belongs among the sorted children, from `i` on.
fn find_insert_pos(cs: &Vec<Node>, name: &str, i: usize) -> (p: usize)
    requires
        i <= cs@.len(),
    ensures
        p == spec_insert_pos_from(spec_children_view(cs@), name@, i as int),
        i <= p <= cs@.len(),
    decreases cs@.len() - i,
{
    proof {
        lemma_children_view(cs@);
    }
    if i >= cs.len() {
        cs.len()
    } else if lex_lt(name, cs[i].name.as_str()) {
        i
    } else {
        find_insert_pos(cs, name, i + 1)
    }
}

/// Insert `child` into the directory `path[depth..]` leads to from `n`,
/// keeping the name order; refused when a child of that name exists.
#[verifier::rlimit(50)]
fn insert_at(n: &mut Node, path: &Vec<String>, depth: usize, child: Node) -> (inserted: bool)
    requires
        old(n)@.wf(),
        old(n)@.dir,
        depth <= path@.len(),
        spec_dir_at(old(n)@, spec_path_view(path@), depth as int) is Some,
        child@.wf(),
    ensures
        ({
            let pv = spec_path_view(path@);
            let target = target_of(old(n)@, pv, depth as int);
            &&& inserted == (target.child(child@.name) is None)
            &&& inserted ==> final(n)@ == spec_tree_insert(old(n)@, pv, depth as int, child@)
            &&& !inserted ==> final(n)@ == old(n)@
            &&& final(n)@.wf()
            &&& final(n)@.name == old(n)@.name
            &&& final(n)@.dir
        }),
    decreases path@.len() - depth,
{
    let ghost pv = spec_path_view(path@);
    if depth >= path.len() {
        match n.child_index(child.name.as_str()) {
            Some(_) => {
                assert(final(n)@ =~= old(n)@);
                false
            },
            None => {
                proof {
                    lemma_children_view(n.children@);
                    lemma_child_idx_bounds(n@.children, child@.name, 0);
                    lemma_insert_pos_bounds(n@.children, child@.name, 0);
                }
                let ghost cs0 = n@.children;
                let pos = find_insert_pos(&n.children, child.name.as_str(), 0);
                proof {
                    lemma_sorted_insert(cs0, child@, pos as int);
                    cs0.insert_ensures(pos as int, child@);
                }
                n.children.insert(pos, child);
                proof {
                    lemma_children_view(n.children@);
                    assert(final(n)@.children =~= cs0.insert(pos as int, child@));
                    assert(final(n)@ =~= spec_tree_insert(old(n)@, pv, depth as int, child@));
                }
                true
            },
        }
    } else {
        let comp: &String = &path[depth];
        proof {
            assert(pv[depth as int] == comp@);
        }
        match n.child_index(comp.as_str()) {
            Some(ci) => {
                proof {
                    lemma_children_view(n.children@);
                }
                let ghost cs0 = n@.children;
                let ghost sub0 = n@.children[ci as int];
                let r = insert_at(&mut n.children[ci], path, depth + 1, child);
                proof {
                    lemma_children_view(n.children@);
                    let sub1 = final(n).children@[ci as int]@;
                    assert(final(n)@.children =~= cs0.update(ci as int, sub1));
                    assert(sub1.name == cs0[ci as int].name);
                    lemma_sorted_update(cs0, ci as int, sub1);
                    if r {
                        assert(final(n)@ =~= spec_tree_insert(old(n)@, pv, depth as int, child@));
                    } else {
                        assert(final(n)@.children =~= cs0);
                        assert(final(n)@ =~= old(n)@);
                    }
                }
                r
            },
            None => {
                proof {
                    assert(false);
                }
                false
            },
        }
    }
}

/// Remove the child named `name` from the directory `path[depth..]`
/// leads to from `n`; returns the removed node.
#[verifier::rlimit(50)]
fn remove_at(n: &mut Node, path: &Vec<String>, depth: usize, name: &str) -> (removed: Option<Node>)
    requires
        old(n)@.wf(),
        old(n)@.dir,
        depth <= path@.len(),
        spec_dir_at(old(n)@, spec_path_view(path@), depth as int) is Some,
    ensures
        ({
            let pv = spec_path_view(path@);
            let target = target_of(old(n)@, pv, depth as int);
            &&& match removed {
                Some(node) => target.child(name@) == Some(node@) && final(n)@ == spec_tree_remove(
                    old(n)@,
                    pv,
                    depth as int,
                    name@,
                ),
                None => target.child(name@) is None && final(n)@ == old(n)@,
            }
            &&& final(n)@.wf()
            &&& final(n)@.name == old(n)@.name
            &&& final(n)@.dir
        }),
    decreases path@.len() - depth,
{
    let ghost pv = spec_path_view(path@);
    if depth >= path.len() {
        match n.child_index(name) {
            Some(ci) => {
                proof {
                    lemma_children_view(n.children@);
                }
                let ghost cs0 = n@.children;
                proof {
                    lemma_sorted_remove(cs0, ci as int);
                    cs0.remove_ensures(ci as int);
                }
                let node = n.children.remove(ci);
                proof {
                    lemma_children_view(n.children@);
                    assert(final(n)@.children =~= cs0.remove(ci as int));
                    assert(final(n)@ =~= spec_tree_remove(old(n)@, pv, depth as int, name@));
                }
                Some(node)
            },
            None => {
                assert(final(n)@ =~= old(n)@);
                None
            },
        }
    } else {
        let comp: &String = &path[depth];
        proof {
            assert(pv[depth as int] == comp@);
        }
        match n.child_index(comp.as_str()) {
            Some(ci) => {
                proof {
                    lemma_children_view(n.children@);
                }
                let ghost cs0 = n@.children;
                let r = remove_at(&mut n.children[ci], path, depth + 1, name);
                proof {
                    lemma_children_view(n.children@);
                    let sub1 = final(n).children@[ci as int]@;
                    assert(final(n)@.children =~= cs0.update(ci as int, sub1));
                    assert(sub1.name == cs0[ci as int].name);
                    lemma_sorted_update(cs0, ci as int, sub1);
                    if r is Some {
                        assert(final(n)@ =~= spec_tree_remove(old(n)@, pv, depth as int, name@));
                    } else {
                        assert(final(n)@.children =~= cs0);
                        assert(final(n)@ =~= old(n)@);
                    }
                }
                r
            },
            None => {
                proof {
                    assert(false);
                }
                None
            },
        }
    }
}

/// Walk `path[depth..]` down from `n`, following directories only.
fn dir_at<'a>(n: &'a Node, path: &[String], depth: usize) -> (r: Option<&'a Node>)
    requires
        depth <= path@.len(),
    ensures
        match r {
            Some(d) => spec_dir_at(n@, spec_path_view(path@), depth as int) == Some(d@),
            None => spec_dir_at(n@, spec_path_view(path@), depth as int) is None,
        },
    decreases path@.len() - depth,
{
    if depth >= path.len() {
        Some(n)
    } else {
        let comp: &String = &path[depth];
        proof {
            assert(spec_path_view(path@)[depth as int] == comp@);
        }
        match n.get_child(comp.as_str()) {
            Some(c) => {
                match c.node_type {
                    NodeType::Directory => dir_at(c, path, depth + 1),
                    NodeType::File => None,
                }
            },
            None => None,
        }
    }
}

/// The filesystem: the root directory tree, the current directory path,
/// and the space accounting the `df` command reports.
pub struct FileSystem {
    pub root: Node,
    pub current_path: Vec<String>,
    pub total_space: usize,
    pub used_space: usize,
}

impl FileSystem {
    /// The filesystem invariant: a well-formed directory tree at the
    /// root, a current path that resolves to a directory, and space
    /// accounting within bounds.
    pub open spec fn wf(self) -> bool {
        &&& self.root@.wf()
        &&& self.root@.dir
        &&& spec_dir_at(self.root@, spec_path_view(self.current_path@), 0) is Some
        &&& self.used_space <= self.total_space
    }

    /// The directory the current path leads to.
    pub open spec fn cwd_dir(self) -> NodeView {
        target_of(self.root@, spec_path_view(self.current_path@), 0)
    }

    /// A fresh disk of `size_mb` megabytes holding the three standard
    /// directories `bin`, `local` and `tmp` at the root.
    pub fn new(size_mb: usize) -> (fs: FileSystem)
        requires
            size_mb * 1024 * 1024 <= usize::MAX,
            size_mb >= 1,
        ensures
            fs.wf(),
            fs.current_path@ =~= Seq::<String>::empty(),
            fs.total_space == size_mb * 1024 * 1024,
            fs.used_space == 12288,
            fs.root@.children =~= seq![
                spec_dir_view("bin"@),
                spec_dir_view("local"@),
                spec_dir_view("tmp"@),
            ],
    {
        let mut root = Node::new_dir("/");
        let empty_path: Vec<String> = Vec::new();
        proof {
            assert(spec_path_view(empty_path@) =~= Seq::<Seq<char>>::empty());
        }
        proof {
            reveal_strlit("bin");
            reveal_strlit("local");
            reveal_strlit("tmp");
        }
        let _ = insert_at(&mut root, &empty_path, 0, Node::new_dir("local"));
        proof {
            assert(root@.children =~= seq![spec_dir_view("local"@)]);
        }
        let _ = insert_at(&mut root, &empty_path, 0, Node::new_dir("tmp"));
        proof {
            let one = seq![spec_dir_view("local"@)];
            assert(!spec_lex_lt("tmp"@, "local"@)) by {
                assert("tmp"@[0] == 't' && "local"@[0] == 'l');
            }
            assert(spec_child_idx_from(one, "tmp"@, 0) == spec_child_idx_from(one, "tmp"@, 1));
            assert(spec_insert_pos_from(one, "tmp"@, 0) == spec_insert_pos_from(one, "tmp"@, 1));
            assert(spec_insert_pos_from(one, "tmp"@, 1) == 1);
            assert(root@.children =~= seq![spec_dir_view("local"@), spec_dir_view("tmp"@)]);
        }
        let _ = insert_at(&mut root, &empty_path, 0, Node::new_dir("bin"));
        proof {
            let two = seq![spec_dir_view("local"@), spec_dir_view("tmp"@)];
            assert(spec_lex_lt("bin"@, "local"@)) by {
                assert("bin"@[0] == 'b' && "local"@[0] == 'l');
            }
            assert("bin"@ != "local"@ && "bin"@ != "tmp"@) by {
                assert("bin"@[0] == 'b' && "local"@[0] == 'l' && "tmp"@[0] == 't');
            }
            assert(spec_child_idx_from(two, "bin"@, 0) == spec_child_idx_from(two, "bin"@, 1));
            assert(spec_child_idx_from(two, "bin"@, 1) == spec_child_idx_from(two, "bin"@, 2));
            assert(spec_child_idx_from(two, "bin"@, 2) == -1);
            assert(spec_insert_pos_from(two, "bin"@, 0) == 0);
            assert(root@.children =~= seq![
                spec_dir_view("bin"@),
                spec_dir_view("local"@),
                spec_dir_view("tmp"@),
            ]);
        }
        FileSystem {
            root,
            current_path: empty_path,
            total_space: size_mb * 1024 * 1024,
            used_space: 12288,
        }
    }

    /// Create a directory in the current directory: refused with
    /// "Disk full" when the allowance is exhausted and with
    /// "Directory exists" when the name is taken.
    pub fn mkdir(&mut self, path: &str) -> (r: Result<(), String>)
        requires
            old(self).wf(),
        ensures
            final(self).wf(),
            final(self).total_space == old(self).total_space,
            final(self).current_path@ == old(self).current_path@,
            match r {
                Ok(()) => {
                    &&& old(self).used_space + 4096 <= old(self).total_space
                    &&& old(self).cwd_dir().child(path@) is None
                    &&& final(self).root@ == spec_tree_insert(
                        old(self).root@,
                        spec_path_view(old(self).current_path@),
                        0,
                        spec_dir_view(path@),
                    )
                    &&& final(self).used_space == old(self).used_space + 4096
                },
                Err(e) => {
                    &&& final(self).root@ == old(self).root@
                    &&& final(self).used_space == old(self).used_space
                    &&& if old(self).used_space + 4096 > old(self).total_space {
                        e@ == "Disk full"@
                    } else {
                        e@ == "Directory exists"@ && old(self).cwd_dir().child(path@) is Some
                    }
                },
            },
    {
        if self.total_space - self.used_space < 4096 {
            return Err("Disk full".to_owned());
        }
        let ghost pv = spec_path_view(self.current_path@);
        let inserted = insert_at(&mut self.root, &self.current_path, 0, Node::new_dir(path));
        if inserted {
            proof {
                lemma_dir_at_after_insert(old(self).root@, pv, 0, spec_dir_view(path@));
            }
            self.used_space = self.used_space + 4096;
            Ok(())
        } else {
            Err("Directory exists".to_owned())
        }
    }

    /// Create an empty file in the current directory: refused with
    /// "Disk full" when the allowance is exhausted and with
    /// "File or Directory exists" when the name is taken.
    pub fn create_file(&mut self, path: &str) -> (r: Result<(), String>)
        requires
            old(self).wf(),
        ensures
            final(self).wf(),
            final(self).total_space == old(self).total_space,
            final(self).current_path@ == old(self).current_path@,
            match r {
                Ok(()) => {
                    &&& old(self).used_space + 10 <= old(self).total_space
                    &&& old(self).cwd_dir().child(path@) is None
                    &&& final(self).root@ == spec_tree_insert(
                        old(self).root@,
                        spec_path_view(old(self).current_path@),
                        0,
                        spec_file_view(path@, Seq::<u8>::empty()),
                    )
                    &&& final(self).used_space == old(self).used_space + 10
                },
                Err(e) => {
                    &&& final(self).root@ == old(self).root@
                    &&& final(self).used_space == old(self).used_space
                    &&& if old(self).used_space + 10 > old(self).total_space {
                        e@ == "Disk full"@
                    } else {
                        e@ == "File or Directory exists"@ && old(self).cwd_dir().child(
                            path@,
                        ) is Some
                    }
                },
            },
    {
        if self.total_space - self.used_space < 10 {
            return Err("Disk full".to_owned());
        }
        let ghost pv = spec_path_view(self.current_path@);
        let file = Node::new_file(path, Vec::new());
        proof {
            assert(file@ =~= spec_file_view(path@, Seq::<u8>::empty()));
        }
        let inserted = insert_at(&mut self.root, &self.current_path, 0, file);
        if inserted {
            proof {
                lemma_dir_at_after_insert(old(self).root@, pv, 0, spec_file_view(path@, Seq::<u8>::empty()));
            }
            self.used_space = self.used_space + 10;
            Ok(())
        } else {
            Err("File or Directory exists".to_owned())
        }
    }

    /// Store a file with the given contents in the current directory:
    /// same rules as `create_file`.
    pub fn write_file(&mut self, path: &str, content: Vec<u8>) -> (r: Result<(), String>)
        requires
            old(self).wf(),
        ensures
            final(self).wf(),
            final(self).total_space == old(self).total_space,
            final(self).current_path@ == old(self).current_path@,
            match r {
                Ok(()) => {
                    &&& old(self).used_space + 10 <= old(self).total_space
                    &&& old(self).cwd_dir().child(path@) is None
                    &&& final(self).root@ == spec_tree_insert(
                        old(self).root@,
                        spec_path_view(old(self).current_path@),
                        0,
                        spec_file_view(path@, content@),
                    )
                    &&& final(self).used_space == old(self).used_space + 10
                },
                Err(e) => {
                    &&& final(self).root@ == old(self).root@
                    &&& final(self).used_space == old(self).used_space
                    &&& if old(self).used_space + 10 > old(self).total_space {
                        e@ == "Disk full"@
                    } else {
                        e@ == "File or Directory exists"@ && old(self).cwd_dir().child(
                            path@,
                        ) is Some
                    }
                },
            },
    {
        if self.total_space - self.used_space < 10 {
            return Err("Disk full".to_owned());
        }
        let ghost pv = spec_path_view(self.current_path@);
        let ghost cv = content@;
        let file = Node::new_file(path, content);
        proof {
            assert(file@ =~= spec_file_view(path@, cv));
        }
        let inserted = insert_at(&mut self.root, &self.current_path, 0, file);
        if inserted {
            proof {
                lemma_dir_at_after_insert(old(self).root@, pv, 0, spec_file_view(path@, cv));
            }
            self.used_space = self.used_space + 10;
            Ok(())
        } else {
            Err("File or Directory exists".to_owned())
        }
    }

    /// Remove the named entry from the current directory and reclaim its
    /// accounted space; refused with "File or directory not found".
    pub fn remove_entry(&mut self, path: &str) -> (r: Result<(), String>)
        requires
            old(self).wf(),
        ensures
            final(self).wf(),
            final(self).total_space == old(self).total_space,
            final(self).current_path@ == old(self).current_path@,
            match r {
                Ok(()) => {
                    &&& old(self).cwd_dir().child(path@) is Some
                    &&& final(self).root@ == spec_tree_remove(
                        old(self).root@,
                        spec_path_view(old(self).current_path@),
                        0,
                        path@,
                    )
                    &&& ({
                        let removed = old(self).cwd_dir().child(path@)->Some_0;
                        let after_size = if old(self).used_space >= removed.size {
                            old(self).used_space - removed.size
                        } else {
                            0
                        };
                        final(self).used_space == if removed.dir {
                            if after_size >= 4096 {
                                after_size - 4096
                            } else {
                                0
                            }
                        } else {
                            after_size
                        }
                    })
                },
                Err(e) => {
                    &&& final(self).root@ == old(self).root@
                    &&& final(self).used_space == old(self).used_space
                    &&& e@ == "File or directory not found"@
                    &&& old(self).cwd_dir().child(path@) is None
                },
            },
    {
        let ghost pv = spec_path_view(self.current_path@);
        match remove_at(&mut self.root, &self.current_path, 0, path) {
            Some(node) => {
                proof {
                    lemma_dir_at_after_remove(old(self).root@, pv, 0, path@);
                }
                self.used_space = if self.used_space >= node.size {
                    self.used_space - node.size
                } else {
                    0
                };
                if let NodeType::Directory = node.node_type {
                    self.used_space = if self.used_space >= 4096 {
                        self.used_space - 4096
                    } else {
                        0
                    };
                }
                Ok(())
            },
            None => Err("File or directory not found".to_owned()),
        }
    }

    /// Change the current directory: "/" goes to the root, ".." goes one
    /// level up, and a name descends into that directory child.
    pub fn cd(&mut self, path: &str) -> (r: Result<(), String>)
        requires
            old(self).wf(),
        ensures
            final(self).wf(),
            final(self).root@ == old(self).root@,
            final(self).total_space == old(self).total_space,
            final(self).used_space == old(self).used_space,
            match r {
                Ok(()) => if path@ == "/"@ {
                    final(self).current_path@.len() == 0
                } else if path@ == ".."@ {
                    final(self).current_path@ == if old(self).current_path@.len() > 0 {
                        old(self).current_path@.drop_last()
                    } else {
                        old(self).current_path@
                    }
                } else {
                    &&& spec_path_view(final(self).current_path@) == spec_path_view(
                        old(self).current_path@,
                    ).push(path@)
                    &&& old(self).cwd_dir().child(path@) is Some
                    &&& (old(self).cwd_dir().child(path@)->Some_0).dir
                },
                Err(e) => {
                    &&& final(self).current_path@ == old(self).current_path@
                    &&& path@ != "/"@ && path@ != ".."@
                    &&& match old(self).cwd_dir().child(path@) {
                        Some(c) => !c.dir && e@ == "Not a directory"@,
                        None => e@ == "Directory not found"@,
                    }
                },
            },
    {
        if str_eq(path, "/") {
            self.current_path.clear();
            proof {
                assert(spec_path_view(self.current_path@) =~= Seq::<Seq<char>>::empty());
            }
            return Ok(());
        }
        if str_eq(path, "..") {
            let ghost pv = spec_path_view(self.current_path@);
            if self.current_path.len() > 0 {
                proof {
                    lemma_dir_at_drop_last(self.root@, pv, 0);
                }
                self.current_path.pop();
                proof {
                    assert(spec_path_view(self.current_path@) =~= pv.drop_last());
                }
            }
            return Ok(());
        }
        let ghost pv = spec_path_view(self.current_path@);
        let verdict: u8 = {
            match dir_at(&self.root, self.current_path.as_slice(), 0) {
                Some(d) => {
                    match d.get_child(path) {
                        Some(c) => {
                            match c.node_type {
                                NodeType::Directory => 0,
                                NodeType::File => 1,
                            }
                        },
                        None => 2,
                    }
                },
                None => 2,
            }
        };
        if verdict == 0 {
            proof {
                lemma_dir_at_snoc(self.root@, pv, 0, path@);
            }
            self.current_path.push(path.to_owned());
            proof {
                assert(spec_path_view(self.current_path@) =~= pv.push(path@));
            }
            Ok(())
        } else if verdict == 1 {
            Err("Not a directory".to_owned())
        } else {
            Err("Directory not found".to_owned())
        }
    }

    /// The names in the current directory, in sorted order.
    pub fn list_dir(&self) -> (r: Vec<String>)
        requires
            self.wf(),
        ensures
            r@.map_values(|s: String| s@) == self.cwd_dir().child_names(),
    {
        let dir_opt = dir_at(&self.root, self.current_path.as_slice(), 0);
        let dir = match dir_opt {
            Some(d) => d,
            None => &self.root,
        };
        proof {
            lemma_children_view(dir.children@);
        }
        let mut names: Vec<String> = Vec::new();
        let n = dir.children.len();
        let mut i: usize = 0;
        while i < n
            invariant
                n == dir.children@.len(),
                n == dir@.children.len(),
                i <= n,
                names@.len() == i,
                forall|j: int| 0 <= j < i ==> (#[trigger] names@[j])@ == dir@.children[j].name,
            decreases n - i,
        {
            proof {
                lemma_children_view(dir.children@);
            }
            names.push(dir.children[i].name.clone());
            i = i + 1;
        }
        assert(names@.map_values(|s: String| s@) =~= dir@.child_names());
        names
    }

    /// Resolve a directory path from the root; `None` when a component
    /// is missing or is a file.
    pub fn resolve_dir<'a>(&'a self, path: &[String]) -> (r: Option<&'a Node>)
        ensures
            match r {
                Some(d) => spec_dir_at(self.root@, spec_path_view(path@), 0) == Some(d@),
                None => spec_dir_at(self.root@, spec_path_view(path@), 0) is None,
            },
    {
        dir_at(&self.root, path, 0)
    }
}

/// Whether `s` begins with `p`.
pub open spec fn spec_starts_with(s: Seq<char>, p: Seq<char>) -> bool {
    s.len() >= p.len() && s.subrange(0, p.len() as int) == p
}

/// Whether `name` begins with the characters of `p`.
pub fn str_starts_with(name: &str, p: &str) -> (r: bool)
    ensures
        r == spec_starts_with(name@, p@),
{
    let np = p.unicode_len();
    if name.unicode_len() < np {
        assert(!spec_starts_with(name@, p@));
        return false;
    }
    let mut i: usize = 0;
    while i < np
        invariant
            np == p@.len(),
            name@.len() >= np,
            i <= np,
            forall|j: int| 0 <= j < i ==> name@[j] == p@[j],
        decreases np - i,
    {
        if name.get_char(i) != p.get_char(i) {
            assert(name@.subrange(0, np as int)[i as int] != p@[i as int]);
            return false;
        }
        i = i + 1;
    }
    assert(name@.subrange(0, np as int) =~= p@);
    true
}

/// The first child at or after `i` whose name begins with `p`, or -1.
pub open spec fn spec_first_prefix_from(cs: Seq<NodeView>, p: Seq<char>, i: int) -> int
    decreases cs.len() - i,
{
    if i < 0 || i >= cs.len() {
        -1
    } else if spec_starts_with(cs[i].name, p) {
        i
    } else {
        spec_first_prefix_from(cs, p, i + 1)
    }
}

/// What `match_entry` answers for a directory and a pattern: an exact
/// name match wins; otherwise a pattern ending in `*` matches the first
/// name (in sorted order) that begins with the part before the star.
pub open spec fn spec_match_entry(d: NodeView, pattern: Seq<char>) -> Option<Seq<char>> {
    if d.child(pattern) is Some {
        Some(pattern)
    } else if pattern.len() > 0 && pattern.last() == '*' {
        let i = spec_first_prefix_from(d.children, pattern.drop_last(), 0);
        if i == -1 {
            None
        } else {
            Some(d.children[i].name)
        }
    } else {
        None
    }
}

impl FileSystem {
    /// Resolve `pattern` against the current directory: the name itself
    /// when it exists, else the first name matching a trailing-star
    /// prefix pattern.
    pub fn match_entry(&self, pattern: &str) -> (r: Option<String>)
        requires
            self.wf(),
        ensures
            match r {
                Some(name) => spec_match_entry(self.cwd_dir(), pattern@) == Some(name@),
                None => spec_match_entry(self.cwd_dir(), pattern@) is None,
            },
    {
        let dir = match dir_at(&self.root, self.current_path.as_slice(), 0) {
            Some(d) => d,
            None => &self.root,
        };
        if dir.child_index(pattern).is_some() {
            return Some(pattern.to_owned());
        }
        let n = pattern.unicode_len();
        if n > 0 && pattern.get_char(n - 1) == '*' {
            let chars = crate::text::str_to_chars(pattern);
            let prefix_chars = crate::text::copy_range(&chars, 0, n - 1);
            let prefix = crate::text::chars_to_string(&prefix_chars);
            proof {
                assert(prefix@ =~= pattern@.drop_last());
                lemma_children_view(dir.children@);
            }
            let count = dir.children.len();
            let mut i: usize = 0;
            while i < count
                invariant
                    count == dir@.children.len(),
                    count == dir.children@.len(),
                    i <= count,
                    prefix@ == pattern@.drop_last(),
                    spec_first_prefix_from(dir@.children, prefix@, 0) == spec_first_prefix_from(
                        dir@.children,
                        prefix@,
                        i as int,
                    ),
                decreases count - i,
            {
                proof {
                    lemma_children_view(dir.children@);
                }
                if str_starts_with(dir.children[i].name.as_str(), prefix.as_str()) {
                    return Some(dir.children[i].name.clone());
                }
                i = i + 1;
            }
            None
        } else {
            None
        }
    }
}

} // verus!
