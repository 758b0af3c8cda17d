//! The filter engine: a depth-first walk over a built tree that collects the
//! names of the entries accepted by a set of predicates.
use crate::filter::{any_match, matches_any, Filter};
use crate::node::{INode, NodeView};
use vstd::prelude::*;

verus! {

/// The entries that a walk over the given siblings tests, in the order in
/// which it tests them: each sibling in turn, preceded by what lies below it.
pub open spec fn traversal_of(siblings: Seq<NodeView>) -> Seq<NodeView>
    decreases siblings,
{
    if siblings.len() == 0 {
        Seq::empty()
    } else {
        traversal_of(siblings.drop_last()) + visit(siblings.last())
    }
}

/// The entries that a walk tests when it comes to `node`: what lies below it
/// if it is a directory, then `node` itself. A file is tested and never
/// descended into.
pub open spec fn visit(node: NodeView) -> Seq<NodeView>
    decreases node,
{
    if node.is_directory {
        traversal_of(node.children).push(node)
    } else {
        seq![node]
    }
}

/// The entries that a query on the tree under `root` tests, in order. The
/// root itself is not among them.
pub open spec fn traversal(root: NodeView) -> Seq<NodeView> {
    traversal_of(root.children)
}

/// The test that a predicate set applies to an entry.
pub open spec fn accepted_by<F: Filter>(filters: Seq<F>) -> spec_fn(NodeView) -> bool {
    |node: NodeView| any_match(filters, node)
}

/// Reads the name off an entry.
pub open spec fn name_of() -> spec_fn(NodeView) -> Seq<char> {
    |node: NodeView| node.name
}

/// The names of those of `nodes` that pass the test `accept`, in the order of
/// `nodes` and once for each such entry.
pub open spec fn accepted_names(nodes: Seq<NodeView>, accept: spec_fn(NodeView) -> bool) -> Seq<
    Seq<char>,
> {
    nodes.filter(accept).map_values(name_of())
}

/// What a query with `filters` on the tree under `root` returns.
pub open spec fn matching_names<F: Filter>(root: NodeView, filters: Seq<F>) -> Seq<Seq<char>> {
    accepted_names(traversal(root), accepted_by(filters))
}

/// The strings that a sequence of string slices holds.
pub open spec fn names_of(names: Seq<&str>) -> Seq<Seq<char>> {
    names.map_values(|name: &str| name@)
}

/// The accepted names of a concatenation are those of its parts, concatenated.
pub proof fn lemma_accepted_names_add(
    front: Seq<NodeView>,
    back: Seq<NodeView>,
    accept: spec_fn(NodeView) -> bool,
)
    ensures
        accepted_names(front + back, accept) == accepted_names(front, accept) + accepted_names(
            back,
            accept,
        ),
{
    Seq::filter_distributes_over_add(front, back, accept);
    assert(accepted_names(front + back, accept) =~= accepted_names(front, accept) + accepted_names(
        back,
        accept,
    ));
}

/// A single entry contributes its name if it passes the test, and nothing
/// otherwise.
pub proof fn lemma_accepted_names_one(node: NodeView, accept: spec_fn(NodeView) -> bool)
    ensures
        accepted_names(seq![node], accept) == (if accept(node) {
            seq![node.name]
        } else {
            Seq::empty()
        }),
{
    let none = Seq::<NodeView>::empty();
    assert(seq![node] =~= none.push(node));
    none.lemma_filter_len(accept);
    none.lemma_filter_push(node, accept);
    assert(accepted_names(seq![node], accept) =~= if accept(node) {
        seq![node.name]
    } else {
        Seq::empty()
    });
}

/// One step of the walk: after `siblings`, the entry `next` adds what a query
/// below it reports if it is a directory, and then its own name if at least
/// one predicate accepts it.
pub proof fn lemma_walk_step<F: Filter>(siblings: Seq<NodeView>, next: NodeView, filters: Seq<F>)
    ensures
        accepted_names(traversal_of(siblings.push(next)), accepted_by(filters)) == accepted_names(
            traversal_of(siblings),
            accepted_by(filters),
        ) + (if next.is_directory {
            matching_names(next, filters)
        } else {
            Seq::empty()
        }) + (if any_match(filters, next) {
            seq![next.name]
        } else {
            Seq::empty()
        }),
{
    let accept = accepted_by(filters);
    let below = if next.is_directory {
        traversal(next)
    } else {
        Seq::empty()
    };
    assert(siblings.push(next).drop_last() =~= siblings);
    assert(visit(next) =~= below + seq![next]);
    lemma_accepted_names_add(traversal_of(siblings), visit(next), accept);
    lemma_accepted_names_add(below, seq![next], accept);
    lemma_accepted_names_one(next, accept);
    if !next.is_directory {
        below.lemma_filter_len(accept);
        assert(accepted_names(below, accept) =~= Seq::empty());
    }
    assert(accepted_names(traversal_of(siblings), accept) + accepted_names(visit(next), accept)
        =~= accepted_names(traversal_of(siblings), accept) + accepted_names(below, accept)
        + accepted_names(seq![next], accept));
}

/// A tree held for querying.
pub struct FileSystem {
    root: INode,
}

impl View for FileSystem {
    type V = NodeView;

    /// The model of the tree that is held.
    closed spec fn view(&self) -> NodeView {
        self.root@
    }
}

impl FileSystem {
    /// Takes a built tree. Queries test what lies below `root`, never `root` itself.
    pub fn new(root: INode) -> (fs: Self)
        ensures
            fs@ == root@,
    {
        FileSystem { root }
    }

    /// Collects, from what lies below `inode`, the names of the entries that
    /// at least one of `filters` accepts.
    fn filter_inodes<'a, F: Filter>(&'a self, inode: &'a INode, filters: &Vec<F>) -> (results: Vec<
        &'a str,
    >)
        ensures
            names_of(results@) == matching_names(inode@, filters@),
        decreases inode@,
    {
        let mut results: Vec<&'a str> = Vec::new();
        let children = inode.children();
        let mut i: usize = 0;
        assert(inode@.children.take(0) =~= Seq::empty());
        assert(names_of(results@) =~= Seq::empty());
        while i < children.len()
            invariant
                i <= children.len(),
                children@.len() == inode@.children.len(),
                forall|j: int|
                    0 <= j < children@.len() ==> (#[trigger] children@[j])@ == inode@.children[j],
                names_of(results@) == accepted_names(
                    traversal_of(inode@.children.take(i as int)),
                    accepted_by(filters@),
                ),
            decreases children.len() - i,
        {
            let n = &children[i];
            proof {
                lemma_walk_step(inode@.children.take(i as int), n@, filters@);
                assert(inode@.children.take(i + 1) =~= inode@.children.take(i as int).push(n@));
            }
            if n.is_directory() {
                let ghost above = results@;
                let mut below = self.filter_inodes(n, filters);
                results.append(&mut below);
                assert(names_of(results@) =~= names_of(above) + matching_names(n@, filters@));
            }
            if matches_any(filters, n) {
                let ghost before = results@;
                results.push(n.name());
                assert(names_of(results@) =~= names_of(before).push(n@.name));
            }
            i += 1;
        }
        assert(inode@.children.take(i as int) =~= inode@.children);
        results
    }

    /// Returns the names of the entries below the root that at least one of
    /// `filters` accepts: in the order of a depth-first walk that takes the
    /// children in insertion order and reports a directory after what lies
    /// below it, each accepted entry once. The root is never tested, and a
    /// file is never descended into.
    pub fn filter<'a, F: Filter>(&'a self, filters: &Vec<F>) -> (names: Vec<&'a str>)
        ensures
            names_of(names@) == matching_names(self@, filters@),
    {
        self.filter_inodes(&self.root, filters)
    }
}

} // verus!
