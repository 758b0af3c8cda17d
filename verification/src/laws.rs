//! General facts about queries. Each is proved from the definitions that the
//! contracts of the functions use.
use crate::filesystem::{
    accepted_by, accepted_names, lemma_accepted_names_add, lemma_accepted_names_one,
    matching_names, names_of, traversal, traversal_of, visit, FileSystem,
};
use crate::filter::{
    any_match, rules_of, DateFilter, ExtensionFilter, Filter, Predicate, SizeFilter,
};
use crate::node::NodeView;
use vstd::prelude::*;

verus! {

/// `node` lies below `root`, at any depth.
pub open spec fn is_descendant(root: NodeView, node: NodeView) -> bool
    decreases root,
{
    exists|i: int|
        0 <= i < root.children.len() && ((#[trigger] root.children[i]) == node || is_descendant(
            root.children[i],
            node,
        ))
}

/// `node` lies below `root`, and every entry between the two is a directory.
pub open spec fn is_reachable(root: NodeView, node: NodeView) -> bool
    decreases root, 0nat,
{
    exists|i: int| 0 <= i < root.children.len() && is_found_at(#[trigger] root.children[i], node)
}

/// `node` is `entry`, or `entry` is a directory from which `node` can be
/// reached.
pub open spec fn is_found_at(entry: NodeView, node: NodeView) -> bool
    decreases entry, 1nat,
{
    entry == node || (entry.is_directory && is_reachable(entry, node))
}

/// `node` is found at one of `siblings`.
pub open spec fn is_found_among(siblings: Seq<NodeView>, node: NodeView) -> bool {
    exists|i: int| 0 <= i < siblings.len() && is_found_at(#[trigger] siblings[i], node)
}

/// A walk over siblings tests exactly the entries that are found at one of
/// them.
pub proof fn lemma_traversal_of_tests_found(siblings: Seq<NodeView>, node: NodeView)
    ensures
        traversal_of(siblings).contains(node) <==> is_found_among(siblings, node),
    decreases siblings, 0nat,
{
    if siblings.len() > 0 {
        let front = siblings.drop_last();
        let last = siblings.last();
        lemma_traversal_of_tests_found(front, node);
        lemma_visit_tests_found(last, node);
        vstd::seq_lib::lemma_seq_concat_contains_all_elements(
            traversal_of(front),
            visit(last),
            node,
        );
        if is_found_among(siblings, node) {
            let i = choose|i: int|
                0 <= i < siblings.len() && is_found_at(#[trigger] siblings[i], node);
            if i < front.len() {
                assert(front[i] == siblings[i]);
            }
        }
    }
}

/// When a walk comes to `entry`, it tests exactly the entries that are found
/// at `entry`.
pub proof fn lemma_visit_tests_found(entry: NodeView, node: NodeView)
    ensures
        visit(entry).contains(node) <==> is_found_at(entry, node),
    decreases entry, 1nat,
{
    if entry.is_directory {
        lemma_traversal_of_tests_found(entry.children, node);
        vstd::seq_lib::lemma_seq_contains_after_push(traversal_of(entry.children), entry, node);
    } else {
        assert(seq![entry][0] == entry);
    }
}

/// A query tests exactly the entries that can be reached from the root
/// through directories.
pub proof fn lemma_traversal_tests_reachable(root: NodeView, node: NodeView)
    ensures
        traversal(root).contains(node) <==> is_reachable(root, node),
{
    lemma_traversal_of_tests_found(root.children, node);
}

/// In a tree in which only directories have children, the entries that can be
/// reached through directories are all the entries below the root.
pub proof fn lemma_reachable_is_descendant(root: NodeView, node: NodeView)
    requires
        forall|i: int| 0 <= i < root.children.len() ==> (#[trigger] root.children[i]).well_formed(),
    ensures
        is_reachable(root, node) <==> is_descendant(root, node),
    decreases root,
{
    assert forall|i: int| 0 <= i < root.children.len() implies (is_found_at(
        #[trigger] root.children[i],
        node,
    ) <==> root.children[i] == node || is_descendant(root.children[i], node)) by {
        if root.children[i].is_directory {
            lemma_reachable_is_descendant(root.children[i], node);
        }
    }
}

/// A name is among the accepted names of `nodes` exactly if one of `nodes`
/// has that name and passes the test.
pub proof fn lemma_accepted_names_contains(
    nodes: Seq<NodeView>,
    accept: spec_fn(NodeView) -> bool,
    name: Seq<char>,
)
    ensures
        accepted_names(nodes, accept).contains(name) <==> exists|i: int|
            0 <= i < nodes.len() && accept(#[trigger] nodes[i]) && nodes[i].name == name,
    decreases nodes.len(),
{
    if nodes.len() > 0 {
        let front = nodes.drop_last();
        let last = nodes.last();
        assert(nodes =~= front + seq![last]);
        lemma_accepted_names_add(front, seq![last], accept);
        lemma_accepted_names_one(last, accept);
        lemma_accepted_names_contains(front, accept, name);
        vstd::seq_lib::lemma_seq_concat_contains_all_elements(
            accepted_names(front, accept),
            accepted_names(seq![last], accept),
            name,
        );
        if accepted_names(front, accept).contains(name) {
            let i = choose|i: int|
                0 <= i < front.len() && accept(#[trigger] front[i]) && front[i].name == name;
            assert(nodes[i] == front[i]);
        }
        if exists|i: int|
            0 <= i < nodes.len() && accept(#[trigger] nodes[i]) && nodes[i].name == name {
            let i = choose|i: int|
                0 <= i < nodes.len() && accept(#[trigger] nodes[i]) && nodes[i].name == name;
            if i < front.len() {
                assert(front[i] == nodes[i]);
            } else {
                assert(seq![last.name][0] == name);
            }
        }
    }
}

/// A query reports a name exactly if an entry that can be reached from the
/// root through directories has that name and is accepted by at least one
/// predicate.
pub proof fn lemma_filter_reports_reachable_matches<F: Filter>(
    root: NodeView,
    filters: Seq<F>,
    name: Seq<char>,
)
    ensures
        matching_names(root, filters).contains(name) <==> exists|node: NodeView|
            #[trigger] is_reachable(root, node) && node.name == name && any_match(filters, node),
{
    let nodes = traversal(root);
    lemma_accepted_names_contains(nodes, accepted_by(filters), name);
    if matching_names(root, filters).contains(name) {
        let i = choose|i: int|
            0 <= i < nodes.len() && accepted_by(filters)(#[trigger] nodes[i]) && nodes[i].name
                == name;
        assert(nodes.contains(nodes[i]));
        lemma_traversal_tests_reachable(root, nodes[i]);
    }
    if exists|node: NodeView|
        #[trigger] is_reachable(root, node) && node.name == name && any_match(filters, node) {
        let node = choose|node: NodeView|
            #[trigger] is_reachable(root, node) && node.name == name && any_match(filters, node);
        lemma_traversal_tests_reachable(root, node);
        let i = choose|i: int| 0 <= i < nodes.len() && nodes[i] == node;
        assert(accepted_by(filters)(nodes[i]));
    }
}

/// In a tree in which only directories have children, a query reports a
/// name exactly if an entry below the root has that name and is accepted by
/// at least one predicate.
pub proof fn lemma_filter_reports_matching_descendants<F: Filter>(
    root: NodeView,
    filters: Seq<F>,
    name: Seq<char>,
)
    requires
        forall|i: int| 0 <= i < root.children.len() ==> (#[trigger] root.children[i]).well_formed(),
    ensures
        matching_names(root, filters).contains(name) <==> exists|node: NodeView|
            #[trigger] is_descendant(root, node) && node.name == name && any_match(filters, node),
{
    lemma_filter_reports_reachable_matches(root, filters, name);
    assert forall|node: NodeView| is_reachable(root, node) <==> is_descendant(root, node) by {
        lemma_reachable_is_descendant(root, node);
    }
}

/// Without predicates a query reports nothing, whatever the tree.
pub proof fn lemma_no_filters_no_names<F: Filter>(root: NodeView, filters: Seq<F>)
    requires
        filters.len() == 0,
    ensures
        matching_names(root, filters) == Seq::<Seq<char>>::empty(),
{
    traversal(root).lemma_all_neg_filter_empty(accepted_by(filters));
}

/// On a root without children a query reports nothing, whatever the
/// predicates.
pub proof fn lemma_no_children_no_names<F: Filter>(root: NodeView, filters: Seq<F>)
    requires
        root.children.len() == 0,
    ensures
        matching_names(root, filters) == Seq::<Seq<char>>::empty(),
{
}

/// A walk that comes to a file tests the file and nothing else, whatever the
/// file holds as children: a root whose only child is a file yields that
/// file's name or nothing.
pub proof fn lemma_file_is_not_descended_into<F: Filter>(
    root: NodeView,
    file: NodeView,
    filters: Seq<F>,
)
    requires
        root.children == seq![file],
        !file.is_directory,
    ensures
        visit(file) == seq![file],
        traversal(root) == seq![file],
        matching_names(root, filters) == (if any_match(filters, file) {
            seq![file.name]
        } else {
            Seq::empty()
        }),
{
    assert(root.children.drop_last() =~= Seq::empty());
    assert(traversal(root) =~= traversal_of(Seq::empty()) + visit(file));
    lemma_accepted_names_one(file, accepted_by(filters));
}

/// A size filter accepts an entry exactly if the entry is larger than the
/// threshold: an entry of the threshold's size is left out, one that is a
/// byte larger is taken.
pub proof fn lemma_size_filter_boundary(filter: SizeFilter, node: NodeView)
    ensures
        filter.matches(node) <==> node.size > filter@,
        node.size == filter@ ==> !filter.matches(node),
        node.size == filter@ + 1 ==> filter.matches(node),
{
}

/// A date filter accepts an entry exactly if the entry was created after
/// the threshold: an entry created at the threshold is left out, one
/// created a unit later is taken.
pub proof fn lemma_date_filter_boundary(filter: DateFilter, node: NodeView)
    ensures
        filter.matches(node) <==> node.create_time > filter@,
        node.create_time == filter@ ==> !filter.matches(node),
        node.create_time == filter@ + 1 ==> filter.matches(node),
{
}

/// An extension filter accepts an entry exactly if the entry's extension is
/// the one asked for, character by character: an extension that is longer,
/// shorter or empty in its place is not accepted.
pub proof fn lemma_extension_filter_is_exact(filter: ExtensionFilter, node: NodeView)
    ensures
        filter.matches(node) <==> node.extension == filter@,
        node.extension.len() != filter@.len() ==> !filter.matches(node),
{
}

/// A set of the library's own predicates accepts an entry exactly if the
/// entry satisfies one of the rules that the predicates apply.
pub proof fn lemma_predicates_accept_by_rule(filters: Seq<Predicate>, node: NodeView)
    ensures
        any_match(filters, node) <==> exists|i: int|
            0 <= i < filters.len() && (#[trigger] rules_of(filters)[i]).accepts(node),
{
    if any_match(filters, node) {
        let i = choose|i: int| 0 <= i < filters.len() && (#[trigger] filters[i]).matches(node);
        assert(rules_of(filters)[i].accepts(node));
    }
    if exists|i: int| 0 <= i < filters.len() && (#[trigger] rules_of(filters)[i]).accepts(node) {
        let i = choose|i: int|
            0 <= i < filters.len() && (#[trigger] rules_of(filters)[i]).accepts(node);
        assert(filters[i].matches(node));
    }
}

/// Two queries on the same tree with the same predicates report the same
/// names in the same order: whatever `filter` may return for given
/// arguments holds one and the same sequence of names.
pub proof fn lemma_filter_is_repeatable<F: Filter>(
    fs: FileSystem,
    filters: Vec<F>,
    first: Vec<&str>,
    second: Vec<&str>,
)
    requires
        call_ensures(FileSystem::filter::<F>, (&fs, &filters), first),
        call_ensures(FileSystem::filter::<F>, (&fs, &filters), second),
    ensures
        names_of(first@) == names_of(second@),
{
}

} // verus!
