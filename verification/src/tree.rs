//! What an OSC address space is, and what its operations do to it.
use vstd::prelude::*;

use crate::osctype::OscTypeView;
use crate::path;
use crate::value::{AccessMode, OscValueView, RangeView};

verus! {

/// What an OSC node is.
#[verifier::ext_equal]
pub struct NodeView {
    pub full_path: Seq<char>,
    pub contents: Map<Seq<char>, NodeView>,
    pub type_tag: Option<Seq<OscTypeView>>,
    pub description: Option<Seq<char>>,
    pub access: AccessMode,
    pub value: Option<Seq<OscValueView>>,
    pub range: Option<Seq<RangeView>>,
}

/// The node at `full_path` that holds nothing.
pub open spec fn blank(full_path: Seq<char>) -> NodeView {
    NodeView {
        full_path,
        contents: Map::empty(),
        type_tag: None,
        description: None,
        access: AccessMode::NoAccess,
        value: None,
        range: None,
    }
}

/// The node at `full_path` that holds nothing but a description.
pub open spec fn described(full_path: Seq<char>, description: Seq<char>) -> NodeView {
    NodeView { description: Some(description), ..blank(full_path) }
}

/// `first` where it is there, else `second`.
pub open spec fn either<T>(first: Option<T>, second: Option<T>) -> Option<T> {
    match first {
        Some(_) => first,
        None => second,
    }
}

/// The node that `segs` leads to from `node`.
pub open spec fn lookup(node: NodeView, segs: Seq<Seq<char>>) -> Option<NodeView>
    decreases segs.len(),
{
    if segs.len() == 0 {
        Some(node)
    } else if node.contents.dom().contains(segs[0]) {
        lookup(node.contents[segs[0]], segs.skip(1))
    } else {
        None
    }
}

/// `node` with `new` in the place that `segs` leads to.
pub open spec fn replaced(node: NodeView, segs: Seq<Seq<char>>, new: NodeView) -> NodeView
    decreases segs.len(),
{
    if segs.len() == 0 {
        new
    } else {
        NodeView {
            contents: node.contents.insert(
                segs[0],
                replaced(node.contents[segs[0]], segs.skip(1), new),
            ),
            ..node
        }
    }
}

/// `node` with what `props` sets. The children of both stay, those of `props` first.
pub open spec fn merged(node: NodeView, props: NodeView) -> NodeView {
    NodeView {
        full_path: props.full_path,
        contents: node.contents.union_prefer_right(props.contents),
        type_tag: either(props.type_tag, node.type_tag),
        description: either(props.description, node.description),
        access: if props.access != AccessMode::NoAccess {
            props.access
        } else {
            node.access
        },
        value: either(props.value, node.value),
        range: either(props.range, node.range),
    }
}

/// The child of `node` called `name`, or a blank one at its path where there is none.
pub open spec fn child_or_blank(node: NodeView, at: Seq<char>, name: Seq<char>) -> NodeView {
    if node.contents.dom().contains(name) {
        node.contents[name]
    } else {
        blank(path::child_path(at, name))
    }
}

/// `node`, which is at `at`, with `props` merged into the place that `segs` leads to. Nodes that
/// are missing on the way are made.
pub open spec fn grown(
    node: NodeView,
    at: Seq<char>,
    segs: Seq<Seq<char>>,
    props: NodeView,
) -> NodeView
    decreases segs.len(),
{
    if segs.len() == 0 {
        merged(node, props)
    } else {
        let name = segs[0];
        let child = child_or_blank(node, at, name);
        NodeView {
            contents: node.contents.insert(
                name,
                grown(child, path::child_path(at, name), segs.skip(1), props),
            ),
            ..node
        }
    }
}

/// `node` without the node that `segs` leads to.
pub open spec fn pruned(node: NodeView, segs: Seq<Seq<char>>) -> NodeView
    decreases segs.len(),
{
    if segs.len() == 0 || !node.contents.dom().contains(segs[0]) {
        node
    } else if segs.len() == 1 {
        NodeView { contents: node.contents.remove(segs[0]), ..node }
    } else {
        NodeView {
            contents: node.contents.insert(
                segs[0],
                pruned(node.contents[segs[0]], segs.skip(1)),
            ),
            ..node
        }
    }
}

/// Two nodes that agree in every part are the same.
pub proof fn lemma_same_node(a: NodeView, b: NodeView)
    requires
        a.full_path == b.full_path,
        a.contents == b.contents,
        a.type_tag == b.type_tag,
        a.description == b.description,
        a.access == b.access,
        a.value == b.value,
        a.range == b.range,
    ensures
        a == b,
{
}

/// `root` with the node `props` added at the place that its path names.
pub open spec fn with_node(root: NodeView, props: NodeView) -> NodeView {
    grown(root, seq!['/'], path::segments(props.full_path), props)
}

/// The node that `segs` leads to from `node`, which is at `at`, or a blank one at that place.
pub open spec fn found_or_blank(node: NodeView, at: Seq<char>, segs: Seq<Seq<char>>) -> NodeView {
    match lookup(node, segs) {
        Some(found) => found,
        None => blank(path::path_from(at, segs)),
    }
}

/// `new` is `was` but for the children.
pub open spec fn same_but_contents(new: NodeView, was: NodeView) -> bool {
    new == (NodeView { contents: new.contents, ..was })
}

/// Neither of `p` and `q` leads through the other.
pub open spec fn apart(p: Seq<Seq<char>>, q: Seq<Seq<char>>) -> bool {
    !p.is_prefix_of(q) && !q.is_prefix_of(p)
}

/// `p` leads through `q` and on.
pub open spec fn passes(p: Seq<Seq<char>>, q: Seq<Seq<char>>) -> bool {
    q.is_prefix_of(p) && q.len() < p.len()
}

proof fn lemma_prefix_step(p: Seq<Seq<char>>, q: Seq<Seq<char>>)
    requires
        p.len() > 0,
        q.len() > 0,
    ensures
        p.is_prefix_of(q) <==> p[0] == q[0] && p.skip(1).is_prefix_of(q.skip(1)),
{
    let p1 = p.skip(1);
    let q1 = q.skip(1);
    if p.is_prefix_of(q) {
        assert forall|i: int| 0 <= i < p1.len() implies p1[i] == q1[i] by {
            assert(p[i + 1] == q.subrange(0, p.len() as int)[i + 1]);
        }
        assert(p[0] == q.subrange(0, p.len() as int)[0]);
        assert(p1 =~= q1.subrange(0, p1.len() as int));
    }
    if p[0] == q[0] && p1.is_prefix_of(q1) {
        assert forall|i: int| 0 <= i < p.len() implies p[i] == q[i] by {
            if i > 0 {
                assert(p1[i - 1] == q1.subrange(0, p1.len() as int)[i - 1]);
            }
        }
        assert(p =~= q.subrange(0, p.len() as int));
    }
}

proof fn lemma_grown_at(node: NodeView, at: Seq<char>, p: Seq<Seq<char>>, props: NodeView)
    ensures
        lookup(grown(node, at, p, props), p) == Some(merged(found_or_blank(node, at, p), props)),
    decreases p.len(),
{
    if p.len() > 0 {
        let child = child_or_blank(node, at, p[0]);
        let below = path::child_path(at, p[0]);
        lemma_grown_at(child, below, p.skip(1), props);
        if !node.contents.dom().contains(p[0]) {
            lemma_blank_lookup(below, p.skip(1));
        }
    }
}

proof fn lemma_blank_lookup(at: Seq<char>, q: Seq<Seq<char>>)
    ensures
        q.len() == 0 ==> lookup(blank(at), q) == Some(blank(at)) && path::path_from(at, q) == at,
        q.len() > 0 ==> lookup(blank(at), q) is None,
{
}

proof fn lemma_grown_apart(
    node: NodeView,
    at: Seq<char>,
    p: Seq<Seq<char>>,
    props: NodeView,
    q: Seq<Seq<char>>,
)
    requires
        apart(p, q),
    ensures
        lookup(grown(node, at, p, props), q) == lookup(node, q),
    decreases p.len(),
{
    if p.len() == 0 {
        assert(p =~= q.subrange(0, 0));
    } else if q.len() == 0 {
        assert(q =~= p.subrange(0, 0));
    } else {
        lemma_prefix_step(p, q);
        lemma_prefix_step(q, p);
        if p[0] == q[0] {
            let child = child_or_blank(node, at, p[0]);
            let below = path::child_path(at, p[0]);
            lemma_grown_apart(child, below, p.skip(1), props, q.skip(1));
            if !node.contents.dom().contains(p[0]) {
                lemma_blank_lookup(below, q.skip(1));
                if q.skip(1).len() == 0 {
                    assert(q.skip(1) =~= p.skip(1).subrange(0, 0));
                }
            }
        }
    }
}

proof fn lemma_grown_on_the_way(
    node: NodeView,
    at: Seq<char>,
    p: Seq<Seq<char>>,
    props: NodeView,
    q: Seq<Seq<char>>,
)
    requires
        passes(p, q),
    ensures
        lookup(grown(node, at, p, props), q) matches Some(new) && {
            let was = found_or_blank(node, at, q);
            &&& same_but_contents(new, was)
            &&& new.contents.dom() == was.contents.dom().insert(p[q.len() as int])
            &&& new.contents.remove(p[q.len() as int]) == was.contents.remove(p[q.len() as int])
        },
    decreases p.len(),
{
    let child = child_or_blank(node, at, p[0]);
    let below = path::child_path(at, p[0]);
    let all = grown(node, at, p, props);
    if q.len() == 0 {
        assert(all.contents.remove(p[0]) =~= node.contents.remove(p[0]));
        assert(all.contents.dom() =~= node.contents.dom().insert(p[0]));
        lemma_same_node(all, NodeView { contents: all.contents, ..node });
    } else {
        lemma_prefix_step(q, p);
        lemma_grown_on_the_way(child, below, p.skip(1), props, q.skip(1));
        assert(p.skip(1)[q.skip(1).len() as int] == p[q.len() as int]);
        if !node.contents.dom().contains(p[0]) {
            lemma_blank_lookup(below, q.skip(1));
        }
    }
}

proof fn lemma_grown_beyond(
    node: NodeView,
    at: Seq<char>,
    p: Seq<Seq<char>>,
    props: NodeView,
    q: Seq<Seq<char>>,
)
    requires
        passes(q, p),
    ensures
        lookup(grown(node, at, p, props), q) == (if props.contents.dom().contains(
            q[p.len() as int],
        ) {
            lookup(props.contents[q[p.len() as int]], q.skip((p.len() + 1) as int))
        } else {
            lookup(node, q)
        }),
    decreases p.len(),
{
    if p.len() > 0 {
        let child = child_or_blank(node, at, p[0]);
        let below = path::child_path(at, p[0]);
        lemma_prefix_step(p, q);
        lemma_grown_beyond(child, below, p.skip(1), props, q.skip(1));
        assert(q.skip(1)[p.skip(1).len() as int] == q[p.len() as int]);
        assert(q.skip(1).skip((p.skip(1).len() + 1) as int) =~= q.skip((p.len() + 1) as int));
        if !node.contents.dom().contains(p[0]) {
            lemma_blank_lookup(below, q.skip(1));
        }
    } else {
        assert(q.skip((p.len() + 1) as int) =~= q.skip(1));
    }
}

proof fn lemma_grown_twice(node: NodeView, at: Seq<char>, p: Seq<Seq<char>>, props: NodeView)
    ensures
        grown(grown(node, at, p, props), at, p, props) == grown(node, at, p, props),
    decreases p.len(),
{
    let once = grown(node, at, p, props);
    let twice = grown(once, at, p, props);
    if p.len() == 0 {
        assert(twice.contents =~= once.contents);
    } else {
        let child = child_or_blank(node, at, p[0]);
        lemma_grown_twice(child, path::child_path(at, p[0]), p.skip(1), props);
        assert(twice.contents =~= once.contents);
    }
    lemma_same_node(twice, once);
}

proof fn lemma_pruned_at(node: NodeView, p: Seq<Seq<char>>, q: Seq<Seq<char>>)
    requires
        p.len() > 0,
        p.is_prefix_of(q),
    ensures
        lookup(pruned(node, p), q) is None,
    decreases p.len(),
{
    lemma_prefix_step(p, q);
    if node.contents.dom().contains(p[0]) && p.len() > 1 {
        lemma_pruned_at(node.contents[p[0]], p.skip(1), q.skip(1));
    }
}

proof fn lemma_pruned_apart(node: NodeView, p: Seq<Seq<char>>, q: Seq<Seq<char>>)
    requires
        apart(p, q),
    ensures
        lookup(pruned(node, p), q) == lookup(node, q),
    decreases p.len(),
{
    if p.len() == 0 {
        assert(p =~= q.subrange(0, 0));
    } else if q.len() == 0 {
        assert(q =~= p.subrange(0, 0));
    } else {
        lemma_prefix_step(p, q);
        lemma_prefix_step(q, p);
        if p[0] == q[0] && node.contents.dom().contains(p[0]) {
            if p.len() == 1 {
                assert(p.skip(1) =~= q.skip(1).subrange(0, 0));
            } else {
                lemma_pruned_apart(node.contents[p[0]], p.skip(1), q.skip(1));
            }
        }
    }
}

proof fn lemma_pruned_on_the_way(node: NodeView, p: Seq<Seq<char>>, q: Seq<Seq<char>>)
    requires
        passes(p, q),
    ensures
        lookup(pruned(node, p), q) is Some == lookup(node, q) is Some,
        lookup(node, q) matches Some(was) ==> lookup(pruned(node, p), q) matches Some(new) && {
            let name = p[q.len() as int];
            &&& same_but_contents(new, was)
            &&& new.contents.remove(name) == was.contents.remove(name)
            &&& q.len() + 1 == p.len() ==> new.contents == was.contents.remove(name)
        },
    decreases p.len(),
{
    if !node.contents.dom().contains(p[0]) {
        if q.len() == 0 {
            assert(node.contents.remove(p[0]) =~= node.contents);
        } else {
            lemma_prefix_step(q, p);
        }
    } else if q.len() == 0 {
        let new = pruned(node, p);
        assert(new.contents.remove(p[0]) =~= node.contents.remove(p[0]));
        lemma_same_node(new, NodeView { contents: new.contents, ..node });
    } else {
        lemma_prefix_step(q, p);
        lemma_pruned_on_the_way(node.contents[p[0]], p.skip(1), q.skip(1));
        assert(p.skip(1)[q.skip(1).len() as int] == p[q.len() as int]);
    }
}

proof fn lemma_pruned_absent(node: NodeView, p: Seq<Seq<char>>)
    requires
        p.len() == 0 || lookup(node, p) is None,
    ensures
        pruned(node, p) == node,
    decreases p.len(),
{
    if p.len() > 0 && node.contents.dom().contains(p[0]) {
        lemma_pruned_absent(node.contents[p[0]], p.skip(1));
        assert(pruned(node, p).contents =~= node.contents);
        lemma_same_node(pruned(node, p), node);
    }
}

proof fn lemma_grown_then_pruned(
    node: NodeView,
    at: Seq<char>,
    p: Seq<Seq<char>>,
    props: NodeView,
)
    requires
        p.len() > 0,
        lookup(node, p) is None,
        lookup(node, p.drop_last()) is Some,
    ensures
        pruned(grown(node, at, p, props), p) == node,
    decreases p.len(),
{
    let all = grown(node, at, p, props);
    if p.len() == 1 {
        assert(lookup(node.contents[p[0]], p.skip(1)) is Some);
        assert(pruned(all, p).contents =~= node.contents);
    } else {
        assert(p.drop_last()[0] == p[0]);
        assert(p.drop_last().skip(1) =~= p.skip(1).drop_last());
        lemma_grown_then_pruned(
            node.contents[p[0]],
            path::child_path(at, p[0]),
            p.skip(1),
            props,
        );
        assert(pruned(all, p).contents =~= node.contents);
    }
    lemma_same_node(pruned(all, p), node);
}

proof fn lemma_replaced(node: NodeView, p: Seq<Seq<char>>, new: NodeView, q: Seq<Seq<char>>)
    requires
        lookup(node, p) is Some,
    ensures
        p.is_prefix_of(q) ==> lookup(replaced(node, p, new), q) == lookup(
            new,
            q.skip(p.len() as int),
        ),
        apart(p, q) ==> lookup(replaced(node, p, new), q) == lookup(node, q),
    decreases p.len(),
{
    if p.len() == 0 {
        assert(p =~= q.subrange(0, 0));
        assert(q.skip(0) =~= q);
    } else if q.len() == 0 {
        assert(q =~= p.subrange(0, 0));
    } else {
        lemma_prefix_step(p, q);
        lemma_prefix_step(q, p);
        lemma_replaced(node.contents[p[0]], p.skip(1), new, q.skip(1));
        if p.is_prefix_of(q) {
            assert(q.skip(1).skip(p.skip(1).len() as int) =~= q.skip(p.len() as int));
        }
    }
}

/// A node that was added is found at its path, merged with the one that was there.
pub proof fn law_added_node_is_found(root: NodeView, props: NodeView)
    ensures
        lookup(with_node(root, props), path::segments(props.full_path)) == Some(
            merged(found_or_blank(root, seq!['/'], path::segments(props.full_path)), props),
        ),
{
    lemma_grown_at(root, seq!['/'], path::segments(props.full_path), props);
}

/// Adding a node changes nothing at a path that does not lead through it and that it does not
/// lead through.
pub proof fn law_add_leaves_others(root: NodeView, props: NodeView, path: Seq<char>)
    requires
        apart(path::segments(props.full_path), path::segments(path)),
    ensures
        lookup(with_node(root, props), path::segments(path)) == lookup(root, path::segments(path)),
{
    lemma_grown_apart(
        root,
        seq!['/'],
        path::segments(props.full_path),
        props,
        path::segments(path),
    );
}

/// The nodes on the way to a node that was added stay as they were, or are blank ones at their
/// paths where there were none; each has the next name among its children, and its other
/// children as before.
pub proof fn law_add_keeps_the_way(root: NodeView, props: NodeView, path: Seq<char>)
    requires
        passes(path::segments(props.full_path), path::segments(path)),
    ensures
        lookup(with_node(root, props), path::segments(path)) matches Some(new) && {
            let was = found_or_blank(root, seq!['/'], path::segments(path));
            let next = path::segments(props.full_path)[path::segments(path).len() as int];
            &&& same_but_contents(new, was)
            &&& new.contents.dom() == was.contents.dom().insert(next)
            &&& new.contents.remove(next) == was.contents.remove(next)
        },
{
    lemma_grown_on_the_way(
        root,
        seq!['/'],
        path::segments(props.full_path),
        props,
        path::segments(path),
    );
}

/// Below a node that was added, what was there stays, except under the names of the children that
/// the added node brings: there stands what it brings.
pub proof fn law_add_keeps_children(root: NodeView, props: NodeView, path: Seq<char>)
    requires
        passes(path::segments(path), path::segments(props.full_path)),
    ensures
        ({
            let p = path::segments(props.full_path);
            let q = path::segments(path);
            let name = q[p.len() as int];
            lookup(with_node(root, props), q) == (if props.contents.dom().contains(name) {
                lookup(props.contents[name], q.skip((p.len() + 1) as int))
            } else {
                lookup(root, q)
            })
        }),
{
    lemma_grown_beyond(
        root,
        seq!['/'],
        path::segments(props.full_path),
        props,
        path::segments(path),
    );
}

/// Adding a node a second time changes nothing.
pub proof fn law_add_twice(root: NodeView, props: NodeView)
    ensures
        with_node(with_node(root, props), props) == with_node(root, props),
{
    lemma_grown_twice(root, seq!['/'], path::segments(props.full_path), props);
}

/// The root stays as it is but for its children, unless the node that is added names it.
pub proof fn law_root_stays(root: NodeView, props: NodeView)
    requires
        path::segments(props.full_path).len() > 0,
    ensures
        same_but_contents(with_node(root, props), root),
{
    let new = with_node(root, props);
    lemma_same_node(new, NodeView { contents: new.contents, ..root });
}

/// After a node was removed, nothing is found at its path or below.
pub proof fn law_removed_is_gone(root: NodeView, removed: Seq<char>, path: Seq<char>)
    requires
        path::segments(removed).len() > 0,
        path::segments(removed).is_prefix_of(path::segments(path)),
    ensures
        lookup(pruned(root, path::segments(removed)), path::segments(path)) is None,
{
    lemma_pruned_at(root, path::segments(removed), path::segments(path));
}

/// Removing a node changes nothing at a path that does not lead through it and that it does not
/// lead through.
pub proof fn law_remove_leaves_others(root: NodeView, removed: Seq<char>, path: Seq<char>)
    requires
        apart(path::segments(removed), path::segments(path)),
    ensures
        lookup(pruned(root, path::segments(removed)), path::segments(path)) == lookup(
            root,
            path::segments(path),
        ),
{
    lemma_pruned_apart(root, path::segments(removed), path::segments(path));
}

/// The nodes on the way to a node that was removed stay as they were, with their other children;
/// the last of them loses that one child.
pub proof fn law_remove_keeps_the_way(root: NodeView, removed: Seq<char>, path: Seq<char>)
    requires
        passes(path::segments(removed), path::segments(path)),
    ensures
        ({
            let p = path::segments(removed);
            let q = path::segments(path);
            let name = p[q.len() as int];
            &&& lookup(pruned(root, p), q) is Some == lookup(root, q) is Some
            &&& lookup(root, q) matches Some(was) ==> lookup(pruned(root, p), q) matches Some(new)
                && {
                &&& same_but_contents(new, was)
                &&& new.contents.remove(name) == was.contents.remove(name)
                &&& q.len() + 1 == p.len() ==> new.contents == was.contents.remove(name)
            }
        }),
{
    lemma_pruned_on_the_way(root, path::segments(removed), path::segments(path));
}

/// Removing at a path where nothing is, or the root, changes nothing.
pub proof fn law_remove_nothing(root: NodeView, path: Seq<char>)
    requires
        path::segments(path).len() == 0 || lookup(root, path::segments(path)) is None,
    ensures
        pruned(root, path::segments(path)) == root,
{
    lemma_pruned_absent(root, path::segments(path));
}

/// Removing a node that was just added below a node that was there brings the tree back.
pub proof fn law_remove_undoes_add(root: NodeView, props: NodeView)
    requires
        path::segments(props.full_path).len() > 0,
        lookup(root, path::segments(props.full_path)) is None,
        lookup(root, path::segments(props.full_path).drop_last()) is Some,
    ensures
        pruned(with_node(root, props), path::segments(props.full_path)) == root,
{
    lemma_grown_then_pruned(root, seq!['/'], path::segments(props.full_path), props);
}

/// What was written into a node in place is found at its path and below, and nothing changes at
/// paths apart from it.
pub proof fn law_change_in_place(
    root: NodeView,
    changed: Seq<char>,
    new: NodeView,
    path: Seq<char>,
)
    requires
        lookup(root, path::segments(changed)) is Some,
    ensures
        ({
            let p = path::segments(changed);
            let q = path::segments(path);
            &&& p.is_prefix_of(q) ==> lookup(replaced(root, p, new), q) == lookup(
                new,
                q.skip(p.len() as int),
            )
            &&& apart(p, q) ==> lookup(replaced(root, p, new), q) == lookup(root, q)
        }),
{
    lemma_replaced(root, path::segments(changed), new, path::segments(path));
}

/// Nothing leads to the node itself; one name leads to the child of that name, if there is one; and
/// names lead on from where the names before them have led.
pub proof fn law_names_lead_on(
    node: NodeView,
    name: Seq<char>,
    first: Seq<Seq<char>>,
    second: Seq<Seq<char>>,
)
    ensures
        lookup(node, Seq::empty()) == Some(node),
        lookup(node, seq![name]) == (if node.contents.dom().contains(name) {
            Some(node.contents[name])
        } else {
            None
        }),
        lookup(node, first + second) == (match lookup(node, first) {
            Some(found) => lookup(found, second),
            None => None,
        }),
    decreases first.len(),
{
    assert(seq![name].skip(1) =~= Seq::<Seq<char>>::empty());
    assert(seq![name][0] == name);
    reveal_with_fuel(lookup, 2);
    let all = first + second;
    if first.len() == 0 {
        assert(all =~= second);
    } else if node.contents.dom().contains(first[0]) {
        assert(all[0] == first[0]);
        assert(all.skip(1) =~= first.skip(1) + second);
        law_names_lead_on(node.contents[first[0]], name, first.skip(1), second);
    } else {
        assert(all[0] == first[0]);
    }
}

/// What an added node sets is found at its path afterwards, whatever was there: its path, its types,
/// its description, its value and its range, and its access mode unless that is none.
pub proof fn law_added_node_sets_what_it_brings(root: NodeView, props: NodeView)
    ensures
        lookup(with_node(root, props), path::segments(props.full_path)) matches Some(new) && {
            &&& new.full_path == props.full_path
            &&& props.type_tag is Some ==> new.type_tag == props.type_tag
            &&& props.description is Some ==> new.description == props.description
            &&& props.value is Some ==> new.value == props.value
            &&& props.range is Some ==> new.range == props.range
            &&& props.access != AccessMode::NoAccess ==> new.access == props.access
            &&& forall|name: Seq<char>| #[trigger]
                props.contents.dom().contains(name) ==> new.contents.dom().contains(name)
                    && new.contents[name] == props.contents[name]
        },
{
    law_added_node_is_found(root, props);
}

/// What an added node does not set stays as it was at its path, with the children that it does not
/// bring; and no other children come.
pub proof fn law_added_node_keeps_what_was_there(root: NodeView, props: NodeView, was: NodeView)
    requires
        lookup(root, path::segments(props.full_path)) == Some(was),
    ensures
        lookup(with_node(root, props), path::segments(props.full_path)) matches Some(new) && {
            &&& props.type_tag is None ==> new.type_tag == was.type_tag
            &&& props.description is None ==> new.description == was.description
            &&& props.value is None ==> new.value == was.value
            &&& props.range is None ==> new.range == was.range
            &&& props.access == AccessMode::NoAccess ==> new.access == was.access
            &&& forall|name: Seq<char>|
                was.contents.dom().contains(name) && !props.contents.dom().contains(name)
                    ==> #[trigger] new.contents.dom().contains(name) && new.contents[name]
                    == was.contents[name]
            &&& forall|name: Seq<char>| #[trigger]
                new.contents.dom().contains(name) ==> was.contents.dom().contains(name)
                    || props.contents.dom().contains(name)
        },
{
    law_added_node_is_found(root, props);
}

/// Where nothing was, an added node is found just as it is.
pub proof fn law_new_node_is_as_added(root: NodeView, props: NodeView)
    requires
        lookup(root, path::segments(props.full_path)) is None,
    ensures
        lookup(with_node(root, props), path::segments(props.full_path)) == Some(props),
{
    law_added_node_is_found(root, props);
    let new = lookup(with_node(root, props), path::segments(props.full_path))->0;
    assert(new.contents =~= props.contents);
    lemma_same_node(new, props);
}

/// A node that is made on the way to an added one holds nothing but its path, the slash-separated
/// names that lead to it, and the next node on the way.
pub proof fn law_made_nodes_are_blank(root: NodeView, props: NodeView, path: Seq<char>)
    requires
        passes(path::segments(props.full_path), path::segments(path)),
        lookup(root, path::segments(path)) is None,
    ensures
        lookup(with_node(root, props), path::segments(path)) matches Some(new) && {
            &&& new.full_path == path::path_from(seq!['/'], path::segments(path))
            &&& new.type_tag is None
            &&& new.description is None
            &&& new.access == AccessMode::NoAccess
            &&& new.value is None
            &&& new.range is None
            &&& new.contents.dom() == set![
                path::segments(props.full_path)[path::segments(path).len() as int],
            ]
        },
{
    law_add_keeps_the_way(root, props, path);
    let new = lookup(with_node(root, props), path::segments(path))->0;
    let next = path::segments(props.full_path)[path::segments(path).len() as int];
    assert(new.contents.dom() =~= set![next]);
}

/// The nodes on the way to an added one keep all that they hold, and every child but the one that
/// leads on.
pub proof fn law_nodes_on_the_way_stay(
    root: NodeView,
    props: NodeView,
    path: Seq<char>,
    was: NodeView,
    name: Seq<char>,
)
    requires
        passes(path::segments(props.full_path), path::segments(path)),
        lookup(root, path::segments(path)) == Some(was),
    ensures
        lookup(with_node(root, props), path::segments(path)) matches Some(new) && {
            let next = path::segments(props.full_path)[path::segments(path).len() as int];
            &&& new.full_path == was.full_path
            &&& new.type_tag == was.type_tag
            &&& new.description == was.description
            &&& new.access == was.access
            &&& new.value == was.value
            &&& new.range == was.range
            &&& new.contents.dom().contains(next)
            &&& name != next ==> new.contents.dom().contains(name) == was.contents.dom().contains(
                name,
            )
            &&& name != next && was.contents.dom().contains(name) ==> new.contents[name]
                == was.contents[name]
        },
{
    law_add_keeps_the_way(root, props, path);
    let new = lookup(with_node(root, props), path::segments(path))->0;
    let next = path::segments(props.full_path)[path::segments(path).len() as int];
    assert(new.contents.dom().contains(name) == was.contents.dom().insert(next).contains(name));
    if name != next && was.contents.dom().contains(name) {
        assert(new.contents.remove(next)[name] == was.contents.remove(next)[name]);
    }
}

proof fn lemma_replaced_on_the_way(
    node: NodeView,
    p: Seq<Seq<char>>,
    new: NodeView,
    q: Seq<Seq<char>>,
)
    requires
        passes(p, q),
        lookup(node, p) is Some,
    ensures
        lookup(node, q) matches Some(was) && lookup(replaced(node, p, new), q) matches Some(now) && {
            let name = p[q.len() as int];
            &&& same_but_contents(now, was)
            &&& now.contents.dom() == was.contents.dom()
            &&& now.contents.remove(name) == was.contents.remove(name)
        },
    decreases p.len(),
{
    if q.len() == 0 {
        let now = replaced(node, p, new);
        assert(now.contents.dom() =~= node.contents.dom());
        assert(now.contents.remove(p[0]) =~= node.contents.remove(p[0]));
        lemma_same_node(now, NodeView { contents: now.contents, ..node });
    } else {
        lemma_prefix_step(q, p);
        lemma_replaced_on_the_way(node.contents[p[0]], p.skip(1), new, q.skip(1));
        assert(p.skip(1)[q.skip(1).len() as int] == p[q.len() as int]);
    }
}

/// The nodes on the way to a node that is changed in place stay as they were, with the names of all
/// their children and every child but the one that leads on.
pub proof fn law_change_keeps_the_way(
    root: NodeView,
    changed: Seq<char>,
    new: NodeView,
    path: Seq<char>,
)
    requires
        passes(path::segments(changed), path::segments(path)),
        lookup(root, path::segments(changed)) is Some,
    ensures
        ({
            let p = path::segments(changed);
            let q = path::segments(path);
            lookup(root, q) matches Some(was) && lookup(replaced(root, p, new), q) matches Some(now)
                && {
                &&& same_but_contents(now, was)
                &&& now.contents.dom() == was.contents.dom()
                &&& now.contents.remove(p[q.len() as int]) == was.contents.remove(
                    p[q.len() as int],
                )
            }
        }),
{
    lemma_replaced_on_the_way(root, path::segments(changed), new, path::segments(path));
}

/// A node that holds nothing has its path and no more; a described one has its description beside.
pub proof fn law_blank_and_described(full_path: Seq<char>, description: Seq<char>)
    ensures
        ({
            let b = blank(full_path);
            &&& b.full_path == full_path
            &&& b.contents == Map::<Seq<char>, NodeView>::empty()
            &&& b.type_tag is None
            &&& b.description is None
            &&& b.access == AccessMode::NoAccess
            &&& b.value is None
            &&& b.range is None
        }),
        ({
            let d = described(full_path, description);
            &&& d.full_path == full_path
            &&& d.contents == Map::<Seq<char>, NodeView>::empty()
            &&& d.type_tag is None
            &&& d.description == Some(description)
            &&& d.access == AccessMode::NoAccess
            &&& d.value is None
            &&& d.range is None
        }),
{
}

} // verus!
