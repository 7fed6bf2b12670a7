//! Trees of OSC nodes.
use vstd::prelude::*;

use crate::assoc;
use crate::assoc::AssocKey;
use crate::osctype::{OscType, OscTypeTag, OscTypeView};
use crate::path;
use crate::text;
use crate::tree;
use crate::value;
use crate::value::{AccessMode, OscValue, RangeInfo};

verus! {

/// A node of an OSC address space.
#[derive(Debug)]
pub struct OscNode {
    /// The path of the node.
    pub full_path: String,
    /// The children of the node, by name.
    pub contents: Contents,
    /// The types of the node's value.
    pub type_tag: Option<OscTypeTag>,
    /// What the node is for.
    pub description: Option<String>,
    /// Whether the node's value can be read and written.
    pub access: AccessMode,
    /// The node's value, one entry for each argument.
    pub value: Option<Vec<OscValue>>,
    /// What each argument accepts.
    pub range: Option<Vec<RangeInfo>>,
}

/// The children of a node, by name.
#[derive(Debug)]
pub struct Contents {
    names: Vec<String>,
    nodes: Vec<OscNode>,
}

/// The children `nodes` by their `names`.
pub open spec fn contents_view(names: Seq<String>, nodes: Seq<OscNode>) -> Map<
    Seq<char>,
    tree::NodeView,
>
    decreases nodes, 0nat,
{
    if nodes.len() == 0 || names.len() == 0 {
        Map::empty()
    } else {
        contents_view(names.drop_last(), nodes.drop_last()).insert(
            names.last()@,
            nodes.last()@,
        )
    }
}

/// Every node of `nodes` is well-formed.
pub open spec fn all_wf(nodes: Seq<OscNode>) -> bool
    decreases nodes, 0nat,
{
    forall|i: int| 0 <= i < nodes.len() ==> (#[trigger] nodes[i]).wf()
}

/// The text in `s`, if there is one.
pub open spec fn text_in(s: Option<String>) -> Option<Seq<char>> {
    match s {
        Some(t) => Some(t@),
        None => None,
    }
}

/// What the types in `t` are, if there are any.
pub open spec fn types_in(t: Option<OscTypeTag>) -> Option<Seq<OscTypeView>> {
    match t {
        Some(tag) => Some(tag@),
        None => None,
    }
}

impl OscNode {
    /// What this node is.
    pub open spec fn view(&self) -> tree::NodeView
        decreases self, 2nat,
    {
        tree::NodeView {
            full_path: self.full_path@,
            contents: self.contents@,
            type_tag: types_in(self.type_tag),
            description: text_in(self.description),
            access: self.access,
            value: value::values_in(self.value),
            range: value::ranges_in(self.range),
        }
    }

    /// No two children of this node, nor of any node below it, have the same name.
    pub open spec fn wf(&self) -> bool
        decreases self, 2nat,
    {
        self.contents.wf()
    }
}

impl Contents {
    /// The names, in order.
    pub closed spec fn names(&self) -> Seq<String> {
        self.names@
    }

    /// The children by name.
    pub closed spec fn view(&self) -> Map<Seq<char>, tree::NodeView>
        decreases self, 1nat,
    {
        contents_view(self.names@, self.nodes@)
    }

    /// Each name has its node, no name occurs twice, and every node is well-formed.
    pub closed spec fn wf(&self) -> bool
        decreases self, 1nat,
    {
        &&& self.names@.len() == self.nodes@.len()
        &&& assoc::distinct_ids(self.names@)
        &&& all_wf(self.nodes@)
    }
}

/// The children by name are what the names are paired with.
proof fn lemma_contents(names: Seq<String>, nodes: Seq<OscNode>)
    requires
        names.len() == nodes.len(),
        assoc::distinct_ids(names),
    ensures
        contents_view(names, nodes) == assoc::paired(names, nodes).map_values(
            |n: OscNode| n@,
        ),
    decreases names.len(),
{
    let viewed = |n: OscNode| n@;
    if names.len() == 0 {
        assert(contents_view(names, nodes) =~= assoc::paired(names, nodes).map_values(viewed));
    } else {
        let n1 = names.drop_last();
        let v1 = nodes.drop_last();
        let name = names.last();
        let node = nodes.last();
        assert(assoc::distinct_ids(n1)) by {
            assert forall|i: int, j: int|
                0 <= i < n1.len() && 0 <= j < n1.len() && (#[trigger] n1[i]).id() == (
                #[trigger] n1[j]).id() implies i == j by {
                assert(names[i].id() == names[j].id());
            }
        }
        lemma_contents(n1, v1);
        assert(!assoc::has_id(n1, name.id())) by {
            if assoc::has_id(n1, name.id()) {
                let i = choose|i: int|
                    0 <= i < n1.len() && (#[trigger] n1[i]).id() == name.id();
                assert(names[i].id() == names[names.len() - 1].id());
            }
        }
        assoc::lemma_push(n1, v1, name, node);
        assert(n1.push(name) =~= names);
        assert(v1.push(node) =~= nodes);
        assert(contents_view(names, nodes) =~= assoc::paired(names, nodes).map_values(viewed));
    }
}

impl Contents {
    /// No children.
    pub fn new() -> (r: Contents)
        ensures
            r.wf(),
            r@ == Map::<Seq<char>, tree::NodeView>::empty(),
            r.names().len() == 0,
    {
        Contents { names: Vec::new(), nodes: Vec::new() }
    }

    /// Number of children.
    pub fn len(&self) -> (r: usize)
        requires
            self.wf(),
        ensures
            r == self.names().len(),
            self@.dom().finite(),
            r == self@.dom().len(),
    {
        proof {
            lemma_contents_len(self.names@, self.nodes@);
        }
        self.names.len()
    }

    /// The name of the child at position `i`.
    pub fn name_at(&self, i: usize) -> (r: &String)
        requires
            self.wf(),
            i < self.names().len(),
        ensures
            *r == self.names()[i as int],
            self@.dom().contains(r@),
    {
        proof {
            lemma_contents(self.names@, self.nodes@);
            assert(assoc::has_id(self.names@, self.names@[i as int].id()));
        }
        &self.names[i]
    }

    /// The child at position `i`.
    pub fn node_at(&self, i: usize) -> (r: &OscNode)
        requires
            self.wf(),
            i < self.names().len(),
        ensures
            r.wf(),
            self@.dom().contains(self.names()[i as int]@),
            r@ == self@[self.names()[i as int]@],
    {
        proof {
            lemma_contents(self.names@, self.nodes@);
            assoc::lemma_position_of(self.names@, i as int);
            assert(assoc::has_id(self.names@, self.names@[i as int].id()));
        }
        &self.nodes[i]
    }

    /// Whether there are no children.
    pub fn is_empty(&self) -> (r: bool)
        requires
            self.wf(),
        ensures
            r == (self@.dom() =~= Set::<Seq<char>>::empty()),
    {
        proof {
            lemma_contents(self.names@, self.nodes@);
            if self.names@.len() > 0 {
                assoc::lemma_position_of(self.names@, 0);
                assert(self@.dom().contains(self.names@[0]@));
            }
        }
        self.names.len() == 0
    }

    /// The child called `name`.
    pub fn get(&self, name: &String) -> (r: Option<&OscNode>)
        requires
            self.wf(),
        ensures
            match r {
                Some(node) => self@.dom().contains(name@) && node@ == self@[name@] && node.wf(),
                None => !self@.dom().contains(name@),
            },
    {
        proof {
            lemma_contents(self.names@, self.nodes@);
        }
        match assoc::find_key(&self.names, name) {
            Some(i) => Some(&self.nodes[i]),
            None => None,
        }
    }

    /// The child called `name`, to be changed in place.
    pub fn get_mut(&mut self, name: &String) -> (r: Option<&mut OscNode>)
        requires
            old(self).wf(),
        ensures
            match r {
                Some(node) => {
                    &&& old(self)@.dom().contains(name@)
                    &&& node@ == old(self)@[name@]
                    &&& node.wf()
                    &&& final(node).wf() ==> final(self).wf()
                    &&& final(self)@ == old(self)@.insert(name@, final(node)@)
                },
                None => !old(self)@.dom().contains(name@) && *final(self) == *old(self),
            },
    {
        proof {
            lemma_contents(self.names@, self.nodes@);
        }
        match assoc::find_key(&self.names, name) {
            Some(i) => {
                proof {
                    assert forall|node: OscNode|
                        contents_view(
                            self.names@,
                            #[trigger] self.nodes@.update(i as int, node),
                        ) == self@.insert(name@, node@) by {
                        assoc::lemma_update(self.names@, self.nodes@, name.id(), node);
                        lemma_contents(self.names@, self.nodes@.update(i as int, node));
                        assert(self@.insert(name@, node@) =~= assoc::paired(
                            self.names@,
                            self.nodes@.update(i as int, node),
                        ).map_values(|n: OscNode| n@));
                    }
                }
                Some(&mut self.nodes[i])
            },
            None => None,
        }
    }

    /// Sets the child called `name` and returns the one that was there.
    pub fn insert(&mut self, name: String, node: OscNode) -> (r: Option<OscNode>)
        requires
            old(self).wf(),
            node.wf(),
        ensures
            final(self).wf(),
            final(self)@ == old(self)@.insert(name@, node@),
            match r {
                Some(was) => old(self)@.dom().contains(name@) && was@ == old(self)@[name@],
                None => !old(self)@.dom().contains(name@),
            },
    {
        let ghost viewed = |n: OscNode| n@;
        proof {
            lemma_contents(self.names@, self.nodes@);
        }
        match assoc::find_key(&self.names, &name) {
            Some(i) => {
                proof {
                    assoc::lemma_update(self.names@, self.nodes@, name.id(), node);
                    lemma_contents(self.names@, self.nodes@.update(i as int, node));
                    assert(self@.insert(name@, node@) =~= assoc::paired(
                        self.names@,
                        self.nodes@.update(i as int, node),
                    ).map_values(viewed));
                }
                let mut held = node;
                std::mem::swap(&mut self.nodes[i], &mut held);
                Some(held)
            },
            None => {
                proof {
                    assoc::lemma_push(self.names@, self.nodes@, name, node);
                    lemma_contents(self.names@.push(name), self.nodes@.push(node));
                    assert(self@.insert(name@, node@) =~= assoc::paired(
                        self.names@.push(name),
                        self.nodes@.push(node),
                    ).map_values(viewed));
                }
                self.names.push(name);
                self.nodes.push(node);
                None
            },
        }
    }

    /// Takes the child called `name` out.
    pub fn remove(&mut self, name: &String) -> (r: Option<OscNode>)
        requires
            old(self).wf(),
        ensures
            final(self).wf(),
            final(self)@ == old(self)@.remove(name@),
            match r {
                Some(node) => old(self)@.dom().contains(name@) && node@ == old(self)@[name@]
                    && node.wf(),
                None => !old(self)@.dom().contains(name@),
            },
    {
        let ghost viewed = |n: OscNode| n@;
        proof {
            lemma_contents(self.names@, self.nodes@);
        }
        match assoc::find_key(&self.names, name) {
            Some(i) => {
                proof {
                    assoc::lemma_remove(self.names@, self.nodes@, name.id());
                    lemma_contents(self.names@.remove(i as int), self.nodes@.remove(i as int));
                    assert(self@.remove(name@) =~= assoc::paired(
                        self.names@.remove(i as int),
                        self.nodes@.remove(i as int),
                    ).map_values(viewed));
                }
                self.names.remove(i);
                Some(self.nodes.remove(i))
            },
            None => {
                assert(self@ =~= self@.remove(name@));
                None
            },
        }
    }
}

/// Taking the last name and node away leaves the children without that name.
proof fn lemma_contents_last(names: Seq<String>, nodes: Seq<OscNode>)
    requires
        names.len() == nodes.len(),
        names.len() > 0,
        assoc::distinct_ids(names),
    ensures
        assoc::distinct_ids(names.drop_last()),
        !contents_view(names.drop_last(), nodes.drop_last()).dom().contains(names.last()@),
{
    let n1 = names.drop_last();
    assert forall|i: int, j: int|
        0 <= i < n1.len() && 0 <= j < n1.len() && (#[trigger] n1[i]).id() == (
        #[trigger] n1[j]).id() implies i == j by {
        assert(names[i].id() == names[j].id());
    }
    lemma_contents(n1, nodes.drop_last());
    if assoc::has_id(n1, names.last().id()) {
        let i = choose|i: int| 0 <= i < n1.len() && (#[trigger] n1[i]).id() == names.last().id();
        assert(names[i].id() == names[names.len() - 1].id());
    }
}

/// There are as many children as names.
proof fn lemma_contents_len(names: Seq<String>, nodes: Seq<OscNode>)
    requires
        names.len() == nodes.len(),
        assoc::distinct_ids(names),
    ensures
        contents_view(names, nodes).dom().finite(),
        contents_view(names, nodes).dom().len() == names.len(),
    decreases names.len(),
{
    if names.len() > 0 {
        lemma_contents_last(names, nodes);
        lemma_contents_len(names.drop_last(), nodes.drop_last());
        let rest = contents_view(names.drop_last(), nodes.drop_last());
        assert(contents_view(names, nodes).dom() =~= rest.dom().insert(names.last()@));
    }
}

impl Contents {
    /// Takes over every child of `other`; where both have a name, the child of `other` stays.
    pub fn absorb(&mut self, other: Contents)
        requires
            old(self).wf(),
            other.wf(),
        ensures
            final(self).wf(),
            final(self)@ == old(self)@.union_prefer_right(other@),
    {
        let mut names = other.names;
        let mut nodes = other.nodes;
        while names.len() > 0
            invariant
                self.wf(),
                names@.len() == nodes@.len(),
                assoc::distinct_ids(names@),
                all_wf(nodes@),
                self@.union_prefer_right(contents_view(names@, nodes@)) == old(
                    self,
                )@.union_prefer_right(other@),
            decreases names@.len(),
        {
            let ghost before = self@;
            let ghost all = contents_view(names@, nodes@);
            proof {
                lemma_contents_last(names@, nodes@);
            }
            match (names.pop(), nodes.pop()) {
                (Some(name), Some(node)) => {
                    self.insert(name, node);
                    let ghost rest = contents_view(names@, nodes@);
                    assert(self@.union_prefer_right(rest) =~= before.union_prefer_right(all));
                },
                _ => {
                    return ;
                },
            }
        }
        assert(self@.union_prefer_right(contents_view(names@, nodes@)) =~= self@);
    }

    /// The same children again.
    pub fn copy(&self) -> (r: Contents)
        ensures
            self.wf() ==> r@ == self@ && r.wf(),
        decreases self, 1nat,
    {
        let mut names: Vec<String> = Vec::new();
        let mut nodes: Vec<OscNode> = Vec::new();
        let mut i: usize = 0;
        while i < self.names.len() && i < self.nodes.len()
            invariant
                i <= self.names@.len(),
                i <= self.nodes@.len(),
                names@.len() == i,
                nodes@.len() == i,
                forall|j: int| 0 <= j < i ==> (#[trigger] names@[j])@ == self.names@[j]@,
                self.wf() ==> all_wf(nodes@),
                self.wf() ==> contents_view(names@, nodes@) == contents_view(
                    self.names@.take(i as int),
                    self.nodes@.take(i as int),
                ),
            decreases self.names@.len() - i,
        {
            let name = self.names[i].clone();
            let node = self.nodes[i].copy();
            proof {
                assert(names@.push(name).drop_last() =~= names@);
                assert(nodes@.push(node).drop_last() =~= nodes@);
                assert(self.names@.take(i + 1).drop_last() =~= self.names@.take(i as int));
                assert(self.nodes@.take(i + 1).drop_last() =~= self.nodes@.take(i as int));
            }
            names.push(name);
            nodes.push(node);
            i += 1;
        }
        let r = Contents { names, nodes };
        proof {
            assert(self.names@.take(self.names@.len() as int) =~= self.names@);
            assert(self.nodes@.take(self.nodes@.len() as int) =~= self.nodes@);
            if self.wf() {
                assert forall|a: int, b: int|
                    0 <= a < names@.len() && 0 <= b < names@.len() && (#[trigger] names@[a]).id()
                        == (#[trigger] names@[b]).id() implies a == b by {
                    assert(self.names@[a].id() == self.names@[b].id());
                }
            }
        }
        r
    }
}

impl OscNode {
    /// The node at `full_path` that holds nothing.
    pub fn blank(full_path: String) -> (r: OscNode)
        ensures
            r.wf(),
            r@ == tree::blank(full_path@),
    {
        OscNode {
            full_path,
            contents: Contents::new(),
            type_tag: None,
            description: None,
            access: AccessMode::NoAccess,
            value: None,
            range: None,
        }
    }

    /// The same node again, with the same nodes below it.
    pub fn copy(&self) -> (r: OscNode)
        ensures
            self.wf() ==> r@ == self@ && r.wf(),
        decreases self, 2nat,
    {
        OscNode {
            full_path: self.full_path.clone(),
            contents: self.contents.copy(),
            type_tag: match &self.type_tag {
                Some(tag) => Some(tag.clone()),
                None => None,
            },
            description: match &self.description {
                Some(text) => Some(text.clone()),
                None => None,
            },
            access: self.access,
            value: value::copy_values_in(&self.value),
            range: value::copy_ranges_in(&self.range),
        }
    }

    /// Whether the node's tag is that one type.
    pub fn is_type(&self, expected_type: &OscType) -> (r: bool)
        ensures
            r == (self.type_tag matches Some(tag) && tag.types().len() == 1 && tag.types()[0]@
                == expected_type@),
    {
        match &self.type_tag {
            Some(tag) => tag.is_single_type(expected_type),
            None => false,
        }
    }

    /// Whether the node's tag is one truth value.
    pub fn is_boolean_type(&self) -> (r: bool)
        ensures
            r == (self.type_tag matches Some(tag) && tag.types().len() == 1 && (tag.types()[0]
                == OscType::True || tag.types()[0] == OscType::False)),
    {
        match &self.type_tag {
            Some(tag) => tag.is_boolean(),
            None => false,
        }
    }

    /// The type of the node, if its tag is exactly one type.
    pub fn get_single_osc_type(&self) -> (r: Option<&OscType>)
        ensures
            match r {
                Some(t) => self.type_tag matches Some(tag) && tag.types() == seq![*t],
                None => self.type_tag matches Some(tag) ==> tag.types().len() != 1,
            },
    {
        match &self.type_tag {
            Some(tag) => tag.get_single_type(),
            None => None,
        }
    }

    /// Sets what `props` sets and takes its children over.
    fn merge(&mut self, props: OscNode)
        requires
            old(self).wf(),
            props.wf(),
        ensures
            final(self).wf(),
            final(self)@ == tree::merged(old(self)@, props@),
    {
        if props.description.is_some() {
            self.description = props.description;
        }
        if props.type_tag.is_some() {
            self.type_tag = props.type_tag;
        }
        if props.access != AccessMode::NoAccess {
            self.access = props.access;
        }
        if props.value.is_some() {
            self.value = props.value;
        }
        if props.range.is_some() {
            self.range = props.range;
        }
        self.contents.absorb(props.contents);
        self.full_path = props.full_path;
    }

    /// Merges `props` into the node that the names from `from` on lead to from this node, which is
    /// at `at`. Nodes that are missing on the way are made.
    fn grow(&mut self, at: String, parts: &Vec<String>, from: usize, props: OscNode)
        requires
            old(self).wf(),
            props.wf(),
            from <= parts@.len(),
        ensures
            final(self).wf(),
            final(self)@ == tree::grown(
                old(self)@,
                at@,
                path::texts(parts@).skip(from as int),
                props@,
            ),
        decreases parts@.len() - from,
    {
        let ghost segs = path::texts(parts@).skip(from as int);
        if from == parts.len() {
            self.merge(props);
            return ;
        }
        let name = &parts[from];
        let below = path::join(&at, name);
        assert(segs[0] == name@);
        assert(segs.skip(1) =~= path::texts(parts@).skip(from + 1));
        if self.contents.get(name).is_none() {
            let made = OscNode::blank(below.clone());
            self.contents.insert(name.clone(), made);
        }
        match self.contents.get_mut(name) {
            Some(child) => {
                child.grow(below, parts, from + 1, props);
            },
            None => {},
        }
        proof {
            let goal = tree::grown(old(self)@, at@, segs, props@);
            assert(self@.contents =~= goal.contents);
            tree::lemma_same_node(self@, goal);
        }
    }

    /// The node that the names from `from` on lead to from this node, to be changed in place.
    fn node_at_mut(&mut self, parts: &Vec<String>, from: usize) -> (r: Option<&mut OscNode>)
        requires
            old(self).wf(),
            from <= parts@.len(),
        ensures
            match r {
                Some(node) => {
                    &&& tree::lookup(old(self)@, path::texts(parts@).skip(from as int)) == Some(
                        node@,
                    )
                    &&& node.wf()
                    &&& final(node).wf() ==> final(self).wf()
                    &&& final(self)@ == tree::replaced(
                        old(self)@,
                        path::texts(parts@).skip(from as int),
                        final(node)@,
                    )
                },
                None => {
                    &&& tree::lookup(old(self)@, path::texts(parts@).skip(from as int)) is None
                    &&& final(self)@ == old(self)@
                    &&& final(self).wf()
                },
            },
        decreases parts@.len() - from,
    {
        let ghost segs = path::texts(parts@).skip(from as int);
        if from == parts.len() {
            return Some(self);
        }
        let name = &parts[from];
        assert(segs[0] == name@);
        assert(segs.skip(1) =~= path::texts(parts@).skip(from + 1));
        proof {
            let whole = self@;
            if whole.contents.dom().contains(name@) {
                assert(whole.contents.insert(name@, whole.contents[name@]) =~= whole.contents);
            }
            assert forall|c: Contents| c@ == whole.contents implies (#[trigger] (OscNode {
                contents: c,
                ..*self
            }).view()) == whole by {
                tree::lemma_same_node((OscNode { contents: c, ..*self }).view(), whole);
            }
        }
        match self.contents.get_mut(name) {
            Some(child) => child.node_at_mut(parts, from + 1),
            None => None,
        }
    }

    /// Takes the node out that the names from `from` on lead to from this node.
    fn prune(&mut self, parts: &Vec<String>, from: usize) -> (r: Option<OscNode>)
        requires
            old(self).wf(),
            from < parts@.len(),
        ensures
            final(self).wf(),
            final(self)@ == tree::pruned(old(self)@, path::texts(parts@).skip(from as int)),
            match r {
                Some(node) => node.wf() && tree::lookup(
                    old(self)@,
                    path::texts(parts@).skip(from as int),
                ) == Some(node@),
                None => tree::lookup(old(self)@, path::texts(parts@).skip(from as int)) is None,
            },
        decreases parts@.len() - from,
    {
        let ghost segs = path::texts(parts@).skip(from as int);
        let name = &parts[from];
        assert(segs[0] == name@);
        assert(segs.skip(1) =~= path::texts(parts@).skip(from + 1));
        let count = parts.len();
        if from + 1 == count {
            let r = self.contents.remove(name);
            proof {
                let goal = tree::pruned(old(self)@, segs);
                assert(self@.contents =~= goal.contents);
                tree::lemma_same_node(self@, goal);
                reveal_with_fuel(tree::lookup, 2);
            }
            r
        } else {
            let r = match self.contents.get_mut(name) {
                Some(child) => child.prune(parts, from + 1),
                None => None,
            };
            proof {
                let goal = tree::pruned(old(self)@, segs);
                assert(self@.contents =~= goal.contents);
                tree::lemma_same_node(self@, goal);
            }
            r
        }
    }
}

impl Clone for OscNode {
    fn clone(&self) -> (r: OscNode)
        ensures
            self.wf() ==> r@ == self@ && r.wf(),
    {
        self.copy()
    }
}

impl Default for OscNode {
    fn default() -> (r: OscNode)
        ensures
            r.wf(),
            r@ == tree::blank(Seq::empty()),
    {
        OscNode::blank(String::new())
    }
}

/// The root of an OSC address space.
#[derive(Debug)]
pub struct OscRootNode {
    root: OscNode,
}

impl OscRootNode {
    /// The root node and everything below it.
    pub closed spec fn view(&self) -> tree::NodeView {
        self.root@
    }

    /// No two children of a node have the same name.
    pub closed spec fn wf(&self) -> bool {
        self.root.wf()
    }

    /// An address space with nothing but its root.
    pub fn new() -> (r: OscRootNode)
        ensures
            r.wf(),
            r@ == tree::blank(seq!['/']),
    {
        proof {
            reveal_strlit("/");
            assert("/"@ =~= seq!['/']);
        }
        OscRootNode { root: OscNode::blank("/".to_owned()) }
    }

    /// Adds a node at `/avatar` for the parameters of the avatar.
    pub fn with_avatar(self) -> (r: OscRootNode)
        requires
            self.wf(),
        ensures
            r.wf(),
            r@ == tree::with_node(
                self@,
                tree::described("/avatar"@, "Root for avatar-specific parameters."@),
            ),
    {
        self.add_node(described("/avatar", "Root for avatar-specific parameters."))
    }

    /// Adds a node at `/tracking` for tracking data.
    pub fn with_tracking(self) -> (r: OscRootNode)
        requires
            self.wf(),
        ensures
            r.wf(),
            r@ == tree::with_node(
                self@,
                tree::described(
                    "/tracking"@,
                    "Root for tracking-related OSC messages (e.g., head, hands)."@,
                ),
            ),
    {
        self.add_node(
            described("/tracking", "Root for tracking-related OSC messages (e.g., head, hands)."),
        )
    }

    /// Adds a node at `/dolly` for the camera dolly.
    pub fn with_dolly(self) -> (r: OscRootNode)
        requires
            self.wf(),
        ensures
            r.wf(),
            r@ == tree::with_node(
                self@,
                tree::described("/dolly"@, "Parameters related to camera dolly or movement."@),
            ),
    {
        self.add_node(described("/dolly", "Parameters related to camera dolly or movement."))
    }

    /// The node at `path`.
    pub fn get_node(&self, path: &str) -> (r: Option<&OscNode>)
        requires
            self.wf(),
        ensures
            match r {
                Some(node) => node.wf() && tree::lookup(self@, path::segments(path@)) == Some(
                    node@,
                ),
                None => tree::lookup(self@, path::segments(path@)) is None,
            },
    {
        let parts = path::split(path);
        let ghost segs = path::segments(path@);
        let mut current = &self.root;
        let mut i: usize = 0;
        assert(segs.skip(0) =~= segs);
        while i < parts.len()
            invariant
                current.wf(),
                i <= parts@.len(),
                segs == path::texts(parts@),
                segs == path::segments(path@),
                tree::lookup(self@, segs) == tree::lookup(current@, segs.skip(i as int)),
            decreases parts@.len() - i,
        {
            assert(segs.skip(i as int)[0] == parts@[i as int]@);
            assert(segs.skip(i as int).skip(1) =~= segs.skip(i + 1));
            match current.contents.get(&parts[i]) {
                Some(child) => {
                    current = child;
                },
                None => {
                    return None;
                },
            }
            i += 1;
        }
        Some(current)
    }

    /// The node at `path`, to be changed in place.
    pub fn get_node_mut(&mut self, path: &str) -> (r: Option<&mut OscNode>)
        requires
            old(self).wf(),
        ensures
            match r {
                Some(node) => {
                    &&& tree::lookup(old(self)@, path::segments(path@)) == Some(node@)
                    &&& node.wf()
                    &&& final(node).wf() ==> final(self).wf()
                    &&& final(self)@ == tree::replaced(
                        old(self)@,
                        path::segments(path@),
                        final(node)@,
                    )
                },
                None => {
                    &&& tree::lookup(old(self)@, path::segments(path@)) is None
                    &&& final(self)@ == old(self)@
                    &&& final(self).wf()
                },
            },
    {
        let parts = path::split(path);
        assert(path::texts(parts@).skip(0) =~= path::segments(path@));
        self.root.node_at_mut(&parts, 0)
    }

    /// Adds a node at the place that its path names. A node that is there already keeps what the
    /// new one does not set, and its children. Nodes that are missing on the way are made.
    pub fn add_node(self, new_node_props: OscNode) -> (r: OscRootNode)
        requires
            self.wf(),
            new_node_props.wf(),
        ensures
            r.wf(),
            r@ == tree::with_node(self@, new_node_props@),
    {
        let parts = path::split(new_node_props.full_path.as_str());
        let mut root = self.root;
        proof {
            reveal_strlit("/");
            assert("/"@ =~= seq!['/']);
            assert(path::texts(parts@).skip(0) =~= path::segments(new_node_props@.full_path));
        }
        root.grow("/".to_owned(), &parts, 0, new_node_props);
        OscRootNode { root }
    }

    /// Takes the node at `path` out, with everything below it. The root stays.
    pub fn remove_node(&mut self, path: &str) -> (r: Option<OscNode>)
        requires
            old(self).wf(),
        ensures
            final(self).wf(),
            final(self)@ == tree::pruned(old(self)@, path::segments(path@)),
            match r {
                Some(node) => node.wf() && path::segments(path@).len() > 0 && tree::lookup(
                    old(self)@,
                    path::segments(path@),
                ) == Some(node@),
                None => path::segments(path@).len() == 0 || tree::lookup(
                    old(self)@,
                    path::segments(path@),
                ) is None,
            },
    {
        let parts = path::split(path);
        assert(path::texts(parts@).skip(0) =~= path::segments(path@));
        if parts.len() == 0 {
            return None;
        }
        self.root.prune(&parts, 0)
    }
}

/// The node at `full_path` with that description.
fn described(full_path: &str, description: &str) -> (r: OscNode)
    ensures
        r.wf(),
        r@ == tree::described(full_path@, description@),
{
    let mut node = OscNode::blank(full_path.to_owned());
    node.description = Some(description.to_owned());
    node
}

impl Clone for OscRootNode {
    fn clone(&self) -> (r: OscRootNode)
        ensures
            self.wf() ==> r@ == self@ && r.wf(),
    {
        OscRootNode { root: self.root.copy() }
    }
}

/// What a node is shows every part of it.
pub proof fn law_node_view(n: OscNode)
    ensures
        n@.full_path == n.full_path@,
        n@.contents == n.contents@,
        n@.access == n.access,
        n@.type_tag is Some == n.type_tag is Some,
        n@.description is Some == n.description is Some,
        n@.value is Some == n.value is Some,
        n@.range is Some == n.range is Some,
        n.type_tag matches Some(tag) ==> n@.type_tag == Some(tag@),
        n.description matches Some(words) ==> n@.description == Some(words@),
        n.value matches Some(values) ==> n@.value == Some(value::values_view(values@)),
        n.range matches Some(ranges) ==> n@.range == Some(value::ranges_view(ranges@)),
{
}

/// What the children of a node are shows each of them under its name, and nothing else.
pub proof fn law_contents_view(names: Seq<String>, nodes: Seq<OscNode>, i: int, name: Seq<char>)
    requires
        names.len() == nodes.len(),
        assoc::distinct_ids(names),
    ensures
        0 <= i < names.len() ==> contents_view(names, nodes).dom().contains(names[i]@)
            && contents_view(names, nodes)[names[i]@] == nodes[i]@,
        contents_view(names, nodes).dom().contains(name) ==> exists|k: int|
            0 <= k < names.len() && (#[trigger] names[k])@ == name,
{
    lemma_contents(names, nodes);
    assoc::law_paired(names, nodes, i, name);
    if contents_view(names, nodes).dom().contains(name) {
        let k = choose|k: int| 0 <= k < names.len() && (#[trigger] names[k]).id() == name;
        assert(names[k]@ == name);
    }
}

} // verus!
