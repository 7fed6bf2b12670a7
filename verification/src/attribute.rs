//! Attributes of OSC nodes, as clients ask for them by name.
use vstd::prelude::*;

use crate::node::OscNode;
use crate::text;
use crate::tree::NodeView;

verus! {

/// An attribute of a node.
#[derive(Debug, Clone, Copy, PartialEq, Eq, Structural)]
pub enum Attribute {
    FullPath,
    Contents,
    TypeTag,
    Description,
    Access,
    Value,
    Range,
}

/// The name of an attribute.
pub open spec fn key_of(a: Attribute) -> Seq<char> {
    match a {
        Attribute::FullPath => "FULL_PATH"@,
        Attribute::Contents => "CONTENTS"@,
        Attribute::TypeTag => "TYPE"@,
        Attribute::Description => "DESCRIPTION"@,
        Attribute::Access => "ACCESS"@,
        Attribute::Value => "VALUE"@,
        Attribute::Range => "RANGE"@,
    }
}

/// Whether the description of `node` holds the attribute: its path and its access mode always, its
/// children if it has any, and the others if they are set.
pub open spec fn present(node: NodeView, a: Attribute) -> bool {
    match a {
        Attribute::FullPath => true,
        Attribute::Contents => !(node.contents.dom() =~= Set::empty()),
        Attribute::TypeTag => node.type_tag is Some,
        Attribute::Description => node.description is Some,
        Attribute::Access => true,
        Attribute::Value => node.value is Some,
        Attribute::Range => node.range is Some,
    }
}

/// The attribute of `node` with the name `key`, if its description holds it.
pub open spec fn attribute_at(node: NodeView, key: Seq<char>) -> Option<Attribute> {
    if key == "FULL_PATH"@ {
        Some(Attribute::FullPath)
    } else if key == "CONTENTS"@ && present(node, Attribute::Contents) {
        Some(Attribute::Contents)
    } else if key == "TYPE"@ && present(node, Attribute::TypeTag) {
        Some(Attribute::TypeTag)
    } else if key == "DESCRIPTION"@ && present(node, Attribute::Description) {
        Some(Attribute::Description)
    } else if key == "ACCESS"@ {
        Some(Attribute::Access)
    } else if key == "VALUE"@ && present(node, Attribute::Value) {
        Some(Attribute::Value)
    } else if key == "RANGE"@ && present(node, Attribute::Range) {
        Some(Attribute::Range)
    } else {
        None
    }
}

impl Attribute {
    /// The name of this attribute.
    pub fn key(&self) -> (r: &'static str)
        ensures
            r@ == key_of(*self),
    {
        match self {
            Attribute::FullPath => "FULL_PATH",
            Attribute::Contents => "CONTENTS",
            Attribute::TypeTag => "TYPE",
            Attribute::Description => "DESCRIPTION",
            Attribute::Access => "ACCESS",
            Attribute::Value => "VALUE",
            Attribute::Range => "RANGE",
        }
    }
}

/// The attribute of `node` with the name `key`, if its description holds it.
pub fn find_attribute(node: &OscNode, key: &str) -> (r: Option<Attribute>)
    requires
        node.wf(),
    ensures
        r == attribute_at(node@, key@),
{
    if text::same_text(key, "FULL_PATH") {
        Some(Attribute::FullPath)
    } else if text::same_text(key, "CONTENTS") && !node.contents.is_empty() {
        Some(Attribute::Contents)
    } else if text::same_text(key, "TYPE") && node.type_tag.is_some() {
        Some(Attribute::TypeTag)
    } else if text::same_text(key, "DESCRIPTION") && node.description.is_some() {
        Some(Attribute::Description)
    } else if text::same_text(key, "ACCESS") {
        Some(Attribute::Access)
    } else if text::same_text(key, "VALUE") && node.value.is_some() {
        Some(Attribute::Value)
    } else if text::same_text(key, "RANGE") && node.range.is_some() {
        Some(Attribute::Range)
    } else {
        None
    }
}

/// The names of the attributes differ.
pub proof fn lemma_keys()
    ensures
        "FULL_PATH"@.len() == 9,
        "CONTENTS"@.len() == 8,
        "TYPE"@.len() == 4,
        "DESCRIPTION"@.len() == 11,
        "ACCESS"@.len() == 6,
        "VALUE"@.len() == 5,
        "RANGE"@.len() == 5,
        "VALUE"@[0] == 'V',
        "RANGE"@[0] == 'R',
        "FULL_PATH"@[0] == 'F',
{
    reveal_strlit("FULL_PATH");
    reveal_strlit("CONTENTS");
    reveal_strlit("TYPE");
    reveal_strlit("DESCRIPTION");
    reveal_strlit("ACCESS");
    reveal_strlit("VALUE");
    reveal_strlit("RANGE");
}

/// An attribute is found under its own name exactly if the description of the node holds it.
pub proof fn law_attribute_by_its_name(node: NodeView, a: Attribute)
    ensures
        attribute_at(node, key_of(a)) == (if present(node, a) {
            Some(a)
        } else {
            None
        }),
{
    lemma_keys();
}

/// What is found under a name is the attribute of that name.
pub proof fn law_found_has_that_name(node: NodeView, key: Seq<char>)
    ensures
        attribute_at(node, key) matches Some(a) ==> key_of(a) == key && present(node, a),
{
}

/// A node holds its path and its access mode always, its children if it has any, and each of the
/// others if that one is set, whatever else is set.
pub proof fn law_what_a_node_holds(node: NodeView)
    ensures
        present(node, Attribute::FullPath),
        present(node, Attribute::Access),
        present(node, Attribute::Contents) <==> exists|name: Seq<char>|
            node.contents.dom().contains(name),
        present(node, Attribute::TypeTag) <==> node.type_tag is Some,
        present(node, Attribute::Description) <==> node.description is Some,
        present(node, Attribute::Value) <==> node.value is Some,
        present(node, Attribute::Range) <==> node.range is Some,
{
    if !(exists|name: Seq<char>| node.contents.dom().contains(name)) {
        assert(node.contents.dom() =~= Set::<Seq<char>>::empty());
    }
}

} // verus!
