//! The answers of the standalone OSCQuery server, which gives attributes as plain text.
use vstd::prelude::*;

use crate::assoc::AssocMap;
use crate::attribute;
use crate::attribute::{find_attribute, Attribute};
use crate::host_info::{HostInfo, HostInfoView};
use crate::node::{OscNode, OscRootNode};
use crate::oscquery;
use crate::oscquery::{Reply, ReplyView, STATUS_BAD_REQUEST, STATUS_NOT_FOUND, STATUS_NO_CONTENT};
use crate::path;
use crate::text;
use crate::tree;
use crate::tree::NodeView;

verus! {

/// The answer to a question for `key`, which is in upper case, at a node.
pub open spec fn key_answer(node: NodeView, host_info: HostInfoView, key: Seq<char>) -> ReplyView {
    if key == "HOST_INFO"@ {
        ReplyView::HostInfo(host_info)
    } else {
        match attribute::attribute_at(node, key) {
            Some(a) => ReplyView::Attribute(a, node),
            None => ReplyView::Text(STATUS_NO_CONTENT, "Attribute not found"@),
        }
    }
}

/// The answer to a request for `path` with the parameters `keys`.
pub open spec fn answer(
    root: NodeView,
    host_info: HostInfoView,
    path: Seq<char>,
    keys: Seq<Seq<char>>,
) -> ReplyView {
    match tree::lookup(root, path::segments(oscquery::asked_path(path))) {
        None => ReplyView::Text(STATUS_NOT_FOUND, "Node not found"@),
        Some(node) => if keys.len() == 0 {
            ReplyView::Node(node)
        } else if keys.len() == 1 {
            key_answer(node, host_info, text::upper(keys[0]))
        } else {
            ReplyView::Text(STATUS_BAD_REQUEST, "Invalid query"@)
        },
    }
}

/// An attribute as plain text, where `json` is its value: `{ NAME: value }`.
pub open spec fn attribute_line(a: Attribute, json: Seq<char>) -> Seq<char> {
    "{ "@ + attribute::key_of(a) + ": "@ + json + " }"@
}

/// An attribute as plain text, where `json` is its value.
pub fn attribute_text(a: Attribute, json: &str) -> (r: String)
    ensures
        r@ == attribute_line(a, json@),
{
    let mut r = text::joined("{ ", a.key());
    r.append(": ");
    r.append(json);
    r.append(" }");
    r
}

/// The answer to a question for `key`, which is in upper case, at a node.
pub fn key_reply<'a>(node: &'a OscNode, host_info: &'a HostInfo, key: &str) -> (r: Reply<'a>)
    requires
        node.wf(),
    ensures
        r@ == key_answer(node@, host_info@, key@),
{
    if text::same_text(key, "HOST_INFO") {
        Reply::HostInfo(host_info)
    } else {
        match find_attribute(node, key) {
            Some(a) => Reply::Attribute(a, node),
            None => Reply::Text(STATUS_NO_CONTENT, "Attribute not found".to_owned()),
        }
    }
}

/// The answer to a request for the root.
pub fn handle_root<'a>(
    root: &'a OscRootNode,
    host_info: &'a HostInfo,
    params: &AssocMap<String, String>,
) -> (r: Reply<'a>)
    requires
        root.wf(),
        params.wf(),
    ensures
        r@ == answer(root@, host_info@, "/"@, path::texts(params.keys())),
{
    handle_path(root, host_info, "/", params)
}

/// The answer to a request for `path` with these parameters.
pub fn handle_path<'a>(
    root: &'a OscRootNode,
    host_info: &'a HostInfo,
    path: &str,
    params: &AssocMap<String, String>,
) -> (r: Reply<'a>)
    requires
        root.wf(),
        params.wf(),
    ensures
        r@ == answer(root@, host_info@, path@, path::texts(params.keys())),
{
    let full_path = text::joined("/", path);
    match root.get_node(full_path.as_str()) {
        None => Reply::Text(STATUS_NOT_FOUND, "Node not found".to_owned()),
        Some(node) => {
            if params.is_empty() {
                Reply::Node(node)
            } else if params.len() == 1 {
                assert(path::texts(params.keys())[0] == params.keys()[0]@);
                let key = text::to_upper(params.key_at(0).as_str());
                key_reply(node, host_info, key.as_str())
            } else {
                Reply::Text(STATUS_BAD_REQUEST, "Invalid query".to_owned())
            }
        },
    }
}

/// A request for the root without parameters is answered with the root.
pub proof fn law_root_is_served(root: NodeView, host_info: HostInfoView)
    ensures
        answer(root, host_info, "/"@, Seq::empty()) == ReplyView::Node(root),
        oscquery::answer(root, host_info, Seq::empty(), Seq::empty()) == ReplyView::Node(root),
{
    reveal_strlit("/");
    let twice = oscquery::asked_path("/"@);
    let once = oscquery::asked_path(Seq::empty());
    assert(once =~= seq!['/']);
    assert(twice =~= seq!['/', '/']);
    assert(twice.skip(1) =~= once);
    assert(once.skip(1) =~= Seq::<char>::empty());
    reveal_with_fuel(path::segments, 3);
}

/// One attribute of a node that is there is served under its name, in whatever case that comes, if
/// the node holds it; the host information is served under its own; and of every other name there is
/// nothing to tell.
pub proof fn law_every_attribute_is_served(
    root: NodeView,
    host_info: HostInfoView,
    path: Seq<char>,
    key: Seq<char>,
    node: NodeView,
)
    requires
        tree::lookup(root, path::segments("/"@ + path)) == Some(node),
    ensures
        ({
            let given = answer(root, host_info, path, seq![key]);
            let asked = text::upper(key);
            let missing = ReplyView::Text(204, "Attribute not found"@);
            let has_children = exists|name: Seq<char>| node.contents.dom().contains(name);
            &&& asked == "HOST_INFO"@ ==> given == ReplyView::HostInfo(host_info)
            &&& asked == "FULL_PATH"@ ==> given == ReplyView::Attribute(Attribute::FullPath, node)
            &&& asked == "ACCESS"@ ==> given == ReplyView::Attribute(Attribute::Access, node)
            &&& asked == "CONTENTS"@ ==> given == (if has_children {
                ReplyView::Attribute(Attribute::Contents, node)
            } else {
                missing
            })
            &&& asked == "TYPE"@ ==> given == (if node.type_tag is Some {
                ReplyView::Attribute(Attribute::TypeTag, node)
            } else {
                missing
            })
            &&& asked == "DESCRIPTION"@ ==> given == (if node.description is Some {
                ReplyView::Attribute(Attribute::Description, node)
            } else {
                missing
            })
            &&& asked == "VALUE"@ ==> given == (if node.value is Some {
                ReplyView::Attribute(Attribute::Value, node)
            } else {
                missing
            })
            &&& asked == "RANGE"@ ==> given == (if node.range is Some {
                ReplyView::Attribute(Attribute::Range, node)
            } else {
                missing
            })
            &&& asked != "HOST_INFO"@ && asked != "FULL_PATH"@ && asked != "ACCESS"@ && asked
                != "CONTENTS"@ && asked != "TYPE"@ && asked != "DESCRIPTION"@ && asked != "VALUE"@
                && asked != "RANGE"@ ==> given == missing
        }),
{
    assert(seq![key][0] == key);
    attribute::lemma_keys();
    reveal_strlit("HOST_INFO");
    assert("HOST_INFO"@[0] == 'H');
    let has_children = exists|name: Seq<char>| node.contents.dom().contains(name);
    if !has_children {
        assert(node.contents.dom() =~= Set::<Seq<char>>::empty());
    }
}

/// A request for what is not there is answered with that; one without parameters, with the node; one
/// with several, with a refusal.
pub proof fn law_node_or_refusal(
    root: NodeView,
    host_info: HostInfoView,
    path: Seq<char>,
    keys: Seq<Seq<char>>,
)
    ensures
        tree::lookup(root, path::segments("/"@ + path)) is None ==> answer(
            root,
            host_info,
            path,
            keys,
        ) == ReplyView::Text(404, "Node not found"@),
        tree::lookup(root, path::segments("/"@ + path)) matches Some(node) ==> (keys.len() == 0
            ==> answer(root, host_info, path, keys) == ReplyView::Node(node)) && (keys.len() > 1
            ==> answer(root, host_info, path, keys) == ReplyView::Text(400, "Invalid query"@)),
{
}

/// An attribute as plain text is its name and its value between braces.
pub proof fn law_attribute_line(a: Attribute, json: Seq<char>)
    ensures
        attribute_line(a, json) == "{ "@ + attribute::key_of(a) + ": "@ + json + " }"@,
        attribute::key_of(Attribute::FullPath) == "FULL_PATH"@,
        attribute::key_of(Attribute::Contents) == "CONTENTS"@,
        attribute::key_of(Attribute::TypeTag) == "TYPE"@,
        attribute::key_of(Attribute::Description) == "DESCRIPTION"@,
        attribute::key_of(Attribute::Access) == "ACCESS"@,
        attribute::key_of(Attribute::Value) == "VALUE"@,
        attribute::key_of(Attribute::Range) == "RANGE"@,
{
}

/// The host information is served under its name at every node; an attribute of the node under its
/// own if the node holds it, and under no other.
pub proof fn law_key_answer(
    node: NodeView,
    host_info: HostInfoView,
    key: Seq<char>,
    a: Attribute,
)
    ensures
        key_answer(node, host_info, "HOST_INFO"@) == ReplyView::HostInfo(host_info),
        key_answer(node, host_info, key) == ReplyView::Attribute(a, node) <==> key
            == attribute::key_of(a) && attribute::present(node, a),
        key != "HOST_INFO"@ && (forall|b: Attribute|
            key == #[trigger] attribute::key_of(b) ==> !attribute::present(node, b)) ==> key_answer(
            node,
            host_info,
            key,
        ) == ReplyView::Text(204, "Attribute not found"@),
{
    attribute::lemma_keys();
    attribute::law_attribute_by_its_name(node, a);
    attribute::law_found_has_that_name(node, key);
    reveal_strlit("HOST_INFO");
    assert("HOST_INFO"@[0] == 'H');
}

} // verus!
