//! An OSCQuery server: what it answers to requests.
use vstd::prelude::*;

use crate::assoc::AssocMap;
use crate::attribute;
use crate::attribute::{find_attribute, Attribute};
use crate::host_info::{HostInfo, HostInfoView};
use crate::net::IpAddr;
use crate::node::{OscNode, OscRootNode};
use crate::path;
use crate::text;
use crate::tree;
use crate::tree::NodeView;

verus! {

/// HTTP status of a request that was answered.
pub const STATUS_OK: u16 = 200;

/// HTTP status where there is nothing to tell.
pub const STATUS_NO_CONTENT: u16 = 204;

/// HTTP status of a request that makes no sense.
pub const STATUS_BAD_REQUEST: u16 = 400;

/// HTTP status of a request for what is not there.
pub const STATUS_NOT_FOUND: u16 = 404;

/// What an OSCQuery server serves.
#[derive(Debug)]
pub struct OscQueryState {
    host_info: HostInfo,
    root: OscRootNode,
}

/// What a server answers.
#[derive(Debug)]
pub enum Reply<'a> {
    /// The description of this node.
    Node(&'a OscNode),
    /// The information about the host.
    HostInfo(&'a HostInfo),
    /// One attribute of this node.
    Attribute(Attribute, &'a OscNode),
    /// A status and a text.
    Text(u16, String),
}

/// What an answer is.
#[verifier::ext_equal]
pub enum ReplyView {
    Node(NodeView),
    HostInfo(HostInfoView),
    Attribute(Attribute, NodeView),
    Text(u16, Seq<char>),
}

impl<'a> Reply<'a> {
    /// What this answer is.
    pub open spec fn view(&self) -> ReplyView {
        match self {
            Reply::Node(node) => ReplyView::Node(node@),
            Reply::HostInfo(host_info) => ReplyView::HostInfo(host_info@),
            Reply::Attribute(a, node) => ReplyView::Attribute(*a, node@),
            Reply::Text(status, words) => ReplyView::Text(*status, words@),
        }
    }

    /// The HTTP status of this answer.
    pub fn status(&self) -> (r: u16)
        ensures
            r == (match self@ {
                ReplyView::Text(status, _) => status,
                _ => STATUS_OK,
            }),
    {
        match self {
            Reply::Text(status, _) => *status,
            _ => STATUS_OK,
        }
    }
}

/// The path that a request for `path` asks for.
pub open spec fn asked_path(path: Seq<char>) -> Seq<char> {
    "/"@ + path
}

/// The answer to a question for the attribute `key` of the node at `full_path`.
pub open spec fn attribute_answer(
    node: NodeView,
    key: Seq<char>,
    full_path: Seq<char>,
) -> ReplyView {
    match attribute::attribute_at(node, key) {
        Some(a) => ReplyView::Attribute(a, node),
        None => ReplyView::Text(
            STATUS_NOT_FOUND,
            "Attribute "@ + key + " not found on node "@ + full_path,
        ),
    }
}

/// The answer to a request for `path` with the parameters `keys`.
pub open spec fn answer(
    root: NodeView,
    host_info: HostInfoView,
    path: Seq<char>,
    keys: Seq<Seq<char>>,
) -> ReplyView {
    match tree::lookup(root, path::segments(asked_path(path))) {
        None => ReplyView::Text(STATUS_NOT_FOUND, "Node not found"@),
        Some(node) => if keys.len() == 0 {
            ReplyView::Node(node)
        } else if keys.contains("HOST_INFO"@) {
            ReplyView::HostInfo(host_info)
        } else if keys.len() == 1 {
            attribute_answer(node, text::upper(keys[0]), asked_path(path))
        } else {
            ReplyView::Text(
                STATUS_BAD_REQUEST,
                "Invalid or too many query parameters. Use a single attribute query or HOST_INFO."@,
            )
        },
    }
}

/// The answer to a question for the attribute `key` of the node at `full_path`.
pub fn attribute_reply<'a>(node: &'a OscNode, key: &str, full_path: &str) -> (r: Reply<'a>)
    requires
        node.wf(),
    ensures
        r@ == attribute_answer(node@, key@, full_path@),
{
    match find_attribute(node, key) {
        Some(a) => Reply::Attribute(a, node),
        None => {
            let mut words = text::joined("Attribute ", key);
            words.append(" not found on node ");
            words.append(full_path);
            Reply::Text(STATUS_NOT_FOUND, words)
        },
    }
}

impl OscQueryState {
    /// The address space that is served.
    pub closed spec fn root(&self) -> NodeView {
        self.root@
    }

    /// The information about the host.
    pub closed spec fn host(&self) -> HostInfoView {
        self.host_info@
    }

    /// The address space and the host information are well-formed.
    pub closed spec fn wf(&self) -> bool {
        self.root.wf() && self.host_info.wf()
    }

    /// A server of the address space `root`.
    pub fn new(host_info: HostInfo, root: OscRootNode) -> (r: OscQueryState)
        requires
            host_info.wf(),
            root.wf(),
        ensures
            r.wf(),
            r.root() == root@,
            r.host() == host_info@,
    {
        OscQueryState { host_info, root }
    }

    /// Sets the address of the OSC server.
    pub fn set_ip(&mut self, ip: IpAddr)
        requires
            old(self).wf(),
        ensures
            final(self).wf(),
            final(self).root() == old(self).root(),
            final(self).host() == (HostInfoView { osc_ip: ip, ..old(self).host() }),
    {
        self.host_info.osc_ip = ip;
    }

    /// Sets the port of the OSC server.
    pub fn set_port(&mut self, port: u16)
        requires
            old(self).wf(),
        ensures
            final(self).wf(),
            final(self).root() == old(self).root(),
            final(self).host() == (HostInfoView { osc_port: port, ..old(self).host() }),
    {
        self.host_info.osc_port = port;
    }

    /// The information about the host.
    pub fn host_info(&self) -> (r: &HostInfo)
        requires
            self.wf(),
        ensures
            r.wf(),
            r@ == self.host(),
    {
        &self.host_info
    }

    /// The answer to a request for the root.
    pub fn handle_root(&self, params: &AssocMap<String, String>) -> (r: Reply<'_>)
        requires
            self.wf(),
            params.wf(),
        ensures
            r@ == answer(self.root(), self.host(), Seq::empty(), path::texts(params.keys())),
    {
        proof {
            reveal_strlit("");
            assert(""@ =~= Seq::<char>::empty());
        }
        self.handle_path("", params)
    }

    /// The answer to a request for `path_str` with these parameters.
    pub fn handle_path(&self, path_str: &str, params: &AssocMap<String, String>) -> (r: Reply<'_>)
        requires
            self.wf(),
            params.wf(),
        ensures
            r@ == answer(self.root(), self.host(), path_str@, path::texts(params.keys())),
    {
        let full_path = text::joined("/", path_str);
        let ghost keys = path::texts(params.keys());
        match self.root.get_node(full_path.as_str()) {
            None => Reply::Text(STATUS_NOT_FOUND, "Node not found".to_owned()),
            Some(node) => {
                if params.is_empty() {
                    return Reply::Node(node);
                }
                let host_key = "HOST_INFO".to_owned();
                proof {
                    lemma_has_key(*params, "HOST_INFO"@);
                }
                if params.contains_key(&host_key) {
                    Reply::HostInfo(&self.host_info)
                } else if params.len() == 1 {
                    assert(keys[0] == params.keys()[0]@);
                    let key = text::to_upper(params.key_at(0).as_str());
                    attribute_reply(node, key.as_str(), full_path.as_str())
                } else {
                    Reply::Text(
                        STATUS_BAD_REQUEST,
                        "Invalid or too many query parameters. Use a single attribute query or HOST_INFO.".to_owned(),
                    )
                }
            },
        }
    }
}

/// An OSCQuery server, and whether it runs.
#[derive(Debug)]
pub struct OscQuery {
    running: bool,
    state: OscQueryState,
}

impl OscQuery {
    /// The address space that is served.
    pub closed spec fn root(&self) -> NodeView {
        self.state.root()
    }

    /// The information about the host.
    pub closed spec fn host(&self) -> HostInfoView {
        self.state.host()
    }

    /// The server was started and not shut down since.
    pub closed spec fn running(&self) -> bool {
        self.running
    }

    /// What is served is well-formed.
    pub closed spec fn wf(&self) -> bool {
        self.state.wf()
    }

    /// A server of the address space `root`, which does not run yet.
    pub fn new(host_info: HostInfo, root: OscRootNode) -> (r: OscQuery)
        requires
            host_info.wf(),
            root.wf(),
        ensures
            r.wf(),
            r.root() == root@,
            r.host() == host_info@,
            !r.running(),
    {
        OscQuery { running: false, state: OscQueryState::new(host_info, root) }
    }

    /// What is served.
    pub fn state(&self) -> (r: &OscQueryState)
        requires
            self.wf(),
        ensures
            r.wf(),
            r.root() == self.root(),
            r.host() == self.host(),
    {
        &self.state
    }

    /// Notes that the server was started.
    pub fn started(&mut self)
        requires
            old(self).wf(),
        ensures
            final(self).wf(),
            final(self).root() == old(self).root(),
            final(self).host() == old(self).host(),
            final(self).running(),
    {
        self.running = true;
    }

    /// Shuts the server down; the result is whether it has to be told.
    pub fn shutdown(&mut self) -> (r: bool)
        requires
            old(self).wf(),
        ensures
            final(self).wf(),
            final(self).root() == old(self).root(),
            final(self).host() == old(self).host(),
            !final(self).running(),
            r == old(self).running(),
    {
        let r = self.running;
        self.running = false;
        r
    }

    /// Sets the address of the OSC server.
    pub fn set_ip(&mut self, ip: IpAddr)
        requires
            old(self).wf(),
        ensures
            final(self).wf(),
            final(self).root() == old(self).root(),
            final(self).host() == (HostInfoView { osc_ip: ip, ..old(self).host() }),
            final(self).running() == old(self).running(),
    {
        self.state.set_ip(ip);
    }

    /// Sets the port of the OSC server.
    pub fn set_port(&mut self, port: u16)
        requires
            old(self).wf(),
        ensures
            final(self).wf(),
            final(self).root() == old(self).root(),
            final(self).host() == (HostInfoView { osc_port: port, ..old(self).host() }),
            final(self).running() == old(self).running(),
    {
        self.state.set_port(port);
    }
}

/// A map has a key exactly if it is among its keys.
pub proof fn lemma_has_key(params: AssocMap<String, String>, key: Seq<char>)
    ensures
        params@.dom().contains(key) == path::texts(params.keys()).contains(key),
{
    let keys = path::texts(params.keys());
    if params@.dom().contains(key) {
        assert(crate::assoc::has_id(params.keys(), key));
        let i = choose|i: int|
            0 <= i < params.keys().len() && crate::assoc::AssocKey::id(
                &#[trigger] params.keys()[i],
            ) == key;
        assert(keys[i] == key);
    }
    if keys.contains(key) {
        let i = choose|i: int| 0 <= i < keys.len() && keys[i] == key;
        assert(crate::assoc::AssocKey::id(&params.keys()[i]) == key);
        assert(crate::assoc::has_id(params.keys(), key));
    }
}

/// A request for what is not there is answered with that, whatever else it asks.
pub proof fn law_missing_node(
    root: NodeView,
    host_info: HostInfoView,
    path: Seq<char>,
    keys: Seq<Seq<char>>,
)
    requires
        tree::lookup(root, path::segments(asked_path(path))) is None,
    ensures
        answer(root, host_info, path, keys) == ReplyView::Text(
            STATUS_NOT_FOUND,
            "Node not found"@,
        ),
{
}

/// The host information is given at every node that is there, also beside other parameters.
pub proof fn law_host_info_everywhere(
    root: NodeView,
    host_info: HostInfoView,
    path: Seq<char>,
    keys: Seq<Seq<char>>,
)
    requires
        tree::lookup(root, path::segments(asked_path(path))) is Some,
        keys.contains("HOST_INFO"@),
    ensures
        answer(root, host_info, path, keys) == ReplyView::HostInfo(host_info),
{
}

/// A request for a node that was added, without parameters, is answered with that node.
pub proof fn law_added_node_is_served(root: NodeView, props: NodeView, host_info: HostInfoView)
    requires
        props.full_path.len() > 0,
        props.full_path[0] == '/',
    ensures
        answer(
            tree::with_node(root, props),
            host_info,
            props.full_path.skip(1),
            Seq::empty(),
        ) == ReplyView::Node(
            tree::merged(
                tree::found_or_blank(root, seq!['/'], path::segments(props.full_path)),
                props,
            ),
        ),
{
    reveal_strlit("/");
    assert(asked_path(props.full_path.skip(1)) =~= props.full_path);
    tree::law_added_node_is_found(root, props);
}

/// One attribute of a node that is there is served under its name, in whatever case that comes, if
/// the node holds it: the path and the access mode always, the children if there are any, and the
/// types, the description, the value and the range if they are set. Every other name is not found.
pub proof fn law_every_attribute_is_served(
    root: NodeView,
    host_info: HostInfoView,
    path: Seq<char>,
    key: Seq<char>,
    node: NodeView,
)
    requires
        tree::lookup(root, path::segments("/"@ + path)) == Some(node),
        key != "HOST_INFO"@,
    ensures
        ({
            let given = answer(root, host_info, path, seq![key]);
            let asked = text::upper(key);
            let missing = ReplyView::Text(
                404,
                "Attribute "@ + asked + " not found on node "@ + ("/"@ + path),
            );
            let has_children = exists|name: Seq<char>| node.contents.dom().contains(name);
            &&& asked == "FULL_PATH"@ ==> given == ReplyView::Attribute(Attribute::FullPath, node)
            &&& asked == "ACCESS"@ ==> given == ReplyView::Attribute(Attribute::Access, node)
            &&& asked == "CONTENTS"@ ==> given == (if has_children {
                ReplyView::Attribute(Attribute::Contents, node)
            } else {
                missing
            })
            &&& asked == "TYPE"@ ==> given == (if node.type_tag is Some {
                ReplyView::Attribute(Attribute::TypeTag, node)
            } else {
                missing
            })
            &&& asked == "DESCRIPTION"@ ==> given == (if node.description is Some {
                ReplyView::Attribute(Attribute::Description, node)
            } else {
                missing
            })
            &&& asked == "VALUE"@ ==> given == (if node.value is Some {
                ReplyView::Attribute(Attribute::Value, node)
            } else {
                missing
            })
            &&& asked == "RANGE"@ ==> given == (if node.range is Some {
                ReplyView::Attribute(Attribute::Range, node)
            } else {
                missing
            })
            &&& asked != "FULL_PATH"@ && asked != "ACCESS"@ && asked != "CONTENTS"@ && asked
                != "TYPE"@ && asked != "DESCRIPTION"@ && asked != "VALUE"@ && asked != "RANGE"@
                ==> given == missing
        }),
{
    assert(seq![key][0] == key);
    assert(!seq![key].contains("HOST_INFO"@));
    attribute::lemma_keys();
    let has_children = exists|name: Seq<char>| node.contents.dom().contains(name);
    if !has_children {
        assert(node.contents.dom() =~= Set::<Seq<char>>::empty());
    }
}

/// A request for a node that is there, without parameters, is answered with that node; with several
/// parameters, none of which asks for the host information, it is refused.
pub proof fn law_node_or_refusal(
    root: NodeView,
    host_info: HostInfoView,
    path: Seq<char>,
    keys: Seq<Seq<char>>,
    node: NodeView,
)
    requires
        tree::lookup(root, path::segments("/"@ + path)) == Some(node),
    ensures
        keys.len() == 0 ==> answer(root, host_info, path, keys) == ReplyView::Node(node),
        keys.len() > 1 && !keys.contains("HOST_INFO"@) ==> answer(root, host_info, path, keys)
            == ReplyView::Text(
            400,
            "Invalid or too many query parameters. Use a single attribute query or HOST_INFO."@,
        ),
{
}

/// Every node that is reached by names from the root is served at the path that these names make up.
pub proof fn law_children_are_served(
    root: NodeView,
    host_info: HostInfoView,
    path: Seq<char>,
    name: Seq<char>,
)
    requires
        name.len() > 0,
        !name.contains('/'),
    ensures
        answer(root, host_info, path, Seq::empty()) matches ReplyView::Node(parent) ==> answer(
            root,
            host_info,
            path + seq!['/'] + name,
            Seq::empty(),
        ) == (if parent.contents.dom().contains(name) {
            ReplyView::Node(parent.contents[name])
        } else {
            ReplyView::Text(404, "Node not found"@)
        }),
{
    let first = path::segments("/"@ + path);
    assert("/"@ + (path + seq!['/'] + name) =~= ("/"@ + path) + seq!['/'] + name);
    path::law_slash_separates("/"@ + path, name);
    path::law_name_is_one_segment(name);
    tree::law_names_lead_on(root, name, first, seq![name]);
    match tree::lookup(root, first) {
        Some(parent) => {
            tree::law_names_lead_on(parent, name, first, seq![name]);
        },
        None => {},
    }
}

/// What an answer is shows what it gives.
pub proof fn law_reply_view<'a>(r: Reply<'a>)
    ensures
        r matches Reply::Node(node) ==> r@ == ReplyView::Node(node@),
        r matches Reply::HostInfo(host_info) ==> r@ == ReplyView::HostInfo(host_info@),
        r matches Reply::Attribute(a, node) ==> r@ == ReplyView::Attribute(a, node@),
        r matches Reply::Text(status, words) ==> r@ == ReplyView::Text(status, words@),
{
}

/// An attribute of a node is served under its name if the node holds it, and under no other name;
/// whatever is not served is not found.
pub proof fn law_attribute_answer(
    node: NodeView,
    key: Seq<char>,
    full_path: Seq<char>,
    a: Attribute,
)
    ensures
        attribute_answer(node, key, full_path) == ReplyView::Attribute(a, node) <==> key
            == attribute::key_of(a) && attribute::present(node, a),
        (forall|b: Attribute| key == #[trigger] attribute::key_of(b) ==> !attribute::present(node, b))
            ==> attribute_answer(node, key, full_path) == ReplyView::Text(
            404,
            "Attribute "@ + key + " not found on node "@ + full_path,
        ),
{
    attribute::lemma_keys();
    attribute::law_attribute_by_its_name(node, a);
    attribute::law_found_has_that_name(node, key);
}

} // verus!
