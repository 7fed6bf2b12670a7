use vrchat_osc::assoc::AssocMap;
use vrchat_osc::attribute::{find_attribute, Attribute};
use vrchat_osc::host_info::{HostInfo, OSCTransport};
use vrchat_osc::net::IpAddr;
use vrchat_osc::node::{OscNode, OscRootNode};
use vrchat_osc::osc_query;
use vrchat_osc::oscquery::{OscQuery, OscQueryState, Reply};
use vrchat_osc::osctype::OscTypeTag;
use vrchat_osc::query::{OSCQueryRequest, OSCQueryResponse};
use vrchat_osc::text;
use vrchat_osc::value::{AccessMode, OscValue};

const LOCALHOST: IpAddr = IpAddr::V4(0x7F00_0001);

fn params(keys: &[&str]) -> AssocMap<String, String> {
    let mut m = AssocMap::new();
    for k in keys {
        m.insert(k.to_string(), String::new());
    }
    m
}

fn demo_node(
    path: &str,
    description: &str,
    access: AccessMode,
    tag: Option<&str>,
    value: Option<Vec<OscValue>>,
) -> OscNode {
    OscNode {
        full_path: path.to_string(),
        description: Some(description.to_string()),
        access,
        type_tag: tag.map(|t| OscTypeTag::from_tag(t).unwrap()),
        value,
        ..Default::default()
    }
}

fn demo_tree() -> OscRootNode {
    OscRootNode::new()
        .add_node(demo_node("/", "root node", AccessMode::NoAccess, None, None))
        .add_node(demo_node(
            "/foo",
            "demonstrates a read-only OSC node- single float value",
            AccessMode::ReadOnly,
            Some("f"),
            Some(vec![OscValue::Float(0.5f64.to_bits())]),
        ))
        .add_node(demo_node(
            "/bar",
            "demonstrates a read/write OSC node- two ints",
            AccessMode::ReadWrite,
            Some("ii"),
            Some(vec![OscValue::Int(4), OscValue::Int(51)]),
        ))
        .add_node(demo_node(
            "/baz",
            "simple container node, with one method- qux",
            AccessMode::NoAccess,
            None,
            None,
        ))
        .add_node(demo_node(
            "/baz/qux",
            "read/write OSC node- accepts one of several string-type inputs",
            AccessMode::ReadWrite,
            Some("s"),
            Some(vec![OscValue::String("half-full".to_string())]),
        ))
}

fn demo_server() -> OscQueryState {
    OscQueryState::new(HostInfo::new("oscquery test".to_string(), LOCALHOST, 9000), demo_tree())
}

#[test]
fn test_serve() {
    let root = demo_tree();
    let host_info = HostInfo::new("oscquery test".to_string(), LOCALHOST, 9000);

    match osc_query::handle_root(&root, &host_info, &params(&["HOST_INFO"])) {
        Reply::HostInfo(h) => assert_eq!(h.name, "oscquery test"),
        other => panic!("{:?}", other),
    }
    match osc_query::handle_root(&root, &host_info, &params(&[])) {
        Reply::Node(n) => assert_eq!(n.full_path, "/"),
        other => panic!("{:?}", other),
    }
    match osc_query::handle_path(&root, &host_info, "foo", &params(&[])) {
        Reply::Node(n) => assert_eq!(n.full_path, "/foo"),
        other => panic!("{:?}", other),
    }
    match osc_query::handle_path(&root, &host_info, "foo", &params(&["TYPE"])) {
        Reply::Attribute(a, n) => {
            assert_eq!(a, Attribute::TypeTag);
            let json = serde_json::Value::from(n.type_tag.as_ref().unwrap().tag()).to_string();
            assert_eq!(osc_query::attribute_text(a, &json), "{ TYPE: \"f\" }");
        }
        other => panic!("{:?}", other),
    }
}

#[test]
fn standalone_server_refusals() {
    let root = demo_tree();
    let host_info = HostInfo::new("x".to_string(), LOCALHOST, 1);
    let text = |r: Reply<'_>| match r {
        Reply::Text(status, words) => (status, words),
        other => panic!("{:?}", other),
    };
    assert_eq!(
        text(osc_query::handle_path(&root, &host_info, "nope", &params(&[]))),
        (404, "Node not found".to_string())
    );
    assert_eq!(
        text(osc_query::handle_path(&root, &host_info, "foo", &params(&["range"]))),
        (204, "Attribute not found".to_string())
    );
    assert_eq!(
        text(osc_query::handle_path(&root, &host_info, "foo", &params(&["TYPE", "HOST_INFO"]))),
        (400, "Invalid query".to_string())
    );
    match osc_query::handle_path(&root, &host_info, "foo", &params(&["host_info"])) {
        Reply::HostInfo(h) => assert_eq!(h.name, "x"),
        other => panic!("{:?}", other),
    }
    match osc_query::key_reply(root.get_node("/foo").unwrap(), &host_info, "VALUE") {
        Reply::Attribute(a, _) => assert_eq!(a, Attribute::Value),
        other => panic!("{:?}", other),
    }
}

#[test]
fn node_is_served() {
    let server = demo_server();
    match server.handle_path("baz/qux", &params(&[])) {
        Reply::Node(n) => assert_eq!(n.full_path, "/baz/qux"),
        other => panic!("{:?}", other),
    }
    let r = server.handle_root(&params(&[]));
    assert_eq!(r.status(), 200);
    match r {
        Reply::Node(n) => assert_eq!(n.description.as_deref(), Some("root node")),
        other => panic!("{:?}", other),
    }
}

#[test]
fn missing_node_is_not_found() {
    let server = demo_server();
    for keys in [vec![], vec!["HOST_INFO"], vec!["a", "b"]] {
        let r = server.handle_path("nope", &params(&keys));
        assert_eq!(r.status(), 404);
        match r {
            Reply::Text(_, words) => assert_eq!(words, "Node not found"),
            other => panic!("{:?}", other),
        }
    }
}

#[test]
fn host_info_is_given_everywhere() {
    let server = demo_server();
    for keys in [vec!["HOST_INFO"], vec!["VALUE", "HOST_INFO"]] {
        match server.handle_path("baz", &params(&keys)) {
            Reply::HostInfo(h) => assert_eq!(h.osc_port, 9000),
            other => panic!("{:?}", other),
        }
    }
}

#[test]
fn attributes_are_served_in_any_case() {
    let server = demo_server();
    for key in ["value", "VALUE", "Value"] {
        match server.handle_path("foo", &params(&[key])) {
            Reply::Attribute(a, n) => {
                assert_eq!(a, Attribute::Value);
                assert_eq!(a.key(), "VALUE");
                assert_eq!(n.full_path, "/foo");
            }
            other => panic!("{:?}", other),
        }
    }
}

#[test]
fn missing_attribute_is_not_found() {
    let server = demo_server();
    let r = server.handle_path("foo", &params(&["contents"]));
    assert_eq!(r.status(), 404);
    match r {
        Reply::Text(_, words) => {
            assert_eq!(words, "Attribute CONTENTS not found on node /foo")
        }
        other => panic!("{:?}", other),
    }
    match server.handle_path("foo", &params(&["host_info"])) {
        Reply::Text(404, words) => {
            assert_eq!(words, "Attribute HOST_INFO not found on node /foo")
        }
        other => panic!("{:?}", other),
    }
}

#[test]
fn too_many_parameters() {
    let server = demo_server();
    let r = server.handle_path("foo", &params(&["TYPE", "VALUE"]));
    assert_eq!(r.status(), 400);
    match r {
        Reply::Text(_, words) => assert_eq!(
            words,
            "Invalid or too many query parameters. Use a single attribute query or HOST_INFO."
        ),
        other => panic!("{:?}", other),
    }
}

#[test]
fn attributes_of_a_node() {
    let tree = demo_tree();
    let foo = tree.get_node("/foo").unwrap();
    let baz = tree.get_node("/baz").unwrap();
    assert_eq!(find_attribute(foo, "FULL_PATH"), Some(Attribute::FullPath));
    assert_eq!(find_attribute(foo, "TYPE"), Some(Attribute::TypeTag));
    assert_eq!(find_attribute(foo, "DESCRIPTION"), Some(Attribute::Description));
    assert_eq!(find_attribute(foo, "ACCESS"), Some(Attribute::Access));
    assert_eq!(find_attribute(foo, "RANGE"), None);
    assert_eq!(find_attribute(foo, "type"), None);
    assert_eq!(find_attribute(baz, "CONTENTS"), Some(Attribute::Contents));
    assert_eq!(find_attribute(baz, "VALUE"), None);
    assert_eq!(find_attribute(baz, "TYPE"), None);
}

#[test]
fn default_host_info() {
    let h = HostInfo::new("n".to_string(), LOCALHOST, 7);
    assert_eq!(h.osc_transport, OSCTransport::UDP);
    assert_eq!(OSCTransport::default(), OSCTransport::UDP);
    assert_eq!(h.extensions.len(), 5);
    for (key, on) in
        [("ACCESS", true), ("CLIPMODE", false), ("RANGE", true), ("TYPE", true), ("VALUE", true)]
    {
        assert_eq!(h.extensions.get(&key.to_string()), Some(&on));
    }
    assert_eq!(h.extensions.get(&"DESCRIPTION".to_string()), None);
    let mut copy = h.clone();
    assert_eq!(format!("{:?}", copy), format!("{:?}", h));
    copy.extensions.insert("RANGE".to_string(), false);
    assert_eq!(h.extensions.get(&"RANGE".to_string()), Some(&true));
}

#[test]
fn server_is_started_and_stopped() {
    let mut s = OscQuery::new(HostInfo::new("n".to_string(), LOCALHOST, 7), demo_tree());
    assert!(!s.shutdown());
    s.started();
    s.set_ip(IpAddr::V6(1));
    s.set_port(8);
    assert_eq!(s.state().host_info().osc_ip, IpAddr::V6(1));
    assert_eq!(s.state().host_info().osc_port, 8);
    assert!(s.shutdown());
    assert!(!s.shutdown());
}

#[test]
fn text_in_upper_case() {
    assert_eq!(text::to_upper("host_Info-9"), "HOST_INFO-9");
    assert_eq!(text::to_upper("stra\u{df}e"), "STRASSE");
}

#[test]
fn requests_and_responses() {
    let q = OSCQueryRequest { path: "/a".to_string(), query: Some("TYPE".to_string()) };
    assert_eq!(q.clone().query.as_deref(), Some("TYPE"));
    let r = OSCQueryResponse { status: 200, body: "{}".to_string() };
    assert_eq!(r.clone().status, 200);
}
