use vrchat_osc::node::{Contents, OscNode, OscRootNode};
use vrchat_osc::osctype::{OscType, OscTypeTag};
use vrchat_osc::path;
use vrchat_osc::value::{AccessMode, OscValue, RangeInfo};

fn node(path: &str) -> OscNode {
    OscNode { full_path: path.to_string(), ..Default::default() }
}

fn described(path: &str, text: &str) -> OscNode {
    OscNode { description: Some(text.to_string()), ..node(path) }
}

#[test]
fn paths_are_split() {
    assert_eq!(path::split("/avatar//parameters/"), vec!["avatar", "parameters"]);
    assert_eq!(path::split("a"), vec!["a"]);
    assert!(path::split("/").is_empty());
    assert!(path::split("").is_empty());
    assert_eq!(path::join(&"/".to_string(), &"a".to_string()), "/a");
    assert_eq!(path::join(&"/a".to_string(), &"b".to_string()), "/a/b");
}

#[test]
fn new_tree_has_its_root() {
    let root = OscRootNode::new();
    assert_eq!(root.get_node("/").unwrap().full_path, "/");
    assert_eq!(root.get_node("").unwrap().full_path, "/");
    assert_eq!(root.get_node("//").unwrap().full_path, "/");
    assert!(root.get_node("/avatar").is_none());
}

#[test]
fn usual_nodes() {
    let root = OscRootNode::new().with_avatar().with_tracking().with_dolly();
    let a = root.get_node("/avatar").unwrap();
    assert_eq!(a.full_path, "/avatar");
    assert_eq!(a.description.as_deref(), Some("Root for avatar-specific parameters."));
    assert_eq!(
        root.get_node("/tracking").unwrap().description.as_deref(),
        Some("Root for tracking-related OSC messages (e.g., head, hands).")
    );
    assert_eq!(
        root.get_node("/dolly").unwrap().description.as_deref(),
        Some("Parameters related to camera dolly or movement.")
    );
}

#[test]
fn nodes_on_the_way_are_made() {
    let root = OscRootNode::new().add_node(described("/a/b/c", "deep"));
    let a = root.get_node("/a").unwrap();
    assert_eq!(a.full_path, "/a");
    assert!(a.description.is_none());
    assert_eq!(a.contents.len(), 1);
    assert_eq!(root.get_node("/a/b").unwrap().full_path, "/a/b");
    assert_eq!(root.get_node("/a/b/c").unwrap().description.as_deref(), Some("deep"));
    assert!(root.get_node("/a/c").is_none());
    assert_eq!(root.get_node("/").unwrap().full_path, "/");
}

#[test]
fn added_node_is_merged() {
    let first = OscNode {
        type_tag: OscTypeTag::from_tag("f"),
        access: AccessMode::ReadOnly,
        value: Some(vec![OscValue::Int(1)]),
        ..described("/a", "old")
    };
    let second = OscNode {
        full_path: "/a/".to_string(),
        access: AccessMode::NoAccess,
        range: Some(vec![RangeInfo { min: None, max: None, vals: None }]),
        ..described("/a/", "new")
    };
    let root = OscRootNode::new().add_node(first).add_node(node("/a/b")).add_node(second);
    let a = root.get_node("/a").unwrap();
    assert_eq!(a.full_path, "/a/");
    assert_eq!(a.description.as_deref(), Some("new"));
    assert_eq!(a.access, AccessMode::ReadOnly);
    assert!(a.is_type(&OscType::Float32));
    assert!(matches!(a.value.as_ref().unwrap()[0], OscValue::Int(1)));
    assert_eq!(a.range.as_ref().unwrap().len(), 1);
    assert!(root.get_node("/a/b").is_some());
}

#[test]
fn children_of_the_added_node_come_first() {
    let mut contents = Contents::new();
    contents.insert("b".to_string(), described("/a/b", "brought"));
    contents.insert("c".to_string(), node("/a/c"));
    let root = OscRootNode::new()
        .add_node(described("/a/b/x", "lost"))
        .add_node(node("/a/d"))
        .add_node(OscNode { contents, ..node("/a") });
    assert_eq!(root.get_node("/a/b").unwrap().description.as_deref(), Some("brought"));
    assert!(root.get_node("/a/b/x").is_none());
    assert!(root.get_node("/a/c").is_some());
    assert!(root.get_node("/a/d").is_some());
}

#[test]
fn adding_twice_is_adding_once() {
    let once = OscRootNode::new().add_node(described("/a/b", "x"));
    let twice = once.clone().add_node(described("/a/b", "x"));
    assert_eq!(format!("{:?}", once), format!("{:?}", twice));
}

#[test]
fn adding_at_the_root() {
    let root = OscRootNode::new().with_avatar().add_node(described("", "all"));
    let r = root.get_node("/").unwrap();
    assert_eq!(r.description.as_deref(), Some("all"));
    assert_eq!(r.full_path, "");
    assert!(root.get_node("/avatar").is_some());
}

#[test]
fn removed_node_is_gone() {
    let mut root = OscRootNode::new().add_node(node("/a/b/c")).add_node(described("/a/d", "d"));
    let b = root.remove_node("/a/b").unwrap();
    assert_eq!(b.full_path, "/a/b");
    assert_eq!(b.contents.len(), 1);
    assert!(root.get_node("/a/b").is_none());
    assert!(root.get_node("/a/b/c").is_none());
    assert!(root.get_node("/a/d").is_some());
    assert!(root.get_node("/a").is_some());
    assert!(root.remove_node("/a/b").is_none());
    assert!(root.remove_node("/x/y").is_none());
    assert!(root.remove_node("/").is_none());
    assert!(root.remove_node("").is_none());
    assert!(root.get_node("/").is_some());
}

#[test]
fn remove_undoes_add() {
    let before = OscRootNode::new().with_avatar();
    let mut after = before.clone().add_node(described("/avatar/x", "x"));
    assert!(after.remove_node("/avatar/x").is_some());
    assert_eq!(format!("{:?}", before), format!("{:?}", after));
}

#[test]
fn change_in_place() {
    let mut root = OscRootNode::new().add_node(node("/a/b")).add_node(node("/c"));
    root.get_node_mut("/a/b").unwrap().description = Some("changed".to_string());
    root.get_node_mut("/").unwrap().description = Some("top".to_string());
    assert!(root.get_node_mut("/a/x").is_none());
    assert_eq!(root.get_node("/a/b").unwrap().description.as_deref(), Some("changed"));
    assert_eq!(root.get_node("/").unwrap().description.as_deref(), Some("top"));
    assert!(root.get_node("/c").unwrap().description.is_none());
}

#[test]
fn types_of_a_node() {
    let mut n = node("/a");
    assert!(!n.is_type(&OscType::True));
    assert!(!n.is_boolean_type());
    assert!(n.get_single_osc_type().is_none());
    n.type_tag = OscTypeTag::from_tag("T");
    assert!(n.is_type(&OscType::True));
    assert!(n.is_boolean_type());
    assert!(*n.get_single_osc_type().unwrap() == OscType::True);
    n.type_tag = OscTypeTag::from_tag("ii");
    assert!(!n.is_type(&OscType::Int32));
    assert!(n.get_single_osc_type().is_none());
}

#[test]
fn children_by_name() {
    let mut c = Contents::new();
    assert!(c.is_empty());
    assert!(c.insert("a".to_string(), node("/a")).is_none());
    assert_eq!(c.insert("a".to_string(), node("/b")).unwrap().full_path, "/a");
    assert_eq!(c.get(&"a".to_string()).unwrap().full_path, "/b");
    assert!(c.get(&"x".to_string()).is_none());
    assert_eq!(c.len(), 1);
    assert!(c.remove(&"x".to_string()).is_none());
    assert_eq!(c.remove(&"a".to_string()).unwrap().full_path, "/b");
    assert!(c.is_empty());
}
