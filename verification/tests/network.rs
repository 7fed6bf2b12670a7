use vrchat_osc::assoc::AssocMap;
use vrchat_osc::net::{
    after_receive_error, find_local_ip_for_destination, get_interface_index, is_loopback, mdns_group,
    multicast_interface, unspecified, AfterError, IfAddr, Interface, InterfaceList, IpAddr, LocalIp,
    MulticastInterface, ReceiveError, SocketAddr,
};

fn iface(name: &str, ip: IpAddr, index: Option<u32>) -> Interface {
    Interface {
        name: name.to_string(),
        addr: IfAddr { ip, netmask: IpAddr::V4(0xFFFF_FF00), prefixlen: 24, broadcast: None },
        index,
        adapter_name: None,
    }
}

fn on_adapter(adapter: &str) -> Interface {
    Interface { adapter_name: Some(adapter.to_string()), ..iface("a", IpAddr::V4(1), Some(1)) }
}

fn names(list: &InterfaceList) -> Vec<String> {
    list.get_interfaces().iter().map(|i| i.name.clone()).collect()
}

#[test]
fn loopback_addresses() {
    assert!(is_loopback(IpAddr::V4(0x7F00_0001)));
    assert!(is_loopback(IpAddr::V4(0x7FFF_FFFF)));
    assert!(!is_loopback(IpAddr::V4(0x7EFF_FFFF)));
    assert!(!is_loopback(IpAddr::V4(0x8000_0000)));
    assert!(is_loopback(IpAddr::V6(1)));
    assert!(!is_loopback(IpAddr::V6(0)));
}

#[test]
fn local_address_towards_a_destination() {
    let here = IpAddr::V4(0x7F00_0001);
    assert_eq!(find_local_ip_for_destination(here), LocalIp::Known(here));
    assert_eq!(
        find_local_ip_for_destination(IpAddr::V4(0xC0A8_0001)),
        LocalIp::ConnectFrom(SocketAddr::new(IpAddr::V4(0), 0))
    );
    assert_eq!(
        find_local_ip_for_destination(IpAddr::V6(2)),
        LocalIp::ConnectFrom(SocketAddr::new(IpAddr::V6(0), 0))
    );
    assert_eq!(unspecified(IpAddr::V6(9)), IpAddr::V6(0));
}

#[test]
fn socket_addresses() {
    let a = SocketAddr::new(IpAddr::V4(7), 9);
    assert_eq!(a, SocketAddr::V4 { ip: 7, port: 9 });
    assert_eq!((a.ip(), a.port()), (IpAddr::V4(7), 9));
    let b = SocketAddr::new(IpAddr::V6(7), 9);
    assert_eq!(b, SocketAddr::V6 { ip: 7, port: 9, flowinfo: 0, scope_id: 0 });
    assert_eq!((b.ip(), b.port()), (IpAddr::V6(7), 9));
    assert!(b != SocketAddr::V6 { ip: 7, port: 9, flowinfo: 0, scope_id: 3 });
    assert!(b != SocketAddr::V6 { ip: 7, port: 9, flowinfo: 3, scope_id: 0 });
}

#[test]
fn multicast_groups() {
    let v4 = mdns_group(IpAddr::V4(7));
    assert_eq!(v4.ip(), IpAddr::V4(u32::from_be_bytes([224, 0, 0, 251])));
    assert_eq!(v4.port(), 5353);
    let v6 = mdns_group(IpAddr::V6(7));
    let mut group = [0; 16];
    group[0] = 0xFF;
    group[1] = 0x02;
    group[15] = 0xFB;
    assert_eq!(v6.ip(), IpAddr::V6(u128::from_be_bytes(group)));
}

#[test]
fn interface_of_an_address() {
    let list = vec![
        iface("a", IpAddr::V4(1), None),
        iface("b", IpAddr::V6(1), Some(2)),
        iface("c", IpAddr::V6(1), Some(3)),
        iface("d", IpAddr::V4(4), Some(4)),
    ];
    assert_eq!(get_interface_index(&IpAddr::V4(4), &list), Some(4));
    assert_eq!(get_interface_index(&IpAddr::V4(1), &list), None);
    assert_eq!(get_interface_index(&IpAddr::V6(1), &list), Some(2));
    assert_eq!(get_interface_index(&IpAddr::V6(9), &list), None);
    assert_eq!(multicast_interface(IpAddr::V4(4), &list), MulticastInterface::Address(4));
    assert_eq!(multicast_interface(IpAddr::V6(1), &list), MulticastInterface::Index(2));
    assert_eq!(multicast_interface(IpAddr::V6(9), &list), MulticastInterface::Index(0));
}

#[test]
fn interfaces_come_and_go() {
    let a = || iface("a", IpAddr::V4(1), Some(1));
    let b = || iface("b", IpAddr::V4(2), Some(2));
    let c = || iface("c", IpAddr::V4(3), Some(3));
    let mut list = InterfaceList::new(vec![a(), b()]);
    list.added(a());
    assert_eq!(names(&list), vec!["a", "b"]);
    list.added(c());
    assert_eq!(names(&list), vec!["a", "b", "c"]);
    list.removed(&b());
    assert_eq!(names(&list), vec!["a", "c"]);
    list.removed(&b());
    list.removed(&iface("a", IpAddr::V4(1), Some(9)));
    assert_eq!(names(&list), vec!["a", "c"]);
    assert!(a().same_interface(&a()) && !a().same_interface(&b()));
}

#[test]
fn every_copy_of_an_interface_goes() {
    let a = || iface("a", IpAddr::V4(1), Some(1));
    let mut list = InterfaceList::new(vec![a(), iface("b", IpAddr::V4(2), None), a()]);
    list.removed(&a());
    assert_eq!(names(&list), vec!["b"]);
}

#[test]
fn interfaces_of_different_adapters_are_different() {
    assert!(!on_adapter("x").same_interface(&on_adapter("y")));
    assert!(!on_adapter("x").same_interface(&iface("a", IpAddr::V4(1), Some(1))));
    assert!(on_adapter("x").same_interface(&on_adapter("x").clone()));
    let mut list = InterfaceList::new(vec![on_adapter("x")]);
    list.added(on_adapter("y"));
    assert_eq!(names(&list).len(), 2);
    list.removed(&on_adapter("x"));
    assert_eq!(list.get_interfaces()[0].adapter_name.as_deref(), Some("y"));
}

#[test]
fn maps_are_copied() {
    let mut m: AssocMap<String, u8> = AssocMap::new();
    m.insert("b".to_string(), 1);
    m.insert("a".to_string(), 2);
    let c = m.clone();
    m.remove(&"a".to_string());
    assert_eq!(c.len(), 2);
    assert_eq!((c.key_at(0).as_str(), *c.val_at(1)), ("b", 2));
    assert_eq!(c.get(&"a".to_string()), Some(&2));
}

#[test]
fn receiving_after_an_error() {
    assert_eq!(after_receive_error(ReceiveError::ConnectionReset), AfterError::Stop);
    assert_eq!(after_receive_error(ReceiveError::BrokenPipe), AfterError::Stop);
    assert_eq!(after_receive_error(ReceiveError::Other), AfterError::Retry(100));
}

#[test]
fn maps_keep_their_order() {
    let mut m: AssocMap<String, u8> = AssocMap::new();
    assert!(m.is_empty());
    assert_eq!(m.insert("b".to_string(), 1), None);
    assert_eq!(m.insert("a".to_string(), 2), None);
    assert_eq!(m.insert("b".to_string(), 3), Some(1));
    assert_eq!((m.key_at(0).as_str(), *m.val_at(0)), ("b", 3));
    *m.get_mut(&"a".to_string()).unwrap() = 9;
    assert!(m.get_mut(&"x".to_string()).is_none());
    assert_eq!(m.get(&"a".to_string()), Some(&9));
    assert!(m.contains_key(&"a".to_string()));
    assert_eq!(m.remove(&"b".to_string()), Some(3));
    assert_eq!(m.remove(&"b".to_string()), None);
    assert_eq!(m.len(), 1);
    assert_eq!(m.key_at(0), "a");
}
