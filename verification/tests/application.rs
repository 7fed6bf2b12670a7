use rosc::{OscMessage, OscPacket, OscType};
use vrchat_osc::announce::{create_mdns_response_message, extract_service_info};
use vrchat_osc::error::Error;
use vrchat_osc::host_info::HostInfo;
use vrchat_osc::message::DnsMessage;
use vrchat_osc::name::Name;
use vrchat_osc::net::{IpAddr, SocketAddr};
use vrchat_osc::packet::{decode_packet, encode_packet};
use vrchat_osc::resolver::{
    client_addresses, client_found, next_action, request_url, starts_with, Action, Event,
};
use vrchat_osc::service::{
    matches_pattern, osc_name, osc_service_type, query_name, query_service_type, service_found,
    service_of_type, to_upper_camel, ServiceType,
};
use vrchat_osc::vrchat::{addressed, VRChatOSC};

const HOST: IpAddr = IpAddr::V4(0x7F00_0001);

fn name(text: &str) -> Name {
    Name::from_ascii(text).unwrap()
}

fn at(port: u16) -> SocketAddr {
    SocketAddr::new(HOST, port)
}

fn packet() -> OscPacket {
    OscPacket::Message(OscMessage {
        addr: "/chatbox/input".to_string(),
        args: vec![OscType::String("Hello, VRChat!".to_string()), OscType::Bool(true)],
    })
}

fn app() -> VRChatOSC {
    VRChatOSC::new(HOST).unwrap().0
}

fn hear(app: &mut VRChatOSC, instance: &str, port: u16) {
    let m = create_mdns_response_message(&name(instance), HOST, port);
    app.mdns_mut().handle_message(&m);
}

#[test]
fn upper_camel_case() {
    assert_eq!(to_upper_camel("test_service"), "TestService");
    assert_eq!(to_upper_camel("my app"), "MyApp");
    assert_eq!(to_upper_camel("MyApp"), "MyApp");
}

#[test]
fn server_names() {
    assert_eq!(osc_name("TestService").unwrap().to_ascii(), "TestService._osc._udp.local.");
    assert_eq!(query_name("TestService").unwrap().to_ascii(), "TestService._oscjson._tcp.local.");
    assert!(matches!(osc_name(""), Err(Error::MdnsProtoError(_))));
    assert!(query_name("a b").is_err());
    assert!(osc_name("A").unwrap() != query_name("A").unwrap());
    assert_eq!(osc_service_type().unwrap().to_ascii(), "_osc._udp.local.");
    assert_eq!(query_service_type().unwrap().to_ascii(), "_oscjson._tcp.local.");
}

#[test]
fn services_by_kind() {
    match service_found(osc_name("A").unwrap(), at(1)) {
        Some(ServiceType::Osc(n, a)) => {
            assert_eq!(n.to_ascii(), "A._osc._udp.local.");
            assert_eq!(a, at(1));
        }
        other => panic!("{:?}", other),
    }
    match service_found(query_name("A").unwrap(), at(2)) {
        Some(ServiceType::OscQuery(n, a)) => {
            assert_eq!(n.to_ascii(), "A._oscjson._tcp.local.");
            assert_eq!(a, at(2));
        }
        other => panic!("{:?}", other),
    }
    assert!(service_found(name("A._http._tcp.local."), at(3)).is_none());
    assert!(service_found(name("A._OSC._udp.local."), at(3)).is_none());
    assert!(service_of_type(name("A."), at(3), "_osc._udp.local").is_none());
}

#[test]
fn patterns() {
    assert!(matches_pattern("VRChat-Client-*", "VRChat-Client-1234"));
    assert!(matches_pattern("VRChat-Client-*", "VRChat-Client-"));
    assert!(!matches_pattern("VRChat-Client-*", "vrchat-client-1"));
    assert!(!matches_pattern("VRChat-Client-*", "My-VRChat-Client-1"));
    assert!(matches_pattern("a?c", "abc"));
    assert!(!matches_pattern("a?c", "ac"));
    assert!(matches_pattern("*a*b", "xaaybxb"));
    assert!(!matches_pattern("*a*b", "xaaybxbc"));
    assert!(matches_pattern("", ""));
    assert!(!matches_pattern("", "a"));
    assert!(matches_pattern("**", ""));
    assert!(matches_pattern("a.b", "a.b"));
    assert!(!matches_pattern("a.b", "axb"));
}

#[test]
fn new_application_follows_both_types() {
    let (mut a, queries) = VRChatOSC::new(HOST).unwrap();
    assert_eq!(queries.len(), 2);
    let asked: Vec<String> = queries
        .iter()
        .map(|d| DnsMessage::from_bytes(&d.bytes).unwrap().queries[0].name.to_ascii())
        .collect();
    assert_eq!(asked, vec!["_osc._udp.local.", "_oscjson._tcp.local."]);
    assert!(queries.iter().all(|d| d.to.port() == 5353));
    hear(&mut a, "X._osc._udp.local.", 1);
    hear(&mut a, "X._oscjson._tcp.local.", 2);
    hear(&mut a, "X._http._tcp.local.", 3);
    assert_eq!(a.mdns().find_service(|_, _| true).len(), 2);
    assert!(a.list_services().is_empty());
}

#[test]
fn register_list_unregister() {
    let mut a = app();
    let r = a.register("test_service", 1, 2);
    assert!(r.result.is_ok());
    let announced: Vec<(String, u16)> =
        r.announce.iter().map(|(n, p)| (n.to_ascii(), *p)).collect();
    assert_eq!(
        announced,
        vec![
            ("TestService._osc._udp.local.".to_string(), 1),
            ("TestService._oscjson._tcp.local.".to_string(), 2)
        ]
    );
    assert!(a.register("other", 3, 4).result.is_ok());
    assert!(a.register("test_service", 5, 6).result.is_ok());
    assert_eq!(a.list_services(), vec!["test_service", "other"]);
    assert_eq!(a.mdns().registered_port(&name("TestService._osc._udp.local.")), Some(5));
    assert_eq!(a.mdns().registered_port(&name("TestService._oscjson._tcp.local.")), Some(6));
    assert!(!a.unregister("nobody").unwrap());
    assert!(a.unregister("test_service").unwrap());
    assert!(!a.unregister("test_service").unwrap());
    assert_eq!(a.list_services(), vec!["other"]);
    assert_eq!(a.mdns().registered_port(&name("TestService._osc._udp.local.")), None);
    assert_eq!(a.mdns().registered_port(&name("Other._oscjson._tcp.local.")), Some(4));
}

#[test]
fn services_without_names_are_refused() {
    let mut a = app();
    let r = a.register("", 1, 2);
    assert!(matches!(r.result, Err(Error::MdnsProtoError(_))));
    assert!(r.announce.is_empty());
    assert!(a.list_services().is_empty());
}

#[test]
fn half_registered_service_is_announced() {
    let mut a = app();
    let r = a.register_as("s", osc_name("S"), 1, Name::from_ascii(".."), 2);
    assert!(r.result.is_err());
    assert_eq!(r.announce.len(), 1);
    assert!(a.list_services().is_empty());
    assert_eq!(a.mdns().registered_port(&name("S._osc._udp.local.")), Some(1));
    let r = a.register_as("s", Name::from_ascii(".."), 1, query_name("S"), 2);
    assert!(r.result.is_err() && r.announce.is_empty());
}

#[test]
fn unregister_with_refused_names() {
    let mut a = app();
    a.register("s", 1, 2);
    assert!(a.unregister_as("s", Name::from_ascii(".."), query_name("S")).is_err());
    assert!(a.list_services().is_empty());
    assert_eq!(a.mdns().registered_port(&name("S._osc._udp.local.")), Some(1));
    a.register("s", 1, 2);
    assert!(a.unregister_as("s", osc_name("S"), Name::from_ascii("..")).is_err());
    assert_eq!(a.mdns().registered_port(&name("S._osc._udp.local.")), None);
    assert_eq!(a.mdns().registered_port(&name("S._oscjson._tcp.local.")), Some(2));
    assert!(!a.unregister_as("s", Name::from_ascii(".."), Name::from_ascii("..")).unwrap());
}

#[test]
fn longest_name_that_has_only_one_server() {
    let mut a = app();
    let label = "x".repeat(60);
    let service = vec![label.as_str(); 3].join(".") + "." + &"y".repeat(54);
    let camel = to_upper_camel(&service);
    assert!(osc_name(&camel).is_ok());
    assert!(query_name(&camel).is_err());
    let r = a.register(&service, 1, 2);
    assert!(r.result.is_err());
    assert_eq!(r.announce.len(), 1);
}

#[test]
fn shutdown_ends_all() {
    let mut a = app();
    a.register("a", 1, 2);
    a.register("b", 3, 4);
    let r = a.shutdown();
    assert!(r.result.is_ok());
    assert_eq!(r.stopped, vec!["a", "b"]);
    assert!(a.list_services().is_empty());
    for n in ["A._osc._udp.local.", "A._oscjson._tcp.local.", "B._osc._udp.local."] {
        assert_eq!(a.mdns().registered_port(&name(n)), None);
    }
    assert!(a.shutdown().stopped.is_empty());
}

#[test]
fn servers_of_a_name_with_an_escape_differ() {
    let a = osc_name("A\\").unwrap();
    let b = query_name("A\\").unwrap();
    assert!(a != b);
    assert_eq!(a.labels().len(), 3);
    assert!(service_found(a, at(1)).is_none());
}

#[test]
fn targets_by_pattern() {
    let mut a = app();
    hear(&mut a, "VRChat-Client-1._osc._udp.local.", 1);
    hear(&mut a, "VRChat-Client-2._osc._udp.local.", 2);
    hear(&mut a, "Other._osc._udp.local.", 3);
    hear(&mut a, "VRChat-Client-1._oscjson._tcp.local.", 4);
    let ports = |t: Vec<(Name, SocketAddr)>| t.iter().map(|(_, a)| a.port()).collect::<Vec<u16>>();
    assert_eq!(ports(a.osc_targets("VRChat-Client-*")), vec![1, 2]);
    assert_eq!(ports(a.osc_targets("*")), vec![1, 2, 3]);
    assert_eq!(ports(a.osc_targets("Other")), vec![3]);
    assert_eq!(ports(a.osc_targets("other")), Vec::<u16>::new());
    assert_eq!(ports(a.query_targets("VRChat-Client-*")), vec![4]);
}

#[test]
fn packet_is_sent_to_all_targets() {
    let mut a = app();
    assert!(a.send(&packet(), "*").unwrap().is_empty());
    hear(&mut a, "A._osc._udp.local.", 1);
    hear(&mut a, "B._osc._udp.local.", 2);
    let d = a.send(&packet(), "*").unwrap();
    assert_eq!(d.len(), 2);
    assert_eq!((d[0].to, d[1].to), (at(1), at(2)));
    assert_eq!(d[0].bytes, d[1].bytes);
    assert!(decode_packet(&d[0].bytes).unwrap() == packet());
    let one = a.send_to_addr(&packet(), at(9)).unwrap();
    assert_eq!(one.to, at(9));
    assert_eq!(one.bytes, d[0].bytes);
    let scoped = SocketAddr::V6 { ip: 1, port: 9, flowinfo: 0, scope_id: 4 };
    assert_eq!(a.send_to_addr(&packet(), scoped).unwrap().to, scoped);
}

#[test]
fn packets_on_the_wire() {
    let bytes = encode_packet(&packet()).unwrap();
    assert_eq!(&bytes[..16], b"/chatbox/input\0\0");
    assert!(decode_packet(&bytes).unwrap() == packet());
    assert!(decode_packet(b"nonsense").is_none());
    assert!(decode_packet(&[]).is_none());
}

#[test]
fn same_bytes_for_all() {
    let d = addressed(&vec![(name("a."), at(1)), (name("b."), at(2))], &vec![7, 8]);
    assert_eq!(d.len(), 2);
    assert_eq!(d[1].to, at(2));
    assert_eq!(d[1].bytes, vec![7, 8]);
}

#[test]
fn two_applications_find_each_other() {
    let mut a = app();
    let mut b = VRChatOSC::new(IpAddr::V4(0x0A00_0001)).unwrap().0;
    let r = a.register("speaker", 10, 20);
    for (n, p) in &r.announce {
        let d = a.mdns().announcement(n, *p).unwrap();
        let heard = b.mdns_mut().handle_datagram(&d.bytes);
        let (found, addr) = heard.discovered.unwrap();
        assert!(found == *n);
        assert_eq!(addr, at(*p));
        assert!(a.mdns_mut().handle_datagram(&d.bytes).discovered.is_none());
        assert_eq!(extract_service_info(&DnsMessage::from_bytes(&d.bytes).unwrap()).unwrap().1, at(*p));
    }
    assert_eq!(b.osc_targets("Speaker").len(), 1);
    assert_eq!(b.osc_targets("Sp*").len(), 1);
    assert!(b.osc_targets("Xp*").is_empty());
    assert_eq!(b.query_targets("Speaker").len(), 1);
}

#[test]
fn resolver_steps() {
    assert!(matches!(next_action(&Event::Started), Action::Listen));
    assert!(matches!(next_action(&Event::Busy), Action::BrowseAfter(10)));
    assert!(matches!(next_action(&Event::Failed), Action::Stop));
    assert!(matches!(next_action(&Event::Other), Action::Listen));
    assert!(matches!(next_action(&Event::Closed), Action::Browse));
    assert!(matches!(next_action(&Event::NotFetched), Action::Listen));
    let client = "VRChat-Client-1._oscjson._tcp.local.".to_string();
    match next_action(&Event::Resolved(client, vec![HOST], 5)) {
        Action::Fetch(addrs) => assert_eq!(addrs, vec![at(5)]),
        other => panic!("{:?}", other),
    }
    let other = "Other._oscjson._tcp.local.".to_string();
    assert!(matches!(next_action(&Event::Resolved(other, vec![HOST], 5)), Action::Listen));
    let h = HostInfo::new("VRChat-Client-1".to_string(), HOST, 9000);
    match next_action(&Event::Fetched(h, at(5))) {
        Action::Report(a) => assert_eq!((a.osc, a.osc_query), (at(9000), at(5))),
        other => panic!("{:?}", other),
    }
}

#[test]
fn clients_by_their_name() {
    let ips = vec![HOST, IpAddr::V6(1)];
    let addrs = client_addresses("VRChat-Client-1._oscjson._tcp.local.", &ips, 5).unwrap();
    assert_eq!(addrs, vec![at(5), SocketAddr::new(IpAddr::V6(1), 5)]);
    assert!(client_addresses("VRChat-client-1", &ips, 5).is_none());
    assert!(client_addresses("VRChat", &ips, 5).is_none());
    assert!(starts_with("abc", "") && starts_with("abc", "abc") && !starts_with("abc", "abcd"));
}

#[test]
fn client_addresses_from_its_host_info() {
    let h = HostInfo::new("VRChat-Client-1".to_string(), HOST, 9000);
    let a = client_found(&h, at(8080));
    assert_eq!(a.osc, at(9000));
    assert_eq!(a.osc_query, at(8080));
    let scoped = SocketAddr::V6 { ip: 0xFE80 << 112, port: 8080, flowinfo: 1, scope_id: 2 };
    assert_eq!(client_found(&h, scoped).osc_query, scoped);
    match next_action(&Event::Fetched(h, scoped)) {
        Action::Report(a) => assert_eq!(a.osc_query, scoped),
        other => panic!("{:?}", other),
    }
}

#[test]
fn request_addresses() {
    assert_eq!(request_url("127.0.0.1:80", "/a?VALUE"), "http://127.0.0.1:80/a?VALUE");
}
