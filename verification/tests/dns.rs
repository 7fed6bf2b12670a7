use hickory_proto::op::Message;
use hickory_proto::rr::RData;
use hickory_proto::serialize::binary::BinDecodable;
use vrchat_osc::announce::{
    create_mdns_response_message, create_type_query, extract_service_info, service_type,
};
use vrchat_osc::error::Error;
use vrchat_osc::mdns::Mdns;
use vrchat_osc::message::{DnsMessage, Head, MessageType, Query, Record, RecordData};
use vrchat_osc::name::Name;
use vrchat_osc::net::{IpAddr, SocketAddr, MDNS_IPV4_ADDR, MDNS_IPV6_ADDR, MDNS_PORT};

const HOST: IpAddr = IpAddr::V4(0xC0A8_0105);

fn name(text: &str) -> Name {
    Name::from_ascii(text).unwrap()
}

fn query(text: &str, query_type: u16) -> DnsMessage {
    DnsMessage {
        head: Head {
            id: 0,
            message_type: MessageType::Query,
            op_code: 0,
            authoritative: false,
            response_code: 0,
        },
        queries: vec![Query { name: name(text), query_type }],
        answers: vec![],
        additionals: vec![],
    }
}

fn at(port: u16) -> SocketAddr {
    SocketAddr::new(HOST, port)
}

#[test]
fn names_are_read_and_written() {
    let n = name("Foo-1._osc._udp.local.");
    assert!(n.is_fqdn());
    assert_eq!(n.labels().len(), 4);
    assert_eq!(n.labels()[0], b"Foo-1".to_vec());
    assert_eq!(n.to_ascii(), "Foo-1._osc._udp.local.");
    let r = name("a.b");
    assert!(!r.is_fqdn());
    assert_eq!(r.to_ascii(), "a.b");
    assert_eq!(name(".").labels().len(), 0);
    assert_eq!(name(".").to_ascii(), ".");
    assert_eq!(name("").labels().len(), 0);
    assert!(!name("").is_fqdn());
    assert_eq!(name("").to_ascii(), "");
    assert_eq!(Name::new(vec![], false).unwrap().to_ascii(), "");
    assert_eq!(Name::new(vec![], true).unwrap().to_ascii(), ".");
    let e = name("a\\.b.c.");
    assert_eq!(e.labels().len(), 2);
    assert_eq!(e.labels()[0], b"a.b".to_vec());
    assert_eq!(e.to_ascii(), "a\\.b.c.");
}

#[test]
fn names_that_are_refused() {
    for text in ["a..b.", "..", "a b.", "-x.", "\u{e4}.", "a\\\\b.", "a\\1._udp.local."] {
        assert!(matches!(Name::from_ascii(text), Err(Error::MdnsProtoError(_))), "{}", text);
    }
    let long = "x".repeat(64);
    assert!(Name::from_ascii(&long).is_err());
    assert!(Name::from_ascii(&"x".repeat(63)).is_ok());
    let label = "x".repeat(62) + ".";
    assert!(Name::from_ascii(&label.repeat(4)).is_ok());
    assert!(Name::from_ascii(&label.repeat(5)).is_err());
}

#[test]
fn last_labels_behind_escapes() {
    for text in ["a\\.b._udp.local.", "a\\065._udp.local.", "\\.x._udp.local.", "x\\..y._udp.local."] {
        let n = name(text);
        let count = n.labels().len();
        assert_eq!(n.labels()[count - 2], b"_udp".to_vec(), "{}", text);
        assert_eq!(n.labels()[count - 1], b"local".to_vec());
        assert!(n.is_fqdn());
    }
}

#[test]
fn names_from_labels() {
    let n = Name::new(vec![b"a".to_vec(), b"b".to_vec()], true).unwrap();
    assert_eq!(n.to_ascii(), "a.b.");
    assert!(Name::new(vec![vec![]], true).is_none());
    assert!(Name::new(vec![vec![0; 64]], true).is_none());
    assert!(Name::new(vec![vec![0; 63]; 3], true).is_some());
    assert!(Name::new(vec![vec![0; 63]; 4], true).is_none());
    assert!(Name::new(vec![vec![0; 1]; 127], true).is_some());
    assert!(Name::new(vec![vec![0; 1]; 128], true).is_none());
}

#[test]
fn names_are_compared_whatever_their_case() {
    assert!(name("FOO.local.") == name("foo.LOCAL."));
    assert!(name("foo.local.") != name("foo.local"));
    assert!(name("foo.local.") != name("fo.local."));
    assert!(name("a.foo.local.") != name("foo.local."));
    assert_eq!(name("FOO.").clone().to_ascii(), "FOO.");
}

#[test]
fn names_are_trimmed() {
    let n = name("x.y._osc._udp.local.");
    assert_eq!(n.trim_to(3).to_ascii(), "_osc._udp.local.");
    assert_eq!(n.trim_to(0).to_ascii(), ".");
    assert_eq!(n.trim_to(5).to_ascii(), n.to_ascii());
    assert_eq!(n.trim_to(6).to_ascii(), n.to_ascii());
    assert_eq!(name("a.b").trim_to(2).to_ascii(), "a.b.");
    assert_eq!(name("a.b").trim_to(3).to_ascii(), "a.b");
    assert_eq!(service_type(&n).to_ascii(), "_osc._udp.local.");
    assert_eq!(n.num_labels(), 5);
    assert_eq!(name("*.b.c.").num_labels(), 2);
    assert_eq!(name(".").num_labels(), 0);
}

#[test]
fn announcement_on_the_wire() {
    let n = name("Foo._osc._udp.local.");
    let bytes = create_mdns_response_message(&n, HOST, 9000).to_bytes().unwrap();
    let m = Message::from_bytes(&bytes).unwrap();
    assert_eq!(m.id(), 0);
    assert_eq!(m.message_type(), hickory_proto::op::MessageType::Response);
    assert_eq!(m.op_code(), hickory_proto::op::OpCode::Query);
    assert!(m.authoritative());
    assert!(m.queries().is_empty());
    assert_eq!(m.answers().len(), 1);
    assert_eq!(m.answers()[0].name().to_ascii(), "_osc._udp.local.");
    assert_eq!(m.answers()[0].ttl(), 120);
    match m.answers()[0].data() {
        RData::PTR(p) => assert_eq!(p.0.to_ascii(), "Foo._osc._udp.local."),
        other => panic!("{:?}", other),
    }
    assert_eq!(m.additionals().len(), 2);
    match m.additionals()[0].data() {
        RData::SRV(s) => {
            assert_eq!((s.priority(), s.weight(), s.port()), (0, 0, 9000));
            assert_eq!(s.target().to_ascii(), "foo._osc._udp.local.");
        }
        other => panic!("{:?}", other),
    }
    match m.additionals()[1].data() {
        RData::A(a) => assert_eq!(a.0.octets(), [192, 168, 1, 5]),
        other => panic!("{:?}", other),
    }
}

#[test]
fn announcement_is_understood() {
    for ip in [HOST, IpAddr::V6(0xFE80_0000_0000_0000_0000_0000_0000_0042)] {
        let n = name("FooBar._osc._udp.local.");
        let bytes = create_mdns_response_message(&n, ip, 1234).to_bytes().unwrap();
        let m = DnsMessage::from_bytes(&bytes).unwrap();
        let (found, addr) = extract_service_info(&m).unwrap();
        assert_eq!(found.to_ascii(), "FooBar._osc._udp.local.");
        assert_eq!(addr, SocketAddr::new(ip, 1234));
    }
}

#[test]
fn announcement_of_strange_names_is_understood() {
    let labels = vec![vec![0u8, 255, 46, 92], b"_osc".to_vec(), b"_UDP".to_vec(), b"local".to_vec()];
    let n = Name::new(labels.clone(), true).unwrap();
    let bytes = create_mdns_response_message(&n, HOST, 1).to_bytes().unwrap();
    let (found, _) = extract_service_info(&DnsMessage::from_bytes(&bytes).unwrap()).unwrap();
    assert_eq!(*found.labels(), labels);
    let longest = Name::new(vec![vec![65; 63], vec![66; 63], vec![67; 63], vec![68; 61]], true).unwrap();
    let bytes = create_mdns_response_message(&longest, HOST, 1).to_bytes().unwrap();
    let (found, _) = extract_service_info(&DnsMessage::from_bytes(&bytes).unwrap()).unwrap();
    assert_eq!(found.labels(), longest.labels());
    let root = name(".");
    let bytes = create_mdns_response_message(&root, HOST, 1).to_bytes().unwrap();
    let (found, _) = extract_service_info(&DnsMessage::from_bytes(&bytes).unwrap()).unwrap();
    assert_eq!(found.labels().len(), 0);
}

#[test]
fn type_query_on_the_wire() {
    let bytes = create_type_query(&name("_osc._udp.local.")).to_bytes().unwrap();
    let m = DnsMessage::from_bytes(&bytes).unwrap();
    assert_eq!(m.head.message_type, MessageType::Query);
    assert_eq!(m.head.id, 0);
    assert!(!m.head.authoritative);
    assert_eq!(m.queries.len(), 1);
    assert_eq!(m.queries[0].query_type, 255);
    assert_eq!(m.queries[0].name.to_ascii(), "_osc._udp.local.");
    assert!(m.answers.is_empty() && m.additionals.is_empty());
}

#[test]
fn message_of_every_kind_of_record() {
    let head = Head {
        id: 77,
        message_type: MessageType::Response,
        op_code: 0,
        authoritative: false,
        response_code: 0,
    };
    let record = |data| Record { name: name("A.local."), ttl: 5, data };
    let m = DnsMessage {
        head,
        queries: vec![Query { name: name("q."), query_type: 12 }],
        answers: vec![record(RecordData::Srv(1, 2, 3, name("T.local."))), record(RecordData::Ip6(9))],
        additionals: vec![record(RecordData::Ptr(name("B.local.")))],
    };
    let r = DnsMessage::from_bytes(&m.to_bytes().unwrap()).unwrap();
    assert_eq!(r.head, head);
    assert_eq!(r.queries[0].query_type, 12);
    assert_eq!(r.queries[0].name.to_ascii(), "q.");
    match &r.answers[0].data {
        RecordData::Srv(1, 2, 3, t) => assert_eq!(t.to_ascii(), "t.local."),
        other => panic!("{:?}", other),
    }
    assert!(matches!(r.answers[1].data, RecordData::Ip6(9)));
    assert_eq!(r.answers[1].name.to_ascii(), "A.local.");
    assert_eq!(r.answers[1].ttl, 5);
    match &r.additionals[0].data {
        RecordData::Ptr(p) => assert_eq!(p.to_ascii(), "B.local."),
        other => panic!("{:?}", other),
    }
}

#[test]
fn records_of_other_types_are_seen() {
    let mut m = Message::new();
    m.add_answer(hickory_proto::rr::Record::from_rdata(
        hickory_proto::rr::Name::from_ascii("x.").unwrap(),
        1,
        RData::TXT(hickory_proto::rr::rdata::TXT::new(vec!["t".to_string()])),
    ));
    let bytes = hickory_proto::serialize::binary::BinEncodable::to_bytes(&m).unwrap();
    let r = DnsMessage::from_bytes(&bytes).unwrap();
    assert!(matches!(r.answers[0].data, RecordData::Other(16)));
}

#[test]
fn bytes_that_are_no_message() {
    assert!(matches!(DnsMessage::from_bytes(&[1, 2, 3]), Err(Error::MdnsProtoError(_))));
    assert!(DnsMessage::from_bytes(&[]).is_err());
}

fn without(kind: usize) -> DnsMessage {
    let mut m = create_mdns_response_message(&name("X._osc._udp.local."), HOST, 1);
    match kind {
        0 => {
            m.answers.clear();
        }
        1 => {
            m.additionals.remove(0);
        }
        _ => {
            m.additionals.remove(1);
        }
    }
    m
}

#[test]
fn incomplete_announcements_are_passed_over() {
    for kind in 0..3 {
        assert!(extract_service_info(&without(kind)).is_none());
    }
}

#[test]
fn inconsistent_announcements_are_passed_over() {
    let mut m = create_mdns_response_message(&name("X._osc._udp.local."), HOST, 1);
    m.additionals[0].name = name("Y._osc._udp.local.");
    assert!(extract_service_info(&m).is_none());
    let mut m = create_mdns_response_message(&name("X._osc._udp.local."), HOST, 1);
    m.additionals[1].name = name("Y._osc._udp.local.");
    assert!(extract_service_info(&m).is_none());
    let mut m = create_mdns_response_message(&name("X._osc._udp.local."), HOST, 1);
    m.additionals[0].name = name("x._OSC._udp.local.");
    m.additionals[1].name = name("x._osc._udp.LOCAL.");
    assert!(extract_service_info(&m).is_some());
}

#[test]
fn first_records_count() {
    let mut m = create_mdns_response_message(&name("X._osc._udp.local."), HOST, 1);
    m.additionals.push(Record {
        name: name("X._osc._udp.local."),
        ttl: 1,
        data: RecordData::Ip6(7),
    });
    m.additionals.push(Record {
        name: name("Z._osc._udp.local."),
        ttl: 1,
        data: RecordData::Srv(0, 0, 99, name("Z.")),
    });
    assert_eq!(extract_service_info(&m).unwrap().1, at(1));
    m.answers.insert(0, Record { name: name("q."), ttl: 1, data: RecordData::Ip4(5) });
    assert!(extract_service_info(&m).is_none());
}

#[test]
fn register_and_unregister() {
    let mut node = Mdns::new(HOST);
    let a = name("A._osc._udp.local.");
    let b = name("B._osc._udp.local.");
    node.register(a.clone(), 1);
    node.register(b.clone(), 2);
    node.register(name("a._OSC._udp.local."), 3);
    assert_eq!(node.registered_port(&a), Some(3));
    assert_eq!(node.registered_port(&b), Some(2));
    node.unregister(&a);
    assert_eq!(node.registered_port(&a), None);
    assert_eq!(node.registered_port(&b), Some(2));
    node.unregister(&name("nobody._osc._udp.local."));
    node.unregister(&b);
    assert_eq!(node.registered_port(&b), None);
    assert!(node.handle_query(&query("_osc._udp.local.", 12)).is_empty());
}

#[test]
fn advertised_address() {
    let mut node = Mdns::new(HOST);
    assert_eq!(node.get_advertised_ip(), HOST);
    let a = name("A._osc._udp.local.");
    let d = node.announcement(&a, 7).unwrap();
    assert_eq!(d.to, SocketAddr::new(IpAddr::V4(MDNS_IPV4_ADDR), MDNS_PORT));
    node.set_advertised_ip(IpAddr::V6(5));
    assert_eq!(node.get_advertised_ip(), IpAddr::V6(5));
    let d = node.announcement(&a, 7).unwrap();
    assert_eq!(d.to, SocketAddr::new(IpAddr::V6(MDNS_IPV6_ADDR), 5353));
    let m = DnsMessage::from_bytes(&d.bytes).unwrap();
    let (_, addr) = extract_service_info(&m).unwrap();
    assert_eq!(addr, SocketAddr::new(IpAddr::V6(5), 7));
}

fn spelled(replies: &[Vec<u8>]) -> Vec<(String, SocketAddr)> {
    replies
        .iter()
        .map(|b| {
            let m = DnsMessage::from_bytes(b).unwrap();
            let (n, a) = extract_service_info(&m).unwrap();
            (n.to_ascii(), a)
        })
        .collect()
}

#[test]
fn type_queries_are_answered() {
    let mut node = Mdns::new(HOST);
    node.register(name("A._osc._udp.local."), 1);
    node.register(name("B._osc._udp.local."), 2);
    node.register(name("A._oscjson._tcp.local."), 3);
    for query_type in [12, 255] {
        let replies = node.handle_query(&query("_OSC._udp.local.", query_type));
        assert_eq!(
            spelled(&replies),
            vec![
                ("A._osc._udp.local.".to_string(), at(1)),
                ("B._osc._udp.local.".to_string(), at(2))
            ]
        );
    }
    assert!(node.handle_query(&query("_osc._udp.local.", 33)).is_empty());
    assert!(node.handle_query(&query("_http._tcp.local.", 255)).is_empty());
}

#[test]
fn instance_queries_are_answered() {
    let mut node = Mdns::new(HOST);
    node.register(name("A._osc._udp.local."), 1);
    for query_type in [1, 12, 33, 255] {
        let replies = node.handle_query(&query("a._osc._udp.local.", query_type));
        assert_eq!(spelled(&replies), vec![("a._osc._udp.local.".to_string(), at(1))]);
    }
    assert!(node.handle_query(&query("b._osc._udp.local.", 255)).is_empty());
}

#[test]
fn wildcards_do_not_count_as_labels() {
    let mut node = Mdns::new(HOST);
    node.register(name("*._osc._udp.local."), 1);
    assert!(node.handle_query(&query("*._osc._udp.local.", 33)).is_empty());
    assert_eq!(node.handle_query(&query("_osc._udp.local.", 12)).len(), 1);
}

#[test]
fn several_questions_in_one_message() {
    let mut node = Mdns::new(HOST);
    node.register(name("A._osc._udp.local."), 1);
    let mut q = query("_osc._udp.local.", 12);
    q.queries.push(Query { name: name("A._osc._udp.local."), query_type: 1 });
    q.queries.push(Query { name: name("nothing."), query_type: 255 });
    assert_eq!(node.handle_query(&q).len(), 2);
}

#[test]
fn following() {
    let mut node = Mdns::new(HOST);
    let t = name("_osc._udp.local.");
    let d = node.follow(&t).unwrap().unwrap();
    assert_eq!(d.to.port(), 5353);
    assert_eq!(DnsMessage::from_bytes(&d.bytes).unwrap().queries[0].query_type, 255);
    assert!(node.follow(&name("_OSC._UDP.local.")).unwrap().is_none());
    node.unfollow(&t);
    node.unfollow(&t);
    assert!(node.follow(&t).unwrap().is_some());
}

#[test]
fn announced_service_is_known() {
    let mut node = Mdns::new(HOST);
    node.follow(&name("_osc._udp.local.")).unwrap();
    let x = name("X._osc._udp.local.");
    let m = create_mdns_response_message(&x, HOST, 5);
    let (n, a) = node.handle_response(&m).unwrap();
    assert_eq!((n.to_ascii().as_str(), a), ("X._osc._udp.local.", at(5)));
    assert!(node.handle_response(&m).is_none());
    assert_eq!(node.find_service_by_name(&name("x._osc._udp.local.")).unwrap().1, at(5));
    let moved = create_mdns_response_message(&name("x._osc._udp.local."), HOST, 6);
    assert!(node.handle_response(&moved).is_some());
    let all = node.find_service(|_, _| true);
    assert_eq!(all.len(), 1);
    assert_eq!(all[0].0.to_ascii(), "X._osc._udp.local.");
    assert_eq!(all[0].1, at(6));
    assert!(node.find_service_by_name(&name("y._osc._udp.local.")).is_none());
    assert_eq!(node.find_service(|_, a| a.port() == 6).len(), 1);
    assert!(node.find_service(|_, a| a.port() == 5).is_empty());
}

#[test]
fn own_and_unfollowed_services_are_ignored() {
    let mut node = Mdns::new(HOST);
    let m = create_mdns_response_message(&name("X._osc._udp.local."), HOST, 5);
    assert!(node.handle_response(&m).is_none());
    node.follow(&name("_osc._udp.local.")).unwrap();
    node.register(name("x._osc._udp.local."), 9);
    assert!(node.handle_response(&m).is_none());
    assert!(node.find_service(|_, _| true).is_empty());
    node.unregister(&name("X._osc._udp.local."));
    assert!(node.handle_response(&m).is_some());
}

#[test]
fn datagrams_are_handled() {
    let mut node = Mdns::new(HOST);
    node.follow(&name("_osc._udp.local.")).unwrap();
    node.register(name("A._osc._udp.local."), 1);
    let asked = node.handle_datagram(&query("_osc._udp.local.", 12).to_bytes().unwrap());
    assert_eq!(asked.replies.len(), 1);
    assert!(asked.discovered.is_none());
    let mut other = Mdns::new(at(0).ip());
    other.follow(&name("_osc._udp.local.")).unwrap();
    let heard = other.handle_datagram(&asked.replies[0]);
    assert!(heard.replies.is_empty());
    assert_eq!(heard.discovered.unwrap().1, at(1));
    let nothing = node.handle_datagram(&[]);
    assert!(nothing.replies.is_empty() && nothing.discovered.is_none());
    let noise = node.handle_datagram(&[9; 20]);
    assert!(noise.replies.is_empty() && noise.discovered.is_none());
}

#[test]
fn messages_with_errors_are_passed_over() {
    let mut node = Mdns::new(HOST);
    node.register(name("A._osc._udp.local."), 1);
    let mut q = query("_osc._udp.local.", 12);
    q.head.response_code = 3;
    assert!(node.handle_message(&q).replies.is_empty());
    q.head.response_code = 0;
    assert_eq!(node.handle_message(&q).replies.len(), 1);
    q.head.message_type = MessageType::Response;
    assert!(node.handle_message(&q).replies.is_empty());
}

#[test]
fn query_finds_an_instance() {
    let mut speaker = Mdns::new(HOST);
    speaker.register(name("A._osc._udp.local."), 1);
    let mut listener = Mdns::new(IpAddr::V4(9));
    let asked = listener.follow(&name("_osc._udp.local.")).unwrap().unwrap();
    let answered = speaker.handle_datagram(&asked.bytes);
    assert_eq!(answered.replies.len(), 1);
    listener.handle_datagram(&answered.replies[0]);
    let (_, addr) = listener.find_service_by_name(&name("a._OSC._udp.local.")).unwrap();
    assert_eq!(addr, at(1));
}
