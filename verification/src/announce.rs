//! Announcements of service instances.
use vstd::prelude::*;

use crate::message;
use crate::message::{
    DataView, DnsMessage, Head, MessageType, MessageView, Query, QueryView, Record, RecordData,
    RecordView,
};
use crate::name;
use crate::name::{Name, NameView};
use crate::net;
use crate::net::{IpAddr, SocketAddr};

verus! {

/// Seconds for which the records of an announcement may be kept.
pub const RECORD_TTL: u32 = 120;

/// Number of labels of a service type, such as `_osc._udp.local.`
pub const TYPE_LABELS: usize = 3;

/// The service type of `instance`: its last three labels.
pub open spec fn type_of(instance: NameView) -> NameView {
    name::trimmed(instance, TYPE_LABELS as nat)
}

/// The service type of `instance`.
pub fn service_type(instance: &Name) -> (r: Name)
    ensures
        r@ == type_of(instance@),
{
    instance.trim_to(TYPE_LABELS)
}

/// The data of an address record for `ip`.
pub open spec fn ip_data(ip: IpAddr) -> DataView {
    match ip {
        IpAddr::V4(bits) => DataView::Ip4(bits),
        IpAddr::V6(bits) => DataView::Ip6(bits),
    }
}

/// The message that announces `instance` at the address `ip` and the port `port`. The record that
/// points from the type to the instance is the answer; the host, which has the name of the
/// instance, and its address come in addition.
pub open spec fn announcement(instance: NameView, ip: IpAddr, port: u16) -> MessageView {
    MessageView {
        head: Head {
            id: 0,
            message_type: MessageType::Response,
            op_code: 0,
            authoritative: true,
            response_code: 0,
        },
        queries: Seq::empty(),
        answers: seq![
            RecordView {
                name: type_of(instance),
                ttl: RECORD_TTL,
                data: DataView::Ptr(instance),
            },
        ],
        additionals: seq![
            RecordView {
                name: instance,
                ttl: RECORD_TTL,
                data: DataView::Srv(0, 0, port, instance),
            },
            RecordView { name: instance, ttl: RECORD_TTL, data: ip_data(ip) },
        ],
    }
}

/// The message that asks for every record of the service type `service_type`.
pub open spec fn type_query(service_type: NameView) -> MessageView {
    MessageView {
        queries: seq![QueryView { name: service_type, query_type: message::TYPE_ANY }],
        ..message::blank_message()
    }
}

/// The instance that the first pointing record names.
pub open spec fn first_ptr(records: Seq<RecordView>) -> Option<NameView>
    decreases records.len(),
{
    if records.len() == 0 {
        None
    } else {
        match records[0].data {
            DataView::Ptr(instance) => Some(instance),
            _ => first_ptr(records.skip(1)),
        }
    }
}

/// The owner, the port and the host of the first service record.
pub open spec fn first_srv(records: Seq<RecordView>) -> Option<(NameView, u16, NameView)>
    decreases records.len(),
{
    if records.len() == 0 {
        None
    } else {
        match records[0].data {
            DataView::Srv(_, _, port, target) => Some((records[0].name, port, target)),
            _ => first_srv(records.skip(1)),
        }
    }
}

/// The owner and the address of the first address record.
pub open spec fn first_ip(records: Seq<RecordView>) -> Option<(NameView, IpAddr)>
    decreases records.len(),
{
    if records.len() == 0 {
        None
    } else {
        match records[0].data {
            DataView::Ip4(bits) => Some((records[0].name, IpAddr::V4(bits))),
            DataView::Ip6(bits) => Some((records[0].name, IpAddr::V6(bits))),
            _ => first_ip(records.skip(1)),
        }
    }
}

/// The service instance that a message announces, and where it runs: the one that the first
/// pointing record names, if the first service record is its own and the first address record is
/// that of its host.
pub open spec fn service_info(m: MessageView) -> Option<(NameView, SocketAddr)> {
    let records = m.answers + m.additionals;
    match (first_ptr(records), first_srv(records), first_ip(records)) {
        (Some(instance), Some((srv_owner, port, target)), Some((ip_owner, ip))) => if name::folded(
            srv_owner,
        ) == name::folded(instance) && name::folded(ip_owner) == name::folded(target) {
            Some((instance, net::addr_at(ip, port)))
        } else {
            None
        },
        _ => None,
    }
}

/// Whose address a record holds, and which.
struct Address {
    owner: Name,
    ip: IpAddr,
}

/// Where a service runs.
struct Host {
    owner: Name,
    port: u16,
    target: Name,
}

/// The first record of each kind among those that were looked at.
struct Firsts {
    ptr: Option<Name>,
    srv: Option<Host>,
    ip: Option<Address>,
}

impl Firsts {
    spec fn ptr_view(&self) -> Option<NameView> {
        match self.ptr {
            Some(n) => Some(n@),
            None => None,
        }
    }

    spec fn srv_view(&self) -> Option<(NameView, u16, NameView)> {
        match self.srv {
            Some(h) => Some((h.owner@, h.port, h.target@)),
            None => None,
        }
    }

    spec fn ip_view(&self) -> Option<(NameView, IpAddr)> {
        match self.ip {
            Some(a) => Some((a.owner@, a.ip)),
            None => None,
        }
    }

    /// These are the first ones of `all`, if the rest from `rest` on is still to be looked at.
    spec fn ahead_of(&self, rest: Seq<RecordView>, all: Seq<RecordView>) -> bool {
        &&& first_ptr(all) == (if self.ptr is Some {
            self.ptr_view()
        } else {
            first_ptr(rest)
        })
        &&& first_srv(all) == (if self.srv is Some {
            self.srv_view()
        } else {
            first_srv(rest)
        })
        &&& first_ip(all) == (if self.ip is Some {
            self.ip_view()
        } else {
            first_ip(rest)
        })
    }

    /// Looks at one more record.
    fn look_at(&mut self, record: &Record, Ghost(rest): Ghost<Seq<RecordView>>, Ghost(all): Ghost<
        Seq<RecordView>,
    >)
        requires
            rest.len() > 0,
            rest[0] == record@,
            old(self).ahead_of(rest, all),
        ensures
            final(self).ahead_of(rest.skip(1), all),
    {
        match &record.data {
            RecordData::Ptr(instance) => {
                if self.ptr.is_none() {
                    self.ptr = Some(instance.copy());
                }
            },
            RecordData::Srv(_, _, port, target) => {
                if self.srv.is_none() {
                    self.srv = Some(
                        Host { owner: record.name.copy(), port: *port, target: target.copy() },
                    );
                }
            },
            RecordData::Ip4(bits) => {
                if self.ip.is_none() {
                    self.ip = Some(Address { owner: record.name.copy(), ip: IpAddr::V4(*bits) });
                }
            },
            RecordData::Ip6(bits) => {
                if self.ip.is_none() {
                    self.ip = Some(Address { owner: record.name.copy(), ip: IpAddr::V6(*bits) });
                }
            },
            RecordData::Other(_) => {},
        }
    }

    /// Looks at more records.
    fn look_at_all(
        &mut self,
        records: &Vec<Record>,
        Ghost(later): Ghost<Seq<RecordView>>,
        Ghost(all): Ghost<Seq<RecordView>>,
    )
        requires
            old(self).ahead_of(message::records_view(records@) + later, all),
        ensures
            final(self).ahead_of(later, all),
    {
        let ghost views = message::records_view(records@);
        let mut i: usize = 0;
        assert(views.skip(0) =~= views);
        while i < records.len()
            invariant
                views == message::records_view(records@),
                i <= records@.len(),
                self.ahead_of(views.skip(i as int) + later, all),
            decreases records@.len() - i,
        {
            let ghost rest = views.skip(i as int) + later;
            self.look_at(&records[i], Ghost(rest), Ghost(all));
            assert(rest.skip(1) =~= views.skip(i + 1) + later);
            i += 1;
        }
        assert(views.skip(i as int) + later =~= later);
    }
}

/// The message that announces `instance_name` at the address `interface_ip` and the port `port`.
pub fn create_mdns_response_message(
    instance_name: &Name,
    interface_ip: IpAddr,
    port: u16,
) -> (r: DnsMessage)
    ensures
        r@ == announcement(instance_name@, interface_ip, port),
{
    let mut answers: Vec<Record> = Vec::new();
    answers.push(
        Record {
            name: service_type(instance_name),
            ttl: RECORD_TTL,
            data: RecordData::Ptr(instance_name.copy()),
        },
    );
    let mut additionals: Vec<Record> = Vec::new();
    additionals.push(
        Record {
            name: instance_name.copy(),
            ttl: RECORD_TTL,
            data: RecordData::Srv(0, 0, port, instance_name.copy()),
        },
    );
    additionals.push(
        Record {
            name: instance_name.copy(),
            ttl: RECORD_TTL,
            data: match interface_ip {
                IpAddr::V4(bits) => RecordData::Ip4(bits),
                IpAddr::V6(bits) => RecordData::Ip6(bits),
            },
        },
    );
    let r = DnsMessage {
        head: Head {
            id: 0,
            message_type: MessageType::Response,
            op_code: 0,
            authoritative: true,
            response_code: 0,
        },
        queries: Vec::new(),
        answers,
        additionals,
    };
    proof {
        let goal = announcement(instance_name@, interface_ip, port);
        assert(r@.queries =~= goal.queries);
        assert(r@.answers =~= goal.answers);
        assert(r@.additionals =~= goal.additionals);
    }
    r
}

/// The message that asks for every record of the service type `service_type_name`.
pub fn create_type_query(service_type_name: &Name) -> (r: DnsMessage)
    ensures
        r@ == type_query(service_type_name@),
{
    let mut queries: Vec<Query> = Vec::new();
    queries.push(Query { name: service_type_name.copy(), query_type: message::TYPE_ANY });
    let r = DnsMessage {
        head: Head {
            id: 0,
            message_type: MessageType::Query,
            op_code: 0,
            authoritative: false,
            response_code: 0,
        },
        queries,
        answers: Vec::new(),
        additionals: Vec::new(),
    };
    proof {
        let goal = type_query(service_type_name@);
        assert(r@.queries =~= goal.queries);
        assert(r@.answers =~= goal.answers);
        assert(r@.additionals =~= goal.additionals);
    }
    r
}

/// What the pair in `r` is, if there is one.
pub open spec fn info_in(r: Option<(Name, SocketAddr)>) -> Option<(NameView, SocketAddr)> {
    match r {
        Some((instance, addr)) => Some((instance@, addr)),
        None => None,
    }
}

/// The service instance that `message` announces, and where it runs.
pub fn extract_service_info(message: &DnsMessage) -> (r: Option<(Name, SocketAddr)>)
    ensures
        info_in(r) == service_info(message@),
{
    let ghost all = message@.answers + message@.additionals;
    let mut firsts = Firsts { ptr: None, srv: None, ip: None };
    firsts.look_at_all(&message.answers, Ghost(message@.additionals), Ghost(all));
    assert(message@.additionals + Seq::<RecordView>::empty() =~= message@.additionals);
    firsts.look_at_all(&message.additionals, Ghost(Seq::empty()), Ghost(all));
    match (firsts.ptr, firsts.srv, firsts.ip) {
        (Some(instance), Some(host), Some(address)) => {
            if host.owner == instance && address.owner == host.target {
                Some((instance, SocketAddr::new(address.ip, host.port)))
            } else {
                None
            }
        },
        _ => None,
    }
}

/// A name in lower case has the same lower case.
pub proof fn lemma_folded_twice(n: NameView)
    ensures
        name::folded(name::folded(n)) == name::folded(n),
{
    let once = name::folded(n);
    let twice = name::folded(once);
    assert forall|i: int| 0 <= i < n.labels.len() implies #[trigger] twice.labels[i]
        == once.labels[i] by {
        assert(twice.labels[i] =~= once.labels[i]);
    }
    assert(twice.labels =~= once.labels);
}

/// The service that an announcement is made for is the one that is read out of it, at the same
/// address and port.
pub proof fn law_announcement_names_its_service(instance: NameView, ip: IpAddr, port: u16)
    ensures
        service_info(announcement(instance, ip, port)) == Some(
            (instance, net::addr_at(ip, port)),
        ),
        service_info(message::sent(announcement(instance, ip, port))) == Some(
            (instance, net::addr_at(ip, port)),
        ),
{
    let m = announcement(instance, ip, port);
    let all = m.answers + m.additionals;
    reveal_with_fuel(first_ptr, 4);
    reveal_with_fuel(first_srv, 4);
    reveal_with_fuel(first_ip, 4);
    assert(all.skip(1)[0] == m.additionals[0]);
    assert(all.skip(1).skip(1)[0] == m.additionals[1]);
    let s = message::sent(m);
    let sent_all = s.answers + s.additionals;
    assert(sent_all.skip(1)[0] == s.additionals[0]);
    assert(sent_all.skip(1).skip(1)[0] == s.additionals[1]);
    lemma_folded_twice(instance);
}

/// Whoever receives the bytes of an announcement of a fully qualified instance reads the same
/// service out of them, at the same address and port.
pub proof fn law_announcement_is_understood(
    instance: NameView,
    ip: IpAddr,
    port: u16,
    bytes: Option<Seq<u8>>,
)
    requires
        instance.fqdn,
        message::written(bytes, announcement(instance, ip, port)),
    ensures
        bytes matches Some(b) && message::parsed(b) matches Some(m) && service_info(m) == Some(
            (instance, net::addr_at(ip, port)),
        ),
{
    lemma_announcement_small(instance, ip, port);
    law_announcement_names_its_service(instance, ip, port);
}

/// An announcement is small, and its names are fully qualified if the instance is.
pub proof fn lemma_announcement_small(instance: NameView, ip: IpAddr, port: u16)
    ensures
        message::small(announcement(instance, ip, port)),
        instance.fqdn ==> message::full_names(announcement(instance, ip, port)),
{
}

/// A query for a service type is small.
pub proof fn lemma_query_small(service_type: NameView)
    ensures
        message::small(type_query(service_type)),
        service_type.fqdn ==> message::full_names(type_query(service_type)),
{
}

/// Whoever receives the bytes of a query for a fully qualified service type reads that one question
/// out of them, for records of any type.
pub proof fn law_query_is_understood(service_type: NameView, bytes: Option<Seq<u8>>)
    requires
        service_type.fqdn,
        message::written(bytes, type_query(service_type)),
    ensures
        bytes matches Some(b) && message::parsed(b) == Some(type_query(service_type)),
{
    lemma_query_small(service_type);
    let q = type_query(service_type);
    assert(message::sent(q).answers =~= q.answers);
    assert(message::sent(q).additionals =~= q.additionals);
    assert(message::sent(q) =~= q);
}

/// An announcement has one answer, which points from the type to the instance, and one address
/// record, which holds the announced address.
pub proof fn law_one_pointer_and_one_address(instance: NameView, ip: IpAddr, port: u16, i: int)
    ensures
        announcement(instance, ip, port).answers.len() == 1,
        announcement(instance, ip, port).answers[0].data == DataView::Ptr(instance),
        announcement(instance, ip, port).answers[0].name == type_of(instance),
        ({
            let more = announcement(instance, ip, port).additionals;
            0 <= i < more.len() ==> !(more[i].data is Ptr) && ((more[i].data is Ip4 || more[i].data
                is Ip6) <==> i == 1) && more[1].data == ip_data(ip)
        }),
{
}

proof fn lemma_first_ptr(records: Seq<RecordView>, at: int)
    requires
        0 <= at <= records.len(),
        at < records.len() ==> records[at].data is Ptr,
        forall|i: int| 0 <= i < at ==> !((#[trigger] records[i]).data is Ptr),
    ensures
        first_ptr(records) == (if at < records.len() {
            Some(records[at].data->Ptr_0)
        } else {
            None
        }),
    decreases at,
{
    if at > 0 {
        let rest = records.skip(1);
        assert(records[0].data !is Ptr);
        assert forall|i: int| 0 <= i < at - 1 implies !((#[trigger] rest[i]).data is Ptr) by {
            assert(rest[i] == records[i + 1]);
        }
        lemma_first_ptr(rest, at - 1);
    }
}

proof fn lemma_first_srv(records: Seq<RecordView>, at: int)
    requires
        0 <= at <= records.len(),
        at < records.len() ==> records[at].data is Srv,
        forall|i: int| 0 <= i < at ==> !((#[trigger] records[i]).data is Srv),
    ensures
        first_srv(records) == (if at < records.len() {
            Some((records[at].name, records[at].data->Srv_2, records[at].data->Srv_3))
        } else {
            None
        }),
    decreases at,
{
    if at > 0 {
        let rest = records.skip(1);
        assert(records[0].data !is Srv);
        assert forall|i: int| 0 <= i < at - 1 implies !((#[trigger] rest[i]).data is Srv) by {
            assert(rest[i] == records[i + 1]);
        }
        lemma_first_srv(rest, at - 1);
    }
}

/// The record holds the address `ip`.
pub open spec fn holds_ip(r: RecordView, ip: IpAddr) -> bool {
    match ip {
        IpAddr::V4(bits) => r.data == DataView::Ip4(bits),
        IpAddr::V6(bits) => r.data == DataView::Ip6(bits),
    }
}

proof fn lemma_first_ip(records: Seq<RecordView>, at: int, ip: IpAddr)
    requires
        0 <= at <= records.len(),
        at < records.len() ==> holds_ip(records[at], ip),
        forall|i: int|
            0 <= i < at ==> !((#[trigger] records[i]).data is Ip4) && !(records[i].data is Ip6),
    ensures
        first_ip(records) == (if at < records.len() {
            Some((records[at].name, ip))
        } else {
            None
        }),
    decreases at,
{
    if at > 0 {
        let rest = records.skip(1);
        assert(records[0].data !is Ip4 && records[0].data !is Ip6);
        assert forall|i: int| 0 <= i < at - 1 implies !((#[trigger] rest[i]).data is Ip4) && !(
        rest[i].data is Ip6) by {
            assert(rest[i] == records[i + 1]);
        }
        lemma_first_ip(rest, at - 1, ip);
    }
}

/// Whatever other records a message holds and wherever they stand: if its first pointing record
/// points to `instance`, its first service record gives a port and a host, and its first address
/// record an address, then the message announces `instance` at that address and port exactly if the
/// service record is that of `instance` and the address record is that of the host.
pub proof fn law_service_of_first_records(
    m: MessageView,
    ptr_at: int,
    srv_at: int,
    ip_at: int,
    instance: NameView,
    priority: u16,
    weight: u16,
    port: u16,
    target: NameView,
    ip: IpAddr,
)
    requires
        ({
            let records = m.answers + m.additionals;
            &&& 0 <= ptr_at < records.len()
            &&& 0 <= srv_at < records.len()
            &&& 0 <= ip_at < records.len()
            &&& records[ptr_at].data == DataView::Ptr(instance)
            &&& records[srv_at].data == DataView::Srv(priority, weight, port, target)
            &&& holds_ip(records[ip_at], ip)
            &&& forall|i: int| 0 <= i < ptr_at ==> !((#[trigger] records[i]).data is Ptr)
            &&& forall|i: int| 0 <= i < srv_at ==> !((#[trigger] records[i]).data is Srv)
            &&& forall|i: int|
                0 <= i < ip_at ==> !((#[trigger] records[i]).data is Ip4) && !(records[i].data
                    is Ip6)
        }),
    ensures
        ({
            let records = m.answers + m.additionals;
            let fits = name::folded(records[srv_at].name) == name::folded(instance)
                && name::folded(records[ip_at].name) == name::folded(target);
            &&& fits ==> service_info(m) == Some((instance, net::addr_at(ip, port)))
            &&& !fits ==> service_info(m) is None
        }),
{
    let records = m.answers + m.additionals;
    lemma_first_ptr(records, ptr_at);
    lemma_first_srv(records, srv_at);
    lemma_first_ip(records, ip_at, ip);
}

/// A message without a pointing record, without a service record or without an address record
/// announces nothing.
pub proof fn law_incomplete_announces_nothing(m: MessageView)
    requires
        ({
            let records = m.answers + m.additionals;
            ||| forall|i: int|
                0 <= i < records.len() ==> !((#[trigger] records[i]).data is Ptr)
            ||| forall|i: int|
                0 <= i < records.len() ==> !((#[trigger] records[i]).data is Srv)
            ||| forall|i: int|
                0 <= i < records.len() ==> !((#[trigger] records[i]).data is Ip4) && !(
                records[i].data is Ip6)
        }),
    ensures
        service_info(m) is None,
{
    let records = m.answers + m.additionals;
    if forall|i: int| 0 <= i < records.len() ==> !((#[trigger] records[i]).data is Ptr) {
        lemma_first_ptr(records, records.len() as int);
    } else if forall|i: int| 0 <= i < records.len() ==> !((#[trigger] records[i]).data is Srv) {
        lemma_first_srv(records, records.len() as int);
    } else {
        lemma_first_ip(records, records.len() as int, IpAddr::V4(0));
    }
}

proof fn lemma_skip_other(records: Seq<RecordView>, at: int, other: RecordView)
    requires
        0 <= at <= records.len(),
        other.data is Other,
    ensures
        first_ptr(records.insert(at, other)) == first_ptr(records),
        first_srv(records.insert(at, other)) == first_srv(records),
        first_ip(records.insert(at, other)) == first_ip(records),
    decreases at,
{
    let more = records.insert(at, other);
    if at == 0 {
        assert(more[0] == other);
        assert(more.skip(1) =~= records);
    } else {
        lemma_skip_other(records.skip(1), at - 1, other);
        assert(more[0] == records[0]);
        assert(more.skip(1) =~= records.skip(1).insert(at - 1, other));
    }
}

/// A record that neither points nor tells of a service or an address does not matter, wherever it
/// stands: the message announces the same with it and without it.
pub proof fn law_other_records_do_not_matter(m: MessageView, at: int, other: RecordView)
    requires
        other.data is Other,
    ensures
        0 <= at <= m.answers.len() ==> service_info(
            MessageView { answers: m.answers.insert(at, other), ..m },
        ) == service_info(m),
        0 <= at <= m.additionals.len() ==> service_info(
            MessageView { additionals: m.additionals.insert(at, other), ..m },
        ) == service_info(m),
{
    let all = m.answers + m.additionals;
    if 0 <= at <= m.answers.len() {
        lemma_skip_other(all, at, other);
        assert(m.answers.insert(at, other) + m.additionals =~= all.insert(at, other));
    }
    if 0 <= at <= m.additionals.len() {
        lemma_skip_other(all, m.answers.len() + at, other);
        assert(m.answers + m.additionals.insert(at, other) =~= all.insert(
            m.answers.len() + at,
            other,
        ));
    }
}

/// What a message announces depends on its records alone, and on their order, not on the section in
/// which each stands nor on how long they may be kept.
pub proof fn law_sections_and_lifetimes_do_not_matter(a: MessageView, b: MessageView)
    requires
        (a.answers + a.additionals).len() == (b.answers + b.additionals).len(),
        forall|i: int|
            #![trigger (a.answers + a.additionals)[i]]
            0 <= i < (a.answers + a.additionals).len() ==> (a.answers + a.additionals)[i].name == (
            b.answers + b.additionals)[i].name && (a.answers + a.additionals)[i].data == (b.answers
                + b.additionals)[i].data,
    ensures
        service_info(a) == service_info(b),
{
    lemma_same_records(a.answers + a.additionals, b.answers + b.additionals);
}

proof fn lemma_same_records(a: Seq<RecordView>, b: Seq<RecordView>)
    requires
        a.len() == b.len(),
        forall|i: int|
            0 <= i < a.len() ==> (#[trigger] a[i]).name == b[i].name && a[i].data == b[i].data,
    ensures
        first_ptr(a) == first_ptr(b),
        first_srv(a) == first_srv(b),
        first_ip(a) == first_ip(b),
    decreases a.len(),
{
    if a.len() > 0 {
        let a1 = a.skip(1);
        let b1 = b.skip(1);
        assert(a[0].name == b[0].name && a[0].data == b[0].data);
        assert forall|i: int| 0 <= i < a1.len() implies (#[trigger] a1[i]).name == b1[i].name
            && a1[i].data == b1[i].data by {
            assert(a[i + 1].name == b[i + 1].name && a[i + 1].data == b[i + 1].data);
        }
        lemma_same_records(a1, b1);
    }
}

/// An announcement is an authoritative answer without questions; it points from the last three
/// labels of the instance to the instance, and tells the port and the address of the instance, each
/// for two minutes.
pub proof fn law_announcement_is_complete(instance: NameView, ip: IpAddr, port: u16)
    ensures
        ({
            let m = announcement(instance, ip, port);
            &&& m.head.id == 0
            &&& m.head.message_type == MessageType::Response
            &&& m.head.op_code == 0
            &&& m.head.authoritative
            &&& m.head.response_code == 0
            &&& m.queries.len() == 0
            &&& m.answers.len() == 1
            &&& m.answers[0].name == name::trimmed(instance, 3)
            &&& m.answers[0].ttl == 120
            &&& m.answers[0].data == DataView::Ptr(instance)
            &&& m.additionals.len() == 2
            &&& m.additionals[0].name == instance
            &&& m.additionals[0].ttl == 120
            &&& m.additionals[0].data == DataView::Srv(0, 0, port, instance)
            &&& m.additionals[1].name == instance
            &&& m.additionals[1].ttl == 120
            &&& holds_ip(m.additionals[1], ip)
        }),
{
}

/// A query for a service type asks one question, for records of any type, and holds nothing else.
pub proof fn law_type_query_asks_once(service_type: NameView)
    ensures
        ({
            let m = type_query(service_type);
            &&& m.head.message_type == MessageType::Query
            &&& m.head.id == 0 && m.head.op_code == 0 && m.head.response_code == 0
            &&& m.queries.len() == 1
            &&& m.queries[0].name == service_type
            &&& m.queries[0].query_type == 255
            &&& m.answers.len() == 0
            &&& m.additionals.len() == 0
        }),
{
}

/// What is read out of a message is shown whole: the instance and the address.
pub proof fn law_info_in(r: Option<(Name, SocketAddr)>)
    ensures
        r matches Some((instance, addr)) ==> info_in(r) == Some((instance@, addr)),
        r is None ==> info_in(r) is None,
{
}

} // verus!
