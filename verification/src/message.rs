//! DNS messages.
use vstd::prelude::*;

use hickory_proto::rr;
use hickory_proto::rr::rdata::{A, AAAA, PTR, SRV};
use hickory_proto::rr::RData;
use hickory_proto::serialize::binary::{BinDecodable, BinEncodable};

use crate::error::Error;
use crate::message::RecordData::{Ip4, Ip6, Other, Ptr, Srv};
use crate::name;
use crate::name::{Name, NameView};

verus! {

/// Type code of records that point from one name to another.
pub const TYPE_PTR: u16 = 12;

/// Type code of queries for records of any type.
pub const TYPE_ANY: u16 = 255;

/// Whether a message asks or answers.
#[derive(Debug, Clone, Copy, PartialEq, Eq, Structural)]
pub enum MessageType {
    /// It asks.
    Query,
    /// It answers.
    Response,
}

/// The header of a message.
#[derive(Debug, Clone, Copy, PartialEq, Eq, Structural)]
pub struct Head {
    /// Number by which an answer is matched with its query.
    pub id: u16,
    /// Whether the message asks or answers.
    pub message_type: MessageType,
    /// Kind of query; zero is a standard one.
    pub op_code: u8,
    /// Whether the answer comes from the owner of the name.
    pub authoritative: bool,
    /// What went wrong; zero is nothing.
    pub response_code: u16,
}

/// A question: the records of a type that a name has.
#[derive(Debug)]
pub struct Query {
    pub name: Name,
    pub query_type: u16,
}

/// The data of a record.
#[derive(Debug)]
pub enum RecordData {
    /// Another name that the owner points to.
    Ptr(Name),
    /// Where the service that is the owner runs: its priority and weight among other servers, its
    /// port and its host.
    Srv(u16, u16, u16, Name),
    /// An IPv4 address of the owner.
    Ip4(u32),
    /// An IPv6 address of the owner.
    Ip6(u128),
    /// Data of another type, which has this code.
    Other(u16),
}

/// A record: data that belongs to a name.
#[derive(Debug)]
pub struct Record {
    pub name: Name,
    /// Seconds for which the record may be kept.
    pub ttl: u32,
    pub data: RecordData,
}

/// A message.
#[derive(Debug)]
pub struct DnsMessage {
    pub head: Head,
    pub queries: Vec<Query>,
    pub answers: Vec<Record>,
    pub additionals: Vec<Record>,
}

/// What a question is.
#[verifier::ext_equal]
pub struct QueryView {
    pub name: NameView,
    pub query_type: u16,
}

/// What the data of a record is.
#[verifier::ext_equal]
pub enum DataView {
    Ptr(NameView),
    Srv(u16, u16, u16, NameView),
    Ip4(u32),
    Ip6(u128),
    Other(u16),
}

/// What a record is.
#[verifier::ext_equal]
pub struct RecordView {
    pub name: NameView,
    pub ttl: u32,
    pub data: DataView,
}

/// What a message is.
#[verifier::ext_equal]
pub struct MessageView {
    pub head: Head,
    pub queries: Seq<QueryView>,
    pub answers: Seq<RecordView>,
    pub additionals: Seq<RecordView>,
}

impl Query {
    /// What this question is.
    pub open spec fn view(&self) -> QueryView {
        QueryView { name: self.name@, query_type: self.query_type }
    }
}

impl RecordData {
    /// What this data is.
    pub open spec fn view(&self) -> DataView {
        match self {
            RecordData::Ptr(n) => DataView::Ptr(n@),
            RecordData::Srv(priority, weight, port, target) => DataView::Srv(
                *priority,
                *weight,
                *port,
                target@,
            ),
            RecordData::Ip4(bits) => DataView::Ip4(*bits),
            RecordData::Ip6(bits) => DataView::Ip6(*bits),
            RecordData::Other(code) => DataView::Other(*code),
        }
    }
}

impl Record {
    /// What this record is.
    pub open spec fn view(&self) -> RecordView {
        RecordView { name: self.name@, ttl: self.ttl, data: self.data@ }
    }
}

/// What each of `queries` is.
pub open spec fn queries_view(queries: Seq<Query>) -> Seq<QueryView> {
    queries.map_values(|q: Query| q@)
}

/// What each of `records` is.
pub open spec fn records_view(records: Seq<Record>) -> Seq<RecordView> {
    records.map_values(|r: Record| r@)
}

impl DnsMessage {
    /// What this message is.
    pub open spec fn view(&self) -> MessageView {
        MessageView {
            head: self.head,
            queries: queries_view(self.queries@),
            answers: records_view(self.answers@),
            additionals: records_view(self.additionals@),
        }
    }
}

/// The header of a message of which nothing was set.
pub open spec fn blank_head() -> Head {
    Head {
        id: 0,
        message_type: MessageType::Query,
        op_code: 0,
        authoritative: false,
        response_code: 0,
    }
}

/// The message with nothing in it.
pub open spec fn blank_message() -> MessageView {
    MessageView {
        head: blank_head(),
        queries: Seq::empty(),
        answers: Seq::empty(),
        additionals: Seq::empty(),
    }
}

/// Every record has data of a type that can be written.
pub open spec fn writable(records: Seq<RecordView>) -> bool {
    forall|i: int| 0 <= i < records.len() ==> !((#[trigger] records[i]).data is Other)
}

/// A plain message of at most four questions and records, of types that can be written.
pub open spec fn small(m: MessageView) -> bool {
    &&& m.head.op_code == 0
    &&& m.head.response_code == 0
    &&& m.queries.len() + m.answers.len() + m.additionals.len() <= 4
    &&& writable(m.answers)
    &&& writable(m.additionals)
}

/// Every name in the data is fully qualified.
pub open spec fn full_data(d: DataView) -> bool {
    match d {
        DataView::Ptr(n) => n.fqdn,
        DataView::Srv(_, _, _, target) => target.fqdn,
        _ => true,
    }
}

/// Every name in the records is fully qualified.
pub open spec fn full_records(records: Seq<RecordView>) -> bool {
    forall|i: int|
        0 <= i < records.len() ==> (#[trigger] records[i]).name.fqdn && full_data(records[i].data)
}

/// Every name in the message is fully qualified.
pub open spec fn full_names(m: MessageView) -> bool {
    &&& forall|i: int| 0 <= i < m.queries.len() ==> (#[trigger] m.queries[i]).name.fqdn
    &&& full_records(m.answers)
    &&& full_records(m.additionals)
}

/// The data as it is on the wire: the host of a service is written in lower case.
pub open spec fn sent_data(d: DataView) -> DataView {
    match d {
        DataView::Srv(priority, weight, port, target) => DataView::Srv(
            priority,
            weight,
            port,
            name::folded(target),
        ),
        _ => d,
    }
}

/// The records as they are on the wire.
pub open spec fn sent_records(records: Seq<RecordView>) -> Seq<RecordView> {
    records.map_values(|r: RecordView| RecordView { data: sent_data(r.data), ..r })
}

/// The message as it is on the wire.
pub open spec fn sent(m: MessageView) -> MessageView {
    MessageView {
        answers: sent_records(m.answers),
        additionals: sent_records(m.additionals),
        ..m
    }
}

/// [`hickory_proto::op::Message`]: a message as the crate holds it.
#[verifier::external_type_specification]
#[verifier::external_body]
pub struct ExMessage(hickory_proto::op::Message);

/// The questions and records that a [`hickory_proto::op::Message`] holds, and its header.
pub uninterp spec fn held(m: hickory_proto::op::Message) -> MessageView;

/// Whether a [`hickory_proto::op::Message`] holds nothing but what `held` tells: no authorities, no
/// extended header, no signature, and no other flag in its header.
pub uninterp spec fn bare(m: hickory_proto::op::Message) -> bool;

/// What [`hickory_proto::op::Message::to_bytes`] writes for a message that holds nothing else.
pub uninterp spec fn wire(m: MessageView) -> Option<Seq<u8>>;

/// What [`hickory_proto::op::Message::from_bytes`] reads from bytes.
pub uninterp spec fn parsed(bytes: Seq<u8>) -> Option<MessageView>;

/// [`hickory_proto::op::Message::new`]: a message with nothing in it.
#[verifier::external_body]
fn new_message() -> (r: hickory_proto::op::Message)
    ensures
        held(r) == blank_message(),
        bare(r),
{
    hickory_proto::op::Message::new()
}

/// The setters of [`hickory_proto::op::Message`] for the number, the type, the operation and the
/// authority of a message: the header takes these values, and all else stays.
#[verifier::external_body]
fn set_head(m: &mut hickory_proto::op::Message, head: Head)
    requires
        head.response_code == held(*old(m)).head.response_code,
    ensures
        held(*final(m)) == (MessageView { head, ..held(*old(m)) }),
        bare(*final(m)) == bare(*old(m)),
{
    m.set_id(head.id);
    m.set_message_type(
        match head.message_type {
            MessageType::Query => hickory_proto::op::MessageType::Query,
            MessageType::Response => hickory_proto::op::MessageType::Response,
        },
    );
    m.set_op_code(hickory_proto::op::OpCode::from_u8(head.op_code));
    m.set_authoritative(head.authoritative);
}

/// [`hickory_proto::op::Message::add_query`]: the question comes behind those that are there.
#[verifier::external_body]
fn add_query(m: &mut hickory_proto::op::Message, query: &Query)
    ensures
        held(*final(m)) == (MessageView {
            queries: held(*old(m)).queries.push(query@),
            ..held(*old(m))
        }),
        bare(*final(m)) == bare(*old(m)),
{
    let mut name = rr::Name::from_labels(query.name.labels.clone()).unwrap();
    name.set_fqdn(query.name.fqdn);
    m.add_query(hickory_proto::op::Query::query(name, query.query_type.into()));
}

/// [`hickory_proto::op::Message::add_answer`]: the record comes behind the answers that are there. A record
/// of another type has no data there.
#[verifier::external_body]
fn add_answer(m: &mut hickory_proto::op::Message, record: &Record)
    ensures
        held(*final(m)) == (MessageView {
            answers: held(*old(m)).answers.push(record@),
            ..held(*old(m))
        }),
        bare(*final(m)) == bare(*old(m)),
{
    let name = |n: &Name| {
        let mut h = rr::Name::from_labels(n.labels.clone()).unwrap();
        h.set_fqdn(n.fqdn);
        h
    };
    let data = match record.data {
        Ptr(ref n) => RData::PTR(PTR(name(n))),
        Srv(p, w, port, ref t) => RData::SRV(SRV::new(p, w, port, name(t))),
        Ip4(bits) => RData::A(A(bits.into())),
        Ip6(bits) => RData::AAAA(AAAA(bits.into())),
        Other(code) => RData::Update0(code.into()),
    };
    m.add_answer(rr::Record::from_rdata(name(&record.name), record.ttl, data));
}

/// [`hickory_proto::op::Message::add_additional`]: the record comes behind the additional records that are there. A record
/// of another type has no data there.
#[verifier::external_body]
fn add_additional(m: &mut hickory_proto::op::Message, record: &Record)
    ensures
        held(*final(m)) == (MessageView {
            additionals: held(*old(m)).additionals.push(record@),
            ..held(*old(m))
        }),
        bare(*final(m)) == bare(*old(m)),
{
    let name = |n: &Name| {
        let mut h = rr::Name::from_labels(n.labels.clone()).unwrap();
        h.set_fqdn(n.fqdn);
        h
    };
    let data = match record.data {
        Ptr(ref n) => RData::PTR(PTR(name(n))),
        Srv(p, w, port, ref t) => RData::SRV(SRV::new(p, w, port, name(t))),
        Ip4(bits) => RData::A(A(bits.into())),
        Ip6(bits) => RData::AAAA(AAAA(bits.into())),
        Other(code) => RData::Update0(code.into()),
    };
    m.add_additional(rr::Record::from_rdata(name(&record.name), record.ttl, data));
}

/// The bytes in `r`, if there are any.
pub open spec fn bytes_in<E>(r: Result<Vec<u8>, E>) -> Option<Seq<u8>> {
    match r {
        Ok(bytes) => Some(bytes@),
        Err(_) => None,
    }
}

/// What the message in `r` holds, if there is one.
pub open spec fn held_in<E>(r: Result<hickory_proto::op::Message, E>) -> Option<MessageView> {
    match r {
        Ok(m) => Some(held(m)),
        Err(_) => None,
    }
}

/// A small message is written, and read back as it was sent where its names are fully qualified.
pub open spec fn written(bytes: Option<Seq<u8>>, m: MessageView) -> bool {
    small(m) ==> bytes is Some && (full_names(m) ==> parsed(bytes->0) == Some(sent(m)))
}

/// [`hickory_proto::op::Message::to_bytes`]: the message in the wire format. Claimed of a message
/// that holds nothing but questions, answers and additional records: the bytes depend on these and
/// the header alone; a small one is written; and if its names are fully qualified, the bytes are
/// read back as the same message, but with the hosts of services in lower case. Which bytes these
/// are, and when a larger message is refused, is not said.
#[verifier::external_body]
fn to_bytes(m: &hickory_proto::op::Message) -> (r: Result<Vec<u8>, hickory_proto::ProtoError>)
    requires
        bare(*m),
    ensures
        bytes_in(r) == wire(held(*m)),
        written(bytes_in(r), held(*m)),
{
    m.to_bytes()
}

/// [`hickory_proto::op::Message::from_bytes`]: the message that the bytes are the wire format of.
/// Claimed: what it holds depends on the bytes alone. Which bytes are a message, and what they hold,
/// is not said beyond what is said of writing. Names are read by recursion over pointers; each must
/// lead further back, to a place below 0x4000, which bounds the recursion.
#[verifier::external_body]
fn from_bytes(bytes: &[u8]) -> (r: Result<
    hickory_proto::op::Message,
    hickory_proto::ProtoError,
>)
    ensures
        held_in(r) == parsed(bytes@),
{
    hickory_proto::op::Message::from_bytes(bytes)
}

/// The getters of [`hickory_proto::op::Message`] for the number, the type, the operation, the
/// authority and the response code.
#[verifier::external_body]
fn head_of(m: &hickory_proto::op::Message) -> (r: Head)
    ensures
        r == held(*m).head,
{
    Head {
        id: m.id(),
        message_type: match m.message_type() {
            hickory_proto::op::MessageType::Query => MessageType::Query,
            hickory_proto::op::MessageType::Response => MessageType::Response,
        },
        op_code: m.op_code().into(),
        authoritative: m.authoritative(),
        response_code: m.response_code().into(),
    }
}

/// [`hickory_proto::op::Message::queries`]: the questions, in order.
#[verifier::external_body]
fn queries(m: &hickory_proto::op::Message) -> (r: Vec<Query>)
    ensures
        queries_view(r@) == held(*m).queries,
{
    let name = |n: &rr::Name| Name { labels: n.iter().map(Into::into).collect(), fqdn: n.is_fqdn() };
    m.queries().iter().map(
        |q| Query { name: name(q.name()), query_type: q.query_type().into() },
    ).collect()
}

/// [`hickory_proto::op::Message::answers`]: the answers, in order.
#[verifier::external_body]
fn answers(m: &hickory_proto::op::Message) -> (r: Vec<Record>)
    ensures
        records_view(r@) == held(*m).answers,
{
    let name = |n: &rr::Name| Name { labels: n.iter().map(Into::into).collect(), fqdn: n.is_fqdn() };
    m.answers().iter().map(
        |r| Record { name: name(r.name()), ttl: r.ttl(), data: match r.data() {
            RData::PTR(p) => Ptr(name(p)),
            RData::SRV(s) => Srv(s.priority(), s.weight(), s.port(), name(s.target())),
            RData::A(a) => Ip4(a.to_bits()),
            RData::AAAA(a) => Ip6(a.to_bits()),
            d => Other(d.record_type().into()),
        } },
    ).collect()
}

/// [`hickory_proto::op::Message::additionals`]: the additional records, in order.
#[verifier::external_body]
fn additionals(m: &hickory_proto::op::Message) -> (r: Vec<Record>)
    ensures
        records_view(r@) == held(*m).additionals,
{
    let name = |n: &rr::Name| Name { labels: n.iter().map(Into::into).collect(), fqdn: n.is_fqdn() };
    m.additionals().iter().map(
        |r| Record { name: name(r.name()), ttl: r.ttl(), data: match r.data() {
            RData::PTR(p) => Ptr(name(p)),
            RData::SRV(s) => Srv(s.priority(), s.weight(), s.port(), name(s.target())),
            RData::A(a) => Ip4(a.to_bits()),
            RData::AAAA(a) => Ip6(a.to_bits()),
            d => Other(d.record_type().into()),
        } },
    ).collect()
}

impl DnsMessage {
    /// The message in the wire format.
    pub fn to_bytes(&self) -> (r: Result<Vec<u8>, Error>)
        requires
            self.head.response_code == 0,
        ensures
            bytes_in(r) == wire(self@),
            written(bytes_in(r), self@),
            r matches Err(e) ==> e is MdnsProtoError,
    {
        let mut m = new_message();
        set_head(&mut m, self.head);
        let mut i: usize = 0;
        while i < self.queries.len()
            invariant
                bare(m),
                i <= self.queries@.len(),
                held(m) == (MessageView {
                    queries: self@.queries.take(i as int),
                    answers: Seq::empty(),
                    additionals: Seq::empty(),
                    ..self@
                }),
            decreases self.queries@.len() - i,
        {
            add_query(&mut m, &self.queries[i]);
            assert(self@.queries.take(i + 1) =~= self@.queries.take(i as int).push(
                self.queries@[i as int]@,
            ));
            i += 1;
        }
        assert(self@.queries.take(self.queries@.len() as int) =~= self@.queries);
        let mut i: usize = 0;
        while i < self.answers.len()
            invariant
                bare(m),
                i <= self.answers@.len(),
                held(m) == (MessageView {
                    answers: self@.answers.take(i as int),
                    additionals: Seq::empty(),
                    ..self@
                }),
            decreases self.answers@.len() - i,
        {
            add_answer(&mut m, &self.answers[i]);
            assert(self@.answers.take(i + 1) =~= self@.answers.take(i as int).push(
                self.answers@[i as int]@,
            ));
            i += 1;
        }
        assert(self@.answers.take(self.answers@.len() as int) =~= self@.answers);
        let mut i: usize = 0;
        while i < self.additionals.len()
            invariant
                bare(m),
                i <= self.additionals@.len(),
                held(m) == (MessageView { additionals: self@.additionals.take(i as int), ..self@ }),
            decreases self.additionals@.len() - i,
        {
            add_additional(&mut m, &self.additionals[i]);
            assert(self@.additionals.take(i + 1) =~= self@.additionals.take(i as int).push(
                self.additionals@[i as int]@,
            ));
            i += 1;
        }
        assert(self@.additionals.take(self.additionals@.len() as int) =~= self@.additionals);
        assert(held(m) =~= self@);
        match to_bytes(&m) {
            Ok(bytes) => Ok(bytes),
            Err(e) => Err(Error::MdnsProtoError(e)),
        }
    }

    /// The message that the bytes are the wire format of.
    pub fn from_bytes(bytes: &[u8]) -> (r: Result<DnsMessage, Error>)
        ensures
            match r {
                Ok(m) => parsed(bytes@) == Some(m@),
                Err(e) => parsed(bytes@) is None && e is MdnsProtoError,
            },
    {
        match from_bytes(bytes) {
            Ok(m) => {
                let r = DnsMessage {
                    head: head_of(&m),
                    queries: queries(&m),
                    answers: answers(&m),
                    additionals: additionals(&m),
                };
                assert(r@ =~= held(m));
                Ok(r)
            },
            Err(e) => Err(Error::MdnsProtoError(e)),
        }
    }
}

/// What is sent of a message is the message itself, but that the host of a service is written in
/// lower case: to whoever compares names, it is the same.
pub proof fn law_sent_is_the_same(m: MessageView, i: int)
    ensures
        sent(m).head == m.head,
        sent(m).queries == m.queries,
        sent(m).answers.len() == m.answers.len(),
        sent(m).additionals.len() == m.additionals.len(),
        0 <= i < m.answers.len() ==> same_record(sent(m).answers[i], m.answers[i]),
        0 <= i < m.additionals.len() ==> same_record(sent(m).additionals[i], m.additionals[i]),
{
    if 0 <= i < m.answers.len() {
        lemma_sent_record(m.answers[i]);
    }
    if 0 <= i < m.additionals.len() {
        lemma_sent_record(m.additionals[i]);
    }
}

/// The records agree, but for the spelling of the host of a service.
pub open spec fn same_record(a: RecordView, b: RecordView) -> bool {
    &&& a.name == b.name
    &&& a.ttl == b.ttl
    &&& match (a.data, b.data) {
        (DataView::Srv(p, w, port, target), DataView::Srv(p2, w2, port2, target2)) => p == p2 && w
            == w2 && port == port2 && name::folded(target) == name::folded(target2),
        _ => a.data == b.data,
    }
}

proof fn lemma_sent_record(r: RecordView)
    ensures
        same_record(RecordView { data: sent_data(r.data), ..r }, r),
{
    match r.data {
        DataView::Srv(_, _, _, target) => {
            let once = name::folded(target);
            let twice = name::folded(once);
            assert forall|i: int| 0 <= i < target.labels.len() implies #[trigger] twice.labels[i]
                == once.labels[i] by {
                assert(twice.labels[i] =~= once.labels[i]);
            }
            assert(twice.labels =~= once.labels);
        },
        _ => {},
    }
}

/// What a message is shows its header and each of its questions and records, in order.
pub proof fn law_message_view(m: DnsMessage, i: int)
    ensures
        m@.head == m.head,
        m@.queries.len() == m.queries@.len(),
        m@.answers.len() == m.answers@.len(),
        m@.additionals.len() == m.additionals@.len(),
        0 <= i < m.queries@.len() ==> m@.queries[i].name == m.queries@[i].name@
            && m@.queries[i].query_type == m.queries@[i].query_type,
        0 <= i < m.answers@.len() ==> m@.answers[i].name == m.answers@[i].name@ && m@.answers[i].ttl
            == m.answers@[i].ttl && m@.answers[i].data == m.answers@[i].data@,
        0 <= i < m.additionals@.len() ==> m@.additionals[i].name == m.additionals@[i].name@
            && m@.additionals[i].ttl == m.additionals@[i].ttl && m@.additionals[i].data
            == m.additionals@[i].data@,
{
}

/// What the data of a record is shows all of it.
pub proof fn law_data_view(d: RecordData)
    ensures
        d matches RecordData::Ptr(n) ==> d@ == DataView::Ptr(n@),
        d matches RecordData::Srv(p, w, port, t) ==> d@ == DataView::Srv(p, w, port, t@),
        d matches RecordData::Ip4(bits) ==> d@ == DataView::Ip4(bits),
        d matches RecordData::Ip6(bits) ==> d@ == DataView::Ip6(bits),
        d matches RecordData::Other(code) ==> d@ == DataView::Other(code),
{
}

/// A result shows the bytes that it holds.
pub proof fn law_bytes_in<E>(r: Result<Vec<u8>, E>)
    ensures
        r matches Ok(bytes) ==> bytes_in(r) == Some(bytes@),
        r is Err ==> bytes_in(r) is None,
{
}

} // verus!
