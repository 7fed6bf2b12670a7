//! What a multicast DNS node knows, and what its operations do to that.
use vstd::prelude::*;

use crate::announce;
use crate::message;
use crate::message::{MessageType, MessageView, QueryView};
use crate::name;
use crate::name::NameView;
use crate::net;
use crate::net::{IpAddr, SocketAddr};

verus! {

/// Position of the first entry for the name `n`, or the number of entries if there is none.
pub open spec fn place<V>(entries: Seq<(NameView, V)>, n: NameView) -> int
    decreases entries.len(),
{
    if entries.len() == 0 {
        0
    } else if name::folded(entries[0].0) == name::folded(n) {
        0
    } else {
        1 + place(entries.skip(1), n)
    }
}

/// The value of the entry for the name `n`.
pub open spec fn find<V>(entries: Seq<(NameView, V)>, n: NameView) -> Option<V> {
    if place(entries, n) < entries.len() {
        Some(entries[place(entries, n)].1)
    } else {
        None
    }
}

/// The entries with the value `v` for the name `n`. The spelling of a name that is there stays.
pub open spec fn put<V>(entries: Seq<(NameView, V)>, n: NameView, v: V) -> Seq<(NameView, V)> {
    let at = place(entries, n);
    if at < entries.len() {
        entries.update(at, (entries[at].0, v))
    } else {
        entries.push((n, v))
    }
}

/// The entries without the one for the name `n`.
pub open spec fn dropped<V>(entries: Seq<(NameView, V)>, n: NameView) -> Seq<(NameView, V)> {
    if place(entries, n) < entries.len() {
        entries.remove(place(entries, n))
    } else {
        entries
    }
}

/// No two entries are for the same name.
pub open spec fn distinct<V>(entries: Seq<(NameView, V)>) -> bool {
    forall|i: int, j: int|
        0 <= i < entries.len() && 0 <= j < entries.len() && name::folded(
            (#[trigger] entries[i]).0,
        ) == name::folded((#[trigger] entries[j]).0) ==> i == j
}

/// What a multicast DNS node knows.
#[verifier::ext_equal]
pub struct MdnsView {
    /// The address that it announces.
    pub ip: IpAddr,
    /// Its own instances with their ports, by service type.
    pub services: Map<NameView, Seq<(NameView, u16)>>,
    /// The instances that it has heard of, and where they run.
    pub cache: Seq<(NameView, SocketAddr)>,
    /// The service types of which it wants to hear.
    pub following: Set<NameView>,
}

/// The identity of the service type of `instance`.
pub open spec fn type_id(instance: NameView) -> NameView {
    name::folded(announce::type_of(instance))
}

/// The own instances of the service type with that identity.
pub open spec fn instances(v: MdnsView, id: NameView) -> Seq<(NameView, u16)> {
    if v.services.dom().contains(id) {
        v.services[id]
    } else {
        Seq::empty()
    }
}

/// The port of the own instance `instance`.
pub open spec fn port_of(v: MdnsView, instance: NameView) -> Option<u16> {
    find(instances(v, type_id(instance)), instance)
}

/// No service type is without instances, each instance stands under its own type, and no name
/// occurs twice.
pub open spec fn consistent(v: MdnsView) -> bool {
    &&& distinct(v.cache)
    &&& forall|id: NameView| #[trigger]
        v.services.dom().contains(id) ==> {
            &&& v.services[id].len() > 0
            &&& distinct(v.services[id])
            &&& forall|i: int|
                0 <= i < v.services[id].len() ==> type_id((#[trigger] v.services[id][i]).0) == id
        }
}

/// With the instance `instance` on the port `port`.
pub open spec fn registered(v: MdnsView, instance: NameView, port: u16) -> MdnsView {
    let id = type_id(instance);
    MdnsView { services: v.services.insert(id, put(instances(v, id), instance, port)), ..v }
}

/// Without the instance `instance`. A service type without instances goes too.
pub open spec fn unregistered(v: MdnsView, instance: NameView) -> MdnsView {
    let id = type_id(instance);
    let rest = dropped(instances(v, id), instance);
    MdnsView {
        services: if rest.len() == 0 {
            v.services.remove(id)
        } else {
            v.services.insert(id, rest)
        },
        ..v
    }
}

/// The announcements of these instances.
pub open spec fn announcements(entries: Seq<(NameView, u16)>, ip: IpAddr) -> Seq<MessageView> {
    entries.map_values(|e: (NameView, u16)| announce::announcement(e.0, ip, e.1))
}

/// The answers to a question for a service type: the announcements of its instances.
pub open spec fn type_answers(v: MdnsView, q: QueryView) -> Seq<MessageView> {
    if q.query_type == message::TYPE_PTR || q.query_type == message::TYPE_ANY {
        announcements(instances(v, name::folded(q.name)), v.ip)
    } else {
        Seq::empty()
    }
}

/// The answers to a question for an instance: its announcement, under the name in the question.
pub open spec fn instance_answers(v: MdnsView, q: QueryView) -> Seq<MessageView> {
    if name::label_count(q.name) > announce::TYPE_LABELS {
        match port_of(v, q.name) {
            Some(port) => seq![announce::announcement(q.name, v.ip, port)],
            None => Seq::empty(),
        }
    } else {
        Seq::empty()
    }
}

/// The answers to the questions, in order.
pub open spec fn answers(v: MdnsView, queries: Seq<QueryView>) -> Seq<MessageView>
    decreases queries.len(),
{
    if queries.len() == 0 {
        Seq::empty()
    } else {
        answers(v, queries.drop_last()) + type_answers(v, queries.last()) + instance_answers(
            v,
            queries.last(),
        )
    }
}

/// The instance is one of which the node wants to hear, and none of its own.
pub open spec fn of_interest(v: MdnsView, instance: NameView) -> bool {
    v.following.contains(type_id(instance)) && port_of(v, instance) is None
}

/// What the node knows after a response.
pub open spec fn informed(v: MdnsView, m: MessageView) -> MdnsView {
    match announce::service_info(m) {
        Some((instance, addr)) => if of_interest(v, instance) {
            MdnsView { cache: put(v.cache, instance, addr), ..v }
        } else {
            v
        },
        None => v,
    }
}

/// The service that the node reports after a response: one that it had not heard of, or not at
/// that address.
pub open spec fn reported(v: MdnsView, m: MessageView) -> Option<(NameView, SocketAddr)> {
    match announce::service_info(m) {
        Some((instance, addr)) => if of_interest(v, instance) && find(v.cache, instance) != Some(
            addr,
        ) {
            Some((instance, addr))
        } else {
            None
        },
        None => None,
    }
}

/// A response without an error.
pub open spec fn is_response(m: MessageView) -> bool {
    m.head.response_code == 0 && m.head.message_type == MessageType::Response
}

/// A query without an error.
pub open spec fn is_query(m: MessageView) -> bool {
    m.head.response_code == 0 && m.head.message_type == MessageType::Query
}

/// What the node knows after a message. Only a response changes it.
pub open spec fn after_message(v: MdnsView, m: MessageView) -> MdnsView {
    if is_response(m) {
        informed(v, m)
    } else {
        v
    }
}

/// What the node answers to a message. Only a query is answered.
pub open spec fn replies(v: MdnsView, m: MessageView) -> Seq<MessageView> {
    if is_query(m) {
        answers(v, m.queries)
    } else {
        Seq::empty()
    }
}

/// What the node reports after a message.
pub open spec fn report(v: MdnsView, m: MessageView) -> Option<(NameView, SocketAddr)> {
    if is_response(m) {
        reported(v, m)
    } else {
        None
    }
}

/// The position of an entry is the first one with that name, or the number of entries.
pub proof fn lemma_place<V>(entries: Seq<(NameView, V)>, n: NameView)
    ensures
        0 <= place(entries, n) <= entries.len(),
        place(entries, n) < entries.len() ==> name::folded(entries[place(entries, n)].0)
            == name::folded(n),
        forall|i: int|
            0 <= i < place(entries, n) ==> name::folded((#[trigger] entries[i]).0)
                != name::folded(n),
    decreases entries.len(),
{
    if entries.len() > 0 && name::folded(entries[0].0) != name::folded(n) {
        let rest = entries.skip(1);
        lemma_place(rest, n);
        assert forall|i: int| 0 <= i < place(entries, n) implies name::folded(
            (#[trigger] entries[i]).0,
        ) != name::folded(n) by {
            if i > 0 {
                assert(entries[i] == rest[i - 1]);
            }
        }
    }
}

/// The position of an entry is the first one with that name.
pub proof fn lemma_place_is<V>(entries: Seq<(NameView, V)>, n: NameView, at: int)
    requires
        0 <= at <= entries.len(),
        at < entries.len() ==> name::folded(entries[at].0) == name::folded(n),
        forall|i: int| 0 <= i < at ==> name::folded((#[trigger] entries[i]).0) != name::folded(n),
    ensures
        place(entries, n) == at,
{
    lemma_place(entries, n);
}

/// Putting an entry in sets its value, and leaves every other.
pub proof fn lemma_put<V>(entries: Seq<(NameView, V)>, n: NameView, v: V, other: NameView)
    requires
        distinct(entries),
    ensures
        distinct(put(entries, n, v)),
        find(put(entries, n, v), n) == Some(v),
        name::folded(other) != name::folded(n) ==> find(put(entries, n, v), other) == find(
            entries,
            other,
        ),
        find(entries, n) == Some(v) ==> put(entries, n, v) == entries,
{
    let new = put(entries, n, v);
    let at = place(entries, n);
    lemma_place(entries, n);
    lemma_place(entries, other);
    assert forall|i: int| 0 <= i < entries.len() implies (#[trigger] new[i]).0 == entries[i].0 by {
    }
    lemma_place_is(new, n, at);
    if name::folded(other) != name::folded(n) {
        let there = place(entries, other);
        if there < entries.len() {
            lemma_place_is(new, other, there);
        } else {
            lemma_place_is(new, other, new.len() as int);
        }
    }
    assert forall|i: int, j: int|
        0 <= i < new.len() && 0 <= j < new.len() && name::folded((#[trigger] new[i]).0)
            == name::folded((#[trigger] new[j]).0) implies i == j by {
        if i < entries.len() && j < entries.len() {
            assert(name::folded(entries[i].0) == name::folded(entries[j].0));
        }
    }
    if find(entries, n) == Some(v) {
        assert(new =~= entries);
    }
}

/// Dropping an entry takes its name away, and leaves every other.
pub proof fn lemma_dropped<V>(entries: Seq<(NameView, V)>, n: NameView, other: NameView)
    requires
        distinct(entries),
    ensures
        distinct(dropped(entries, n)),
        find(dropped(entries, n), n) is None,
        name::folded(other) != name::folded(n) ==> find(dropped(entries, n), other) == find(
            entries,
            other,
        ),
{
    let new = dropped(entries, n);
    let at = place(entries, n);
    lemma_place(entries, n);
    lemma_place(entries, other);
    assert forall|i: int| 0 <= i < new.len() implies #[trigger] new[i] == entries[if i < at {
        i
    } else {
        i + 1
    }] by {
    }
    assert forall|i: int, j: int|
        0 <= i < new.len() && 0 <= j < new.len() && name::folded((#[trigger] new[i]).0)
            == name::folded((#[trigger] new[j]).0) implies i == j by {
        let a = if i < at {
            i
        } else {
            i + 1
        };
        let b = if j < at {
            j
        } else {
            j + 1
        };
        if at < entries.len() {
            assert(name::folded(entries[a].0) == name::folded(entries[b].0));
        } else {
            assert(name::folded(entries[i].0) == name::folded(entries[j].0));
        }
    }
    if at < entries.len() {
        assert forall|i: int| 0 <= i < new.len() implies name::folded((#[trigger] new[i]).0)
            != name::folded(n) by {
            let a = if i < at {
                i
            } else {
                i + 1
            };
            assert(name::folded(entries[a].0) == name::folded(entries[at].0) ==> a == at);
        }
        lemma_place_is(new, n, new.len() as int);
        if name::folded(other) != name::folded(n) {
            let there = place(entries, other);
            if there < entries.len() {
                lemma_place_is(
                    new,
                    other,
                    if there < at {
                        there
                    } else {
                        there - 1
                    },
                );
            } else {
                lemma_place_is(new, other, new.len() as int);
            }
        }
    }
}

/// Names that are equal are of the same service type.
pub proof fn lemma_same_type(a: NameView, b: NameView)
    requires
        name::folded(a) == name::folded(b),
    ensures
        type_id(a) == type_id(b),
{
    let count = announce::TYPE_LABELS as nat;
    let fa = name::folded(a);
    let fb = name::folded(b);
    assert(fa.labels.len() == a.labels.len());
    assert(fb.labels.len() == b.labels.len());
    if count <= a.labels.len() {
        assert(type_id(a).labels =~= fa.labels.skip(a.labels.len() - count));
        assert(type_id(b).labels =~= fb.labels.skip(b.labels.len() - count));
    }
}

/// Registering keeps the registry consistent.
pub proof fn lemma_registered(v: MdnsView, instance: NameView, port: u16)
    requires
        consistent(v),
    ensures
        consistent(registered(v, instance, port)),
{
    let new = registered(v, instance, port);
    let id = type_id(instance);
    let was = instances(v, id);
    lemma_put(was, instance, port, instance);
    lemma_place(was, instance);
    assert forall|k: NameView| #[trigger] new.services.dom().contains(k) implies {
        &&& new.services[k].len() > 0
        &&& distinct(new.services[k])
        &&& forall|i: int|
            0 <= i < new.services[k].len() ==> type_id((#[trigger] new.services[k][i]).0) == k
    } by {
        if k != id {
            assert(v.services.dom().contains(k));
        } else {
            assert forall|i: int| 0 <= i < new.services[k].len() implies type_id(
                (#[trigger] new.services[k][i]).0,
            ) == k by {
                if i < was.len() {
                    assert(new.services[k][i].0 == was[i].0);
                }
            }
        }
    }
}

/// Unregistering keeps the registry consistent.
pub proof fn lemma_unregistered(v: MdnsView, instance: NameView)
    requires
        consistent(v),
    ensures
        consistent(unregistered(v, instance)),
{
    let new = unregistered(v, instance);
    let id = type_id(instance);
    let was = instances(v, id);
    let at = place(was, instance);
    lemma_dropped(was, instance, instance);
    lemma_place(was, instance);
    assert forall|k: NameView| #[trigger] new.services.dom().contains(k) implies {
        &&& new.services[k].len() > 0
        &&& distinct(new.services[k])
        &&& forall|i: int|
            0 <= i < new.services[k].len() ==> type_id((#[trigger] new.services[k][i]).0) == k
    } by {
        if k != id {
            assert(v.services.dom().contains(k));
        } else {
            assert(was.len() > 0);
            assert(v.services.dom().contains(k));
            assert forall|i: int| 0 <= i < new.services[k].len() implies type_id(
                (#[trigger] new.services[k][i]).0,
            ) == k by {
                assert(new.services[k][i] == was[if i < at {
                    i
                } else {
                    i + 1
                }]);
            }
        }
    }
}

/// A registered instance has its port, and every other instance has the one it had.
pub proof fn law_registered_has_its_port(
    v: MdnsView,
    instance: NameView,
    port: u16,
    other: NameView,
)
    requires
        consistent(v),
    ensures
        consistent(registered(v, instance, port)),
        port_of(registered(v, instance, port), instance) == Some(port),
        name::folded(other) != name::folded(instance) ==> port_of(
            registered(v, instance, port),
            other,
        ) == port_of(v, other),
{
    lemma_registered(v, instance, port);
    lemma_put(instances(v, type_id(instance)), instance, port, other);
}

/// An instance that was unregistered has no port, and every other instance has the one it had.
pub proof fn law_unregistered_has_no_port(v: MdnsView, instance: NameView, other: NameView)
    requires
        consistent(v),
    ensures
        consistent(unregistered(v, instance)),
        port_of(unregistered(v, instance), instance) is None,
        name::folded(other) != name::folded(instance) ==> port_of(
            unregistered(v, instance),
            other,
        ) == port_of(v, other),
{
    let was = instances(v, type_id(instance));
    lemma_unregistered(v, instance);
    lemma_dropped(was, instance, other);
    lemma_place(dropped(was, instance), instance);
    lemma_place(dropped(was, instance), other);
}

/// Unregistering an instance that was just registered, and was not before, brings back what was
/// known before.
pub proof fn law_unregister_undoes_register(v: MdnsView, instance: NameView, port: u16)
    requires
        consistent(v),
        port_of(v, instance) is None,
    ensures
        unregistered(registered(v, instance, port), instance) == v,
{
    let id = type_id(instance);
    let was = instances(v, id);
    lemma_place(was, instance);
    let with = put(was, instance, port);
    assert(with == was.push((instance, port)));
    lemma_place_is(with, instance, was.len() as int);
    assert(dropped(with, instance) =~= was);
    let back = unregistered(registered(v, instance, port), instance);
    assert(back.services =~= v.services);
}

/// A query for the service type of an own instance, for pointing records or any, is answered with
/// the announcement of that instance, under the name that it was first registered with.
pub proof fn law_type_query_is_answered(v: MdnsView, instance: NameView, q: QueryView)
    requires
        consistent(v),
        port_of(v, instance) is Some,
        name::folded(q.name) == type_id(instance),
        q.query_type == message::TYPE_PTR || q.query_type == message::TYPE_ANY,
    ensures
        exists|spelled: NameView|
            name::folded(spelled) == name::folded(instance) && #[trigger] type_answers(
                v,
                q,
            ).contains(announce::announcement(spelled, v.ip, port_of(v, instance)->0)),
{
    let es = instances(v, type_id(instance));
    let at = place(es, instance);
    lemma_place(es, instance);
    let spelled = es[at].0;
    let all = type_answers(v, q);
    assert(all[at] == announce::announcement(spelled, v.ip, port_of(v, instance)->0));
    assert(all.contains(announce::announcement(spelled, v.ip, port_of(v, instance)->0)));
}

/// A query for a service type, for pointing records or any, is answered with one announcement for
/// each of its instances, and with nothing else.
pub proof fn law_type_query_is_answered_once(v: MdnsView, q: QueryView)
    requires
        q.query_type == message::TYPE_PTR || q.query_type == message::TYPE_ANY,
    ensures
        type_answers(v, q).len() == instances(v, name::folded(q.name)).len(),
        forall|i: int|
            0 <= i < type_answers(v, q).len() ==> #[trigger] type_answers(v, q)[i]
                == announce::announcement(
                instances(v, name::folded(q.name))[i].0,
                v.ip,
                instances(v, name::folded(q.name))[i].1,
            ),
{
}

/// A query for an own instance, whatever the type of the records that it asks for, is answered with
/// its announcement; one for an instance that is not the node's own is not.
pub proof fn law_instance_query_is_answered(v: MdnsView, q: QueryView)
    requires
        name::label_count(q.name) > announce::TYPE_LABELS,
    ensures
        instance_answers(v, q) == (match port_of(v, q.name) {
            Some(port) => seq![announce::announcement(q.name, v.ip, port)],
            None => Seq::<MessageView>::empty(),
        }),
{
}

/// A node without own instances answers nothing.
pub proof fn law_nothing_registered_nothing_answered(v: MdnsView, m: MessageView)
    requires
        v.services == Map::<NameView, Seq<(NameView, u16)>>::empty(),
    ensures
        replies(v, m) == Seq::<MessageView>::empty(),
{
    lemma_no_answers(v, m.queries);
}

proof fn lemma_no_answers(v: MdnsView, queries: Seq<QueryView>)
    requires
        v.services == Map::<NameView, Seq<(NameView, u16)>>::empty(),
    ensures
        answers(v, queries) == Seq::<MessageView>::empty(),
    decreases queries.len(),
{
    if queries.len() > 0 {
        lemma_no_answers(v, queries.drop_last());
        assert(answers(v, queries) =~= Seq::<MessageView>::empty());
    }
}

/// What the node answers is always an announcement of one of its own instances, at the address that
/// it announces.
pub proof fn law_answers_are_announcements(v: MdnsView, queries: Seq<QueryView>, i: int)
    requires
        consistent(v),
        0 <= i < answers(v, queries).len(),
    ensures
        exists|instance: NameView|
            #![trigger port_of(v, instance)]
            port_of(v, instance) matches Some(port) && answers(v, queries)[i]
                == announce::announcement(instance, v.ip, port),
    decreases queries.len(),
{
    if queries.len() > 0 {
        let before = answers(v, queries.drop_last());
        let q = queries.last();
        let of_type = type_answers(v, q);
        if i < before.len() {
            law_answers_are_announcements(v, queries.drop_last(), i);
            assert(answers(v, queries)[i] == before[i]);
        } else if i < before.len() + of_type.len() {
            let k = i - before.len();
            let id = name::folded(q.name);
            let es = instances(v, id);
            assert(answers(v, queries)[i] == of_type[k]);
            assert(v.services.dom().contains(id));
            assert(type_id(v.services[id][k].0) == id);
            lemma_place(es, es[k].0);
            let at = place(es, es[k].0);
            assert(name::folded(es[k].0) == name::folded(es[at].0));
            assert(port_of(v, es[k].0) == Some(es[k].1));
        } else {
            assert(answers(v, queries)[i] == instance_answers(v, q)[0]);
            assert(port_of(v, q.name) is Some);
        }
    }
}

/// A service of interest that was announced is known afterwards at that address, and others are
/// known as before.
pub proof fn law_announced_is_known(v: MdnsView, m: MessageView, other: NameView)
    requires
        consistent(v),
        is_response(m),
    ensures
        consistent(after_message(v, m)),
        announce::service_info(m) matches Some((instance, addr)) ==> of_interest(v, instance) ==> {
            &&& find(after_message(v, m).cache, instance) == Some(addr)
            &&& name::folded(other) != name::folded(instance) ==> find(
                after_message(v, m).cache,
                other,
            ) == find(v.cache, other)
        },
{
    match announce::service_info(m) {
        Some((instance, addr)) => {
            lemma_put(v.cache, instance, addr, other);
        },
        None => {},
    }
}

/// A message that was heard a second time changes nothing and is not reported again.
pub proof fn law_heard_twice(v: MdnsView, m: MessageView)
    requires
        consistent(v),
    ensures
        after_message(after_message(v, m), m) == after_message(v, m),
        report(after_message(v, m), m) is None,
{
    let once = after_message(v, m);
    match announce::service_info(m) {
        Some((instance, addr)) => {
            lemma_put(v.cache, instance, addr, instance);
            lemma_put(put(v.cache, instance, addr), instance, addr, instance);
            assert(after_message(once, m) =~= once);
        },
        None => {},
    }
}

/// A service that is reported is of a type that is followed and none of the node's own, and is
/// known afterwards at the address that is reported.
pub proof fn law_reported_is_of_interest(v: MdnsView, m: MessageView)
    requires
        consistent(v),
    ensures
        report(v, m) matches Some((instance, addr)) ==> {
            &&& v.following.contains(type_id(instance))
            &&& port_of(v, instance) is None
            &&& find(v.cache, instance) != Some(addr)
            &&& find(after_message(v, m).cache, instance) == Some(addr)
        },
{
    match announce::service_info(m) {
        Some((instance, addr)) => {
            lemma_put(v.cache, instance, addr, instance);
        },
        None => {},
    }
}

/// The announcement of an own instance, or of one whose type is not followed, is passed over.
pub proof fn law_own_and_unfollowed_are_ignored(v: MdnsView, m: MessageView)
    requires
        announce::service_info(m) matches Some((instance, addr)) ==> port_of(v, instance) is Some
            || !v.following.contains(type_id(instance)),
    ensures
        after_message(v, m) == v,
        report(v, m) is None,
{
}

/// What is announced by one node and heard by another that follows the service type and has no such
/// instance of its own is known there at the announced address.
pub proof fn law_discovery(
    announcer: MdnsView,
    listener: MdnsView,
    instance: NameView,
    bytes: Option<Seq<u8>>,
)
    requires
        consistent(listener),
        instance.fqdn,
        port_of(announcer, instance) is Some,
        of_interest(listener, instance),
        message::written(
            bytes,
            announce::announcement(instance, announcer.ip, port_of(announcer, instance)->0),
        ),
    ensures
        bytes matches Some(b) && message::parsed(b) matches Some(m) && find(
            after_message(listener, m).cache,
            instance,
        ) == Some(net::addr_at(announcer.ip, port_of(announcer, instance)->0)),
{
    let port = port_of(announcer, instance)->0;
    announce::lemma_announcement_small(instance, announcer.ip, port);
    announce::law_announcement_names_its_service(instance, announcer.ip, port);
    let m = message::sent(announce::announcement(instance, announcer.ip, port));
    law_announced_is_known(listener, m, instance);
}

/// What is found under a name does not depend on its spelling.
proof fn lemma_find_spelled<V>(entries: Seq<(NameView, V)>, a: NameView, b: NameView)
    requires
        name::folded(a) == name::folded(b),
    ensures
        find(entries, a) == find(entries, b),
{
    lemma_place(entries, a);
    lemma_place_is(entries, b, place(entries, a));
}

/// A node that asks for a service type, heard by another that has an instance of that type, gets an
/// answer from which it knows where that instance runs.
pub proof fn law_query_finds_instance(
    announcer: MdnsView,
    listener: MdnsView,
    instance: NameView,
    service_type: NameView,
    query: Seq<u8>,
)
    requires
        consistent(announcer),
        consistent(listener),
        instance.fqdn,
        port_of(announcer, instance) is Some,
        of_interest(listener, instance),
        service_type.fqdn,
        name::folded(service_type) == type_id(instance),
        message::written(Some(query), announce::type_query(service_type)),
    ensures
        message::parsed(query) matches Some(asked) && exists|i: int|
            0 <= i < replies(announcer, asked).len() && #[trigger] answer_found(
                listener,
                replies(announcer, asked)[i],
                instance,
                net::addr_at(announcer.ip, port_of(announcer, instance)->0),
            ),
{
    announce::law_query_is_understood(service_type, Some(query));
    let asked = announce::type_query(service_type);
    let q = asked.queries[0];
    let port = port_of(announcer, instance)->0;
    let es = instances(announcer, type_id(instance));
    let at = place(es, instance);
    lemma_place(es, instance);
    let spelled = es[at].0;
    let reply = announce::announcement(spelled, announcer.ip, port);
    let before = answers(announcer, asked.queries.drop_last());
    assert(asked.queries.drop_last() =~= Seq::<QueryView>::empty());
    assert(before.len() == 0);
    let all = replies(announcer, asked);
    assert(type_answers(announcer, q)[at] == reply);
    assert(all[at] == reply);
    let addr = net::addr_at(announcer.ip, port);
    assert(spelled.fqdn) by {
        assert(name::folded(spelled).fqdn == name::folded(instance).fqdn);
    }
    lemma_same_type(spelled, instance);
    lemma_find_spelled(instances(listener, type_id(instance)), spelled, instance);
    assert(of_interest(listener, spelled));
    assert forall|bytes: Seq<u8>| #[trigger]
        message::written(Some(bytes), reply) implies message::parsed(bytes) matches Some(m)
        && find(after_message(listener, m).cache, instance) == Some(addr) by {
        announce::lemma_announcement_small(spelled, announcer.ip, port);
        announce::law_announcement_names_its_service(spelled, announcer.ip, port);
        let m = message::sent(reply);
        law_announced_is_known(listener, m, spelled);
        lemma_find_spelled(after_message(listener, m).cache, spelled, instance);
    }
    assert(answer_found(listener, all[at], instance, addr));
}

/// Whoever receives the bytes of `reply` knows afterwards that `instance` runs at `addr`.
pub open spec fn answer_found(
    listener: MdnsView,
    reply: MessageView,
    instance: NameView,
    addr: SocketAddr,
) -> bool {
    forall|bytes: Seq<u8>| #[trigger]
        message::written(Some(bytes), reply) ==> (message::parsed(bytes) matches Some(m) && find(
            after_message(listener, m).cache,
            instance,
        ) == Some(addr))
}

/// Under a name stands the value of the first entry whose name is equal, whatever its spelling; and
/// nothing, if no entry has an equal name.
pub proof fn law_find<V>(entries: Seq<(NameView, V)>, n: NameView, at: int)
    ensures
        0 <= at < entries.len() && name::folded(entries[at].0) == name::folded(n) && (forall|k: int|
            0 <= k < at ==> name::folded((#[trigger] entries[k]).0) != name::folded(n)) ==> find(
            entries,
            n,
        ) == Some(entries[at].1),
        (forall|k: int|
            0 <= k < entries.len() ==> name::folded((#[trigger] entries[k]).0) != name::folded(n))
            ==> find(entries, n) is None,
{
    lemma_place(entries, n);
}

/// The port of an own instance is the one that stands for it among the instances of the service type
/// that its last three labels name.
pub proof fn law_port_of_own_instance(v: MdnsView, instance: NameView, at: int)
    requires
        consistent(v),
    ensures
        ({
            let id = name::folded(name::trimmed(instance, 3));
            &&& v.services.dom().contains(id) && 0 <= at < v.services[id].len() && name::folded(
                v.services[id][at].0,
            ) == name::folded(instance) ==> port_of(v, instance) == Some(v.services[id][at].1)
            &&& !v.services.dom().contains(id) ==> port_of(v, instance) is None
            &&& v.services.dom().contains(id) && (forall|k: int|
                0 <= k < v.services[id].len() ==> name::folded((#[trigger] v.services[id][k]).0)
                    != name::folded(instance)) ==> port_of(v, instance) is None
        }),
{
    let id = type_id(instance);
    let es = instances(v, id);
    lemma_place(es, instance);
    if v.services.dom().contains(id) && 0 <= at < es.len() && name::folded(es[at].0)
        == name::folded(instance) {
        let p = place(es, instance);
        assert(name::folded(v.services[id][p].0) == name::folded(v.services[id][at].0));
    }
}

/// Registering keeps the address, the instances that were heard of and the service types that are
/// followed; and so does unregistering.
pub proof fn law_registering_changes_own_instances_only(
    v: MdnsView,
    instance: NameView,
    port: u16,
)
    ensures
        ({
            let with = registered(v, instance, port);
            &&& with.ip == v.ip
            &&& with.cache == v.cache
            &&& with.following == v.following
        }),
        ({
            let without = unregistered(v, instance);
            &&& without.ip == v.ip
            &&& without.cache == v.cache
            &&& without.following == v.following
        }),
{
}

/// The answers to questions that come one after the other are those to the first ones, and then
/// those to the others.
pub proof fn law_questions_are_answered_on_their_own(
    v: MdnsView,
    first: Seq<QueryView>,
    second: Seq<QueryView>,
)
    ensures
        answers(v, first + second) == answers(v, first) + answers(v, second),
    decreases second.len(),
{
    if second.len() == 0 {
        assert(first + second =~= first);
        assert(answers(v, first) + answers(v, second) =~= answers(v, first));
    } else {
        let all = first + second;
        law_questions_are_answered_on_their_own(v, first, second.drop_last());
        assert(all.drop_last() =~= first + second.drop_last());
        assert(all.last() == second.last());
        assert(answers(v, all) =~= answers(v, first) + answers(v, second));
    }
}

/// Every question of a message is answered, whatever stands before it and behind it: with each
/// answer to it as a question for a service type, and with each answer to it as a question for an
/// instance.
pub proof fn law_every_question_is_answered(
    v: MdnsView,
    queries: Seq<QueryView>,
    k: int,
    a: MessageView,
)
    requires
        0 <= k < queries.len(),
        type_answers(v, queries[k]).contains(a) || instance_answers(v, queries[k]).contains(a),
    ensures
        answers(v, queries).contains(a),
    decreases queries.len(),
{
    let before = answers(v, queries.drop_last());
    let all = answers(v, queries);
    if k < queries.len() - 1 {
        law_every_question_is_answered(v, queries.drop_last(), k, a);
        let i = choose|i: int| 0 <= i < before.len() && before[i] == a;
        assert(all[i] == a);
    } else if type_answers(v, queries[k]).contains(a) {
        let of_type = type_answers(v, queries[k]);
        let i = choose|i: int| 0 <= i < of_type.len() && of_type[i] == a;
        assert(all[before.len() + i] == a);
    } else {
        let of_type = type_answers(v, queries[k]);
        let of_instance = instance_answers(v, queries[k]);
        let i = choose|i: int| 0 <= i < of_instance.len() && of_instance[i] == a;
        assert(all[before.len() + of_type.len() + i] == a);
    }
}

/// Whoever asks for pointing records or any records of a service type, in any question of a query,
/// is answered with the announcement of each own instance of that type, at its port and at the
/// address that the node announces.
pub proof fn law_every_own_instance_is_announced(v: MdnsView, m: MessageView, k: int, i: int)
    requires
        m.head.message_type == MessageType::Query,
        m.head.response_code == 0,
        0 <= k < m.queries.len(),
        m.queries[k].query_type == 12 || m.queries[k].query_type == 255,
        v.services.dom().contains(name::folded(m.queries[k].name)),
        0 <= i < v.services[name::folded(m.queries[k].name)].len(),
    ensures
        ({
            let entry = v.services[name::folded(m.queries[k].name)][i];
            replies(v, m).contains(announce::announcement(entry.0, v.ip, entry.1))
        }),
{
    let entry = v.services[name::folded(m.queries[k].name)][i];
    let a = announce::announcement(entry.0, v.ip, entry.1);
    let of_type = type_answers(v, m.queries[k]);
    assert(of_type[i] == a);
    assert(of_type.contains(a));
    law_every_question_is_answered(v, m.queries, k, a);
}

/// Whoever asks for an own instance by a name of more than three labels, for records of any type and
/// in any question of a query, is answered with its announcement.
pub proof fn law_every_own_instance_is_found_by_name(v: MdnsView, m: MessageView, k: int)
    requires
        m.head.message_type == MessageType::Query,
        m.head.response_code == 0,
        0 <= k < m.queries.len(),
        name::label_count(m.queries[k].name) > 3,
        port_of(v, m.queries[k].name) is Some,
    ensures
        replies(v, m).contains(
            announce::announcement(
                m.queries[k].name,
                v.ip,
                port_of(v, m.queries[k].name)->0,
            ),
        ),
{
    let a = announce::announcement(m.queries[k].name, v.ip, port_of(v, m.queries[k].name)->0);
    let of_instance = instance_answers(v, m.queries[k]);
    assert(of_instance[0] == a);
    law_every_question_is_answered(v, m.queries, k, a);
}

/// One question gets one answer for each own instance of the service type that it asks for, if it
/// asks for pointing records or any, and then one if it names an own instance; and no more.
pub proof fn law_number_of_answers(v: MdnsView, q: QueryView)
    ensures
        ({
            let id = name::folded(q.name);
            let by_type: nat = if (q.query_type == 12 || q.query_type == 255)
                && v.services.dom().contains(id) {
                v.services[id].len()
            } else {
                0
            };
            let by_name: nat = if name::label_count(q.name) > 3 && port_of(v, q.name) is Some {
                1
            } else {
                0
            };
            answers(v, seq![q]).len() == by_type + by_name
        }),
        answers(v, Seq::empty()).len() == 0,
{
    assert(seq![q].drop_last() =~= Seq::<QueryView>::empty());
    assert(seq![q].last() == q);
    assert(answers(v, Seq::<QueryView>::empty()).len() == 0);
}

/// A query is answered as its questions are, and changes nothing; a response is not answered; and a
/// message with an error is passed over.
pub proof fn law_what_a_message_does(v: MdnsView, m: MessageView)
    ensures
        m.head.message_type == MessageType::Query ==> after_message(v, m) == v && report(v, m)
            is None,
        m.head.message_type == MessageType::Query && m.head.response_code == 0 ==> replies(v, m)
            == answers(v, m.queries),
        m.head.message_type == MessageType::Response ==> replies(v, m).len() == 0,
        m.head.response_code != 0 ==> after_message(v, m) == v && report(v, m) is None && replies(
            v,
            m,
        ).len() == 0,
{
}

/// A service that a response announces is reported exactly if its type is followed, it is none of
/// the node's own, and it was not known at that address, whatever else the node knows.
pub proof fn law_every_new_service_is_reported(
    v: MdnsView,
    m: MessageView,
    instance: NameView,
    addr: SocketAddr,
)
    requires
        m.head.message_type == MessageType::Response,
        m.head.response_code == 0,
        announce::service_info(m) == Some((instance, addr)),
    ensures
        ({
            let new = v.following.contains(name::folded(name::trimmed(instance, 3))) && port_of(
                v,
                instance,
            ) is None && find(v.cache, instance) != Some(addr);
            &&& new ==> report(v, m) == Some((instance, addr))
            &&& !new ==> report(v, m) is None
        }),
{
}

/// A service that a response announces is known afterwards at that address if its type is followed
/// and it is none of the node's own; else nothing changes. A response that announces nothing changes
/// nothing and is not reported. No message changes the address, the own instances or the service
/// types that are followed, nor what is known of other services.
pub proof fn law_what_is_known_after_a_message(v: MdnsView, m: MessageView, other: NameView)
    requires
        consistent(v),
    ensures
        ({
            let new = after_message(v, m);
            &&& new.ip == v.ip
            &&& new.services == v.services
            &&& new.following == v.following
            &&& announce::service_info(m) is None ==> new == v && report(v, m) is None
            &&& announce::service_info(m) matches Some((instance, addr)) ==> {
                let wanted = v.following.contains(name::folded(name::trimmed(instance, 3)))
                    && port_of(v, instance) is None && m.head.message_type == MessageType::Response
                    && m.head.response_code == 0;
                &&& wanted ==> find(new.cache, instance) == Some(addr)
                &&& !wanted ==> new == v
                &&& name::folded(other) != name::folded(instance) ==> find(new.cache, other)
                    == find(v.cache, other)
            }
        }),
{
    match announce::service_info(m) {
        Some((instance, addr)) => {
            lemma_put(v.cache, instance, addr, other);
        },
        None => {},
    }
}

/// A service that was heard of first is kept with its spelling and in its place, and one that is new
/// comes behind all others.
pub proof fn law_known_services_keep_their_place<V>(
    entries: Seq<(NameView, V)>,
    n: NameView,
    v: V,
    k: int,
)
    requires
        0 <= k < entries.len(),
    ensures
        put(entries, n, v)[k].0 == entries[k].0,
        name::folded(entries[k].0) != name::folded(n) ==> put(entries, n, v)[k] == entries[k],
        put(entries, n, v).len() == entries.len() + if find(entries, n) is Some {
            0int
        } else {
            1int
        },
        find(entries, n) is None ==> put(entries, n, v).last() == (n, v),
{
    lemma_place(entries, n);
}

} // verus!
