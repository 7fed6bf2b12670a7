//! A multicast DNS node: it announces its own service instances, answers questions for them, and
//! keeps track of the instances of the service types that it follows.
use vstd::prelude::*;

use crate::announce;
use crate::announce::{create_mdns_response_message, create_type_query, extract_service_info};
use crate::assoc;
use crate::assoc::{AssocKey, AssocMap};
use crate::error::Error;
use crate::message;
use crate::message::{DnsMessage, MessageType, MessageView, Query};
use crate::name::{Name, NameView};
use crate::net;
use crate::net::{IpAddr, SocketAddr};
use crate::registry;
use crate::registry::MdnsView;

verus! {

/// Number of times that an instance is announced when it is registered.
pub const MAX_SEND_ATTEMPTS: usize = 3;

/// Milliseconds between two announcements of an instance.
pub const SEND_INTERVAL_MILLIS: u64 = 50;

/// Size of the largest datagram that is received.
pub const BUFFER_SIZE: usize = 4096;

/// The names and values of `m`, in order.
pub open spec fn entries<V>(m: AssocMap<Name, V>) -> Seq<(NameView, V)> {
    Seq::new(m.keys().len(), |i: int| (m.keys()[i]@, m.vals()[i]))
}

/// A multicast DNS node.
#[derive(Debug)]
pub struct Mdns {
    /// The address that is announced.
    advertised_ip: IpAddr,
    /// The own instances with their ports, by service type.
    registered_services: AssocMap<Name, AssocMap<Name, u16>>,
    /// The instances that were heard of, and where they run.
    service_cache: AssocMap<Name, SocketAddr>,
    /// The service types that are followed.
    follow_services: AssocMap<Name, ()>,
}

/// Something to be sent, and where to.
#[derive(Debug)]
pub struct Datagram {
    pub bytes: Vec<u8>,
    pub to: SocketAddr,
}

/// What comes of a datagram that was received.
#[derive(Debug)]
pub struct Outcome {
    /// What is to be sent to the multicast group.
    pub replies: Vec<Vec<u8>>,
    /// The service instance to be reported.
    pub discovered: Option<(Name, SocketAddr)>,
}

/// `bytes` are the wire format of `messages`, one for one, and are read back as them.
pub open spec fn wires(bytes: Seq<Vec<u8>>, messages: Seq<MessageView>) -> bool {
    &&& bytes.len() == messages.len()
    &&& forall|i: int|
        0 <= i < bytes.len() ==> message::wire(#[trigger] messages[i]) == Some(bytes[i]@)
            && message::written(Some(bytes[i]@), messages[i])
}

/// The position in the entries is the position among the keys.
proof fn lemma_place_is_position<V>(m: AssocMap<Name, V>, n: NameView)
    ensures
        registry::place(entries(m), n) == assoc::position(m.keys(), crate::name::folded(n)),
        m@.dom().contains(crate::name::folded(n)) <==> registry::place(entries(m), n) < entries(
            m,
        ).len(),
{
    let id = crate::name::folded(n);
    let at = assoc::position(m.keys(), id);
    assoc::lemma_position(m.keys(), id);
    assert forall|i: int| 0 <= i < at implies crate::name::folded((#[trigger] entries(m)[i]).0)
        != id by {
        assert(m.keys()[i].id() != id);
    }
    registry::lemma_place_is(entries(m), n, at);
    if m@.dom().contains(id) {
        assert(assoc::has_id(m.keys(), id));
    }
}

/// No two entries of a map are for the same name.
proof fn lemma_distinct<V>(m: AssocMap<Name, V>)
    requires
        m.wf(),
    ensures
        registry::distinct(entries(m)),
{
    assert forall|i: int, j: int|
        0 <= i < entries(m).len() && 0 <= j < entries(m).len() && crate::name::folded(
            (#[trigger] entries(m)[i]).0,
        ) == crate::name::folded((#[trigger] entries(m)[j]).0) implies i == j by {
        assert(m.keys()[i].id() == m.keys()[j].id());
    }
}

/// What is found in a map is found in its entries.
proof fn lemma_find<V>(m: AssocMap<Name, V>, n: NameView)
    requires
        m.wf(),
    ensures
        registry::find(entries(m), n) == (if m@.dom().contains(crate::name::folded(n)) {
            Some(m@[crate::name::folded(n)])
        } else {
            None
        }),
{
    lemma_place_is_position(m, n);
    registry::lemma_place(entries(m), n);
}

/// Setting a value in a map puts it into its entries.
proof fn lemma_insert<V>(old_m: AssocMap<Name, V>, new_m: AssocMap<Name, V>, key: Name, val: V)
    requires
        old_m.wf(),
        if old_m@.dom().contains(key.id()) {
            &&& new_m.keys() == old_m.keys()
            &&& new_m.vals() == old_m.vals().update(assoc::position(old_m.keys(), key.id()), val)
        } else {
            &&& new_m.keys() == old_m.keys().push(key)
            &&& new_m.vals() == old_m.vals().push(val)
        },
    ensures
        entries(new_m) == registry::put(entries(old_m), key@, val),
{
    lemma_place_is_position(old_m, key@);
    registry::lemma_place(entries(old_m), key@);
    assert(entries(new_m) =~= registry::put(entries(old_m), key@, val));
}

/// Taking a key out of a map drops it from its entries.
proof fn lemma_remove<V>(old_m: AssocMap<Name, V>, new_m: AssocMap<Name, V>, key: Name)
    requires
        old_m.wf(),
        if old_m@.dom().contains(key.id()) {
            let at = assoc::position(old_m.keys(), key.id());
            &&& new_m.keys() == old_m.keys().remove(at)
            &&& new_m.vals() == old_m.vals().remove(at)
        } else {
            &&& new_m.keys() == old_m.keys()
            &&& new_m.vals() == old_m.vals()
        },
    ensures
        entries(new_m) == registry::dropped(entries(old_m), key@),
{
    lemma_place_is_position(old_m, key@);
    registry::lemma_place(entries(old_m), key@);
    assert(entries(new_m) =~= registry::dropped(entries(old_m), key@));
}

impl Mdns {
    /// What this node knows.
    pub closed spec fn view(&self) -> MdnsView {
        MdnsView {
            ip: self.advertised_ip,
            services: self.registered_services@.map_values(
                |m: AssocMap<Name, u16>| entries(m),
            ),
            cache: entries(self.service_cache),
            following: self.follow_services@.dom(),
        }
    }

    /// The maps are well-formed, and what the node knows is consistent.
    pub closed spec fn wf(&self) -> bool {
        &&& self.registered_services.wf()
        &&& forall|id: NameView| #[trigger]
            self.registered_services@.dom().contains(id) ==> self.registered_services@[id].wf()
        &&& self.service_cache.wf()
        &&& self.follow_services.wf()
        &&& registry::consistent(self@)
    }

    /// What a well-formed node knows is consistent.
    pub proof fn lemma_consistent(&self)
        requires
            self.wf(),
        ensures
            registry::consistent(self@),
    {
    }

    /// A node that announces the address `advertised_ip` and knows nothing else.
    pub fn new(advertised_ip: IpAddr) -> (r: Mdns)
        ensures
            r.wf(),
            r@ == (MdnsView {
                ip: advertised_ip,
                services: Map::empty(),
                cache: Seq::empty(),
                following: Set::empty(),
            }),
    {
        let r = Mdns {
            advertised_ip,
            registered_services: AssocMap::new(),
            service_cache: AssocMap::new(),
            follow_services: AssocMap::new(),
        };
        assert(r@.services =~= Map::<NameView, Seq<(NameView, u16)>>::empty());
        assert(r@.cache =~= Seq::<(NameView, SocketAddr)>::empty());
        assert(r@.following =~= Set::<NameView>::empty());
        r
    }

    /// Sets the address that is announced from now on.
    pub fn set_advertised_ip(&mut self, ip: IpAddr)
        requires
            old(self).wf(),
        ensures
            final(self).wf(),
            final(self)@ == (MdnsView { ip, ..old(self)@ }),
    {
        self.advertised_ip = ip;
    }

    /// The address that is announced.
    pub fn get_advertised_ip(&self) -> (r: IpAddr)
        ensures
            r == self@.ip,
    {
        self.advertised_ip
    }

    /// Takes the instance `instance_name` up, which runs on the port `port`.
    pub fn register(&mut self, instance_name: Name, port: u16)
        requires
            old(self).wf(),
        ensures
            final(self).wf(),
            final(self)@ == registry::registered(old(self)@, instance_name@, port),
    {
        let base_service_name = announce::service_type(&instance_name);
        let ghost id = base_service_name.id();
        let ghost before = self.registered_services@;
        let mut instances = match self.registered_services.remove(&base_service_name) {
            Some(instances) => instances,
            None => AssocMap::new(),
        };
        let ghost was = instances;
        proof {
            if before.dom().contains(id) {
                assert(old(self)@.services[id] == entries(was));
            } else {
                assert(entries(was) =~= Seq::<(NameView, u16)>::empty());
            }
            assert(registry::instances(old(self)@, id) == entries(was));
        }
        let ghost key = instance_name;
        instances.insert(instance_name, port);
        proof {
            lemma_insert(was, instances, key, port);
            registry::lemma_registered(old(self)@, key@, port);
        }
        self.registered_services.insert(base_service_name, instances);
        proof {
            assert(self.registered_services@ =~= before.insert(id, instances));
            assert(self@.services =~= old(self)@.services.insert(
                id,
                registry::put(entries(was), key@, port),
            ));
        }
    }

    /// Drops the instance `instance_name`.
    pub fn unregister(&mut self, instance_name: &Name)
        requires
            old(self).wf(),
        ensures
            final(self).wf(),
            final(self)@ == registry::unregistered(old(self)@, instance_name@),
    {
        let base_service_name = announce::service_type(instance_name);
        let ghost id = base_service_name.id();
        let ghost before = self.registered_services@;
        proof {
            registry::lemma_unregistered(old(self)@, instance_name@);
        }
        match self.registered_services.remove(&base_service_name) {
            Some(mut instances) => {
                let ghost was = instances;
                assert(old(self)@.services[id] == entries(was));
                instances.remove(instance_name);
                proof {
                    lemma_remove(was, instances, *instance_name);
                }
                assert(entries(instances).len() == instances.keys().len());
                if instances.is_empty() {
                    assert(self@.services =~= old(self)@.services.remove(id));
                } else {
                    self.registered_services.insert(base_service_name, instances);
                    assert(self.registered_services@ =~= before.insert(id, instances));
                    assert(self@.services =~= old(self)@.services.insert(id, entries(instances)));
                }
            },
            None => {
                assert(self@.services =~= old(self)@.services.remove(id));
            },
        }
    }

    /// The port of the own instance `instance_name`.
    pub fn registered_port(&self, instance_name: &Name) -> (r: Option<u16>)
        requires
            self.wf(),
        ensures
            r == registry::port_of(self@, instance_name@),
    {
        let base_service_name = announce::service_type(instance_name);
        match self.registered_services.get(&base_service_name) {
            Some(instances) => {
                proof {
                    lemma_find(*instances, instance_name@);
                }
                match instances.get(instance_name) {
                    Some(port) => Some(*port),
                    None => None,
                }
            },
            None => None,
        }
    }

    /// The announcement of the instance `instance_name` on the port `port` at the advertised address,
    /// to be sent to the multicast group.
    pub fn announcement(&self, instance_name: &Name, port: u16) -> (r: Result<Datagram, Error>)
        ensures
            r matches Ok(d) && d.to == net::mdns_group_of(self@.ip) && message::wire(
                announce::announcement(instance_name@, self@.ip, port),
            ) == Some(d.bytes@) && message::written(
                Some(d.bytes@),
                announce::announcement(instance_name@, self@.ip, port),
            ),
    {
        let m = create_mdns_response_message(instance_name, self.advertised_ip, port);
        proof {
            announce::lemma_announcement_small(instance_name@, self@.ip, port);
        }
        match m.to_bytes() {
            Ok(bytes) => Ok(Datagram { bytes, to: net::mdns_group(self.advertised_ip) }),
            Err(e) => Err(e),
        }
    }

    /// Follows the service type `service_type_name`. If it was not followed before, a query for it
    /// is to be sent to the multicast group.
    pub fn follow(&mut self, service_type_name: &Name) -> (r: Result<Option<Datagram>, Error>)
        requires
            old(self).wf(),
        ensures
            final(self).wf(),
            final(self)@ == (MdnsView {
                following: old(self)@.following.insert(
                    crate::name::folded(service_type_name@),
                ),
                ..old(self)@
            }),
            match r {
                Ok(Some(d)) => {
                    &&& !old(self)@.following.contains(crate::name::folded(service_type_name@))
                    &&& d.to == net::mdns_group_of(old(self)@.ip)
                    &&& message::wire(announce::type_query(service_type_name@)) == Some(d.bytes@)
                    &&& message::written(
                        Some(d.bytes@),
                        announce::type_query(service_type_name@),
                    )
                },
                Ok(None) => old(self)@.following.contains(
                    crate::name::folded(service_type_name@),
                ),
                Err(_) => false,
            },
    {
        if self.follow_services.contains_key(service_type_name) {
            assert(self@.following =~= self@.following.insert(service_type_name.id()));
            return Ok(None);
        }
        self.follow_services.insert(service_type_name.copy(), ());
        assert(self@.following =~= old(self)@.following.insert(service_type_name.id()));
        let m = create_type_query(service_type_name);
        proof {
            announce::lemma_query_small(service_type_name@);
        }
        match m.to_bytes() {
            Ok(bytes) => Ok(Some(Datagram { bytes, to: net::mdns_group(self.advertised_ip) })),
            Err(e) => Err(e),
        }
    }

    /// Stops following the service type `service_type_name`.
    pub fn unfollow(&mut self, service_type_name: &Name)
        requires
            old(self).wf(),
        ensures
            final(self).wf(),
            final(self)@ == (MdnsView {
                following: old(self)@.following.remove(
                    crate::name::folded(service_type_name@),
                ),
                ..old(self)@
            }),
    {
        self.follow_services.remove(service_type_name);
        assert(self@.following =~= old(self)@.following.remove(service_type_name.id()));
    }

    /// The instances that were heard of and for which `predicate` holds, with their addresses.
    pub fn find_service<P: Fn(&Name, &SocketAddr) -> bool>(&self, predicate: P) -> (r: Vec<
        (Name, SocketAddr),
    >)
        requires
            self.wf(),
            forall|n: &Name, a: &SocketAddr| #[trigger] predicate.requires((n, a)),
        ensures
            exists|chosen: Seq<bool>| #[trigger]
                picked(self@.cache, chosen, pairs_view(r@)) && forall|i: int|
                    0 <= i < chosen.len() ==> #[trigger] judged(
                        predicate,
                        self@.cache[i],
                        chosen[i],
                    ),
    {
        let mut r: Vec<(Name, SocketAddr)> = Vec::new();
        let mut i: usize = 0;
        let ghost mut chosen: Seq<bool> = Seq::empty();
        let ghost cache = self@.cache;
        assert(cache.take(0) =~= Seq::<(NameView, SocketAddr)>::empty());
        assert(pairs_view(r@) =~= Seq::<(NameView, SocketAddr)>::empty());
        while i < self.service_cache.len()
            invariant
                self.wf(),
                cache == self@.cache,
                cache.len() == self.service_cache.keys().len(),
                i <= cache.len(),
                forall|n: &Name, a: &SocketAddr| #[trigger] predicate.requires((n, a)),
                picked(cache.take(i as int), chosen, pairs_view(r@)),
                forall|k: int|
                    0 <= k < chosen.len() ==> #[trigger] judged(predicate, cache[k], chosen[k]),
            decreases cache.len() - i,
        {
            let name = self.service_cache.key_at(i);
            let addr = self.service_cache.val_at(i);
            let matches = predicate(name, addr);
            let ghost before = r@;
            if matches {
                r.push((name.copy(), *addr));
                assert(pairs_view(r@) =~= pairs_view(before).push((name@, *addr)));
                assert(pairs_view(r@).drop_last() =~= pairs_view(before));
            }
            proof {
                assert(cache[i as int] == (name@, *addr));
                assert(predicate.ensures((name, &cache[i as int].1), matches));
                assert(cache.take(i + 1).drop_last() =~= cache.take(i as int));
                let now = chosen.push(matches);
                assert(now.drop_last() =~= chosen);
                assert(judged(predicate, cache[i as int], matches));
                assert forall|k: int| 0 <= k < now.len() implies #[trigger] judged(
                    predicate,
                    cache[k],
                    now[k],
                ) by {
                    if k < chosen.len() {
                        assert(now[k] == chosen[k]);
                    }
                }
                assert(cache.take(i + 1).last() == cache[i as int]);
                assert(picked(cache.take(i + 1), now, pairs_view(r@)));
                chosen = now;
            }
            i += 1;
        }
        assert(cache.take(cache.len() as int) =~= cache);
        r
    }

    /// The instance `instance_name`, if it was heard of, with its address.
    pub fn find_service_by_name(&self, instance_name: &Name) -> (r: Option<(Name, SocketAddr)>)
        requires
            self.wf(),
        ensures
            announce::info_in(r) == (match registry::find(self@.cache, instance_name@) {
                Some(addr) => Some((instance_name@, addr)),
                None => None,
            }),
    {
        proof {
            lemma_find(self.service_cache, instance_name@);
        }
        match self.service_cache.get(instance_name) {
            Some(addr) => Some((instance_name.copy(), *addr)),
            None => None,
        }
    }

    /// Adds the announcement of `instance_name` to `replies`.
    fn reply(&self, replies: &mut Vec<Vec<u8>>, instance_name: &Name, port: u16, Ghost(done): Ghost<
        Seq<MessageView>,
    >)
        requires
            wires(old(replies)@, done),
        ensures
            wires(
                final(replies)@,
                done.push(announce::announcement(instance_name@, self@.ip, port)),
            ),
    {
        let m = create_mdns_response_message(instance_name, self.advertised_ip, port);
        proof {
            announce::lemma_announcement_small(instance_name@, self@.ip, port);
        }
        match m.to_bytes() {
            Ok(bytes) => {
                replies.push(bytes);
            },
            Err(_) => {},
        }
    }

    /// Adds the answers to one question to `replies`.
    fn answer(&self, query: &Query, replies: &mut Vec<Vec<u8>>, Ghost(done): Ghost<
        Seq<MessageView>,
    >)
        requires
            self.wf(),
            wires(old(replies)@, done),
        ensures
            wires(
                final(replies)@,
                done + registry::type_answers(self@, query@) + registry::instance_answers(
                    self@,
                    query@,
                ),
            ),
    {
        let ghost of_type = registry::type_answers(self@, query@);
        if query.query_type == message::TYPE_PTR || query.query_type == message::TYPE_ANY {
            match self.registered_services.get(&query.name) {
                Some(instances) => {
                    let ghost es = entries(*instances);
                    assert(of_type == registry::announcements(es, self@.ip));
                    let mut i: usize = 0;
                    assert(done + of_type.take(0) =~= done);
                    while i < instances.len()
                        invariant
                            instances.wf(),
                            es == entries(*instances),
                            of_type == registry::announcements(es, self@.ip),
                            i <= es.len(),
                            wires(replies@, done + of_type.take(i as int)),
                        decreases es.len() - i,
                    {
                        let ghost so_far = done + of_type.take(i as int);
                        self.reply(replies, instances.key_at(i), *instances.val_at(i), Ghost(so_far));
                        assert(so_far.push(of_type[i as int]) =~= done + of_type.take(i + 1));
                        i += 1;
                    }
                    assert(of_type.take(i as int) =~= of_type);
                },
                None => {
                    assert(of_type =~= Seq::<MessageView>::empty());
                    assert(done + of_type =~= done);
                },
            }
        } else {
            assert(done + of_type =~= done);
        }
        let ghost so_far = done + of_type;
        if query.name.num_labels() > announce::TYPE_LABELS {
            match self.registered_port(&query.name) {
                Some(port) => {
                    self.reply(replies, &query.name, port, Ghost(so_far));
                    assert(so_far.push(announce::announcement(query.name@, self@.ip, port))
                        =~= so_far + registry::instance_answers(self@, query@));
                },
                None => {
                    assert(so_far + registry::instance_answers(self@, query@) =~= so_far);
                },
            }
        } else {
            assert(so_far + registry::instance_answers(self@, query@) =~= so_far);
        }
    }

    /// The answers to the questions of `query_message`, to be sent to the multicast group.
    pub fn handle_query(&self, query_message: &DnsMessage) -> (r: Vec<Vec<u8>>)
        requires
            self.wf(),
        ensures
            wires(r@, registry::answers(self@, query_message@.queries)),
    {
        let ghost queries = query_message@.queries;
        let mut r: Vec<Vec<u8>> = Vec::new();
        let mut i: usize = 0;
        while i < query_message.queries.len()
            invariant
                self.wf(),
                queries == query_message@.queries,
                i <= query_message.queries@.len(),
                wires(r@, registry::answers(self@, queries.take(i as int))),
            decreases query_message.queries@.len() - i,
        {
            let ghost done = registry::answers(self@, queries.take(i as int));
            assert(queries.take(i + 1).drop_last() =~= queries.take(i as int));
            self.answer(&query_message.queries[i], &mut r, Ghost(done));
            i += 1;
        }
        assert(queries.take(i as int) =~= queries);
        r
    }

    /// Takes note of the service that `response_message` announces, if it is of interest; the
    /// result is what is to be reported.
    pub fn handle_response(&mut self, response_message: &DnsMessage) -> (r: Option<
        (Name, SocketAddr),
    >)
        requires
            old(self).wf(),
        ensures
            final(self).wf(),
            final(self)@ == registry::informed(old(self)@, response_message@),
            announce::info_in(r) == registry::reported(old(self)@, response_message@),
    {
        match extract_service_info(response_message) {
            Some((instance, addr)) => {
                let service_type_name = announce::service_type(&instance);
                if !self.follow_services.contains_key(&service_type_name) {
                    return None;
                }
                if self.registered_port(&instance).is_some() {
                    return None;
                }
                let ghost was = self.service_cache;
                let key = instance.copy();
                proof {
                    lemma_find(was, instance@);
                    lemma_distinct(was);
                    registry::lemma_put(entries(was), instance@, addr, instance@);
                }
                let before = self.service_cache.insert(key, addr);
                proof {
                    lemma_insert(was, self.service_cache, key, addr);
                    assert(self@.services =~= old(self)@.services);
                }
                match before {
                    Some(old_addr) => {
                        if old_addr != addr {
                            Some((instance, addr))
                        } else {
                            None
                        }
                    },
                    None => Some((instance, addr)),
                }
            },
            None => None,
        }
    }

    /// Does what a message calls for. Messages with an error code are passed over.
    pub fn handle_message(&mut self, m: &DnsMessage) -> (r: Outcome)
        requires
            old(self).wf(),
        ensures
            final(self).wf(),
            final(self)@ == registry::after_message(old(self)@, m@),
            wires(r.replies@, registry::replies(old(self)@, m@)),
            announce::info_in(r.discovered) == registry::report(old(self)@, m@),
    {
        if m.head.response_code != 0 {
            return Outcome { replies: Vec::new(), discovered: None };
        }
        match m.head.message_type {
            MessageType::Query => {
                let replies = self.handle_query(m);
                Outcome { replies, discovered: None }
            },
            MessageType::Response => {
                let discovered = self.handle_response(m);
                Outcome { replies: Vec::new(), discovered }
            },
        }
    }

    /// Does what a datagram calls for. One that is empty or no message is passed over.
    pub fn handle_datagram(&mut self, bytes: &[u8]) -> (r: Outcome)
        requires
            old(self).wf(),
        ensures
            final(self).wf(),
            if bytes@.len() > 0 && message::parsed(bytes@) is Some {
                let m = message::parsed(bytes@)->0;
                &&& final(self)@ == registry::after_message(old(self)@, m)
                &&& wires(r.replies@, registry::replies(old(self)@, m))
                &&& announce::info_in(r.discovered) == registry::report(old(self)@, m)
            } else {
                final(self)@ == old(self)@ && r.replies@.len() == 0 && r.discovered is None
            },
    {
        if bytes.len() > 0 {
            match DnsMessage::from_bytes(bytes) {
                Ok(m) => {
                    return self.handle_message(&m);
                },
                Err(_) => {},
            }
        }
        Outcome { replies: Vec::new(), discovered: None }
    }
}

/// What each pair is.
pub open spec fn pairs_view(pairs: Seq<(Name, SocketAddr)>) -> Seq<(NameView, SocketAddr)> {
    pairs.map_values(|p: (Name, SocketAddr)| (p.0@, p.1))
}

/// `predicate` may say `verdict` of the instance and the address of `entry`.
pub open spec fn judged<P: Fn(&Name, &SocketAddr) -> bool>(
    predicate: P,
    entry: (NameView, SocketAddr),
    verdict: bool,
) -> bool {
    exists|n: Name| n@ == entry.0 && #[trigger] predicate.ensures((&n, &entry.1), verdict)
}

/// `kept` are those of `all` for which `chosen` holds, in order.
pub open spec fn picked(
    all: Seq<(NameView, SocketAddr)>,
    chosen: Seq<bool>,
    kept: Seq<(NameView, SocketAddr)>,
) -> bool
    decreases all.len(),
{
    &&& chosen.len() == all.len()
    &&& if all.len() == 0 {
        kept.len() == 0
    } else if chosen.last() {
        kept.len() > 0 && kept.last() == all.last() && picked(
            all.drop_last(),
            chosen.drop_last(),
            kept.drop_last(),
        )
    } else {
        picked(all.drop_last(), chosen.drop_last(), kept)
    }
}

/// What is picked is what was chosen: every chosen entry and no other, once for each time that it was
/// chosen.
pub proof fn law_picked(
    all: Seq<(NameView, SocketAddr)>,
    chosen: Seq<bool>,
    kept: Seq<(NameView, SocketAddr)>,
    entry: (NameView, SocketAddr),
)
    requires
        picked(all, chosen, kept),
    ensures
        kept.contains(entry) <==> exists|i: int|
            0 <= i < all.len() && chosen[i] && #[trigger] all[i] == entry,
        kept.len() == chosen.filter(|b: bool| b).len(),
    decreases all.len(),
{
    reveal(Seq::filter);
    if all.len() == 0 {
        assert(chosen =~= Seq::<bool>::empty());
    } else {
        let a1 = all.drop_last();
        let c1 = chosen.drop_last();
        let last = all.len() - 1;
        let k1 = if chosen.last() {
            kept.drop_last()
        } else {
            kept
        };
        law_picked(a1, c1, k1, entry);
        if exists|i: int| 0 <= i < all.len() && chosen[i] && #[trigger] all[i] == entry {
            let i = choose|i: int| 0 <= i < all.len() && chosen[i] && #[trigger] all[i] == entry;
            if i < last {
                assert(a1[i] == entry && c1[i]);
                let j = choose|j: int| 0 <= j < k1.len() && k1[j] == entry;
                assert(kept[j] == entry);
            } else {
                assert(kept[kept.len() - 1] == entry);
            }
        }
        if kept.contains(entry) {
            let j = choose|j: int| 0 <= j < kept.len() && kept[j] == entry;
            if chosen.last() && j == kept.len() - 1 {
                assert(all[last] == entry && chosen[last]);
            } else {
                assert(k1[j] == entry);
                let i = choose|i: int| 0 <= i < a1.len() && c1[i] && #[trigger] a1[i] == entry;
                assert(all[i] == entry && chosen[i]);
            }
        }
    }
}

/// What is sent for several messages is the wire format of each, in their order, and none is left
/// out.
pub proof fn law_every_message_is_sent(
    bytes: Seq<Vec<u8>>,
    messages: Seq<MessageView>,
    m: MessageView,
)
    requires
        wires(bytes, messages),
        messages.contains(m),
    ensures
        bytes.len() == messages.len(),
        exists|i: int|
            0 <= i < bytes.len() && message::wire(m) == Some((#[trigger] bytes[i])@)
                && message::written(Some(bytes[i]@), m),
{
    let i = choose|i: int| 0 <= i < messages.len() && messages[i] == m;
    assert(message::wire(messages[i]) == Some(bytes[i]@));
}

/// The entries of a map are its names with their values, in order.
pub proof fn law_entries<V>(m: AssocMap<Name, V>, i: int)
    ensures
        entries(m).len() == m.keys().len(),
        0 <= i < m.keys().len() ==> entries(m)[i].0 == m.keys()[i]@ && entries(m)[i].1
            == m.vals()[i],
{
}

/// What each pair is shows its name and its address.
pub proof fn law_pairs_view(pairs: Seq<(Name, SocketAddr)>, i: int)
    ensures
        pairs_view(pairs).len() == pairs.len(),
        0 <= i < pairs.len() ==> pairs_view(pairs)[i] == (pairs[i].0@, pairs[i].1),
{
}

} // verus!
