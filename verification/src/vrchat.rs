//! An OSC application: the services that it offers, and the services of others that it talks to.
use vstd::prelude::*;

use crate::announce;
use crate::assoc;
use crate::assoc::{AssocKey, AssocMap};
use crate::error::Error;
use crate::mdns;
use crate::mdns::{Datagram, Mdns};
use crate::message;
use crate::name;
use crate::name::{Name, NameView};
use crate::net;
use crate::net::{IpAddr, SocketAddr};
use crate::packet;
use crate::path;
use crate::registry;
use crate::registry::MdnsView;
use crate::service;
use crate::text;

verus! {

/// An OSC application.
#[derive(Debug)]
pub struct VRChatOSC {
    mdns: Mdns,
    service_handles: AssocMap<String, ()>,
}

/// What an OSC application knows.
#[verifier::ext_equal]
pub struct AppView {
    /// What its multicast DNS node knows.
    pub mdns: MdnsView,
    /// The services that it offers.
    pub services: Seq<Seq<char>>,
}

/// What came of registering a service.
#[derive(Debug)]
pub struct Registration {
    /// The instances that are to be announced, with their ports.
    pub announce: Vec<(Name, u16)>,
    /// Whether the service is registered.
    pub result: Result<(), Error>,
}

/// What came of shutting down.
#[derive(Debug)]
pub struct Shutdown {
    /// The services that are to be stopped.
    pub stopped: Vec<String>,
    /// Whether all services were unregistered.
    pub result: Result<(), Error>,
}

/// The services with `s` among them.
pub open spec fn with_service(services: Seq<Seq<char>>, s: Seq<char>) -> Seq<Seq<char>> {
    if services.contains(s) {
        services
    } else {
        services.push(s)
    }
}

/// The services without `s`.
pub open spec fn without_service(services: Seq<Seq<char>>, s: Seq<char>) -> Seq<Seq<char>> {
    if services.contains(s) {
        services.remove(services.index_of(s))
    } else {
        services
    }
}

/// No service occurs twice.
pub open spec fn distinct_services(services: Seq<Seq<char>>) -> bool {
    forall|i: int, j: int|
        0 <= i < services.len() && 0 <= j < services.len() && #[trigger] services[i]
            == #[trigger] services[j] ==> i == j
}

/// What is known after registering `s`, where `osc` and `query` are the names of its two servers,
/// as far as there are such names. Without the second, the first is registered all the same.
pub open spec fn registered(
    v: AppView,
    s: Seq<char>,
    osc: Option<NameView>,
    osc_port: u16,
    query: Option<NameView>,
    query_port: u16,
) -> AppView {
    match (osc, query) {
        (Some(a), Some(b)) => AppView {
            mdns: registry::registered(registry::registered(v.mdns, a, osc_port), b, query_port),
            services: with_service(v.services, s),
        },
        (Some(a), None) => AppView { mdns: registry::registered(v.mdns, a, osc_port), ..v },
        (None, _) => v,
    }
}

/// The instances that are announced when a service is registered.
pub open spec fn announced(
    osc: Option<NameView>,
    osc_port: u16,
    query: Option<NameView>,
    query_port: u16,
) -> Seq<(NameView, u16)> {
    match (osc, query) {
        (Some(a), Some(b)) => seq![(a, osc_port), (b, query_port)],
        (Some(a), None) => seq![(a, osc_port)],
        (None, _) => Seq::empty(),
    }
}

/// What is known after unregistering `s`, where `osc` and `query` are the names of its two servers.
pub open spec fn unregistered(
    v: AppView,
    s: Seq<char>,
    osc: Option<NameView>,
    query: Option<NameView>,
) -> AppView {
    if !v.services.contains(s) {
        v
    } else {
        AppView {
            services: without_service(v.services, s),
            mdns: match (osc, query) {
                (Some(a), Some(b)) => registry::unregistered(registry::unregistered(v.mdns, a), b),
                (Some(a), None) => registry::unregistered(v.mdns, a),
                (None, _) => v.mdns,
            },
        }
    }
}

/// The name of the OSC server of the service `s`.
pub open spec fn osc_name_of(s: Seq<char>) -> Option<NameView> {
    name::ascii_name(service::upper_camel(s) + service::osc_suffix())
}

/// The name of the OSCQuery server of the service `s`.
pub open spec fn query_name_of(s: Seq<char>) -> Option<NameView> {
    name::ascii_name(service::upper_camel(s) + service::query_suffix())
}

/// Every service that is offered has names for its two servers.
pub open spec fn nameable(v: AppView) -> bool {
    forall|i: int|
        0 <= i < v.services.len() ==> osc_name_of(#[trigger] v.services[i]) is Some
            && query_name_of(v.services[i]) is Some
}

/// Number of services before the first that has no names for its two servers.
pub open spec fn named_front(services: Seq<Seq<char>>) -> nat
    decreases services.len(),
{
    if services.len() > 0 && osc_name_of(services[0]) is Some && query_name_of(services[0]) is Some {
        1 + named_front(services.skip(1))
    } else {
        0
    }
}

/// What is known after every service was unregistered, up to the first that has no names.
pub open spec fn shut_down(v: AppView) -> AppView
    decreases v.services.len(),
{
    if v.services.len() == 0 {
        v
    } else {
        let s = v.services[0];
        let next = unregistered(v, s, osc_name_of(s), query_name_of(s));
        if osc_name_of(s) is None || query_name_of(s) is None || next.services.len()
            >= v.services.len() {
            next
        } else {
            shut_down(next)
        }
    }
}

/// The entries of `cache` whose name, as text, matches `pattern`, in order.
pub open spec fn selected(
    cache: Seq<(NameView, SocketAddr)>,
    pattern: Seq<char>,
) -> Seq<(NameView, SocketAddr)>
    decreases cache.len(),
{
    if cache.len() == 0 {
        Seq::empty()
    } else if service::glob(pattern, name::ascii_text(cache.last().0)) {
        selected(cache.drop_last(), pattern).push(cache.last())
    } else {
        selected(cache.drop_last(), pattern)
    }
}

/// What each instance and port is.
pub open spec fn ports_view(pairs: Seq<(Name, u16)>) -> Seq<(NameView, u16)> {
    pairs.map_values(|p: (Name, u16)| (p.0@, p.1))
}

/// The same `bytes` go to every address of `targets`, in order.
pub open spec fn sent_to(
    datagrams: Seq<Datagram>,
    targets: Seq<(NameView, SocketAddr)>,
    bytes: Seq<u8>,
) -> bool {
    &&& datagrams.len() == targets.len()
    &&& forall|i: int|
        0 <= i < datagrams.len() ==> (#[trigger] datagrams[i]).to == targets[i].1
            && datagrams[i].bytes@ == bytes
}

/// The datagram asks the multicast group for the service type `service_type`.
pub open spec fn asks_for(d: Datagram, service_type: NameView, ip: IpAddr) -> bool {
    &&& d.to == net::mdns_group_of(ip)
    &&& message::wire(announce::type_query(service_type)) == Some(d.bytes@)
    &&& message::written(Some(d.bytes@), announce::type_query(service_type))
}

proof fn lemma_selected<P: Fn(&Name, &SocketAddr) -> bool>(
    cache: Seq<(NameView, SocketAddr)>,
    chosen: Seq<bool>,
    kept: Seq<(NameView, SocketAddr)>,
    predicate: P,
    pattern: Seq<char>,
)
    requires
        mdns::picked(cache, chosen, kept),
        forall|i: int| 0 <= i < chosen.len() ==> #[trigger] mdns::judged(
            predicate,
            cache[i],
            chosen[i],
        ),
        forall|n: &Name, a: &SocketAddr, b: bool| #[trigger]
            predicate.ensures((n, a), b) ==> b == service::glob(pattern, name::ascii_text(n@)),
    ensures
        kept == selected(cache, pattern),
    decreases cache.len(),
{
    if cache.len() == 0 {
        assert(kept =~= selected(cache, pattern));
    } else {
        let c1 = cache.drop_last();
        let d1 = chosen.drop_last();
        assert forall|i: int| 0 <= i < d1.len() implies #[trigger] mdns::judged(
            predicate,
            c1[i],
            d1[i],
        ) by {
            assert(mdns::judged(predicate, cache[i], chosen[i]));
        }
        let last = cache.len() - 1;
        assert(mdns::judged(predicate, cache[last], chosen[last]));
        assert(chosen.last() == service::glob(pattern, name::ascii_text(cache.last().0)));
        if chosen.last() {
            lemma_selected(c1, d1, kept.drop_last(), predicate, pattern);
            assert(kept =~= kept.drop_last().push(kept.last()));
        } else {
            lemma_selected(c1, d1, kept, predicate, pattern);
        }
    }
}

impl VRChatOSC {
    /// What this application knows.
    pub closed spec fn view(&self) -> AppView {
        AppView { mdns: self.mdns@, services: path::texts(self.service_handles.keys()) }
    }

    /// The node is well-formed, and no service occurs twice.
    pub closed spec fn wf(&self) -> bool {
        self.mdns.wf() && self.service_handles.wf()
    }

    /// What a well-formed application knows is consistent.
    pub proof fn lemma_consistent(&self)
        requires
            self.wf(),
        ensures
            registry::consistent(self@.mdns),
            distinct_services(self@.services),
    {
        self.mdns.lemma_consistent();
        let keys = self.service_handles.keys();
        assert forall|i: int, j: int|
            0 <= i < self@.services.len() && 0 <= j < self@.services.len()
                && #[trigger] self@.services[i] == #[trigger] self@.services[j] implies i == j by {
            assert(keys[i].id() == keys[j].id());
        }
    }

    /// An application without services that announces the address `advertised_ip` and follows OSC
    /// and OSCQuery servers, and the queries for these that it sends.
    pub fn new(advertised_ip: IpAddr) -> (r: Result<(VRChatOSC, Vec<Datagram>), Error>)
        ensures
            r matches Ok((app, queries)) && app.wf() && app@ == (AppView {
                mdns: MdnsView {
                    ip: advertised_ip,
                    services: Map::empty(),
                    cache: Seq::empty(),
                    following: set![
                        name::folded(service::osc_type_name()),
                        name::folded(service::query_type_name()),
                    ],
                },
                services: Seq::empty(),
            }) && queries@.len() == 2 && asks_for(
                queries@[0],
                service::osc_type_name(),
                advertised_ip,
            ) && asks_for(queries@[1], service::query_type_name(), advertised_ip),
    {
        let mut node = Mdns::new(advertised_ip);
        let mut queries: Vec<Datagram> = Vec::new();
        let osc = match service::osc_service_type() {
            Ok(n) => n,
            Err(e) => {
                return Err(e);
            },
        };
        let query = match service::query_service_type() {
            Ok(n) => n,
            Err(e) => {
                return Err(e);
            },
        };
        match node.follow(&osc) {
            Ok(Some(d)) => {
                queries.push(d);
            },
            _ => {},
        }
        assert(name::folded(osc@).labels[0].len() == 4 && name::folded(query@).labels[0].len() == 8);
        match node.follow(&query) {
            Ok(Some(d)) => {
                queries.push(d);
            },
            _ => {},
        }
        let app = VRChatOSC { mdns: node, service_handles: AssocMap::new() };
        assert(app@.mdns.following =~= set![
            name::folded(service::osc_type_name()),
            name::folded(service::query_type_name()),
        ]);
        assert(app@.services =~= Seq::<Seq<char>>::empty());
        Ok((app, queries))
    }

    /// The multicast DNS node.
    pub fn mdns(&self) -> (r: &Mdns)
        requires
            self.wf(),
        ensures
            r.wf(),
            r@ == self@.mdns,
    {
        &self.mdns
    }

    /// The multicast DNS node, to be changed in place.
    pub fn mdns_mut(&mut self) -> (r: &mut Mdns)
        requires
            old(self).wf(),
        ensures
            r.wf(),
            r@ == old(self)@.mdns,
            final(r).wf() ==> final(self).wf(),
            final(self)@ == (AppView { mdns: final(r)@, ..old(self)@ }),
    {
        &mut self.mdns
    }

    /// Registers the service `service_name`, whose OSC server has the name in `osc_name`, if there
    /// is one, and whose OSCQuery server has the name in `query_name`.
    pub fn register_as(
        &mut self,
        service_name: &str,
        osc_name: Result<Name, Error>,
        osc_port: u16,
        query_name: Result<Name, Error>,
        query_port: u16,
    ) -> (r: Registration)
        requires
            old(self).wf(),
        ensures
            final(self).wf(),
            final(self)@ == registered(
                old(self)@,
                service_name@,
                name::name_in(osc_name),
                osc_port,
                name::name_in(query_name),
                query_port,
            ),
            ports_view(r.announce@) == announced(
                name::name_in(osc_name),
                osc_port,
                name::name_in(query_name),
                query_port,
            ),
            match (osc_name, query_name) {
                (Err(e), _) => r.result == Err::<(), Error>(e),
                (Ok(_), Err(e)) => r.result == Err::<(), Error>(e),
                (Ok(_), Ok(_)) => r.result is Ok,
            },
    {
        let mut announce: Vec<(Name, u16)> = Vec::new();
        let osc = match osc_name {
            Ok(n) => n,
            Err(e) => {
                assert(ports_view(announce@) =~= Seq::<(NameView, u16)>::empty());
                return Registration { announce, result: Err(e) };
            },
        };
        self.mdns.register(osc.copy(), osc_port);
        announce.push((osc, osc_port));
        assert(ports_view(announce@) =~= seq![(osc@, osc_port)]);
        let query = match query_name {
            Ok(n) => n,
            Err(e) => {
                return Registration { announce, result: Err(e) };
            },
        };
        self.mdns.register(query.copy(), query_port);
        announce.push((query, query_port));
        assert(ports_view(announce@) =~= seq![(osc@, osc_port), (query@, query_port)]);
        let ghost before = self.service_handles;
        let key = service_name.to_owned();
        self.service_handles.insert(key, ());
        proof {
            lemma_service_known(before, service_name@);
            if before@.dom().contains(service_name@) {
                assert(self@.services =~= path::texts(before.keys()));
            } else {
                assert(self@.services =~= path::texts(before.keys()).push(service_name@));
            }
        }
        Registration { announce, result: Ok(()) }
    }

    /// Registers the service `service_name`, whose OSC server runs on the port `osc_port` and whose
    /// OSCQuery server runs on the port `query_port`.
    pub fn register(&mut self, service_name: &str, osc_port: u16, query_port: u16) -> (r:
        Registration)
        requires
            old(self).wf(),
        ensures
            final(self).wf(),
            final(self)@ == registered(
                old(self)@,
                service_name@,
                osc_name_of(service_name@),
                osc_port,
                query_name_of(service_name@),
                query_port,
            ),
            ports_view(r.announce@) == announced(
                osc_name_of(service_name@),
                osc_port,
                query_name_of(service_name@),
                query_port,
            ),
            r.result is Ok <==> osc_name_of(service_name@) is Some && query_name_of(
                service_name@,
            ) is Some,
            r.result matches Err(e) ==> e is MdnsProtoError,
            r.result is Ok ==> {
                &&& registry::port_of(final(self)@.mdns, osc_name_of(service_name@)->0) == Some(
                    osc_port,
                )
                &&& registry::port_of(final(self)@.mdns, query_name_of(service_name@)->0) == Some(
                    query_port,
                )
            },
    {
        let camel = service::to_upper_camel(service_name);
        let osc = service::osc_name(camel.as_str());
        let query = service::query_name(camel.as_str());
        proof {
            self.lemma_consistent();
            if osc is Ok && query is Ok {
                let a = osc_name_of(service_name@)->0;
                let b = query_name_of(service_name@)->0;
                law_server_names_differ(camel@, a, b);
                law_registered_has_both_servers(
                    self@,
                    service_name@,
                    a,
                    osc_port,
                    b,
                    query_port,
                );
            }
        }
        self.register_as(service_name, osc, osc_port, query, query_port)
    }

    /// Unregisters the service `service_name`, whose servers have the names in `osc_name` and
    /// `query_name`; the result is whether its servers are to be stopped.
    pub fn unregister_as(
        &mut self,
        service_name: &str,
        osc_name: Result<Name, Error>,
        query_name: Result<Name, Error>,
    ) -> (r: Result<bool, Error>)
        requires
            old(self).wf(),
        ensures
            final(self).wf(),
            final(self)@ == unregistered(
                old(self)@,
                service_name@,
                name::name_in(osc_name),
                name::name_in(query_name),
            ),
            if !old(self)@.services.contains(service_name@) {
                r == Ok::<bool, Error>(false)
            } else {
                match (osc_name, query_name) {
                    (Err(e), _) => r == Err::<bool, Error>(e),
                    (Ok(_), Err(e)) => r == Err::<bool, Error>(e),
                    (Ok(_), Ok(_)) => r == Ok::<bool, Error>(true),
                }
            },
    {
        let key = service_name.to_owned();
        let ghost before = self.service_handles;
        proof {
            lemma_service_known(before, service_name@);
        }
        if self.service_handles.remove(&key).is_none() {
            return Ok(false);
        }
        proof {
            lemma_service_removed(before, self.service_handles, service_name@);
        }
        let osc = match osc_name {
            Ok(n) => n,
            Err(e) => {
                return Err(e);
            },
        };
        self.mdns.unregister(&osc);
        let query = match query_name {
            Ok(n) => n,
            Err(e) => {
                return Err(e);
            },
        };
        self.mdns.unregister(&query);
        Ok(true)
    }

    /// Unregisters the service `service_name`; the result is whether its servers are to be stopped.
    pub fn unregister(&mut self, service_name: &str) -> (r: Result<bool, Error>)
        requires
            old(self).wf(),
        ensures
            final(self).wf(),
            final(self)@ == unregistered(
                old(self)@,
                service_name@,
                osc_name_of(service_name@),
                query_name_of(service_name@),
            ),
            match r {
                Ok(stop) => stop == old(self)@.services.contains(service_name@) && (stop
                    ==> osc_name_of(service_name@) is Some && query_name_of(
                    service_name@,
                ) is Some),
                Err(e) => e is MdnsProtoError && old(self)@.services.contains(service_name@) && (
                osc_name_of(service_name@) is None || query_name_of(service_name@) is None),
            },
    {
        let camel = service::to_upper_camel(service_name);
        let osc = service::osc_name(camel.as_str());
        let query = service::query_name(camel.as_str());
        self.unregister_as(service_name, osc, query)
    }

    /// Unregisters every service; the result tells which are to be stopped.
    pub fn shutdown(&mut self) -> (r: Shutdown)
        requires
            old(self).wf(),
        ensures
            final(self).wf(),
            final(self)@ == shut_down(old(self)@),
            r.result is Ok <==> nameable(old(self)@),
            r.result matches Err(e) ==> e is MdnsProtoError,
            path::texts(r.stopped@) == old(self)@.services.take(
                named_front(old(self)@.services) as int,
            ),
            r.result is Ok ==> path::texts(r.stopped@) == old(self)@.services
                && final(self)@.services.len() == 0,
    {
        let mut stopped: Vec<String> = Vec::new();
        proof {
            assert(path::texts(stopped@) + self@.services =~= self@.services);
        }
        while !self.service_handles.is_empty()
            invariant
                self.wf(),
                shut_down(self@) == shut_down(old(self)@),
                path::texts(stopped@) + self@.services == old(self)@.services,
                nameable(old(self)@) <==> nameable(self@),
                stopped@.len() + named_front(self@.services) == named_front(old(self)@.services),
            decreases self@.services.len(),
        {
            let ghost before = self@;
            let name = self.service_handles.key_at(0).clone();
            let ghost s = name@;
            assert(s == before.services[0]);
            assert(before.services.contains(s));
            proof {
                self.lemma_consistent();
                lemma_first_removed(before.services);
                lemma_nameable_step(before);
            }
            match self.unregister(name.as_str()) {
                Ok(_) => {
                    let ghost sofar = path::texts(stopped@);
                    stopped.push(name);
                    proof {
                        assert(self@.services == before.services.skip(1));
                        assert(path::texts(stopped@) =~= sofar.push(s));
                        assert(path::texts(stopped@) + self@.services =~= sofar
                            + before.services);
                    }
                },
                Err(e) => {
                    assert(path::texts(stopped@) =~= old(self)@.services.take(
                        stopped@.len() as int,
                    ));
                    return Shutdown { stopped, result: Err(e) };
                },
            }
        }
        assert(path::texts(stopped@) + self@.services =~= path::texts(stopped@));
        assert(old(self)@.services.take(stopped@.len() as int) =~= old(self)@.services);
        Shutdown { stopped, result: Ok(()) }
    }

    /// The services that are offered.
    pub fn list_services(&self) -> (r: Vec<String>)
        requires
            self.wf(),
        ensures
            path::texts(r@) == self@.services,
    {
        let mut r: Vec<String> = Vec::new();
        let mut i: usize = 0;
        assert(path::texts(r@) =~= Seq::<Seq<char>>::empty());
        while i < self.service_handles.len()
            invariant
                i <= self.service_handles.keys().len(),
                path::texts(r@) == self@.services.take(i as int),
            decreases self.service_handles.keys().len() - i,
        {
            let ghost before = r@;
            r.push(self.service_handles.key_at(i).clone());
            assert(path::texts(r@) =~= path::texts(before).push(self@.services[i as int]));
            assert(self@.services.take(i + 1) =~= self@.services.take(i as int).push(
                self@.services[i as int],
            ));
            i += 1;
        }
        assert(self@.services.take(i as int) =~= self@.services);
        r
    }

    /// The services that were heard of and whose names match `pattern`.
    fn select(&self, pattern: &String) -> (r: Vec<(Name, SocketAddr)>)
        requires
            self.wf(),
        ensures
            mdns::pairs_view(r@) == selected(self@.mdns.cache, pattern@),
    {
        let predicate = |n: &Name, a: &SocketAddr| -> (b: bool)
            ensures
                b == service::glob(pattern@, name::ascii_text(n@)),
            {
                let text = n.to_ascii();
                service::matches_pattern(pattern.as_str(), text.as_str())
            };
        let r = self.mdns.find_service(predicate);
        proof {
            let chosen = choose|chosen: Seq<bool>| #[trigger]
                mdns::picked(self@.mdns.cache, chosen, mdns::pairs_view(r@)) && forall|i: int|
                    0 <= i < chosen.len() ==> #[trigger] mdns::judged(
                        predicate,
                        self@.mdns.cache[i],
                        chosen[i],
                    );
            lemma_selected(
                self@.mdns.cache,
                chosen,
                mdns::pairs_view(r@),
                predicate,
                pattern@,
            );
        }
        r
    }

    /// The OSC servers whose names match the pattern `to`.
    pub fn osc_targets(&self, to: &str) -> (r: Vec<(Name, SocketAddr)>)
        requires
            self.wf(),
        ensures
            mdns::pairs_view(r@) == selected(self@.mdns.cache, to@ + service::osc_suffix()),
    {
        let pattern = text::joined(to, "._osc._udp.local.");
        self.select(&pattern)
    }

    /// The OSCQuery servers whose names match the pattern `from`.
    pub fn query_targets(&self, from: &str) -> (r: Vec<(Name, SocketAddr)>)
        requires
            self.wf(),
        ensures
            mdns::pairs_view(r@) == selected(self@.mdns.cache, from@ + service::query_suffix()),
    {
        let pattern = text::joined(from, "._oscjson._tcp.local.");
        self.select(&pattern)
    }

    /// What is to be sent for `packet` to reach every OSC server whose name matches the pattern
    /// `to`. Where there is none, nothing is written.
    pub fn send(&self, packet: &rosc::OscPacket, to: &str) -> (r: Result<Vec<Datagram>, Error>)
        requires
            self.wf(),
        ensures
            ({
                let targets = selected(self@.mdns.cache, to@ + service::osc_suffix());
                r matches Ok(d) && sent_to(d@, targets, packet::packet_bytes(*packet))
            }),
    {
        let targets = self.osc_targets(to);
        assert(mdns::pairs_view(targets@).len() == targets@.len());
        if targets.len() == 0 {
            return Ok(Vec::new());
        }
        match packet::encode_packet(packet) {
            Ok(bytes) => Ok(addressed(&targets, &bytes)),
            Err(e) => Err(e),
        }
    }

    /// What is to be sent for `packet` to reach `addr`.
    pub fn send_to_addr(&self, packet: &rosc::OscPacket, addr: SocketAddr) -> (r: Result<
        Datagram,
        Error,
    >)
        ensures
            r matches Ok(d) && d.to == addr && d.bytes@ == packet::packet_bytes(*packet),
    {
        match packet::encode_packet(packet) {
            Ok(bytes) => Ok(Datagram { bytes, to: addr }),
            Err(e) => Err(e),
        }
    }
}

/// The same `bytes` for every address of `targets`.
pub fn addressed(targets: &Vec<(Name, SocketAddr)>, bytes: &Vec<u8>) -> (r: Vec<Datagram>)
    ensures
        sent_to(r@, mdns::pairs_view(targets@), bytes@),
{
    let mut r: Vec<Datagram> = Vec::new();
    let mut i: usize = 0;
    while i < targets.len()
        invariant
            i <= targets@.len(),
            sent_to(r@, mdns::pairs_view(targets@).take(i as int), bytes@),
        decreases targets@.len() - i,
    {
        r.push(Datagram { bytes: name::copy_bytes(bytes), to: targets[i].1 });
        i += 1;
    }
    assert(mdns::pairs_view(targets@).take(i as int) =~= mdns::pairs_view(targets@));
    r
}

/// A service is known exactly if it is among the keys.
proof fn lemma_service_known(m: AssocMap<String, ()>, s: Seq<char>)
    ensures
        m@.dom().contains(s) == path::texts(m.keys()).contains(s),
{
    let keys = path::texts(m.keys());
    if m@.dom().contains(s) {
        assert(assoc::has_id(m.keys(), s));
        let i = choose|i: int| 0 <= i < m.keys().len() && (#[trigger] m.keys()[i]).id() == s;
        assert(keys[i] == s);
    }
    if keys.contains(s) {
        let i = choose|i: int| 0 <= i < keys.len() && keys[i] == s;
        assert(m.keys()[i].id() == s);
        assert(assoc::has_id(m.keys(), s));
    }
}

/// Taking a service out of the map takes it out of the services.
proof fn lemma_service_removed(m: AssocMap<String, ()>, new: AssocMap<String, ()>, s: Seq<char>)
    requires
        m.wf(),
        m@.dom().contains(s),
        new.keys() == m.keys().remove(assoc::position(m.keys(), s)),
    ensures
        path::texts(new.keys()) == without_service(path::texts(m.keys()), s),
{
    let services = path::texts(m.keys());
    let at = assoc::position(m.keys(), s);
    lemma_service_known(m, s);
    assoc::lemma_position(m.keys(), s);
    assert(assoc::has_id(m.keys(), s));
    let i = services.index_of(s);
    assert(services[i] == s);
    assert(m.keys()[i].id() == m.keys()[at].id());
    assert(path::texts(new.keys()) =~= services.remove(at));
}

/// Of services that are all different, the first is taken out at the front.
proof fn lemma_first_removed(services: Seq<Seq<char>>)
    requires
        distinct_services(services),
        services.len() > 0,
    ensures
        without_service(services, services[0]) == services.skip(1),
{
    assert(services.contains(services[0]));
    let i = services.index_of(services[0]);
    assert(services[i] == services[0]);
    assert(services.remove(0) =~= services.skip(1));
}

/// Services have names exactly if the first has and the others have.
proof fn lemma_nameable_step(v: AppView)
    requires
        v.services.len() > 0,
    ensures
        nameable(v) <==> osc_name_of(v.services[0]) is Some && query_name_of(v.services[0]) is Some
            && nameable(AppView { services: v.services.skip(1), ..v }),
{
    let rest = v.services.skip(1);
    if nameable(v) {
        assert(osc_name_of(v.services[0]) is Some);
        assert forall|i: int| 0 <= i < rest.len() implies osc_name_of(#[trigger] rest[i]) is Some
            && query_name_of(rest[i]) is Some by {
            assert(rest[i] == v.services[i + 1]);
        }
    }
    if osc_name_of(v.services[0]) is Some && query_name_of(v.services[0]) is Some && nameable(
        AppView { services: rest, ..v },
    ) {
        assert forall|i: int| 0 <= i < v.services.len() implies osc_name_of(
            #[trigger] v.services[i],
        ) is Some && query_name_of(v.services[i]) is Some by {
            if i > 0 {
                assert(v.services[i] == rest[i - 1]);
            }
        }
    }
}

/// A service that was registered is listed, and was one whose servers have names.
pub proof fn law_registered_is_listed(
    v: AppView,
    s: Seq<char>,
    osc_port: u16,
    query_port: u16,
)
    ensures
        ({
            let new = registered(v, s, osc_name_of(s), osc_port, query_name_of(s), query_port);
            &&& osc_name_of(s) is Some && query_name_of(s) is Some ==> new.services.contains(s)
            &&& nameable(v) ==> nameable(new)
        }),
{
    let new = registered(v, s, osc_name_of(s), osc_port, query_name_of(s), query_port);
    if osc_name_of(s) is Some && query_name_of(s) is Some && !v.services.contains(s) {
        assert(new.services[v.services.len() as int] == s);
        assert forall|i: int| 0 <= i < new.services.len() && nameable(v) implies osc_name_of(
            #[trigger] new.services[i],
        ) is Some && query_name_of(new.services[i]) is Some by {
            if i < v.services.len() {
                assert(new.services[i] == v.services[i]);
            }
        }
    }
}

/// A registered service answers for both of its servers, at the ports that it was registered with.
pub proof fn law_registered_has_both_servers(
    v: AppView,
    s: Seq<char>,
    osc: NameView,
    osc_port: u16,
    query: NameView,
    query_port: u16,
)
    requires
        registry::consistent(v.mdns),
        name::folded(osc) != name::folded(query),
    ensures
        ({
            let new = registered(v, s, Some(osc), osc_port, Some(query), query_port);
            &&& registry::consistent(new.mdns)
            &&& registry::port_of(new.mdns, osc) == Some(osc_port)
            &&& registry::port_of(new.mdns, query) == Some(query_port)
        }),
{
    let once = registry::registered(v.mdns, osc, osc_port);
    registry::law_registered_has_its_port(v.mdns, osc, osc_port, query);
    registry::law_registered_has_its_port(once, query, query_port, osc);
}

/// The two servers of a service have different names.
pub proof fn law_server_names_differ(camel: Seq<char>, osc: NameView, query: NameView)
    requires
        name::reads_ending(camel + service::osc_suffix(), Some(osc)),
        name::reads_ending(camel + service::query_suffix(), Some(query)),
    ensures
        name::folded(osc) != name::folded(query),
{
    reveal_strlit("._osc._udp.local.");
    reveal_strlit("._oscjson._tcp.local.");
    let udp = seq!['_', 'u', 'd', 'p'];
    let tcp = seq!['_', 't', 'c', 'p'];
    let local = seq!['l', 'o', 'c', 'a', 'l'];
    let osc_front = camel + seq!['.', '_', 'o', 's', 'c'];
    let query_front = camel + seq!['.', '_', 'o', 's', 'c', 'j', 's', 'o', 'n'];
    assert(camel + service::osc_suffix() =~= name::ending(osc_front, udp, local));
    assert(camel + service::query_suffix() =~= name::ending(query_front, tcp, local));
    assert(osc_front.last() == 'c' && query_front.last() == 'n');
    if name::folded(osc) == name::folded(query) {
        let count = osc.labels.len();
        assert(name::folded(osc).labels.len() == count);
        assert(name::folded(query).labels.len() == query.labels.len());
        let a = osc.labels[count - 2];
        let b = query.labels[count - 2];
        assert(name::text_of(a)[1] == a[1] as char);
        assert(name::text_of(b)[1] == b[1] as char);
        assert(a[1] == 117u8 && b[1] == 116u8);
        assert(name::folded(osc).labels[count - 2] == name::lower_label(a));
        assert(name::folded(query).labels[count - 2] == name::lower_label(b));
        assert(name::lower_label(a)[1] == 117u8);
        assert(name::lower_label(b)[1] == 116u8);
    }
}

/// The servers that other applications register under a name without escapes are of the service
/// types that an application follows from the start.
pub proof fn law_other_applications_are_followed(
    camel: Seq<char>,
    osc: NameView,
    query: NameView,
    v: AppView,
)
    requires
        !camel.contains('\\'),
        name::valid_labels(osc.labels),
        name::valid_labels(query.labels),
        name::reads_dotted(camel + service::osc_suffix(), Some(osc)),
        name::reads_dotted(camel + service::query_suffix(), Some(query)),
        v.mdns.following.contains(name::folded(service::osc_type_name())),
        v.mdns.following.contains(name::folded(service::query_type_name())),
        registry::port_of(v.mdns, osc) is None,
        registry::port_of(v.mdns, query) is None,
    ensures
        registry::of_interest(v.mdns, osc),
        registry::of_interest(v.mdns, query),
{
    service::law_osc_name_has_osc_type(camel, osc);
    service::law_query_name_has_query_type(camel, query);
}

/// A service that was unregistered is not listed any more.
pub proof fn law_unregistered_is_not_listed(
    v: AppView,
    s: Seq<char>,
    osc: Option<NameView>,
    query: Option<NameView>,
)
    requires
        distinct_services(v.services),
    ensures
        !unregistered(v, s, osc, query).services.contains(s),
{
    let new = unregistered(v, s, osc, query);
    if v.services.contains(s) {
        let at = v.services.index_of(s);
        assert(v.services[at] == s);
        assert forall|i: int| 0 <= i < new.services.len() implies #[trigger] new.services[i]
            != s by {
            if i < at {
                assert(new.services[i] == v.services[i]);
            } else {
                assert(new.services[i] == v.services[i + 1]);
            }
        }
    }
}

/// Unregistering a service that was just registered, and of which neither the name nor a server was
/// known before, brings back what was known before.
pub proof fn law_unregister_undoes_register(
    v: AppView,
    s: Seq<char>,
    osc: NameView,
    osc_port: u16,
    query: NameView,
    query_port: u16,
)
    requires
        registry::consistent(v.mdns),
        !v.services.contains(s),
        registry::type_id(osc) != registry::type_id(query),
        registry::port_of(v.mdns, osc) is None,
        registry::port_of(v.mdns, query) is None,
    ensures
        unregistered(
            registered(v, s, Some(osc), osc_port, Some(query), query_port),
            s,
            Some(osc),
            Some(query),
        ) == v,
{
    if name::folded(osc) == name::folded(query) {
        registry::lemma_same_type(osc, query);
    }
    let once = registry::registered(v.mdns, osc, osc_port);
    let both = registry::registered(once, query, query_port);
    let with_query = registry::registered(v.mdns, query, query_port);
    registry::law_registered_has_its_port(v.mdns, query, query_port, osc);
    let swapped = registry::registered(with_query, osc, osc_port);
    assert(both.services =~= swapped.services);
    assert(both =~= swapped);
    registry::law_unregister_undoes_register(with_query, osc, osc_port);
    registry::law_unregister_undoes_register(v.mdns, query, query_port);
    let new = registered(v, s, Some(osc), osc_port, Some(query), query_port);
    assert(new.services == v.services.push(s));
    assert(new.services[v.services.len() as int] == s);
    assert(new.services.contains(s));
    let at = new.services.index_of(s);
    assert(new.services[at] == s);
    if at < v.services.len() {
        assert(v.services[at] == s);
    }
    assert(new.services.remove(at) =~= v.services);
}

/// Shutting down ends every service, and no server of a service has a port afterwards.
pub proof fn law_shutdown_ends_all(v: AppView, s: Seq<char>)
    requires
        nameable(v),
        registry::consistent(v.mdns),
        distinct_services(v.services),
    ensures
        shut_down(v).services.len() == 0,
        registry::consistent(shut_down(v).mdns),
        v.services.contains(s) ==> registry::port_of(shut_down(v).mdns, osc_name_of(s)->0) is None
            && registry::port_of(shut_down(v).mdns, query_name_of(s)->0) is None,
        forall|n: NameView| #[trigger]
            registry::port_of(v.mdns, n) is None ==> registry::port_of(shut_down(v).mdns, n)
                is None,
    decreases v.services.len(),
{
    if v.services.len() > 0 {
        let first = v.services[0];
        let a = osc_name_of(first)->0;
        let b = query_name_of(first)->0;
        let next = unregistered(v, first, osc_name_of(first), query_name_of(first));
        lemma_first_removed(v.services);
        assert(v.services.contains(first));
        assert(next.services == v.services.skip(1));
        assert forall|i: int| 0 <= i < next.services.len() implies osc_name_of(
            #[trigger] next.services[i],
        ) is Some && query_name_of(next.services[i]) is Some by {
            assert(next.services[i] == v.services[i + 1]);
        }
        assert forall|i: int, j: int|
            0 <= i < next.services.len() && 0 <= j < next.services.len()
                && #[trigger] next.services[i] == #[trigger] next.services[j] implies i == j by {
            assert(v.services[i + 1] == v.services[j + 1]);
        }
        let half = registry::unregistered(v.mdns, a);
        registry::law_unregistered_has_no_port(v.mdns, a, a);
        registry::law_unregistered_has_no_port(half, b, b);
        assert forall|n: NameView| #[trigger] registry::port_of(v.mdns, n) is None implies registry::port_of(
            next.mdns,
            n,
        ) is None by {
            lemma_stays_gone(v.mdns, a, n);
            lemma_stays_gone(half, b, n);
        }
        lemma_stays_gone(half, b, a);
        law_shutdown_ends_all(next, s);
        if v.services.contains(s) && s != first {
            let i = choose|i: int| 0 <= i < v.services.len() && v.services[i] == s;
            assert(next.services[i - 1] == s);
        }
        assert forall|n: NameView| #[trigger] registry::port_of(v.mdns, n) is None implies registry::port_of(
            shut_down(v).mdns,
            n,
        ) is None by {
            assert(registry::port_of(next.mdns, n) is None);
        }
        assert(registry::port_of(next.mdns, a) is None);
        assert(registry::port_of(next.mdns, b) is None);
    }
}

/// An instance without a port has none after another was unregistered.
proof fn lemma_stays_gone(v: MdnsView, instance: NameView, other: NameView)
    requires
        registry::consistent(v),
        registry::port_of(v, other) is None,
    ensures
        registry::port_of(registry::unregistered(v, instance), other) is None,
{
    registry::law_unregistered_has_no_port(v, instance, other);
    registry::law_unregistered_has_no_port(v, instance, instance);
    if name::folded(other) == name::folded(instance) {
        registry::lemma_same_type(other, instance);
        let es = registry::instances(
            registry::unregistered(v, instance),
            registry::type_id(instance),
        );
        registry::lemma_place(es, instance);
        registry::lemma_place(es, other);
    }
}

/// What is selected are the entries whose names match, and no others.
pub proof fn law_selected_match(
    cache: Seq<(NameView, SocketAddr)>,
    pattern: Seq<char>,
    entry: (NameView, SocketAddr),
)
    ensures
        selected(cache, pattern).contains(entry) <==> cache.contains(entry) && service::glob(
            pattern,
            name::ascii_text(entry.0),
        ),
    decreases cache.len(),
{
    if cache.len() > 0 {
        let rest = cache.drop_last();
        law_selected_match(rest, pattern, entry);
        let kept = selected(rest, pattern);
        let more = kept.push(cache.last());
        assert(cache[cache.len() - 1] == cache.last());
        if cache.contains(entry) && cache.last() != entry {
            let i = choose|i: int| 0 <= i < cache.len() && cache[i] == entry;
            assert(rest[i] == entry);
        }
        if rest.contains(entry) {
            let i = choose|i: int| 0 <= i < rest.len() && rest[i] == entry;
            assert(cache[i] == entry);
        }
        assert(more[kept.len() as int] == cache.last());
        if kept.contains(entry) {
            let i = choose|i: int| 0 <= i < kept.len() && kept[i] == entry;
            assert(more[i] == entry);
        }
        if more.contains(entry) && cache.last() != entry {
            let i = choose|i: int| 0 <= i < more.len() && more[i] == entry;
            assert(kept[i] == entry);
        }
    }
}

/// A pattern that is a text with an asterisk behind it stands for the servers of the applications
/// whose names begin with that text.
pub proof fn law_prefix_selects_applications(prefix: Seq<char>, camel: Seq<char>)
    requires
        service::literal(prefix),
    ensures
        service::glob(
            prefix + seq!['*'] + service::osc_suffix(),
            camel + service::osc_suffix(),
        ) <==> prefix.is_prefix_of(camel),
        service::glob(
            prefix + seq!['*'] + service::query_suffix(),
            camel + service::query_suffix(),
        ) <==> prefix.is_prefix_of(camel),
{
    reveal_strlit("._osc._udp.local.");
    reveal_strlit("._oscjson._tcp.local.");
    lemma_prefix_selects(prefix, camel, service::osc_suffix());
    lemma_prefix_selects(prefix, camel, service::query_suffix());
}

proof fn lemma_prefix_selects(prefix: Seq<char>, camel: Seq<char>, suffix: Seq<char>)
    requires
        service::literal(prefix),
        service::literal(suffix),
    ensures
        service::glob(prefix + seq!['*'] + suffix, camel + suffix) <==> prefix.is_prefix_of(camel),
{
    let whole = camel + suffix;
    service::law_prefix_pattern(prefix, suffix, whole);
    assert(whole.skip(whole.len() - suffix.len()) =~= suffix);
    if prefix.len() <= camel.len() {
        assert(whole.take(prefix.len() as int) =~= camel.subrange(0, prefix.len() as int));
    }
}

/// Registering a service whose servers both have names lists it, once, beside those that were
/// listed, and gives its servers their ports; nothing else changes.
pub proof fn law_register_changes_nothing_else(
    v: AppView,
    s: Seq<char>,
    osc: NameView,
    osc_port: u16,
    query: NameView,
    query_port: u16,
    other: NameView,
    service: Seq<char>,
)
    requires
        registry::consistent(v.mdns),
    ensures
        ({
            let new = registered(v, s, Some(osc), osc_port, Some(query), query_port);
            &&& new.services.contains(service) <==> v.services.contains(service) || service == s
            &&& distinct_services(v.services) ==> distinct_services(new.services)
            &&& registry::port_of(new.mdns, query) == Some(query_port)
            &&& name::folded(osc) != name::folded(query) ==> registry::port_of(new.mdns, osc)
                == Some(osc_port)
            &&& name::folded(other) != name::folded(osc) && name::folded(other) != name::folded(
                query,
            ) ==> registry::port_of(new.mdns, other) == registry::port_of(v.mdns, other)
            &&& new.mdns.ip == v.mdns.ip
            &&& new.mdns.cache == v.mdns.cache
            &&& new.mdns.following == v.mdns.following
        }),
{
    let once = registry::registered(v.mdns, osc, osc_port);
    registry::law_registered_has_its_port(v.mdns, osc, osc_port, other);
    registry::law_registered_has_its_port(once, query, query_port, other);
    registry::law_registered_has_its_port(once, query, query_port, osc);
    let new = registered(v, s, Some(osc), osc_port, Some(query), query_port);
    if !v.services.contains(s) {
        assert(new.services == v.services.push(s));
        assert(new.services[v.services.len() as int] == s);
        if v.services.contains(service) {
            let i = choose|i: int| 0 <= i < v.services.len() && v.services[i] == service;
            assert(new.services[i] == service);
        }
        if new.services.contains(service) && service != s {
            let i = choose|i: int| 0 <= i < new.services.len() && new.services[i] == service;
            assert(v.services[i] == service);
        }
        if distinct_services(v.services) {
            assert forall|i: int, j: int|
                0 <= i < new.services.len() && 0 <= j < new.services.len()
                    && #[trigger] new.services[i] == #[trigger] new.services[j] implies i == j by {
                if i < v.services.len() && j < v.services.len() {
                    assert(v.services[i] == v.services[j]);
                } else if i < v.services.len() {
                    assert(v.services[i] == s);
                } else if j < v.services.len() {
                    assert(v.services[j] == s);
                }
            }
        }
    }
}

/// A service whose OSC server has no name changes nothing; one whose OSCQuery server has none is not
/// listed, but its OSC server has its port all the same.
pub proof fn law_register_without_names(
    v: AppView,
    s: Seq<char>,
    osc: NameView,
    osc_port: u16,
    query: Option<NameView>,
    query_port: u16,
)
    requires
        registry::consistent(v.mdns),
    ensures
        registered(v, s, None, osc_port, query, query_port) == v,
        announced(None, osc_port, query, query_port).len() == 0,
        ({
            let half = registered(v, s, Some(osc), osc_port, None, query_port);
            &&& half.services == v.services
            &&& registry::port_of(half.mdns, osc) == Some(osc_port)
        }),
        announced(Some(osc), osc_port, None, query_port) == seq![(osc, osc_port)],
{
    registry::law_registered_has_its_port(v.mdns, osc, osc_port, osc);
}

/// What is announced of a service that is registered are its OSC server and then its OSCQuery
/// server, each with the port that it has from then on.
pub proof fn law_both_servers_are_announced(
    v: AppView,
    s: Seq<char>,
    osc: NameView,
    osc_port: u16,
    query: NameView,
    query_port: u16,
)
    requires
        registry::consistent(v.mdns),
        name::folded(osc) != name::folded(query),
    ensures
        ({
            let new = registered(v, s, Some(osc), osc_port, Some(query), query_port);
            let told = announced(Some(osc), osc_port, Some(query), query_port);
            &&& told.len() == 2
            &&& told[0].0 == osc && registry::port_of(new.mdns, osc) == Some(told[0].1)
            &&& told[1].0 == query && registry::port_of(new.mdns, query) == Some(told[1].1)
        }),
{
    law_registered_has_both_servers(v, s, osc, osc_port, query, query_port);
}

/// Unregistering a service that is listed takes it from the list and the ports from its servers; one
/// that is not listed changes nothing. No other service and no other server is touched.
pub proof fn law_unregister_changes_nothing_else(
    v: AppView,
    s: Seq<char>,
    osc: NameView,
    query: NameView,
    other: NameView,
    service: Seq<char>,
)
    requires
        registry::consistent(v.mdns),
        distinct_services(v.services),
    ensures
        ({
            let new = unregistered(v, s, Some(osc), Some(query));
            &&& !v.services.contains(s) ==> new == v
            &&& new.services.contains(service) <==> v.services.contains(service) && service != s
            &&& v.services.contains(s) ==> registry::port_of(new.mdns, osc) is None
                && registry::port_of(new.mdns, query) is None
            &&& name::folded(other) != name::folded(osc) && name::folded(other) != name::folded(
                query,
            ) ==> registry::port_of(new.mdns, other) == registry::port_of(v.mdns, other)
            &&& new.mdns.ip == v.mdns.ip
            &&& new.mdns.cache == v.mdns.cache
            &&& new.mdns.following == v.mdns.following
        }),
{
    let new = unregistered(v, s, Some(osc), Some(query));
    law_unregistered_is_not_listed(v, s, Some(osc), Some(query));
    let half = registry::unregistered(v.mdns, osc);
    registry::law_unregistered_has_no_port(v.mdns, osc, other);
    registry::law_unregistered_has_no_port(v.mdns, osc, osc);
    registry::law_unregistered_has_no_port(half, query, other);
    registry::law_unregistered_has_no_port(half, query, query);
    lemma_stays_gone(half, query, osc);
    if v.services.contains(s) {
        let at = v.services.index_of(s);
        assert(v.services[at] == s);
        if v.services.contains(service) && service != s {
            let i = choose|i: int| 0 <= i < v.services.len() && v.services[i] == service;
            if i < at {
                assert(new.services[i] == service);
            } else {
                assert(new.services[i - 1] == service);
            }
        }
        if new.services.contains(service) {
            let i = choose|i: int| 0 <= i < new.services.len() && new.services[i] == service;
            if i < at {
                assert(v.services[i] == service);
            } else {
                assert(v.services[i + 1] == service);
            }
        }
    }
}

/// Services are nameable up to a first one that is not, if there is one: that one ends a shutdown,
/// and is taken from the list before it does.
pub proof fn law_shutdown_ends_at_first_without_names(v: AppView, i: int)
    requires
        distinct_services(v.services),
    ensures
        ({
            let n = named_front(v.services);
            &&& n <= v.services.len()
            &&& n == v.services.len() <==> nameable(v)
            &&& 0 <= i < n ==> osc_name_of(v.services[i]) is Some && query_name_of(v.services[i])
                is Some
            &&& n < v.services.len() ==> osc_name_of(v.services[n as int]) is None || query_name_of(
                v.services[n as int],
            ) is None
            &&& n < v.services.len() ==> shut_down(v).services == v.services.skip((n + 1) as int)
            &&& n == v.services.len() ==> shut_down(v).services.len() == 0
        }),
        shut_down(v).mdns.ip == v.mdns.ip,
        shut_down(v).mdns.cache == v.mdns.cache,
        shut_down(v).mdns.following == v.mdns.following,
    decreases v.services.len(),
{
    if v.services.len() > 0 {
        let first = v.services[0];
        let next = unregistered(v, first, osc_name_of(first), query_name_of(first));
        lemma_first_removed(v.services);
        assert(v.services.contains(first));
        assert(next.services == v.services.skip(1));
        lemma_nameable_step(v);
        if osc_name_of(first) is Some && query_name_of(first) is Some {
            assert forall|a: int, b: int|
                0 <= a < next.services.len() && 0 <= b < next.services.len()
                    && #[trigger] next.services[a] == #[trigger] next.services[b] implies a
                == b by {
                assert(v.services[a + 1] == v.services[b + 1]);
            }
            law_shutdown_ends_at_first_without_names(next, i - 1);
            let n = named_front(next.services);
            assert(named_front(v.services) == n + 1);
            assert(nameable(next) <==> nameable(AppView { services: v.services.skip(1), ..v }));
            if n < next.services.len() {
                assert(next.services.skip((n + 1) as int) =~= v.services.skip((n + 2) as int));
            }
        } else {
            assert(!nameable(v));
        }
    }
}

/// A server whose name is that of no service that is offered keeps its port through a shutdown.
pub proof fn law_shutdown_keeps_other_servers(v: AppView, other: NameView)
    requires
        nameable(v),
        registry::consistent(v.mdns),
        distinct_services(v.services),
        forall|i: int|
            0 <= i < v.services.len() ==> name::folded(osc_name_of(#[trigger] v.services[i])->0)
                != name::folded(other) && name::folded(query_name_of(v.services[i])->0)
                != name::folded(other),
    ensures
        registry::port_of(shut_down(v).mdns, other) == registry::port_of(v.mdns, other),
    decreases v.services.len(),
{
    if v.services.len() > 0 {
        let first = v.services[0];
        let a = osc_name_of(first)->0;
        let b = query_name_of(first)->0;
        let next = unregistered(v, first, osc_name_of(first), query_name_of(first));
        lemma_first_removed(v.services);
        assert(v.services.contains(first));
        assert(next.services == v.services.skip(1));
        assert forall|i: int| 0 <= i < next.services.len() implies osc_name_of(
            #[trigger] next.services[i],
        ) is Some && query_name_of(next.services[i]) is Some && name::folded(
            osc_name_of(next.services[i])->0,
        ) != name::folded(other) && name::folded(query_name_of(next.services[i])->0)
            != name::folded(other) by {
            assert(next.services[i] == v.services[i + 1]);
        }
        assert forall|i: int, j: int|
            0 <= i < next.services.len() && 0 <= j < next.services.len()
                && #[trigger] next.services[i] == #[trigger] next.services[j] implies i == j by {
            assert(v.services[i + 1] == v.services[j + 1]);
        }
        let half = registry::unregistered(v.mdns, a);
        registry::law_unregistered_has_no_port(v.mdns, a, other);
        registry::law_unregistered_has_no_port(half, b, other);
        law_shutdown_keeps_other_servers(next, other);
    }
}

/// Two parts of what is known are selected from on their own, each entry as often as it is there.
pub proof fn law_selected_in_order(
    first: Seq<(NameView, SocketAddr)>,
    second: Seq<(NameView, SocketAddr)>,
    entry: (NameView, SocketAddr),
    pattern: Seq<char>,
)
    ensures
        selected(first + second, pattern) == selected(first, pattern) + selected(second, pattern),
        selected(seq![entry], pattern) == (if service::glob(pattern, name::ascii_text(entry.0)) {
            seq![entry]
        } else {
            Seq::empty()
        }),
    decreases second.len(),
{
    assert(seq![entry].drop_last() =~= Seq::<(NameView, SocketAddr)>::empty());
    assert(seq![entry].last() == entry);
    assert(selected(Seq::empty(), pattern) =~= Seq::<(NameView, SocketAddr)>::empty());
    if service::glob(pattern, name::ascii_text(entry.0)) {
        assert(selected(seq![entry], pattern) =~= seq![entry]);
    }
    if second.len() == 0 {
        assert(first + second =~= first);
        assert(selected(first, pattern) + selected(second, pattern) =~= selected(first, pattern));
    } else {
        let all = first + second;
        assert(all.drop_last() =~= first + second.drop_last());
        assert(all.last() == second.last());
        law_selected_in_order(first, second.drop_last(), entry, pattern);
        assert(selected(all, pattern) =~= selected(first, pattern) + selected(second, pattern));
    }
}

/// Whoever is known under a name that matches gets the packet, at the address at which it is known;
/// and nothing is sent but the packet, to such addresses.
pub proof fn law_every_match_is_sent_to(
    cache: Seq<(NameView, SocketAddr)>,
    pattern: Seq<char>,
    datagrams: Seq<Datagram>,
    bytes: Seq<u8>,
    k: int,
    i: int,
)
    requires
        sent_to(datagrams, selected(cache, pattern), bytes),
    ensures
        0 <= k < cache.len() && service::glob(pattern, name::ascii_text(cache[k].0))
            ==> exists|j: int|
            0 <= j < datagrams.len() && (#[trigger] datagrams[j]).to == cache[k].1
                && datagrams[j].bytes@ == bytes,
        0 <= i < datagrams.len() ==> datagrams[i].bytes@ == bytes && exists|j: int|
            0 <= j < cache.len() && (#[trigger] cache[j]).1 == datagrams[i].to && service::glob(
                pattern,
                name::ascii_text(cache[j].0),
            ),
        datagrams.len() == selected(cache, pattern).len(),
{
    let targets = selected(cache, pattern);
    if 0 <= k < cache.len() && service::glob(pattern, name::ascii_text(cache[k].0)) {
        law_selected_match(cache, pattern, cache[k]);
        assert(cache.contains(cache[k]));
        let j = choose|j: int| 0 <= j < targets.len() && targets[j] == cache[k];
        assert(datagrams[j].to == cache[k].1);
    }
    if 0 <= i < datagrams.len() {
        law_selected_match(cache, pattern, targets[i]);
        assert(targets.contains(targets[i]));
        assert(datagrams[i].to == targets[i].1);
        let j = choose|j: int| 0 <= j < cache.len() && cache[j] == targets[i];
        assert(cache[j].1 == datagrams[i].to);
    }
}

/// The servers of a service are named by its name in upper camel case and the service type.
pub proof fn law_server_names(s: Seq<char>)
    ensures
        osc_name_of(s) == name::ascii_name(service::upper_camel(s) + "._osc._udp.local."@),
        query_name_of(s) == name::ascii_name(service::upper_camel(s) + "._oscjson._tcp.local."@),
{
}

/// What each instance and port is shows both.
pub proof fn law_ports_view(pairs: Seq<(Name, u16)>, i: int)
    ensures
        ports_view(pairs).len() == pairs.len(),
        0 <= i < pairs.len() ==> ports_view(pairs)[i] == (pairs[i].0@, pairs[i].1),
{
}

/// A datagram that asks for a fully qualified service type goes to the multicast group of the
/// advertised address, and whoever receives it reads that one question out of it.
pub proof fn law_question_reaches_the_group(d: Datagram, service_type: NameView, ip: IpAddr)
    requires
        asks_for(d, service_type, ip),
        service_type.fqdn,
    ensures
        net::port_of(d.to) == 5353,
        d.to is V4 <==> ip is V4,
        message::parsed(d.bytes@) matches Some(m) && m.queries.len() == 1 && m.queries[0].name
            == service_type && m.queries[0].query_type == 255 && registry::is_query(m),
{
    announce::law_query_is_understood(service_type, Some(d.bytes@));
}

/// A service that is listed goes from the list though its servers have no names. Where only the OSC
/// server has one, that server loses its port and no other does; where that has none, every server
/// keeps the port that it has.
pub proof fn law_unregister_without_names(
    v: AppView,
    s: Seq<char>,
    osc: NameView,
    query: Option<NameView>,
    other: NameView,
)
    requires
        registry::consistent(v.mdns),
        distinct_services(v.services),
        v.services.contains(s),
    ensures
        ({
            let half = unregistered(v, s, Some(osc), None);
            &&& !half.services.contains(s)
            &&& half.services.len() == v.services.len() - 1
            &&& registry::port_of(half.mdns, osc) is None
            &&& name::folded(other) != name::folded(osc) ==> registry::port_of(half.mdns, other)
                == registry::port_of(v.mdns, other)
            &&& half.mdns.ip == v.mdns.ip
            &&& half.mdns.cache == v.mdns.cache
            &&& half.mdns.following == v.mdns.following
        }),
        ({
            let none = unregistered(v, s, None, query);
            &&& !none.services.contains(s)
            &&& none.services.len() == v.services.len() - 1
            &&& none.mdns == v.mdns
        }),
{
    law_unregistered_is_not_listed(v, s, Some(osc), None);
    law_unregistered_is_not_listed(v, s, None, query);
    registry::law_unregistered_has_no_port(v.mdns, osc, other);
}

/// Where only the OSC server of a service has a name, registering the service gives that server its
/// port and touches nothing else.
pub proof fn law_half_registered_changes_nothing_else(
    v: AppView,
    s: Seq<char>,
    osc: NameView,
    osc_port: u16,
    query_port: u16,
    other: NameView,
)
    requires
        registry::consistent(v.mdns),
        name::folded(other) != name::folded(osc),
    ensures
        ({
            let half = registered(v, s, Some(osc), osc_port, None, query_port);
            &&& registry::port_of(half.mdns, other) == registry::port_of(v.mdns, other)
            &&& half.mdns.ip == v.mdns.ip
            &&& half.mdns.cache == v.mdns.cache
            &&& half.mdns.following == v.mdns.following
        }),
{
    registry::law_registered_has_its_port(v.mdns, osc, osc_port, other);
}

} // verus!
