//! Finding VRChat clients: what a resolver does with what it hears.
use vstd::prelude::*;

use crate::host_info::{HostInfo, HostInfoView};
use crate::net;
use crate::net::{IpAddr, SocketAddr};
use crate::text;

verus! {

/// Seconds after which browsing is tried again.
pub const RETRY_SECONDS: u64 = 10;

/// What a resolver is told.
#[derive(Debug)]
pub enum Event {
    /// It browses: services are reported from now on.
    Started,
    /// It could not browse, as the browser was busy.
    Busy,
    /// It could not browse.
    Failed,
    /// A service was resolved: its full name, its addresses and its port.
    Resolved(String, Vec<IpAddr>, u16),
    /// Something else was reported.
    Other,
    /// Nothing more will be reported.
    Closed,
    /// The host information of a client was fetched, from this address.
    Fetched(HostInfo, SocketAddr),
    /// The host information of a client could not be fetched.
    NotFetched,
}

/// What a resolver does next.
#[derive(Debug)]
pub enum Action {
    /// It browses for services.
    Browse,
    /// It waits for that many seconds and browses again.
    BrowseAfter(u64),
    /// It ends with the error.
    Stop,
    /// It waits for what is reported.
    Listen,
    /// It fetches the host information of a client, from one of these addresses.
    Fetch(Vec<SocketAddr>),
    /// It tells where the servers of a client run, and waits for what is reported.
    Report(VRChatAddrs),
}

/// What an action is.
pub enum ActionView {
    Browse,
    BrowseAfter(u64),
    Stop,
    Listen,
    Fetch(Seq<SocketAddr>),
    Report(VRChatAddrs),
}

impl Action {
    /// What this action is.
    pub open spec fn view(&self) -> ActionView {
        match self {
            Action::Browse => ActionView::Browse,
            Action::BrowseAfter(seconds) => ActionView::BrowseAfter(*seconds),
            Action::Stop => ActionView::Stop,
            Action::Listen => ActionView::Listen,
            Action::Fetch(addrs) => ActionView::Fetch(addrs@),
            Action::Report(addrs) => ActionView::Report(*addrs),
        }
    }
}

/// What a resolver does when it is told `event`: where the browser is busy it tries again later, and
/// where it fails it ends; of each VRChat client that is resolved it fetches the host information,
/// and tells where its servers run; all else is passed over.
pub open spec fn action_for(event: Event) -> ActionView {
    match event {
        Event::Started => ActionView::Listen,
        Event::Busy => ActionView::BrowseAfter(RETRY_SECONDS),
        Event::Failed => ActionView::Stop,
        Event::Resolved(fullname, addresses, port) => match candidates(
            fullname@,
            addresses@,
            port,
        ) {
            Some(addrs) => ActionView::Fetch(addrs),
            None => ActionView::Listen,
        },
        Event::Other => ActionView::Listen,
        Event::Closed => ActionView::Browse,
        Event::Fetched(host_info, addr) => ActionView::Report(addrs_of(host_info@, addr)),
        Event::NotFetched => ActionView::Listen,
    }
}

/// What a resolver does when it is told `event`.
pub fn next_action(event: &Event) -> (r: Action)
    ensures
        r@ == action_for(*event),
{
    match event {
        Event::Started => Action::Listen,
        Event::Busy => Action::BrowseAfter(RETRY_SECONDS),
        Event::Failed => Action::Stop,
        Event::Resolved(fullname, addresses, port) => match client_addresses(
            fullname.as_str(),
            addresses,
            *port,
        ) {
            Some(addrs) => Action::Fetch(addrs),
            None => Action::Listen,
        },
        Event::Other => Action::Listen,
        Event::Closed => Action::Browse,
        Event::Fetched(host_info, addr) => Action::Report(client_found(host_info, *addr)),
        Event::NotFetched => Action::Listen,
    }
}

/// A resolver ends only where it cannot browse.
pub proof fn law_resolver_goes_on(event: Event)
    ensures
        action_for(event) is Stop <==> event is Failed,
{
}

/// The addresses at which the OSCQuery server of a VRChat client may be reached, given the full name
/// of the service; none if it is no VRChat client.
pub open spec fn candidates(
    fullname: Seq<char>,
    addresses: Seq<IpAddr>,
    port: u16,
) -> Option<Seq<SocketAddr>> {
    if "VRChat-Client-"@.is_prefix_of(fullname) {
        Some(addresses.map_values(|ip: IpAddr| net::addr_at(ip, port)))
    } else {
        None
    }
}

/// Whether `s` begins with `prefix`.
pub fn starts_with(s: &str, prefix: &str) -> (r: bool)
    ensures
        r == prefix@.is_prefix_of(s@),
{
    let chars = text::chars_of(s);
    let front = text::chars_of(prefix);
    if front.len() > chars.len() {
        return false;
    }
    let mut i: usize = 0;
    while i < front.len()
        invariant
            chars@ == s@,
            front@ == prefix@,
            front@.len() <= chars@.len(),
            i <= front@.len(),
            forall|j: int| 0 <= j < i ==> #[trigger] front@[j] == chars@[j],
        decreases front@.len() - i,
    {
        if front[i] != chars[i] {
            assert(prefix@[i as int] != s@.subrange(0, prefix@.len() as int)[i as int]);
            return false;
        }
        i += 1;
    }
    assert(prefix@ =~= s@.subrange(0, prefix@.len() as int));
    true
}

/// The addresses at which the OSCQuery server of a VRChat client may be reached; none if the service
/// is no VRChat client.
pub fn client_addresses(fullname: &str, addresses: &Vec<IpAddr>, port: u16) -> (r: Option<
    Vec<SocketAddr>,
>)
    ensures
        match r {
            Some(addrs) => candidates(fullname@, addresses@, port) == Some(addrs@),
            None => candidates(fullname@, addresses@, port) is None,
        },
{
    if !starts_with(fullname, "VRChat-Client-") {
        return None;
    }
    let mut r: Vec<SocketAddr> = Vec::new();
    let mut i: usize = 0;
    while i < addresses.len()
        invariant
            i <= addresses@.len(),
            r@ == addresses@.take(i as int).map_values(|ip: IpAddr| net::addr_at(ip, port)),
        decreases addresses@.len() - i,
    {
        let ghost before = r@;
        r.push(SocketAddr::new(addresses[i], port));
        assert(r@ =~= addresses@.take(i + 1).map_values(|ip: IpAddr| net::addr_at(ip, port)));
        i += 1;
    }
    assert(addresses@.take(i as int) =~= addresses@);
    Some(r)
}

/// Where the two servers of a VRChat client run.
#[derive(Debug, Clone, Copy, PartialEq, Eq, Structural)]
pub struct VRChatAddrs {
    /// The OSC server.
    pub osc: SocketAddr,
    /// The OSCQuery server.
    pub osc_query: SocketAddr,
}

/// Where the two servers of a client run, given what its OSCQuery server, reached at
/// `osc_query_addr`, tells of the OSC server.
pub open spec fn addrs_of(host_info: HostInfoView, osc_query_addr: SocketAddr) -> VRChatAddrs {
    VRChatAddrs {
        osc: net::addr_at(host_info.osc_ip, host_info.osc_port),
        osc_query: osc_query_addr,
    }
}

/// Where the two servers of a client run, given what its OSCQuery server, reached at
/// `osc_query_addr`, tells of the OSC server.
pub fn client_found(host_info: &HostInfo, osc_query_addr: SocketAddr) -> (r: VRChatAddrs)
    ensures
        r == addrs_of(host_info@, osc_query_addr),
{
    VRChatAddrs {
        osc: SocketAddr::new(host_info.osc_ip, host_info.osc_port),
        osc_query: osc_query_addr,
    }
}

/// The address of a page: `path` at the server whose address is written `addr`.
pub fn request_url(addr: &str, path: &str) -> (r: String)
    ensures
        r@ == "http://"@ + addr@ + path@,
{
    let mut r = text::joined("http://", addr);
    r.append(path);
    r
}

/// Whenever a service is resolved whose full name begins with `VRChat-Client-`, its host information
/// is fetched from one of its addresses, all of them in their order, at its port; any other service
/// is passed over.
pub proof fn law_every_client_is_asked(
    fullname: String,
    addresses: Vec<IpAddr>,
    port: u16,
    i: int,
)
    ensures
        ({
            let action = action_for(Event::Resolved(fullname, addresses, port));
            &&& "VRChat-Client-"@.is_prefix_of(fullname@) ==> (action matches ActionView::Fetch(
                addrs,
            ) && addrs.len() == addresses@.len() && (0 <= i < addrs.len() ==> addrs[i]
                == net::addr_at(addresses@[i], port)))
            &&& !"VRChat-Client-"@.is_prefix_of(fullname@) ==> action is Listen
        }),
{
}

/// Whenever the host information of a client was fetched, the client is reported: its OSC server at
/// the address and the port that it told, its OSCQuery server where the information came from.
pub proof fn law_every_client_is_reported(host_info: HostInfo, addr: SocketAddr)
    ensures
        action_for(Event::Fetched(host_info, addr)) matches ActionView::Report(found) && found.osc
            == net::addr_at(host_info.osc_ip, host_info.osc_port) && found.osc_query == addr,
{
}

/// A resolver listens while it is told things, waits ten seconds where the browser is busy, and
/// browses again where nothing more comes.
pub proof fn law_resolver_listens()
    ensures
        action_for(Event::Started) is Listen,
        action_for(Event::Other) is Listen,
        action_for(Event::NotFetched) is Listen,
        action_for(Event::Busy) == ActionView::BrowseAfter(10),
        action_for(Event::Closed) is Browse,
        action_for(Event::Failed) is Stop,
{
}

/// What an action is shows all of it.
pub proof fn law_action_view(a: Action)
    ensures
        a is Browse ==> a@ is Browse,
        a is Stop ==> a@ is Stop,
        a is Listen ==> a@ is Listen,
        a matches Action::BrowseAfter(seconds) ==> a@ == ActionView::BrowseAfter(seconds),
        a matches Action::Fetch(addrs) ==> a@ == ActionView::Fetch(addrs@),
        a matches Action::Report(addrs) ==> a@ == ActionView::Report(addrs),
{
}

} // verus!
