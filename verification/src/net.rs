//! Network addresses, interfaces and multicast groups.
use vstd::prelude::*;

verus! {

/// Port of multicast DNS.
pub const MDNS_PORT: u16 = 5353;

/// IPv4 group of multicast DNS, `224.0.0.251`.
pub const MDNS_IPV4_ADDR: u32 = 0xE000_00FB;

/// IPv6 group of multicast DNS, `ff02::fb`.
pub const MDNS_IPV6_ADDR: u128 = 0xFF02_0000_0000_0000_0000_0000_0000_00FB;

/// The IPv6 loopback address, `::1`.
pub const LOOPBACK_V6: u128 = 1;

/// An IP address, given by the number that its bytes make up in network order.
#[derive(Debug, Clone, Copy, PartialEq, Eq, Structural)]
pub enum IpAddr {
    /// An IPv4 address.
    V4(u32),
    /// An IPv6 address.
    V6(u128),
}

/// An IP address and a port, and for IPv6 the flow information and the scope.
#[derive(Debug, Clone, Copy, PartialEq, Eq, Structural)]
pub enum SocketAddr {
    /// An IPv4 address and a port.
    V4 { ip: u32, port: u16 },
    /// An IPv6 address, a port, the flow information and the scope.
    V6 { ip: u128, port: u16, flowinfo: u32, scope_id: u32 },
}

/// The port `port` at `ip`, without flow information and scope.
pub open spec fn addr_at(ip: IpAddr, port: u16) -> SocketAddr {
    match ip {
        IpAddr::V4(bits) => SocketAddr::V4 { ip: bits, port },
        IpAddr::V6(bits) => SocketAddr::V6 { ip: bits, port, flowinfo: 0, scope_id: 0 },
    }
}

/// The IP address of `addr`.
pub open spec fn ip_of(addr: SocketAddr) -> IpAddr {
    match addr {
        SocketAddr::V4 { ip, .. } => IpAddr::V4(ip),
        SocketAddr::V6 { ip, .. } => IpAddr::V6(ip),
    }
}

/// The port of `addr`.
pub open spec fn port_of(addr: SocketAddr) -> u16 {
    match addr {
        SocketAddr::V4 { port, .. } => port,
        SocketAddr::V6 { port, .. } => port,
    }
}

impl SocketAddr {
    /// The port `port` at `ip`, without flow information and scope.
    pub fn new(ip: IpAddr, port: u16) -> (r: SocketAddr)
        ensures
            r == addr_at(ip, port),
    {
        match ip {
            IpAddr::V4(bits) => SocketAddr::V4 { ip: bits, port },
            IpAddr::V6(bits) => SocketAddr::V6 { ip: bits, port, flowinfo: 0, scope_id: 0 },
        }
    }

    /// The IP address.
    pub fn ip(&self) -> (r: IpAddr)
        ensures
            r == ip_of(*self),
    {
        match self {
            SocketAddr::V4 { ip, .. } => IpAddr::V4(*ip),
            SocketAddr::V6 { ip, .. } => IpAddr::V6(*ip),
        }
    }

    /// The port.
    pub fn port(&self) -> (r: u16)
        ensures
            r == port_of(*self),
    {
        match self {
            SocketAddr::V4 { port, .. } => *port,
            SocketAddr::V6 { port, .. } => *port,
        }
    }
}

/// An address of a network interface.
#[derive(Debug, Clone, Copy, PartialEq, Eq, Structural)]
pub struct IfAddr {
    /// The address.
    pub ip: IpAddr,
    /// The mask of its network.
    pub netmask: IpAddr,
    /// Number of leading ones in the mask.
    pub prefixlen: u8,
    /// The broadcast address.
    pub broadcast: Option<IpAddr>,
}

/// A network interface.
#[derive(Debug)]
pub struct Interface {
    pub name: String,
    pub addr: IfAddr,
    pub index: Option<u32>,
    /// The permanent identifier of the adapter, on systems that have one.
    pub adapter_name: Option<String>,
}

/// What a network interface is.
pub struct InterfaceView {
    pub name: Seq<char>,
    pub addr: IfAddr,
    pub index: Option<u32>,
    pub adapter_name: Option<Seq<char>>,
}

impl Interface {
    /// What this interface is.
    pub open spec fn view(&self) -> InterfaceView {
        InterfaceView {
            name: self.name@,
            addr: self.addr,
            index: self.index,
            adapter_name: match self.adapter_name {
                Some(adapter_name) => Some(adapter_name@),
                None => None,
            },
        }
    }

    /// Whether the interfaces agree in every part.
    pub fn same_interface(&self, other: &Interface) -> (r: bool)
        ensures
            r == (self@ == other@),
    {
        let same_adapter = match (&self.adapter_name, &other.adapter_name) {
            (Some(a), Some(b)) => *a == *b,
            (None, None) => true,
            _ => false,
        };
        same_adapter && self.name == other.name && self.addr == other.addr && self.index
            == other.index
    }
}

impl Clone for Interface {
    fn clone(&self) -> (r: Interface)
        ensures
            r@ == self@,
    {
        Interface {
            name: self.name.clone(),
            addr: self.addr,
            index: self.index,
            adapter_name: match &self.adapter_name {
                Some(adapter_name) => Some(adapter_name.clone()),
                None => None,
            },
        }
    }
}

/// `ip` is a loopback address: one of `127.0.0.0/8`, or `::1`.
pub open spec fn loopback(ip: IpAddr) -> bool {
    match ip {
        IpAddr::V4(bits) => 0x7F00_0000 <= bits <= 0x7FFF_FFFF,
        IpAddr::V6(bits) => bits == LOOPBACK_V6,
    }
}

/// Whether `ip` is a loopback address.
pub fn is_loopback(ip: IpAddr) -> (r: bool)
    ensures
        r == loopback(ip),
{
    match ip {
        IpAddr::V4(bits) => 0x7F00_0000 <= bits && bits <= 0x7FFF_FFFF,
        IpAddr::V6(bits) => bits == LOOPBACK_V6,
    }
}

/// How the local address towards a destination is found.
#[derive(Debug, Clone, Copy, PartialEq, Eq, Structural)]
pub enum LocalIp {
    /// It is this address.
    Known(IpAddr),
    /// It is the one that a socket bound to this address has once it is connected there.
    ConnectFrom(SocketAddr),
}

/// How the local address that reaches `dest_ip` is found: a loopback address is its own, and of
/// others the routing table knows, through a socket of the same family.
pub fn find_local_ip_for_destination(dest_ip: IpAddr) -> (r: LocalIp)
    ensures
        r == (if loopback(dest_ip) {
            LocalIp::Known(dest_ip)
        } else {
            LocalIp::ConnectFrom(addr_at(unspecified_like(dest_ip), 0))
        }),
{
    if is_loopback(dest_ip) {
        LocalIp::Known(dest_ip)
    } else {
        LocalIp::ConnectFrom(SocketAddr::new(unspecified(dest_ip), 0))
    }
}

/// The address of all interfaces, of the family of `ip`.
pub open spec fn unspecified_like(ip: IpAddr) -> IpAddr {
    match ip {
        IpAddr::V4(_) => IpAddr::V4(0),
        IpAddr::V6(_) => IpAddr::V6(0),
    }
}

/// The address of all interfaces, of the family of `ip`.
pub fn unspecified(ip: IpAddr) -> (r: IpAddr)
    ensures
        r == unspecified_like(ip),
{
    match ip {
        IpAddr::V4(_) => IpAddr::V4(0),
        IpAddr::V6(_) => IpAddr::V6(0),
    }
}

/// The multicast DNS group of the family of `ip`.
pub open spec fn mdns_group_of(ip: IpAddr) -> SocketAddr {
    match ip {
        IpAddr::V4(_) => addr_at(IpAddr::V4(MDNS_IPV4_ADDR), MDNS_PORT),
        IpAddr::V6(_) => addr_at(IpAddr::V6(MDNS_IPV6_ADDR), MDNS_PORT),
    }
}

/// The multicast DNS group of the family of `ip`.
pub fn mdns_group(ip: IpAddr) -> (r: SocketAddr)
    ensures
        r == mdns_group_of(ip),
{
    match ip {
        IpAddr::V4(_) => SocketAddr::new(IpAddr::V4(MDNS_IPV4_ADDR), MDNS_PORT),
        IpAddr::V6(_) => SocketAddr::new(IpAddr::V6(MDNS_IPV6_ADDR), MDNS_PORT),
    }
}

/// The index of the first interface with the address `ip`.
pub open spec fn index_of(ip: IpAddr, interfaces: Seq<Interface>) -> Option<u32>
    decreases interfaces.len(),
{
    if interfaces.len() == 0 {
        None
    } else if interfaces[0].addr.ip == ip {
        interfaces[0].index
    } else {
        index_of(ip, interfaces.skip(1))
    }
}

/// The index of the first interface with the address `ip`.
pub fn get_interface_index(ip: &IpAddr, if_addrs: &Vec<Interface>) -> (r: Option<u32>)
    ensures
        r == index_of(*ip, if_addrs@),
{
    let mut i: usize = 0;
    assert(if_addrs@.skip(0) =~= if_addrs@);
    while i < if_addrs.len()
        invariant
            i <= if_addrs@.len(),
            index_of(*ip, if_addrs@) == index_of(*ip, if_addrs@.skip(i as int)),
        decreases if_addrs@.len() - i,
    {
        if if_addrs[i].addr.ip == *ip {
            return if_addrs[i].index;
        }
        assert(if_addrs@.skip(i as int).skip(1) =~= if_addrs@.skip(i + 1));
        i += 1;
    }
    None
}

/// The interface on which a multicast group is joined and through which is sent.
#[derive(Debug, Clone, Copy, PartialEq, Eq, Structural)]
pub enum MulticastInterface {
    /// The one with this IPv4 address.
    Address(u32),
    /// The one with this index; zero stands for any.
    Index(u32),
}

/// The one interface that serves the advertised address `ip`.
pub open spec fn multicast_interface_of(
    ip: IpAddr,
    interfaces: Seq<Interface>,
) -> MulticastInterface {
    match ip {
        IpAddr::V4(bits) => MulticastInterface::Address(bits),
        IpAddr::V6(_) => MulticastInterface::Index(
            match index_of(ip, interfaces) {
                Some(index) => index,
                None => 0,
            },
        ),
    }
}

/// The one interface that serves the advertised address `ip`.
pub fn multicast_interface(ip: IpAddr, if_addrs: &Vec<Interface>) -> (r: MulticastInterface)
    ensures
        r == multicast_interface_of(ip, if_addrs@),
{
    match ip {
        IpAddr::V4(bits) => MulticastInterface::Address(bits),
        IpAddr::V6(_) => match get_interface_index(&ip, if_addrs) {
            Some(index) => MulticastInterface::Index(index),
            None => MulticastInterface::Index(0),
        },
    }
}

/// What each of `interfaces` is.
pub open spec fn interfaces_view(interfaces: Seq<Interface>) -> Seq<InterfaceView> {
    interfaces.map_values(|i: Interface| i@)
}

/// `interfaces` without those that are `gone`, in their order.
pub open spec fn without(
    interfaces: Seq<InterfaceView>,
    gone: InterfaceView,
) -> Seq<InterfaceView>
    decreases interfaces.len(),
{
    if interfaces.len() == 0 {
        Seq::empty()
    } else if interfaces.last() == gone {
        without(interfaces.drop_last(), gone)
    } else {
        without(interfaces.drop_last(), gone).push(interfaces.last())
    }
}

/// The network interfaces that are known to be there.
#[derive(Debug)]
pub struct InterfaceList {
    interfaces: Vec<Interface>,
}

impl InterfaceList {
    /// The interfaces, in the order in which they came.
    pub closed spec fn view(&self) -> Seq<InterfaceView> {
        interfaces_view(self.interfaces@)
    }

    /// The list of these interfaces.
    pub fn new(interfaces: Vec<Interface>) -> (r: InterfaceList)
        ensures
            r@ == interfaces_view(interfaces@),
    {
        InterfaceList { interfaces }
    }

    /// The interfaces.
    pub fn get_interfaces(&self) -> (r: &Vec<Interface>)
        ensures
            interfaces_view(r@) == self@,
    {
        &self.interfaces
    }

    fn contains(&self, iface: &Interface) -> (r: bool)
        ensures
            r == self@.contains(iface@),
    {
        let mut i: usize = 0;
        while i < self.interfaces.len()
            invariant
                i <= self.interfaces@.len(),
                forall|j: int| 0 <= j < i ==> #[trigger] self@[j] != iface@,
            decreases self.interfaces@.len() - i,
        {
            if self.interfaces[i].same_interface(iface) {
                assert(self@[i as int] == iface@);
                return true;
            }
            i += 1;
        }
        false
    }

    /// Takes an interface up that has appeared, if it is not known yet.
    pub fn added(&mut self, iface: Interface)
        ensures
            final(self)@ == (if old(self)@.contains(iface@) {
                old(self)@
            } else {
                old(self)@.push(iface@)
            }),
    {
        if !self.contains(&iface) {
            self.interfaces.push(iface);
            assert(self@ =~= old(self)@.push(iface@));
        }
    }

    /// Drops an interface that has disappeared.
    pub fn removed(&mut self, iface: &Interface)
        ensures
            final(self)@ == without(old(self)@, iface@),
    {
        let mut rest: Vec<Interface> = Vec::new();
        let mut kept: Vec<Interface> = Vec::new();
        std::mem::swap(&mut rest, &mut self.interfaces);
        let ghost all = interfaces_view(rest@);
        assert(all =~= old(self)@);
        assert(interfaces_view(kept@).reverse() =~= Seq::<InterfaceView>::empty());
        while rest.len() > 0
            invariant
                without(interfaces_view(rest@), iface@) + interfaces_view(kept@).reverse()
                    == without(all, iface@),
            decreases rest@.len(),
        {
            let ghost before = interfaces_view(rest@);
            let ghost later = interfaces_view(kept@);
            match rest.pop() {
                Some(item) => {
                    assert(interfaces_view(rest@) =~= before.drop_last());
                    if !item.same_interface(iface) {
                        kept.push(item);
                        assert(interfaces_view(kept@) =~= later.push(item@));
                        assert(interfaces_view(kept@).reverse() =~= seq![item@] + later.reverse());
                        assert(without(interfaces_view(rest@), iface@) + interfaces_view(
                            kept@,
                        ).reverse() =~= without(before, iface@) + later.reverse());
                    }
                },
                None => {},
            }
        }
        assert(without(interfaces_view(rest@), iface@) =~= Seq::<InterfaceView>::empty());
        assert(interfaces_view(kept@).reverse() =~= without(all, iface@));
        while kept.len() > 0
            invariant
                self@ + interfaces_view(kept@).reverse() == without(all, iface@),
            decreases kept@.len(),
        {
            let ghost before = interfaces_view(kept@);
            let ghost front = self@;
            match kept.pop() {
                Some(item) => {
                    assert(interfaces_view(kept@) =~= before.drop_last());
                    assert(before.reverse() =~= seq![item@] + interfaces_view(kept@).reverse());
                    self.interfaces.push(item);
                    assert(self@ =~= front.push(item@));
                    assert(self@ + interfaces_view(kept@).reverse() =~= front + before.reverse());
                },
                None => {},
            }
        }
        assert(self@ =~= without(all, iface@));
    }
}

/// An interface that has disappeared is not in the list, and of the others the list holds those
/// that it held. Dropping one that was not there changes nothing.
pub proof fn law_removed_interface_is_gone(
    interfaces: Seq<InterfaceView>,
    gone: InterfaceView,
    other: InterfaceView,
)
    ensures
        !without(interfaces, gone).contains(gone),
        other != gone ==> without(interfaces, gone).contains(other) == interfaces.contains(other),
        !interfaces.contains(gone) ==> without(interfaces, gone) == interfaces,
    decreases interfaces.len(),
{
    if interfaces.len() > 0 {
        let rest = interfaces.drop_last();
        law_removed_interface_is_gone(rest, gone, other);
        assert(rest.push(interfaces.last()) =~= interfaces);
        assert forall|x: InterfaceView| #[trigger]
            interfaces.contains(x) == (rest.contains(x) || interfaces.last() == x) by {
            if rest.contains(x) {
                let i = choose|i: int| 0 <= i < rest.len() && rest[i] == x;
                assert(interfaces[i] == x);
            }
            if interfaces.contains(x) && interfaces.last() != x {
                let i = choose|i: int| 0 <= i < interfaces.len() && interfaces[i] == x;
                assert(rest[i] == x);
            }
            if interfaces.last() == x {
                assert(interfaces[interfaces.len() - 1] == x);
            }
        }
        let kept = without(rest, gone);
        let all = kept.push(interfaces.last());
        assert(all[kept.len() as int] == interfaces.last());
        assert forall|x: InterfaceView| #[trigger]
            all.contains(x) == (kept.contains(x) || interfaces.last() == x) by {
            if kept.contains(x) {
                let i = choose|i: int| 0 <= i < kept.len() && kept[i] == x;
                assert(all[i] == x);
            }
        }
        assert(interfaces.contains(interfaces.last()));
        if !interfaces.contains(gone) {
            assert(!rest.contains(gone));
        }
    }
}

/// An interface that appears and then disappears leaves the list as it was, if it was not known.
pub proof fn law_interface_comes_and_goes(interfaces: Seq<InterfaceView>, iface: InterfaceView)
    requires
        !interfaces.contains(iface),
    ensures
        without(interfaces.push(iface), iface) == interfaces,
{
    assert(interfaces.push(iface).drop_last() =~= interfaces);
    law_removed_interface_is_gone(interfaces, iface, iface);
}

/// What went wrong in receiving from a socket.
#[derive(Debug, Clone, Copy, PartialEq, Eq, Structural)]
pub enum ReceiveError {
    /// The connection was reset.
    ConnectionReset,
    /// The connection is broken.
    BrokenPipe,
    /// Something else.
    Other,
}

/// What a receiving loop does after an error.
#[derive(Debug, Clone, Copy, PartialEq, Eq, Structural)]
pub enum AfterError {
    /// It ends.
    Stop,
    /// It waits for that many milliseconds and goes on.
    Retry(u64),
}

/// A receiving loop ends where its connection is gone, and waits a tenth of a second after other
/// errors.
pub fn after_receive_error(error: ReceiveError) -> (r: AfterError)
    ensures
        r == (if error == ReceiveError::Other {
            AfterError::Retry(100)
        } else {
            AfterError::Stop
        }),
{
    match error {
        ReceiveError::ConnectionReset => AfterError::Stop,
        ReceiveError::BrokenPipe => AfterError::Stop,
        ReceiveError::Other => AfterError::Retry(100),
    }
}

/// An address that is made of an IP address and a port has these, and neither flow information nor a
/// scope.
pub proof fn law_address_parts(ip: IpAddr, port: u16)
    ensures
        ip_of(addr_at(ip, port)) == ip,
        port_of(addr_at(ip, port)) == port,
        addr_at(ip, port) matches SocketAddr::V6 { flowinfo, scope_id, .. } ==> flowinfo == 0
            && scope_id == 0,
        addr_at(ip, port) is V4 <==> ip is V4,
{
}

/// The IPv4 loopback addresses are those whose first byte is 127; the IPv6 one is the number one.
pub proof fn law_loopback(v4: u32, v6: u128)
    ensures
        loopback(IpAddr::V4(v4)) <==> v4 / 0x100_0000 == 127,
        loopback(IpAddr::V6(v6)) <==> v6 == 1,
{
}

/// The multicast group is of the family of the advertised address, and is always the same.
pub proof fn law_multicast_group(v4: u32, v6: u128)
    ensures
        ip_of(mdns_group_of(IpAddr::V4(v4))) == IpAddr::V4(0xE000_00FB),
        ip_of(mdns_group_of(IpAddr::V6(v6))) == IpAddr::V6(
            0xFF02_0000_0000_0000_0000_0000_0000_00FB,
        ),
        port_of(mdns_group_of(IpAddr::V4(v4))) == 5353,
        port_of(mdns_group_of(IpAddr::V6(v6))) == 5353,
        unspecified_like(IpAddr::V4(v4)) == IpAddr::V4(0),
        unspecified_like(IpAddr::V6(v6)) == IpAddr::V6(0),
{
}

/// The index that is found is that of the first interface with the address, and none where no
/// interface has it.
pub proof fn law_index_of_first(ip: IpAddr, interfaces: Seq<Interface>, at: int)
    ensures
        0 <= at < interfaces.len() && interfaces[at].addr.ip == ip && (forall|k: int|
            0 <= k < at ==> (#[trigger] interfaces[k]).addr.ip != ip) ==> index_of(ip, interfaces)
            == interfaces[at].index,
        (forall|k: int| 0 <= k < interfaces.len() ==> (#[trigger] interfaces[k]).addr.ip != ip)
            ==> index_of(ip, interfaces) is None,
    decreases interfaces.len(),
{
    if interfaces.len() > 0 {
        let rest = interfaces.skip(1);
        law_index_of_first(ip, rest, at - 1);
        if forall|k: int| 0 <= k < interfaces.len() ==> (#[trigger] interfaces[k]).addr.ip != ip {
            assert(interfaces[0].addr.ip != ip);
            assert forall|k: int| 0 <= k < rest.len() implies (#[trigger] rest[k]).addr.ip
                != ip by {
                assert(rest[k] == interfaces[k + 1]);
            }
        }
        if 0 < at < interfaces.len() && interfaces[at].addr.ip == ip && (forall|k: int|
            0 <= k < at ==> (#[trigger] interfaces[k]).addr.ip != ip) {
            assert(interfaces[0].addr.ip != ip);
            assert(rest[at - 1] == interfaces[at]);
            assert forall|k: int| 0 <= k < at - 1 implies (#[trigger] rest[k]).addr.ip != ip by {
                assert(rest[k] == interfaces[k + 1]);
            }
        }
    }
}

/// Multicast goes through the interface of the advertised address: an IPv4 one by that address, an
/// IPv6 one by its index, or through any where the index is not known.
pub proof fn law_single_multicast_interface(v4: u32, v6: u128, interfaces: Seq<Interface>)
    ensures
        multicast_interface_of(IpAddr::V4(v4), interfaces) == MulticastInterface::Address(v4),
        index_of(IpAddr::V6(v6), interfaces) matches Some(index) ==> multicast_interface_of(
            IpAddr::V6(v6),
            interfaces,
        ) == MulticastInterface::Index(index),
        index_of(IpAddr::V6(v6), interfaces) is None ==> multicast_interface_of(
            IpAddr::V6(v6),
            interfaces,
        ) == MulticastInterface::Index(0),
{
}

/// Dropping an interface keeps the order of the others: it does to two lists, one behind the other,
/// what it does to each.
pub proof fn law_dropping_keeps_order(
    first: Seq<InterfaceView>,
    second: Seq<InterfaceView>,
    gone: InterfaceView,
    other: InterfaceView,
)
    ensures
        without(first + second, gone) == without(first, gone) + without(second, gone),
        without(seq![gone], gone).len() == 0,
        other != gone ==> without(seq![other], gone) == seq![other],
    decreases second.len(),
{
    assert(seq![gone].drop_last() =~= Seq::<InterfaceView>::empty());
    assert(seq![other].drop_last() =~= Seq::<InterfaceView>::empty());
    assert(without(Seq::<InterfaceView>::empty(), gone) =~= Seq::<InterfaceView>::empty());
    if other != gone {
        assert(without(seq![other], gone) =~= seq![other]);
    }
    if second.len() == 0 {
        assert(first + second =~= first);
        assert(without(first, gone) + without(second, gone) =~= without(first, gone));
    } else {
        let all = first + second;
        assert(all.drop_last() =~= first + second.drop_last());
        assert(all.last() == second.last());
        law_dropping_keeps_order(first, second.drop_last(), gone, other);
        assert(without(all, gone) =~= without(first, gone) + without(second, gone));
    }
}

/// What an interface is shows its name, its address, its index and its adapter.
pub proof fn law_interface_view(i: Interface, j: Interface)
    ensures
        i@ == j@ <==> i.name@ == j.name@ && i.addr == j.addr && i.index == j.index && (match (
            i.adapter_name,
            j.adapter_name,
        ) {
            (Some(a), Some(b)) => a@ == b@,
            (None, None) => true,
            _ => false,
        }),
{
}

/// What interfaces are shows each of them, in order.
pub proof fn law_interfaces_view(interfaces: Seq<Interface>, i: int)
    ensures
        interfaces_view(interfaces).len() == interfaces.len(),
        0 <= i < interfaces.len() ==> interfaces_view(interfaces)[i] == interfaces[i]@,
{
}

} // verus!
