//! Information about the host of an OSC server.
use vstd::prelude::*;

use crate::assoc::AssocMap;
use crate::net::IpAddr;

verus! {

/// The transport of an OSC server.
#[derive(Debug, Clone, Copy, PartialEq, Eq, Structural)]
pub enum OSCTransport {
    UDP,
    TCP,
}

impl Default for OSCTransport {
    fn default() -> (r: OSCTransport)
        ensures
            r == OSCTransport::UDP,
    {
        OSCTransport::UDP
    }
}

/// What an OSCQuery server tells about the OSC server that it describes.
#[derive(Debug)]
pub struct HostInfo {
    /// The name of the server.
    pub name: String,
    /// Which extensions of the protocol are supported.
    pub extensions: AssocMap<String, bool>,
    /// Where the OSC server runs.
    pub osc_ip: IpAddr,
    /// The port of the OSC server.
    pub osc_port: u16,
    /// The transport of the OSC server.
    pub osc_transport: OSCTransport,
}

/// What a host information is.
#[verifier::ext_equal]
pub struct HostInfoView {
    pub name: Seq<char>,
    pub extensions: Map<Seq<char>, bool>,
    pub osc_ip: IpAddr,
    pub osc_port: u16,
    pub osc_transport: OSCTransport,
}

/// The extensions that a server has unless it says otherwise.
pub open spec fn default_extensions() -> Map<Seq<char>, bool> {
    Map::<Seq<char>, bool>::empty().insert("ACCESS"@, true).insert("CLIPMODE"@, false).insert(
        "RANGE"@,
        true,
    ).insert("TYPE"@, true).insert("VALUE"@, true)
}

impl HostInfo {
    /// What this host information is.
    pub open spec fn view(&self) -> HostInfoView {
        HostInfoView {
            name: self.name@,
            extensions: self.extensions@,
            osc_ip: self.osc_ip,
            osc_port: self.osc_port,
            osc_transport: self.osc_transport,
        }
    }

    /// No extension occurs twice.
    pub open spec fn wf(&self) -> bool {
        self.extensions.wf()
    }

    /// The information about a server with the default extensions, over UDP.
    pub fn new(name: String, osc_ip: IpAddr, osc_port: u16) -> (r: HostInfo)
        ensures
            r.wf(),
            r@ == (HostInfoView {
                name: name@,
                extensions: default_extensions(),
                osc_ip,
                osc_port,
                osc_transport: OSCTransport::UDP,
            }),
    {
        let mut extensions: AssocMap<String, bool> = AssocMap::new();
        extensions.insert("ACCESS".to_owned(), true);
        extensions.insert("CLIPMODE".to_owned(), false);
        extensions.insert("RANGE".to_owned(), true);
        extensions.insert("TYPE".to_owned(), true);
        extensions.insert("VALUE".to_owned(), true);
        HostInfo { name, extensions, osc_ip, osc_port, osc_transport: OSCTransport::UDP }
    }
}

impl Clone for HostInfo {
    fn clone(&self) -> (r: HostInfo)
        ensures
            r@ == self@,
            self.wf() ==> r.wf(),
    {
        HostInfo {
            name: self.name.clone(),
            extensions: self.extensions.clone(),
            osc_ip: self.osc_ip,
            osc_port: self.osc_port,
            osc_transport: self.osc_transport,
        }
    }
}

/// Of the default extensions, all are supported but the clip mode.
pub proof fn law_default_extensions(key: Seq<char>)
    ensures
        default_extensions().dom().contains(key) <==> key == "ACCESS"@ || key == "CLIPMODE"@ || key
            == "RANGE"@ || key == "TYPE"@ || key == "VALUE"@,
        default_extensions().dom().contains(key) ==> default_extensions()[key] == (key
            != "CLIPMODE"@),
{
    reveal_strlit("ACCESS");
    reveal_strlit("CLIPMODE");
    reveal_strlit("RANGE");
    reveal_strlit("TYPE");
    reveal_strlit("VALUE");
    assert("ACCESS"@[0] == 'A' && "CLIPMODE"@[0] == 'C' && "RANGE"@[0] == 'R' && "TYPE"@[0] == 'T'
        && "VALUE"@[0] == 'V');
}

/// What a host information is shows every part of it.
pub proof fn law_host_info_view(h: HostInfo)
    ensures
        h@.name == h.name@,
        h@.extensions == h.extensions@,
        h@.osc_ip == h.osc_ip,
        h@.osc_port == h.osc_port,
        h@.osc_transport == h.osc_transport,
{
}

} // verus!
