//! OSC and OSCQuery services for VRChat.
//!
//! - [`osctype`], [`value`], [`path`], [`tree`] and [`node`]: the address space of an OSC server.
//! - [`attribute`], [`host_info`], [`query`], [`oscquery`] and [`osc_query`]: what OSCQuery servers
//!   answer.
//! - [`name`], [`message`], [`announce`], [`registry`] and [`mdns`]: multicast DNS, by which
//!   services are announced and found.
//! - [`service`], [`packet`], [`vrchat`] and [`resolver`]: applications, the services that they offer
//!   and those that they talk to.
//! - [`assoc`], [`text`], [`net`] and [`error`]: what all of these use.
pub mod announce;
pub mod assoc;
pub mod attribute;
pub mod error;
pub mod host_info;
pub mod mdns;
pub mod message;
pub mod name;
pub mod net;
pub mod node;
pub mod osc_query;
pub mod oscquery;
pub mod osctype;
pub mod packet;
pub mod path;
pub mod query;
pub mod registry;
pub mod resolver;
pub mod service;
pub mod text;
pub mod tree;
pub mod value;
pub mod vrchat;
