//! Errors.
use vstd::prelude::*;

verus! {

/// [`hickory_proto::ProtoError`]: what went wrong in a DNS operation. Nothing is claimed of it.
#[verifier::external_type_specification]
#[verifier::external_body]
pub struct ExProtoError(hickory_proto::ProtoError);

/// [`rosc::OscError`]: what went wrong in reading or writing an OSC packet. Nothing is claimed of
/// it.
#[verifier::external_type_specification]
#[verifier::external_body]
pub struct ExOscError(rosc::OscError);

/// What can go wrong in the library.
#[derive(Debug)]
pub enum Error {
    /// A DNS name or message could not be read or written.
    MdnsProtoError(hickory_proto::ProtoError),
    /// An OSC packet could not be read or written.
    OscError(rosc::OscError),
}

} // verus!
