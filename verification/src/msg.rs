use vstd::prelude::*;

verus! {

/// A protocol identifier. Zero is the reserved "none seen yet" sentinel;
/// identifiers actually proposed on the wire start at 1.
pub type Id = u64;

/// The name of an actor. The reserved address "simulator" denotes the driver.
pub type Addr = String;

/// Logical delivery time, a monotonic counter.
pub type Timestamp = u64;

/// The four wire messages of the quorum-claim protocol.
///
/// `StartRequest` is the external kick from the driver to a client;
/// `Request(id)` is a client's proposal to a server; `Yes(id)` and `No(id)`
/// are the server's acceptance and rejection of that proposal.
#[derive(Clone, Copy, Debug)]
pub enum Msg {
    StartRequest,
    Request(Id),
    Yes(Id),
    No(Id),
}

impl PartialEq for Msg {
    /// Two messages are equal iff they carry the same tag and, where one
    /// exists, the same identifier payload.
    fn eq(&self, other: &Msg) -> (r: bool) {
        match self {
            Msg::StartRequest => match other {
                Msg::StartRequest => true,
                Msg::Request(_) => false,
                Msg::Yes(_) => false,
                Msg::No(_) => false,
            },
            Msg::Request(id) => match other {
                Msg::StartRequest => false,
                Msg::Request(other_id) => id == other_id,
                Msg::Yes(_) => false,
                Msg::No(_) => false,
            },
            Msg::Yes(yes) => match other {
                Msg::StartRequest => false,
                Msg::Request(_) => false,
                Msg::Yes(other_yes) => yes == other_yes,
                Msg::No(_) => false,
            },
            Msg::No(no) => match other {
                Msg::StartRequest => false,
                Msg::Request(_) => false,
                Msg::Yes(_) => false,
                Msg::No(other_no) => no == other_no,
            },
        }
    }
}

impl vstd::std_specs::cmp::PartialEqSpecImpl for Msg {
    open spec fn obeys_eq_spec() -> bool {
        true
    }

    open spec fn eq_spec(&self, other: &Msg) -> bool {
        *self == *other
    }
}

} // verus!
