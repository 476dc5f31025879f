//! The errors of the raft store and their wire form.
use vstd::prelude::*;
use crate::metapb::{Peer, PeerRole};
use crate::text::{cat, cat_u64, decimal, quoted, quoted_text, u64_text};

verus! {

/// The wire form of a `NotLeader` error.
#[derive(Clone, Copy, Debug, PartialEq, Eq, Structural)]
pub struct NotLeader {
    pub region_id: u64,
    pub leader: Option<Peer>,
}

/// The wire form of a `RaftEntryTooLarge` error.
#[derive(Clone, Copy, Debug, PartialEq, Eq, Structural)]
pub struct RaftEntryTooLarge {
    pub region_id: u64,
    pub entry_size: u64,
}

/// The wire form of a `StoreNotMatch` error.
#[derive(Clone, Copy, Debug, PartialEq, Eq, Structural)]
pub struct StoreNotMatch {
    pub request_store_id: u64,
    pub actual_store_id: u64,
}

/// An error as it travels in a response header.
#[derive(Debug)]
pub struct ErrorPb {
    pub message: String,
    pub not_leader: Option<NotLeader>,
    pub region_not_found: Option<u64>,
    pub raft_entry_too_large: Option<RaftEntryTooLarge>,
    pub store_not_match: Option<StoreNotMatch>,
    pub stale_command: bool,
    pub region_not_initialized: Option<u64>,
}

/// The errors of the raft store.
///
/// Errors that come from other libraries carry their description.
#[derive(Debug)]
pub enum Error {
    Other(String),
    Io(String),
    Protobuf(String),
    Grpc(String),
    AddrParse(String),
    Sink,
    RecvError,
    SendError(String),
    TrySendError(String),
    RaftEntryTooLarge { region_id: u64, entry_size: u64 },
    StoreNotMatch { to_store_id: u64, my_store_id: u64 },
    RegionNotFound(u64),
    RegionNotInitialized(u64),
    NotLeader(u64, Option<Peer>),
    Raft(String),
    Timeout(String),
    StaleCommand,
    RequestFailed(ErrorPb),
    Engine(String),
}

/// `name(inner)`.
pub open spec fn wrapped(name: Seq<char>, inner: Seq<char>) -> Seq<char> {
    name + "("@ + inner + ")"@
}

/// The name of a peer role.
pub open spec fn role_text(role: PeerRole) -> Seq<char> {
    match role {
        PeerRole::Voter => "Voter"@,
        PeerRole::Learner => "Learner"@,
        PeerRole::IncomingVoter => "IncomingVoter"@,
        PeerRole::DemotingVoter => "DemotingVoter"@,
    }
}

/// The text of a peer: `Peer { id: I, store_id: S, role: R }`.
pub open spec fn peer_text(p: Peer) -> Seq<char> {
    "Peer { id: "@ + decimal(p.id as nat) + ", store_id: "@ + decimal(p.store_id as nat) + ", role: "@
        + role_text(p.role) + " }"@
}

/// The text of an optional leader: `None` or `Some(..)`.
pub open spec fn leader_text(leader: Option<Peer>) -> Seq<char> {
    match leader {
        Some(p) => wrapped("Some"@, peer_text(p)),
        None => "None"@,
    }
}

/// The text of an optional number: `None` or `Some(n)`.
pub open spec fn opt_u64_text(o: Option<u64>) -> Seq<char> {
    match o {
        Some(n) => wrapped("Some"@, decimal(n as nat)),
        None => "None"@,
    }
}

/// The text of a flag.
pub open spec fn bool_text(b: bool) -> Seq<char> {
    if b { "true"@ } else { "false"@ }
}

/// The text of an optional `NotLeader`.
pub open spec fn not_leader_text(o: Option<NotLeader>) -> Seq<char> {
    match o {
        Some(n) => wrapped("Some"@, "NotLeader { region_id: "@ + decimal(n.region_id as nat) + ", leader: "@
            + leader_text(n.leader) + " }"@),
        None => "None"@,
    }
}

/// The text of an optional `RaftEntryTooLarge`.
pub open spec fn too_large_text(o: Option<RaftEntryTooLarge>) -> Seq<char> {
    match o {
        Some(t) => wrapped("Some"@, "RaftEntryTooLarge { region_id: "@ + decimal(t.region_id as nat)
            + ", entry_size: "@ + decimal(t.entry_size as nat) + " }"@),
        None => "None"@,
    }
}

/// The text of an optional `StoreNotMatch`.
pub open spec fn store_not_match_text(o: Option<StoreNotMatch>) -> Seq<char> {
    match o {
        Some(m) => wrapped("Some"@, "StoreNotMatch { request_store_id: "@ + decimal(m.request_store_id as nat)
            + ", actual_store_id: "@ + decimal(m.actual_store_id as nat) + " }"@),
        None => "None"@,
    }
}

/// The text of the wire form of an error: every field, by name, in order.
pub open spec fn errorpb_text(pb: ErrorPb) -> Seq<char> {
    "ErrorPb { message: "@ + quoted(pb.message@) + ", not_leader: "@ + not_leader_text(pb.not_leader)
        + ", region_not_found: "@ + opt_u64_text(pb.region_not_found) + ", raft_entry_too_large: "@
        + too_large_text(pb.raft_entry_too_large) + ", store_not_match: "@ + store_not_match_text(pb.store_not_match)
        + ", stale_command: "@ + bool_text(pb.stale_command) + ", region_not_initialized: "@
        + opt_u64_text(pb.region_not_initialized) + " }"@
}

/// The description of an error, in the form `Debug` prints it: the
/// variant's name, then its fields, strings quoted.
pub open spec fn error_debug_text(e: Error) -> Seq<char> {
    match e {
        Error::Other(s) => wrapped("Other"@, quoted(s@)),
        Error::Io(s) => wrapped("Io"@, quoted(s@)),
        Error::Protobuf(s) => wrapped("Protobuf"@, quoted(s@)),
        Error::Grpc(s) => wrapped("Grpc"@, quoted(s@)),
        Error::AddrParse(s) => wrapped("AddrParse"@, quoted(s@)),
        Error::Sink => "Sink"@,
        Error::RecvError => "RecvError"@,
        Error::SendError(s) => wrapped("SendError"@, quoted(s@)),
        Error::TrySendError(s) => wrapped("TrySendError"@, quoted(s@)),
        Error::RaftEntryTooLarge { region_id, entry_size } => "RaftEntryTooLarge { region_id: "@
            + decimal(region_id as nat) + ", entry_size: "@ + decimal(entry_size as nat) + " }"@,
        Error::StoreNotMatch { to_store_id, my_store_id } => "StoreNotMatch { to_store_id: "@
            + decimal(to_store_id as nat) + ", my_store_id: "@ + decimal(my_store_id as nat) + " }"@,
        Error::RegionNotFound(id) => wrapped("RegionNotFound"@, decimal(id as nat)),
        Error::RegionNotInitialized(id) => wrapped("RegionNotInitialized"@, decimal(id as nat)),
        Error::NotLeader(id, leader) => wrapped("NotLeader"@, decimal(id as nat) + ", "@ + leader_text(leader)),
        Error::Raft(s) => wrapped("Raft"@, quoted(s@)),
        Error::Timeout(s) => wrapped("Timeout"@, quoted(s@)),
        Error::StaleCommand => "StaleCommand"@,
        Error::RequestFailed(pb) => wrapped("RequestFailed"@, errorpb_text(pb)),
        Error::Engine(s) => wrapped("Engine"@, quoted(s@)),
    }
}

/// `name(inner)`.
fn wrap(name: &str, inner: String) -> (r: String)
    ensures
        r@ == wrapped(name@, inner@),
{
    let r = cat(String::from_str(name), "(");
    let r = cat(r, inner.as_str());
    cat(r, ")")
}

/// `name("s")`, the string quoted.
fn wrap_quoted(name: &str, s: &String) -> (r: String)
    ensures
        r@ == wrapped(name@, quoted(s@)),
{
    wrap(name, quoted_text(s.as_str()))
}

/// The text of a peer.
fn peer_debug_text(p: &Peer) -> (r: String)
    ensures
        r@ == peer_text(*p),
{
    let r = cat_u64(String::from_str("Peer { id: "), p.id);
    let r = cat_u64(cat(r, ", store_id: "), p.store_id);
    let r = cat(r, ", role: ");
    let r = match p.role {
        PeerRole::Voter => cat(r, "Voter"),
        PeerRole::Learner => cat(r, "Learner"),
        PeerRole::IncomingVoter => cat(r, "IncomingVoter"),
        PeerRole::DemotingVoter => cat(r, "DemotingVoter"),
    };
    cat(r, " }")
}

/// `Some(n)` or `None`.
fn opt_u64_debug_text(o: Option<u64>) -> (r: String)
    ensures
        r@ == opt_u64_text(o),
{
    match o {
        Some(n) => wrap("Some", u64_text(n)),
        None => String::from_str("None"),
    }
}

/// The text of the wire form of an error, as `errorpb_text` gives it.
pub fn errorpb_debug_text(pb: &ErrorPb) -> (r: String)
    ensures
        r@ == errorpb_text(*pb),
{
    let r = cat(String::from_str("ErrorPb { message: "), quoted_text(pb.message.as_str()).as_str());
    let r = cat(r, ", not_leader: ");
    let r = match pb.not_leader {
        Some(n) => {
            let t = cat_u64(String::from_str("NotLeader { region_id: "), n.region_id);
            let t = cat(t, ", leader: ");
            let t = match n.leader {
                Some(p) => cat(t, wrap("Some", peer_debug_text(&p)).as_str()),
                None => cat(t, "None"),
            };
            let t = cat(t, " }");
            cat(r, wrap("Some", t).as_str())
        },
        None => cat(r, "None"),
    };
    let r = cat(r, ", region_not_found: ");
    let r = cat(r, opt_u64_debug_text(pb.region_not_found).as_str());
    let r = cat(r, ", raft_entry_too_large: ");
    let r = match pb.raft_entry_too_large {
        Some(t) => {
            let x = cat_u64(String::from_str("RaftEntryTooLarge { region_id: "), t.region_id);
            let x = cat_u64(cat(x, ", entry_size: "), t.entry_size);
            let x = cat(x, " }");
            cat(r, wrap("Some", x).as_str())
        },
        None => cat(r, "None"),
    };
    let r = cat(r, ", store_not_match: ");
    let r = match pb.store_not_match {
        Some(m) => {
            let x = cat_u64(String::from_str("StoreNotMatch { request_store_id: "), m.request_store_id);
            let x = cat_u64(cat(x, ", actual_store_id: "), m.actual_store_id);
            let x = cat(x, " }");
            cat(r, wrap("Some", x).as_str())
        },
        None => cat(r, "None"),
    };
    let r = cat(r, ", stale_command: ");
    let r = if pb.stale_command { cat(r, "true") } else { cat(r, "false") };
    let r = cat(r, ", region_not_initialized: ");
    let r = cat(r, opt_u64_debug_text(pb.region_not_initialized).as_str());
    cat(r, " }")
}

/// The description of an error, as `error_debug_text` gives it.
pub fn debug_text(e: &Error) -> (s: String)
    ensures
        s@ == error_debug_text(*e),
{
    match e {
        Error::Other(s) => wrap_quoted("Other", s),
        Error::Io(s) => wrap_quoted("Io", s),
        Error::Protobuf(s) => wrap_quoted("Protobuf", s),
        Error::Grpc(s) => wrap_quoted("Grpc", s),
        Error::AddrParse(s) => wrap_quoted("AddrParse", s),
        Error::Sink => String::from_str("Sink"),
        Error::RecvError => String::from_str("RecvError"),
        Error::SendError(s) => wrap_quoted("SendError", s),
        Error::TrySendError(s) => wrap_quoted("TrySendError", s),
        Error::RaftEntryTooLarge { region_id, entry_size } => {
            let r = cat_u64(String::from_str("RaftEntryTooLarge { region_id: "), *region_id);
            let r = cat_u64(cat(r, ", entry_size: "), *entry_size);
            cat(r, " }")
        },
        Error::StoreNotMatch { to_store_id, my_store_id } => {
            let r = cat_u64(String::from_str("StoreNotMatch { to_store_id: "), *to_store_id);
            let r = cat_u64(cat(r, ", my_store_id: "), *my_store_id);
            cat(r, " }")
        },
        Error::RegionNotFound(id) => wrap("RegionNotFound", u64_text(*id)),
        Error::RegionNotInitialized(id) => wrap("RegionNotInitialized", u64_text(*id)),
        Error::NotLeader(id, leader) => {
            let inner = cat(u64_text(*id), ", ");
            let inner = match leader {
                Some(p) => {
                    let t = wrap("Some", peer_debug_text(p));
                    cat(inner, t.as_str())
                },
                None => cat(inner, "None"),
            };
            wrap("NotLeader", inner)
        },
        Error::Raft(s) => wrap_quoted("Raft", s),
        Error::Timeout(s) => wrap_quoted("Timeout", s),
        Error::StaleCommand => String::from_str("StaleCommand"),
        Error::RequestFailed(pb) => wrap("RequestFailed", errorpb_debug_text(pb)),
        Error::Engine(s) => wrap_quoted("Engine", s),
    }
}

impl Error {
    /// An engine error carrying `s` (what `From<String>` gives).
    pub fn from_string(s: String) -> (e: Error)
        ensures
            e == Error::Engine(s),
    {
        Error::Engine(s)
    }
}

/// The structured part of the wire form of `err`: every field but the message.
pub open spec fn errorpb_fields_of(err: Error, pb: ErrorPb) -> bool {
    &&& pb.not_leader == (match err {
        Error::NotLeader(region_id, leader) => Some(NotLeader { region_id, leader }),
        _ => None,
    })
    &&& pb.region_not_found == (match err {
        Error::RegionNotFound(region_id) => Some(region_id),
        _ => None,
    })
    &&& pb.raft_entry_too_large == (match err {
        Error::RaftEntryTooLarge { region_id, entry_size } => Some(
            RaftEntryTooLarge { region_id, entry_size },
        ),
        _ => None,
    })
    &&& pb.store_not_match == (match err {
        Error::StoreNotMatch { to_store_id, my_store_id } => Some(
            StoreNotMatch { request_store_id: to_store_id, actual_store_id: my_store_id },
        ),
        _ => None,
    })
    &&& pb.stale_command == (err is StaleCommand)
    &&& pb.region_not_initialized == (match err {
        Error::RegionNotInitialized(region_id) => Some(region_id),
        _ => None,
    })
}

impl ErrorPb {
    /// The wire form of `err`: its `Debug` text as the message, and the
    /// structured field that matches its kind.
    pub fn from_error(err: Error) -> (pb: ErrorPb)
        ensures
            pb.message@ == error_debug_text(err),
            errorpb_fields_of(err, pb),
    {
        let message = debug_text(&err);
        let mut pb = ErrorPb {
            message,
            not_leader: None,
            region_not_found: None,
            raft_entry_too_large: None,
            store_not_match: None,
            stale_command: false,
            region_not_initialized: None,
        };
        match err {
            Error::RegionNotFound(region_id) => {
                pb.region_not_found = Some(region_id);
            },
            Error::NotLeader(region_id, leader) => {
                pb.not_leader = Some(NotLeader { region_id, leader });
            },
            Error::RaftEntryTooLarge { region_id, entry_size } => {
                pb.raft_entry_too_large = Some(RaftEntryTooLarge { region_id, entry_size });
            },
            Error::StoreNotMatch { to_store_id, my_store_id } => {
                pb.store_not_match = Some(
                    StoreNotMatch { request_store_id: to_store_id, actual_store_id: my_store_id },
                );
            },
            Error::StaleCommand => {
                pb.stale_command = true;
            },
            Error::RegionNotInitialized(region_id) => {
                pb.region_not_initialized = Some(region_id);
            },
            _ => {},
        }
        pb
    }
}

} // verus!
