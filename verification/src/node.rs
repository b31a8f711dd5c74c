//! The node's services: the base-layer state provider that the Lightning
//! stack asks for fee estimates, the control service that answers the
//! command-line client, and where the two programs meet.

use vstd::prelude::*;
use crate::text::{decimal, push_decimal};

verus! {

/// `std::io::Error`, the error of a state provider that cannot be set up.
#[verifier::external_type_specification]
#[verifier::external_body]
pub struct ExIoError(std::io::Error);

/// How soon a transaction should confirm, for a fee estimate.
#[derive(Clone, Copy, PartialEq, Eq, Structural, Debug)]
pub enum ConfirmationTarget {
    /// Slow confirmation is fine.
    Background,
    /// Confirmation within 12 to 18 blocks.
    Normal,
    /// Confirmation within the next few blocks.
    HighPriority,
}

/// The fee rate that the provider estimates, in satoshis per 1000 weight
/// units, whatever the target.
pub open spec fn estimated_fee_rate() -> u32 {
    100
}

/// The provider of the base layer's state: fee estimates, transaction
/// broadcast and UTXO lookups for the Lightning stack.
pub struct BaseLayerStateProvider {}

impl BaseLayerStateProvider {
    /// A provider for the bitcoind at `host:port`, reached with the given
    /// RPC credentials. Setting it up does not contact the node, and does
    /// not fail.
    pub fn new(host: String, port: u16, path: Option<String>, rpc_user: String, rpc_password: String) -> (r: std::io::Result<Self>)
        ensures
            r is Ok,
    {
        Ok(Self {})
    }

    /// The fee rate for `confirmation_target`, in satoshis per 1000 weight
    /// units.
    pub fn get_est_sat_per_1000_weight(&self, confirmation_target: ConfirmationTarget) -> (rate: u32)
        ensures
            rate == estimated_fee_rate(),
    {
        100
    }
}

/// The requests of the control protocol.
#[derive(Clone, Copy, PartialEq, Eq, Structural, Debug)]
pub enum ControlRequest {
    OrageStatus,
    AddGossip,
    AutocleanInvoice,
    Check,
    CheckMessage,
    Close,
    ConnectOrage,
    CreateInvoice,
}

/// The line that the daemon prints on receiving a control request.
pub open spec fn request_notice_text(request: ControlRequest) -> Seq<char> {
    match request {
        ControlRequest::OrageStatus => "[ORAGED] orage status request"@,
        ControlRequest::AddGossip => "[ORAGED] add gossip request"@,
        ControlRequest::AutocleanInvoice => "[ORAGED] autoclean invoice request"@,
        ControlRequest::Check => "[ORAGED] check"@,
        ControlRequest::CheckMessage => "[ORAGED] check message"@,
        ControlRequest::Close => "[ORAGED] check message"@,
        ControlRequest::ConnectOrage => "[ORAGED] connect"@,
        ControlRequest::CreateInvoice => "[ORAGED] create invoice"@,
    }
}

/// The control service of the daemon. Every request is answered with the
/// empty reply of its kind, after a line on standard output.
pub struct OrageManager {}

impl OrageManager {
    pub fn new() -> (m: Self)
        ensures
            m == (OrageManager {}),
    {
        OrageManager {}
    }

    /// The line printed on receiving `request`.
    pub fn request_notice(&self, request: ControlRequest) -> (s: &'static str)
        ensures
            s@ == request_notice_text(request),
    {
        match request {
            ControlRequest::OrageStatus => "[ORAGED] orage status request",
            ControlRequest::AddGossip => "[ORAGED] add gossip request",
            ControlRequest::AutocleanInvoice => "[ORAGED] autoclean invoice request",
            ControlRequest::Check => "[ORAGED] check",
            ControlRequest::CheckMessage => "[ORAGED] check message",
            ControlRequest::Close => "[ORAGED] check message",
            ControlRequest::ConnectOrage => "[ORAGED] connect",
            ControlRequest::CreateInvoice => "[ORAGED] create invoice",
        }
    }
}

/// The port on which the daemon serves the control protocol.
pub const CONTROL_PORT: u16 = 20001;

/// The port that the command-line client connects to unless told otherwise.
pub const DEFAULT_CLIENT_PORT: &'static str = "20001";

/// The address `[::1]:PORT` on which the daemon serves the control protocol.
pub open spec fn listen_addr_text(port: nat) -> Seq<char> {
    seq!['[', ':', ':', '1', ']', ':'] + decimal(port)
}

/// The address on which the daemon serves the control protocol at `port`.
pub fn control_listen_addr(port: u16) -> (addr: String)
    ensures
        addr@ == listen_addr_text(port as nat),
{
    let mut addr = String::from_str("[::1]:");
    push_decimal(&mut addr, port as u64);
    proof {
        reveal_strlit("[::1]:");
    }
    assert(addr@ =~= listen_addr_text(port as nat));
    addr
}

/// The endpoint `http://[::1]:PORT` that the command-line client connects to.
pub open spec fn client_endpoint_text(port: Seq<char>) -> Seq<char> {
    seq!['h', 't', 't', 'p', ':', '/', '/', '[', ':', ':', '1', ']', ':'] + port
}

/// The endpoint that the command-line client connects to, given the port
/// as it was written on its command line.
pub fn client_endpoint(port: &str) -> (url: String)
    ensures
        url@ == client_endpoint_text(port@),
{
    let mut url = String::from_str("http://[::1]:");
    url.append(port);
    proof {
        reveal_strlit("http://[::1]:");
    }
    assert(url@ =~= client_endpoint_text(port@));
    url
}

/// The client reaches the daemon: for any port, the endpoint that the client
/// builds from the port's decimal text is the daemon's listening address
/// under `http://`, and the client's default port is the daemon's.
pub proof fn lemma_client_reaches_daemon(port: nat)
    ensures
        client_endpoint_text(decimal(port)) == seq!['h', 't', 't', 'p', ':', '/', '/'] + listen_addr_text(port),
        DEFAULT_CLIENT_PORT@ == decimal(CONTROL_PORT as nat),
{
    assert(client_endpoint_text(decimal(port)) =~= seq!['h', 't', 't', 'p', ':', '/', '/'] + listen_addr_text(port));
    reveal_strlit("20001");
    assert(decimal(20001) =~= seq!['2', '0', '0', '0', '1']) by {
        reveal_with_fuel(decimal, 6);
    }
}

} // verus!
