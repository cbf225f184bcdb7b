//! Addresses and the command-line client's request.
use vstd::prelude::*;
use crate::protocol::TaskRequest;
use crate::text::{decimal, decimal_text, join2};

verus! {

/// Why the command-line client refuses to run.
pub enum ClientError {
    /// No command was given.
    MissingCommand,
}

/// The task id under which the command-line client injects its command.
pub open spec fn client_task_name() -> Seq<char> {
    "manual_cli"@
}

/// The URL of a gRPC endpoint at `host` and `port`.
pub open spec fn endpoint_url_of(host: Seq<char>, port: nat) -> Seq<char> {
    "http://"@ + host + ":"@ + decimal(port)
}

/// The address a server listens on for `port`, on every interface.
pub open spec fn listen_address_of(port: nat) -> Seq<char> {
    "0.0.0.0:"@ + decimal(port)
}

/// The request the command-line client sends for `command`; an empty
/// command is refused.
pub fn client_request(command: String) -> (r: Result<TaskRequest, ClientError>)
    ensures
        match r {
            Ok(req) => command@.len() > 0 && req.task_id@ == client_task_name() && req.command@
                == command@ && req.payload@.len() == 0,
            Err(e) => command@.len() == 0 && e is MissingCommand,
        },
{
    if command.as_str().is_empty() {
        Err(ClientError::MissingCommand)
    } else {
        Ok(TaskRequest { task_id: String::from_str("manual_cli"), command, payload: Vec::new() })
    }
}

/// The URL of a gRPC endpoint at `host` and `port`.
pub fn endpoint_url(host: &str, port: u32) -> (url: String)
    ensures
        url@ == endpoint_url_of(host@, port as nat),
{
    let a = join2("http://", host);
    let b = join2(a.as_str(), ":");
    let digits = decimal_text(port);
    join2(b.as_str(), digits.as_str())
}

/// The address a server listens on for `port`, on every interface.
pub fn listen_address(port: u32) -> (addr: String)
    ensures
        addr@ == listen_address_of(port as nat),
{
    let digits = decimal_text(port);
    join2("0.0.0.0:", digits.as_str())
}

} // verus!
