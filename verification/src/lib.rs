//! Driver core for bringing up an LTE data connection through a modem
//! control tool: a line-oriented parser that extracts IP configuration
//! records from the tool's text output, an aggregator that folds those
//! records into one configuration, and the decision logic of the
//! sequential command protocol that threads a transaction id from step
//! to step until a full configuration is obtained.

pub mod addr;
pub mod bytes;
pub mod commands;
pub mod ip_configuration;
pub mod num;
pub mod parser;
pub mod sequencer;

use vstd::prelude::*;

verus! {

/// Why a run, or one parsing pass over a captured document, failed.
#[derive(Clone, Debug)]
pub enum ConfigError {
    /// A document was fully scanned but yielded at most one usable
    /// record, or the protocol sequence ran out of steps without a
    /// complete configuration.
    ConfigurationNotFound,
    /// An intermediate step's output held neither a configuration
    /// nor a transaction id, so the sequence cannot go on.
    TransactionIdNotFound,
    /// The external tool reported failure; carries its captured
    /// error bytes verbatim.
    InvocationError(Vec<u8>),
}

impl ConfigError {
    /// A fixed description of the failure. For `InvocationError` the
    /// carried error text stands on its own beside this description.
    pub fn describe(&self) -> (r: String)
        ensures
            self is ConfigurationNotFound ==> r@ == "Ip configuration entries not found"@,
            self is TransactionIdNotFound ==> r@ == "Could not parse TRID"@,
            self is InvocationError ==> r@ == "External command failed"@,
    {
        match self {
            ConfigError::ConfigurationNotFound => String::from_str(
                "Ip configuration entries not found",
            ),
            ConfigError::TransactionIdNotFound => String::from_str("Could not parse TRID"),
            ConfigError::InvocationError(_) => String::from_str("External command failed"),
        }
    }
}

/// The command-line surface of the connection tool: where the modem
/// control endpoint lives, which network interface receives the
/// resolved addresses, and the two output switches.
pub struct Args {
    /// Device path of the modem control endpoint.
    pub mbim_device: String,
    /// Network interface the resolved configuration is applied to.
    pub wwan_device: String,
    /// Echo each external command and its captured output.
    pub verbose: bool,
    /// Emit the resolved DNS addresses on the error stream, for
    /// consumption by piping.
    pub dns_to_stderr: bool,
}

} // verus!
