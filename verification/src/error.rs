//! Why a registration was turned down.

use crate::addr::{address_text, Ipv6Addr};
use crate::ident::uuid_text;
use crate::names::{Host, ServiceName};
use crate::text::{append_decimal, decimal};
use vstd::prelude::*;
use vstd::string::*;

verus! {

/// A host together with the address it has, or was to get.
#[derive(Clone, Copy, Debug, PartialEq, Eq)]
pub struct HostAddr {
    pub host: Host,
    pub addr: Ipv6Addr,
}

/// A registration that the builder did not accept. The builder is unchanged
/// by a registration that it turns down.
#[derive(Clone, Copy, Debug, PartialEq, Eq)]
pub enum ConfigError {
    /// The sled, or the zone, has been registered before.
    DuplicateHost { previous: HostAddr, attempted: HostAddr },
    /// The handle does not stand for a host of this builder.
    UnknownHostReference { host: Host },
    /// The host is a backend of the service already.
    DuplicateBackend { service: ServiceName, host: Host, previous_port: u16, attempted_port: u16 },
}

impl ConfigError {
    /// The message of an error, in words.
    pub open spec fn message_text(self) -> Seq<char> {
        match self {
            ConfigError::DuplicateHost { previous, attempted } => "multiple definitions for "@
                + attempted.host.kind() + " "@ + uuid_text(attempted.host.id().0) + " (previously "@
                + address_text(previous.addr.segments@) + ", now "@ + address_text(
                attempted.addr.segments@,
            ) + ")"@,
            ConfigError::UnknownHostReference { host } => host.kind() + " "@ + uuid_text(host.id().0)
                + " has not been defined"@,
            ConfigError::DuplicateBackend { service, host, previous_port, attempted_port } =>
                "service "@ + service.name() + ": "@ + host.kind() + " "@ + uuid_text(host.id().0)
                    + ": registered twice (previously port "@ + decimal(previous_port as nat)
                    + ", now "@ + decimal(attempted_port as nat) + ")"@,
        }
    }

    /// Returns the message of this error, in words.
    pub fn message(&self) -> (text: String)
        ensures
            text@ == self.message_text(),
    {
        match self {
            ConfigError::DuplicateHost { previous, attempted } => {
                let mut text = String::from_str("multiple definitions for ");
                text.append(attempted.host.kind_word());
                text.append(" ");
                text.append(attempted.host.uuid().text().as_str());
                text.append(" (previously ");
                text.append(previous.addr.text().as_str());
                text.append(", now ");
                text.append(attempted.addr.text().as_str());
                text.append(")");
                text
            },
            ConfigError::UnknownHostReference { host } => {
                let mut text = String::from_str(host.kind_word());
                text.append(" ");
                text.append(host.uuid().text().as_str());
                text.append(" has not been defined");
                text
            },
            ConfigError::DuplicateBackend { service, host, previous_port, attempted_port } => {
                let mut text = String::from_str("service ");
                text.append(service.dns_name().as_str());
                text.append(": ");
                text.append(host.kind_word());
                text.append(" ");
                text.append(host.uuid().text().as_str());
                text.append(": registered twice (previously port ");
                append_decimal(&mut text, *previous_port as u64);
                text.append(", now ");
                append_decimal(&mut text, *attempted_port as u64);
                text.append(")");
                text
            },
        }
    }
}

} // verus!
