//! Resolution of the command-line options into one device configuration.

use vstd::prelude::*;

use crate::mac::is_locally_administered_unicast;
use crate::mac::generate_random_mac;

verus! {

/// The MTU used when the command line gives none.
pub const DEFAULT_MTU: u16 = 1500;

/// Where the resolved MAC address came from.
#[derive(Clone, Copy, Debug, PartialEq, Eq, Structural)]
pub enum MacSource {
    /// The address was given on the command line.
    UserSupplied,
    /// No address was given; one was generated at random.
    RandomlyGenerated,
}

/// How loudly the resolved MAC address is to be logged: a random default
/// is noteworthy, a user-supplied address is a quiet success.
#[derive(Clone, Copy, Debug, PartialEq, Eq, Structural)]
pub enum LogSeverity {
    Informational,
    Warning,
}

/// Everything device creation needs: a name, an MTU and a MAC address.
pub struct DeviceConfig {
    pub name: String,
    pub mtu: u16,
    pub mac: [u8; 6],
}

/// The interface name used when the command line gives none.
pub fn default_device_name() -> (r: String)
    ensures
        r@ == "tap0"@,
{
    String::from_str("tap0")
}

/// The address to use: the requested one when present, else a fresh
/// random locally-administered unicast address.
pub fn resolve_mac(requested: Option<[u8; 6]>) -> (r: ([u8; 6], MacSource))
    ensures
        match requested {
            Some(m) => r.0 == m && r.1 == MacSource::UserSupplied,
            None => is_locally_administered_unicast(r.0@) && r.1 == MacSource::RandomlyGenerated,
        },
{
    match requested {
        Some(m) => (m, MacSource::UserSupplied),
        None => (generate_random_mac(), MacSource::RandomlyGenerated),
    }
}

/// The full configuration: the given name and MTU, and the MAC address
/// as `resolve_mac` chooses it.
pub fn resolve_config(name: String, mtu: u16, requested_mac: Option<[u8; 6]>) -> (r: (
    DeviceConfig,
    MacSource,
))
    ensures
        r.0.name == name,
        r.0.mtu == mtu,
        match requested_mac {
            Some(m) => r.0.mac == m && r.1 == MacSource::UserSupplied,
            None => is_locally_administered_unicast(r.0.mac@) && r.1
                == MacSource::RandomlyGenerated,
        },
{
    let (mac, source) = resolve_mac(requested_mac);
    (DeviceConfig { name, mtu, mac }, source)
}

impl MacSource {
    /// The severity at which the resolved address is logged: warning for
    /// a random default, informational for a user-supplied address.
    pub fn log_severity(&self) -> (s: LogSeverity)
        ensures
            s == LogSeverity::Warning <==> *self == MacSource::RandomlyGenerated,
            s == LogSeverity::Informational <==> *self == MacSource::UserSupplied,
    {
        match self {
            MacSource::UserSupplied => LogSeverity::Informational,
            MacSource::RandomlyGenerated => LogSeverity::Warning,
        }
    }
}

} // verus!
