//! Service configuration data that the verified core decides over. Reading
//! a configuration file and parsing command-line flags stay outside the
//! library; the TLS enablement rule lives here.

use vstd::prelude::*;

verus! {

/// The TLS material of the listener: both files must be named together for
/// TLS to be enabled.
#[derive(Debug)]
pub struct TlsConfig {
    /// Path to the certificate file in PEM format.
    pub certificate: String,
    /// Path to the private key file in PEM format.
    pub private_key: String,
}

/// How the listener is to be served, decided from the optional TLS paths.
#[derive(Clone, Copy, Debug, PartialEq, Eq, Structural)]
pub enum TlsMode {
    /// Certificate and private key both given: serve HTTPS.
    Tls,
    /// Neither given: serve plain HTTP.
    Plain,
    /// Only one of the two given: refuse to start.
    Misconfigured,
}

/// The TLS enablement rule: both paths or neither; one alone is a
/// configuration error, not a silent fallback to plain HTTP.
pub fn tls_mode(certificate: Option<&String>, private_key: Option<&String>) -> (m: TlsMode)
    ensures
        certificate is Some && private_key is Some ==> m == TlsMode::Tls,
        certificate is None && private_key is None ==> m == TlsMode::Plain,
        (certificate is Some) != (private_key is Some) ==> m == TlsMode::Misconfigured,
{
    match (certificate, private_key) {
        (Some(_), Some(_)) => TlsMode::Tls,
        (None, None) => TlsMode::Plain,
        _ => TlsMode::Misconfigured,
    }
}

} // verus!
