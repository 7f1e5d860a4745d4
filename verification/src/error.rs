//! What can go wrong before a proxy runs.

use vstd::prelude::*;

use crate::config::ConfigError;
use crate::engine::health::HealthError;
use crate::engine::policy::config::PolicyConfigError;
use crate::engine::tls::TlsError;
use crate::proxy::listener::ProxyError;

verus! {

/// The failures of setting up and running a proxy. Failures of a single
/// connection end that connection and are not among them.
#[derive(Debug)]
pub enum Error {
    Config(ConfigError),
    Policy(PolicyConfigError),
    Tls(TlsError),
    Proxy(ProxyError),
    /// The metrics endpoint cannot be run, for the given reason.
    Metrics(String),
    Health(HealthError),
    MissingConnector,
}

impl Error {
    /// What the error reads.
    pub open spec fn text(self) -> Seq<char> {
        match self {
            Error::Config(error) => error.text(),
            Error::Policy(error) => error.text(),
            Error::Tls(error) => error@.text(),
            Error::Proxy(error) => error.text(),
            Error::Metrics(reason) => reason@,
            Error::Health(error) => error.text(),
            Error::MissingConnector => "proxy builder requires a connector before serving"@,
        }
    }

    /// The text of the error.
    pub fn message(&self) -> (message: String)
        ensures
            message@ == self.text(),
            message@ == match self {
                Error::Config(error) => error.text(),
                Error::Policy(error) => error.text(),
                Error::Tls(error) => error@.text(),
                Error::Proxy(error) => error.text(),
                Error::Metrics(reason) => reason@,
                Error::Health(error) => error.text(),
                Error::MissingConnector => "proxy builder requires a connector before serving"@,
            },
    {
        match self {
            Error::Config(error) => error.message(),
            Error::Policy(error) => error.message(),
            Error::Tls(error) => error.message(),
            Error::Proxy(error) => error.message(),
            Error::Metrics(reason) => reason.clone(),
            Error::Health(error) => error.message(),
            Error::MissingConnector => {
                "proxy builder requires a connector before serving".to_owned()
            },
        }
    }
}

/// An error reads what its cause does, with nothing before or after it.
pub proof fn errors_read_as_their_causes(
    config: ConfigError,
    policy: PolicyConfigError,
    tls: TlsError,
    proxy: ProxyError,
    reason: String,
    health: HealthError,
)
    ensures
        Error::Config(config).text() == config.text(),
        Error::Policy(policy).text() == policy.text(),
        Error::Tls(tls).text() == tls@.text(),
        Error::Proxy(proxy).text() == proxy.text(),
        Error::Metrics(reason).text() == reason@,
        Error::Health(health).text() == health.text(),
        Error::MissingConnector.text() == "proxy builder requires a connector before serving"@,
{
}

}
