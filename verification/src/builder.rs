//! Putting a proxy together from its parts.

use vstd::prelude::*;

use crate::engine::net::SocketAddr;
use crate::engine::tls::ListenTls;
use crate::error::Error;
use crate::proxy::ConnectionLimits;

verus! {

/// Collects the parts of a proxy. `C` is the connector, `P` a policy, `R` a
/// source of policies that can change while the proxy runs, and `S` a signal
/// to shut down.
pub struct ProxyBuilder<C, P, R, S> {
    listen_addr: SocketAddr,
    listen_tls: Option<ListenTls>,
    listen_starttls: Option<ListenTls>,
    connector: Option<C>,
    policies: Vec<P>,
    reloadable: Option<R>,
    limits: ConnectionLimits,
    shutdown: Option<S>,
}

/// The parts collected so far, as a mathematical value.
pub struct ProxyBuilderView<C, P, R, S> {
    pub listen_addr: SocketAddr,
    pub listen_tls: Option<ListenTls>,
    pub listen_starttls: Option<ListenTls>,
    pub connector: Option<C>,
    pub policies: Seq<P>,
    pub reloadable: Option<R>,
    pub limits: ConnectionLimits,
    pub shutdown: Option<S>,
}

impl<C, P, R, S> View for ProxyBuilder<C, P, R, S> {
    type V = ProxyBuilderView<C, P, R, S>;

    closed spec fn view(&self) -> ProxyBuilderView<C, P, R, S> {
        ProxyBuilderView {
            listen_addr: self.listen_addr,
            listen_tls: self.listen_tls,
            listen_starttls: self.listen_starttls,
            connector: self.connector,
            policies: self.policies@,
            reloadable: self.reloadable,
            limits: self.limits,
            shutdown: self.shutdown,
        }
    }
}

/// Where a proxy's policies come from.
pub enum PolicySupply<P, R> {
    /// A list that stays as it is.
    Fixed(Vec<P>),
    /// A source that is consulted anew for every connection.
    Reloadable(R),
}

/// How clients are spoken to.
pub enum ClientTransport {
    /// Without encryption.
    Plain,
    /// Without encryption until a client asks for it.
    StartTls(ListenTls),
    /// With TLS from the first octet.
    Tls(ListenTls),
}

/// How clients are spoken to, given the settings for TLS from the first octet
/// and for TLS on request.
pub open spec fn transport_of(
    listen_tls: Option<ListenTls>,
    listen_starttls: Option<ListenTls>,
) -> ClientTransport {
    match (listen_tls, listen_starttls) {
        (Some(tls), _) => ClientTransport::Tls(tls),
        (None, Some(tls)) => ClientTransport::StartTls(tls),
        (None, None) => ClientTransport::Plain,
    }
}

/// Clients are spoken to without encryption only where no TLS is configured at
/// all; TLS from the first octet, where it is configured, is spoken whether or
/// not clients could also ask for it; and the settings are the configured
/// ones.
pub proof fn configured_tls_is_spoken(
    listen_tls: Option<ListenTls>,
    listen_starttls: Option<ListenTls>,
    other: Option<ListenTls>,
)
    ensures
        transport_of(listen_tls, listen_starttls) is Plain <==> listen_tls is None
            && listen_starttls is None,
        listen_tls matches Some(tls) ==> transport_of(listen_tls, listen_starttls)
            == ClientTransport::Tls(tls) && transport_of(listen_tls, other) == transport_of(
            listen_tls,
            listen_starttls,
        ),
        listen_tls is None ==> (listen_starttls matches Some(tls) ==> transport_of(
            listen_tls,
            listen_starttls,
        ) == ClientTransport::StartTls(tls)),
{
}

/// A proxy with all the parts it needs.
pub struct Proxy<C, P, R, S> {
    pub listen_addr: SocketAddr,
    pub transport: ClientTransport,
    pub connector: C,
    pub policies: PolicySupply<P, R>,
    pub limits: ConnectionLimits,
    /// None for a proxy that runs until it fails.
    pub shutdown: Option<S>,
}

impl<C, P, R, S> ProxyBuilder<C, P, R, S> {
    /// A proxy that will listen on `listen_addr`, without encryption, with no
    /// policy, with the default limits and until it fails.
    pub fn new(listen_addr: SocketAddr) -> (builder: Self)
        ensures
            builder@.listen_addr == listen_addr,
            builder@.listen_tls is None,
            builder@.listen_starttls is None,
            builder@.connector is None,
            builder@.policies == Seq::<P>::empty(),
            builder@.reloadable is None,
            builder@.limits.max_connections == 1024,
            builder@.limits.io_timeout.secs() == 60,
            builder@.limits.io_timeout.subsec_nanos() == 0,
            builder@.limits.shutdown_timeout.secs() == 30,
            builder@.limits.shutdown_timeout.subsec_nanos() == 0,
            builder@.shutdown is None,
    {
        ProxyBuilder {
            listen_addr,
            listen_tls: None,
            listen_starttls: None,
            connector: None,
            policies: Vec::new(),
            reloadable: None,
            limits: ConnectionLimits::default(),
            shutdown: None,
        }
    }

    /// Shuts the proxy down on a signal.
    pub fn shutdown(self, shutdown: S) -> (builder: Self)
        ensures
            builder@ == (ProxyBuilderView { shutdown: Some(shutdown), ..self@ }),
    {
        let mut builder = self;
        builder.shutdown = Some(shutdown);
        builder
    }

    /// Speaks TLS with clients from the first octet.
    pub fn listen_tls(self, listen_tls: ListenTls) -> (builder: Self)
        ensures
            builder@ == (ProxyBuilderView { listen_tls: Some(listen_tls), ..self@ }),
    {
        let mut builder = self;
        builder.listen_tls = Some(listen_tls);
        builder
    }

    /// Speaks TLS with clients that ask for it. Without effect where TLS is
    /// spoken from the first octet.
    pub fn listen_starttls(self, listen_starttls: ListenTls) -> (builder: Self)
        ensures
            builder@ == (ProxyBuilderView { listen_starttls: Some(listen_starttls), ..self@ }),
    {
        let mut builder = self;
        builder.listen_starttls = Some(listen_starttls);
        builder
    }

    /// Sets the connector, which a proxy cannot do without.
    pub fn connector(self, connector: C) -> (builder: Self)
        ensures
            builder@ == (ProxyBuilderView { connector: Some(connector), ..self@ }),
    {
        let mut builder = self;
        builder.connector = Some(connector);
        builder
    }

    /// Appends a policy.
    pub fn policy(self, policy: P) -> (builder: Self)
        ensures
            builder@ == (ProxyBuilderView { policies: self@.policies.push(policy), ..self@ }),
    {
        let mut builder = self;
        builder.policies.push(policy);
        builder
    }

    /// Appends policies, in their order.
    pub fn policies(self, policies: Vec<P>) -> (builder: Self)
        ensures
            builder@ == (ProxyBuilderView { policies: self@.policies + policies@, ..self@ }),
    {
        let mut builder = self;
        let mut more = policies;
        builder.policies.append(&mut more);
        builder
    }

    /// Takes the policies from a source that can change while the proxy runs,
    /// instead of the list.
    pub fn policies_reloadable(self, reloadable: R) -> (builder: Self)
        ensures
            builder@ == (ProxyBuilderView { reloadable: Some(reloadable), ..self@ }),
    {
        let mut builder = self;
        builder.reloadable = Some(reloadable);
        builder
    }

    /// Sets the limits.
    pub fn limits(self, limits: ConnectionLimits) -> (builder: Self)
        ensures
            builder@ == (ProxyBuilderView { limits, ..self@ }),
    {
        let mut builder = self;
        builder.limits = limits;
        builder
    }

    /// The proxy, ready to be served; fails only for want of a connector.
    pub fn ready(self) -> (proxy: Result<Proxy<C, P, R, S>, Error>)
        ensures
            match self@.connector {
                None => proxy matches Err(Error::MissingConnector),
                Some(connector) => {
                    &&& proxy matches Ok(proxy)
                    &&& proxy.listen_addr == self@.listen_addr
                    &&& proxy.connector == connector
                    &&& proxy.limits == self@.limits
                    &&& proxy.shutdown == self@.shutdown
                    &&& match self@.reloadable {
                        Some(source) => proxy.policies == PolicySupply::<P, R>::Reloadable(source),
                        None => proxy.policies matches PolicySupply::Fixed(list) && list@
                            == self@.policies,
                    }
                    &&& proxy.transport == transport_of(self@.listen_tls, self@.listen_starttls)
                    &&& proxy.transport == match (self@.listen_tls, self@.listen_starttls) {
                        (Some(tls), _) => ClientTransport::Tls(tls),
                        (None, Some(tls)) => ClientTransport::StartTls(tls),
                        (None, None) => ClientTransport::Plain,
                    }
                },
            },
    {
        match self.connector {
            None => Err(Error::MissingConnector),
            Some(connector) => Ok(
                Proxy {
                    listen_addr: self.listen_addr,
                    transport: match (self.listen_tls, self.listen_starttls) {
                        (Some(tls), _) => ClientTransport::Tls(tls),
                        (None, Some(tls)) => ClientTransport::StartTls(tls),
                        (None, None) => ClientTransport::Plain,
                    },
                    connector,
                    policies: match self.reloadable {
                        Some(source) => PolicySupply::Reloadable(source),
                        None => PolicySupply::Fixed(self.policies),
                    },
                    limits: self.limits,
                    shutdown: self.shutdown,
                },
            ),
        }
    }
}

}
