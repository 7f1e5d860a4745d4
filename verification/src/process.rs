//! A process that runs one proxy per configured entry.

use vstd::prelude::*;

use crate::builder::ProxyBuilder;
use crate::config::ProxyConfig;
use crate::connector::ldap::LdapConnector;
use crate::engine::policy::config;
use crate::engine::policy::config::{OpenedStore, PolicyConfigError, PolicyEntry};
use crate::engine::policy::threshold::ThresholdPolicy;
use crate::engine::tls;
use crate::engine::tls::{
    ListenTls, ListenTlsView, SourceFile, SourceFileView, TlsErrorView, UpstreamTls,
    UpstreamTlsView,
};
use crate::error::Error;

verus! {

/// What the files of an upstream's TLS settings hold.
#[derive(Debug, Clone)]
pub struct UpstreamFiles {
    pub ca: Option<SourceFile>,
    /// The system's authorities.
    pub native_certs: Vec<Vec<u8>>,
    pub client_cert: Option<(SourceFile, SourceFile)>,
}

/// What the files of a listener's TLS settings hold.
#[derive(Debug, Clone)]
pub struct ListenFiles {
    pub cert: SourceFile,
    pub key: SourceFile,
    pub client_ca: Option<SourceFile>,
}

/// What the files of a configured proxy hold.
#[derive(Debug)]
pub struct ProxyFiles {
    pub upstream_tls: Option<UpstreamFiles>,
    pub listen_tls: Option<ListenFiles>,
    pub listen_starttls: Option<ListenFiles>,
    /// The policies, each with the store opened for it.
    pub policies: Result<Vec<(PolicyEntry, Option<OpenedStore>)>, PolicyConfigError>,
}

/// An optional file as a mathematical value.
pub open spec fn file_view(file: Option<SourceFile>) -> Option<SourceFileView> {
    match file {
        Some(file) => Some(file@),
        None => None,
    }
}

impl UpstreamFiles {
    /// What comes of setting up TLS to the upstream called `name`.
    pub open spec fn outcome(self, name: Seq<char>) -> Result<UpstreamTlsView, TlsErrorView> {
        tls::upstream_outcome(
            name,
            file_view(self.ca),
            tls::certs_view(self.native_certs@),
            match self.client_cert {
                Some((cert_file, key_file)) => Some((cert_file@, key_file@)),
                None => None,
            },
        )
    }
}

impl ListenFiles {
    /// What comes of setting up TLS for clients.
    pub open spec fn outcome(self) -> Result<ListenTlsView, TlsErrorView> {
        tls::listen_outcome(self.cert@, self.key@, file_view(self.client_ca))
    }
}

impl ProxyFiles {
    /// Whether the files are those that `proxy` is configured with.
    pub open spec fn belong_to(self, proxy: ProxyConfig) -> bool {
        &&& self.upstream_tls is Some <==> proxy.upstream_tls is Some
        &&& self.listen_tls is Some <==> proxy.listen_tls is Some
        &&& self.listen_starttls is Some <==> proxy.listen_starttls is Some
    }

    /// What comes of setting up TLS to the upstream of `proxy`, if any.
    pub open spec fn upstream(self, proxy: ProxyConfig) -> Result<
        Option<UpstreamTlsView>,
        TlsErrorView,
    > {
        match (proxy.upstream_tls, self.upstream_tls) {
            (Some(settings), Some(files)) => match files.outcome(settings.server_name@) {
                Ok(made) => Ok(Some(made)),
                Err(error) => Err(error),
            },
            _ => Ok(None),
        }
    }
}

/// What comes of setting up TLS for clients, if any.
pub open spec fn listener(files: Option<ListenFiles>) -> Result<
    Option<ListenTlsView>,
    TlsErrorView,
> {
    match files {
        Some(files) => match files.outcome() {
            Ok(made) => Ok(Some(made)),
            Err(error) => Err(error),
        },
        None => Ok(None),
    }
}

/// Whether optional settings for clients are the expected ones.
pub open spec fn is_listener(made: Option<ListenTls>, expected: Option<ListenTlsView>) -> bool {
    match (made, expected) {
        (Some(made), Some(expected)) => made@ == expected,
        (None, None) => true,
        _ => false,
    }
}

fn set_up_listener(files: Option<ListenFiles>) -> (made: Result<Option<ListenTls>, Error>)
    ensures
        match listener(files) {
            Ok(expected) => made matches Ok(made) && is_listener(made, expected),
            Err(error) => made matches Err(Error::Tls(e)) && e@ == error,
        },
{
    match files {
        None => Ok(None),
        Some(files) => match ListenTls::from_files(&files.cert, &files.key, files.client_ca) {
            Ok(made) => Ok(Some(made)),
            Err(error) => Err(Error::Tls(error)),
        },
    }
}

/// Whether a connector is the one that `proxy` is configured with.
pub open spec fn is_connector(
    connector: LdapConnector,
    proxy: ProxyConfig,
    expected: Option<UpstreamTlsView>,
) -> bool {
    &&& connector.upstream_addr() == proxy.upstream_addr
    &&& connector.upstream_starttls() == proxy.asks_for_starttls()
    &&& match (connector.upstream_tls(), expected) {
        (Some(made), Some(expected)) => made@ == expected,
        (None, None) => true,
        _ => false,
    }
}

/// What keeps TLS from being set up for a proxy, if anything: the first of
/// what is wrong with the upstream's settings, with the listener's and with
/// the listener's StartTLS settings.
pub open spec fn tls_trouble(files: ProxyFiles, proxy: ProxyConfig) -> Option<TlsErrorView> {
    match (files.upstream(proxy), listener(files.listen_tls), listener(files.listen_starttls)) {
        (Err(error), _, _) => Some(error),
        (_, Err(error), _) => Some(error),
        (_, _, Err(error)) => Some(error),
        _ => None,
    }
}

/// Nothing keeps TLS from being set up if and only if all three parts can be
/// set up; otherwise the trouble is that of the first part that cannot be,
/// whatever the parts after it are.
pub proof fn the_first_trouble_is_reported(files: ProxyFiles, proxy: ProxyConfig)
    ensures
        tls_trouble(files, proxy) is None <==> files.upstream(proxy) is Ok && listener(
            files.listen_tls,
        ) is Ok && listener(files.listen_starttls) is Ok,
        files.upstream(proxy) matches Err(error) ==> tls_trouble(files, proxy) == Some(error),
        files.upstream(proxy) is Ok ==> (listener(files.listen_tls) matches Err(error)
            ==> tls_trouble(files, proxy) == Some(error)),
        files.upstream(proxy) is Ok && listener(files.listen_tls) is Ok ==> (listener(
            files.listen_starttls,
        ) matches Err(error) ==> tls_trouble(files, proxy) == Some(error)),
{
}

/// Puts a configured proxy together from what its files hold. When several of
/// them are unusable, the error is that of the upstream's TLS settings, else
/// that of the listener's, else that of the listener's StartTLS settings,
/// else that of the policies.
pub fn build_proxy<R, S>(proxy: &ProxyConfig, files: ProxyFiles) -> (builder: Result<
    ProxyBuilder<LdapConnector, ThresholdPolicy, R, S>,
    Error,
>)
    requires
        files.belong_to(*proxy),
    ensures
        match tls_trouble(files, *proxy) {
            Some(error) => builder matches Err(Error::Tls(e)) && e@ == error,
            None => match files.policies {
                Err(error) => builder matches Err(Error::Policy(e)) && e == error,
                Ok(_) => builder is Ok,
            },
        },
        match (
            files.upstream(*proxy),
            listener(files.listen_tls),
            listener(files.listen_starttls),
            files.policies,
        ) {
            (Err(error), _, _, _) => builder matches Err(Error::Tls(e)) && e@ == error,
            (_, Err(error), _, _) => builder matches Err(Error::Tls(e)) && e@ == error,
            (_, _, Err(error), _) => builder matches Err(Error::Tls(e)) && e@ == error,
            (_, _, _, Err(error)) => builder matches Err(Error::Policy(e)) && e == error,
            (Ok(upstream), Ok(listen_tls), Ok(listen_starttls), Ok(entries)) => {
                &&& builder matches Ok(builder)
                &&& builder@.listen_addr == proxy.listen_addr
                &&& builder@.connector matches Some(connector)
                &&& is_connector(connector, *proxy, upstream)
                &&& is_listener(builder@.listen_tls, listen_tls)
                &&& is_listener(builder@.listen_starttls, listen_starttls)
                &&& config::made_of(builder@.policies, entries@)
                &&& proxy.has_limits(builder@.limits)
                &&& builder@.reloadable is None
                &&& builder@.shutdown is None
            },
        },
{
    let upstream_tls = match (&proxy.upstream_tls, files.upstream_tls) {
        (Some(settings), Some(read)) => match UpstreamTls::new(
            settings.server_name.as_str(),
            read.ca,
            read.native_certs,
            read.client_cert,
        ) {
            Ok(made) => Some(made),
            Err(error) => {
                return Err(Error::Tls(error));
            },
        },
        _ => None,
    };
    let starttls = match &proxy.upstream_tls {
        Some(settings) => settings.starttls,
        None => false,
    };
    let connector = LdapConnector::new(
        proxy.upstream_addr.duplicate(),
        upstream_tls,
    ).with_starttls(starttls);
    let listen_tls = match set_up_listener(files.listen_tls) {
        Ok(made) => made,
        Err(error) => {
            return Err(error);
        },
    };
    let listen_starttls = match set_up_listener(files.listen_starttls) {
        Ok(made) => made,
        Err(error) => {
            return Err(error);
        },
    };
    let policies = match files.policies {
        Ok(entries) => config::build_policies(entries),
        Err(error) => {
            return Err(Error::Policy(error));
        },
    };
    let mut builder = ProxyBuilder::new(proxy.listen_addr.duplicate()).connector(
        connector,
    ).policies(policies).limits(proxy.limits());
    assert(builder@.policies =~= policies@);
    if let Some(made) = listen_tls {
        builder = builder.listen_tls(made);
    }
    if let Some(made) = listen_starttls {
        builder = builder.listen_starttls(made);
    }
    Ok(builder)
}

/// What becomes of the policies when all of them are loaded anew.
pub struct Reload<T> {
    /// The entries whose policies are replaced, and by what.
    pub replaced: Vec<(usize, T)>,
    /// The entries whose policies stay as they are, and why.
    pub kept: Vec<(usize, PolicyConfigError)>,
}

/// The entries that could be loaded, in their order.
pub open spec fn loaded_entries<T>(loaded: Seq<Result<T, PolicyConfigError>>) -> Seq<(usize, T)>
    decreases loaded.len(),
{
    if loaded.len() == 0 {
        Seq::empty()
    } else {
        match loaded.last() {
            Ok(policies) => loaded_entries(loaded.drop_last()).push(
                ((loaded.len() - 1) as usize, policies),
            ),
            Err(_) => loaded_entries(loaded.drop_last()),
        }
    }
}

/// The entries that could not be loaded, in their order.
pub open spec fn failed_entries<T>(loaded: Seq<Result<T, PolicyConfigError>>) -> Seq<
    (usize, PolicyConfigError),
>
    decreases loaded.len(),
{
    if loaded.len() == 0 {
        Seq::empty()
    } else {
        match loaded.last() {
            Ok(_) => failed_entries(loaded.drop_last()),
            Err(error) => failed_entries(loaded.drop_last()).push(
                ((loaded.len() - 1) as usize, error),
            ),
        }
    }
}

/// Sorts out what was loaded anew for each entry. An entry that cannot be
/// loaded keeps its policies and is no hindrance to the others.
pub fn reload<T>(loaded: Vec<Result<T, PolicyConfigError>>) -> (outcome: Reload<T>)
    ensures
        outcome.replaced@ == loaded_entries(loaded@),
        outcome.kept@ == failed_entries(loaded@),
{
    let ghost all = loaded@;
    assert(all.len() == loaded.len());
    let mut left = loaded;
    let mut in_turn: Vec<Result<T, PolicyConfigError>> = Vec::new();
    while left.len() > 0
        invariant
            left@.len() + in_turn@.len() == all.len(),
            left@ == all.take(left@.len() as int),
            all.len() <= usize::MAX,
            forall|i: int|
                0 <= i < in_turn@.len() ==> #[trigger] in_turn@[i] == all[all.len() - 1 - i],
        decreases left.len(),
    {
        let ghost n = left@.len() as int;
        if let Some(entry) = left.pop() {
            assert(entry == all[n - 1]);
            in_turn.push(entry);
        }
        assert(left@ =~= all.take(n - 1));
    }
    let mut replaced: Vec<(usize, T)> = Vec::new();
    let mut kept: Vec<(usize, PolicyConfigError)> = Vec::new();
    let mut index: usize = 0;
    assert(all.take(0) =~= Seq::empty());
    while in_turn.len() > 0
        invariant
            index + in_turn@.len() == all.len(),
            all.len() <= usize::MAX,
            forall|i: int|
                0 <= i < in_turn@.len() ==> #[trigger] in_turn@[i] == all[all.len() - 1 - i],
            replaced@ == loaded_entries(all.take(index as int)),
            kept@ == failed_entries(all.take(index as int)),
        decreases in_turn.len(),
    {
        assert(all.take(index + 1).drop_last() =~= all.take(index as int));
        if let Some(entry) = in_turn.pop() {
            assert(entry == all[index as int]);
            match entry {
                Ok(policies) => replaced.push((index, policies)),
                Err(error) => kept.push((index, error)),
            }
        }
        index += 1;
    }
    assert(all.take(index as int) =~= all);
    Reload { replaced, kept }
}

/// Every entry is either replaced by what was loaded for it or kept, whatever
/// became of the others.
pub proof fn entries_reload_independently<T>(loaded: Seq<Result<T, PolicyConfigError>>, entry: usize)
    requires
        entry < loaded.len() <= usize::MAX,
    ensures
        match loaded[entry as int] {
            Ok(policies) => loaded_entries(loaded).contains((entry, policies)),
            Err(error) => failed_entries(loaded).contains((entry, error)),
        },
    decreases loaded.len(),
{
    let rest = loaded.drop_last();
    if entry == loaded.len() - 1 {
        match loaded.last() {
            Ok(policies) => {
                let all = loaded_entries(loaded);
                assert(all[all.len() - 1] == (entry, policies));
            },
            Err(error) => {
                let all = failed_entries(loaded);
                assert(all[all.len() - 1] == (entry, error));
            },
        }
    } else {
        entries_reload_independently(rest, entry);
        assert(rest[entry as int] == loaded[entry as int]);
        match loaded[entry as int] {
            Ok(policies) => {
                let at = loaded_entries(rest).index_of((entry, policies));
                assert(loaded_entries(loaded)[at] == (entry, policies));
            },
            Err(error) => {
                let at = failed_entries(rest).index_of((entry, error));
                assert(failed_entries(loaded)[at] == (entry, error));
            },
        }
    }
}

/// How a process ends, if it does, when one of the proxies that still run
/// exits with `result`.
pub open spec fn end_after(running: nat, result: Result<(), Error>) -> Option<Result<(), Error>> {
    match result {
        Err(error) => Some(Err(error)),
        Ok(_) => if running == 1 {
            Some(Ok(()))
        } else {
            None
        },
    }
}

/// How many of a process's proxies still run.
#[derive(Debug, Clone, Copy)]
pub struct Supervisor {
    running: usize,
}

impl View for Supervisor {
    type V = nat;

    closed spec fn view(&self) -> nat {
        self.running as nat
    }
}

impl Supervisor {
    /// Supervises a number of proxies.
    pub fn new(proxies: usize) -> (supervisor: Supervisor)
        ensures
            supervisor@ == proxies,
    {
        Supervisor { running: proxies }
    }

    /// Whether there is nothing left to wait for.
    pub fn is_done(&self) -> (done: bool)
        ensures
            done == (self@ == 0),
    {
        self.running == 0
    }

    /// Takes note that a proxy has ended. A failure ends the process at once,
    /// with that failure; otherwise the process ends, successfully, when the
    /// last proxy has.
    pub fn on_exit(&mut self, result: Result<(), Error>) -> (end: Option<Result<(), Error>>)
        requires
            old(self)@ > 0,
        ensures
            final(self)@ == old(self)@ - 1,
            end == end_after(old(self)@, result),
            match result {
                Err(error) => end == Some(Err::<(), Error>(error)),
                Ok(_) => if old(self)@ == 1 {
                    end == Some(Ok::<(), Error>(()))
                } else {
                    end is None
                },
            },
    {
        self.running = self.running - 1;
        match result {
            Err(error) => Some(Err(error)),
            Ok(_) => if self.running == 0 {
                Some(Ok(()))
            } else {
                None
            },
        }
    }
}

/// Loading anew leaves nothing out and makes nothing up: the entries that are
/// replaced and those that are kept are all entries, each appears once, in the
/// order of the configuration, with what was loaded for it or with why it
/// could not be.
pub proof fn reloading_accounts_for_every_entry<T>(loaded: Seq<Result<T, PolicyConfigError>>)
    requires
        loaded.len() <= usize::MAX,
    ensures
        loaded_entries(loaded).len() + failed_entries(loaded).len() == loaded.len(),
        forall|i: int|
            0 <= i < loaded_entries(loaded).len() ==> {
                let (entry, policies) = #[trigger] loaded_entries(loaded)[i];
                entry < loaded.len() && loaded[entry as int] == Ok::<T, PolicyConfigError>(policies)
            },
        forall|i: int|
            0 <= i < failed_entries(loaded).len() ==> {
                let (entry, error) = #[trigger] failed_entries(loaded)[i];
                entry < loaded.len() && loaded[entry as int] == Err::<T, PolicyConfigError>(error)
            },
        forall|i: int, j: int|
            0 <= i < j < loaded_entries(loaded).len() ==> (#[trigger] loaded_entries(loaded)[i]).0
                < (#[trigger] loaded_entries(loaded)[j]).0,
        forall|i: int, j: int|
            0 <= i < j < failed_entries(loaded).len() ==> (#[trigger] failed_entries(loaded)[i]).0
                < (#[trigger] failed_entries(loaded)[j]).0,
    decreases loaded.len(),
{
    if loaded.len() > 0 {
        let rest = loaded.drop_last();
        reloading_accounts_for_every_entry(rest);
        assert(forall|i: int| 0 <= i < rest.len() ==> #[trigger] rest[i] == loaded[i]);
        assert forall|i: int| 0 <= i < loaded_entries(loaded).len() implies ({
            let (entry, policies) = #[trigger] loaded_entries(loaded)[i];
            entry < loaded.len() && loaded[entry as int] == Ok::<T, PolicyConfigError>(policies)
        }) by {
            if i < loaded_entries(rest).len() {
                assert(loaded_entries(loaded)[i] == loaded_entries(rest)[i]);
            }
        }
        assert forall|i: int| 0 <= i < failed_entries(loaded).len() implies ({
            let (entry, error) = #[trigger] failed_entries(loaded)[i];
            entry < loaded.len() && loaded[entry as int] == Err::<T, PolicyConfigError>(error)
        }) by {
            if i < failed_entries(rest).len() {
                assert(failed_entries(loaded)[i] == failed_entries(rest)[i]);
            }
        }
        assert forall|i: int, j: int| 0 <= i < j < loaded_entries(loaded).len() implies (
        #[trigger] loaded_entries(loaded)[i]).0 < (#[trigger] loaded_entries(loaded)[j]).0 by {
            assert(loaded_entries(loaded)[i] == loaded_entries(rest)[i]);
            if j < loaded_entries(rest).len() {
                assert(loaded_entries(loaded)[j] == loaded_entries(rest)[j]);
            }
        }
        assert forall|i: int, j: int| 0 <= i < j < failed_entries(loaded).len() implies (
        #[trigger] failed_entries(loaded)[i]).0 < (#[trigger] failed_entries(loaded)[j]).0 by {
            assert(failed_entries(loaded)[i] == failed_entries(rest)[i]);
            if j < failed_entries(rest).len() {
                assert(failed_entries(loaded)[j] == failed_entries(rest)[j]);
            }
        }
    }
}

/// A proxy speaks TLS with its upstream if and only if it is configured to,
/// with the server name that is configured and what the files hold; the same
/// holds of clients.
pub proof fn tls_is_set_up_where_configured(
    files: ProxyFiles,
    proxy: ProxyConfig,
    listen: Option<ListenFiles>,
)
    requires
        files.belong_to(proxy),
    ensures
        proxy.upstream_tls is None ==> files.upstream(proxy) matches Ok(None),
        proxy.upstream_tls matches Some(settings) ==> {
            &&& files.upstream_tls matches Some(read)
            &&& match files.upstream(proxy) {
                Ok(made) => made matches Some(made) && Ok::<UpstreamTlsView, TlsErrorView>(made)
                    == read.outcome(settings.server_name@),
                Err(error) => Err::<UpstreamTlsView, TlsErrorView>(error) == read.outcome(
                    settings.server_name@,
                ),
            }
            &&& proxy.asks_for_starttls() == settings.starttls
        },
        proxy.upstream_tls is None ==> !proxy.asks_for_starttls(),
        listen is None ==> listener(listen) matches Ok(None),
        listen matches Some(read) ==> match listener(listen) {
            Ok(made) => made matches Some(made) && Ok::<ListenTlsView, TlsErrorView>(made)
                == read.outcome(),
            Err(error) => Err::<ListenTlsView, TlsErrorView>(error) == read.outcome(),
        },
{
}

/// A connector that is the configured one dials the configured address, over
/// TLS with the settings made for it if there are any, and begins in plain
/// text only where that is configured.
pub proof fn connectors_follow_the_configuration(
    connector: LdapConnector,
    proxy: ProxyConfig,
    expected: Option<UpstreamTlsView>,
)
    requires
        is_connector(connector, proxy, expected),
    ensures
        connector.upstream_addr() == proxy.upstream_addr,
        connector.upstream_tls() is Some <==> expected is Some,
        connector.upstream_tls() matches Some(made) ==> expected == Some(made@),
        connector.upstream_starttls() ==> (proxy.upstream_tls matches Some(settings)
            && settings.starttls),
        proxy.upstream_tls matches Some(settings) ==> connector.upstream_starttls()
            == settings.starttls,
{
}

/// How a process of so many proxies has ended after the given exits, if it
/// has: it ends once, and what exits later does not matter.
pub open spec fn ended(proxies: nat, exits: Seq<Result<(), Error>>) -> Option<Result<(), Error>>
    decreases exits.len(),
{
    if exits.len() == 0 {
        None
    } else {
        match ended(proxies, exits.drop_last()) {
            Some(end) => Some(end),
            None => end_after((proxies - exits.len() + 1) as nat, exits.last()),
        }
    }
}

/// A process ends with its first failure as soon as that comes, and if none
/// comes it ends, successfully, when the last of its proxies has; until then
/// it goes on.
pub proof fn a_process_outlives_all_but_failures(
    proxies: nat,
    exits: Seq<Result<(), Error>>,
    at: int,
)
    requires
        exits.len() <= proxies,
    ensures
        0 <= at < exits.len() && exits[at] is Err && (forall|i: int|
            0 <= i < at ==> (#[trigger] exits[i]) is Ok) ==> ended(proxies, exits) == Some(exits[at]),
        (forall|i: int| 0 <= i < exits.len() ==> (#[trigger] exits[i]) is Ok) ==> {
            &&& 0 < exits.len() && exits.len() == proxies ==> ended(proxies, exits) == Some(
                Ok::<(), Error>(()),
            )
            &&& exits.len() < proxies ==> ended(proxies, exits) is None
        },
    decreases exits.len(),
{
    if exits.len() > 0 {
        let last = exits.len() - 1;
        let earlier = exits.drop_last();
        assert(exits.last() == exits[last]);
        assert(forall|i: int| 0 <= i < last ==> #[trigger] earlier[i] == exits[i]);
        a_process_outlives_all_but_failures(proxies, earlier, at);
        if forall|i: int| 0 <= i < exits.len() ==> (#[trigger] exits[i]) is Ok {
            assert(exits[last] is Ok);
            assert forall|i: int| 0 <= i < earlier.len() implies (#[trigger] earlier[i]) is Ok by {
                assert(exits[i] is Ok);
            }
        }
        if at == last && (forall|i: int| 0 <= i < at ==> (#[trigger] exits[i]) is Ok) {
            assert forall|i: int| 0 <= i < earlier.len() implies (#[trigger] earlier[i]) is Ok by {
                assert(exits[i] is Ok);
            }
        }
        if 0 <= at < last && (forall|i: int| 0 <= i < at ==> (#[trigger] exits[i]) is Ok) {
            assert(earlier[at] == exits[at]);
            assert forall|i: int| 0 <= i < at implies (#[trigger] earlier[i]) is Ok by {
                assert(exits[i] is Ok);
            }
        }
    }
}

/// Settings for clients are the expected ones only if there are settings where
/// they are expected, and with the expected value; and a file is there if it
/// is there.
pub proof fn expected_settings_are_the_ones_made(
    made: Option<ListenTls>,
    expected: Option<ListenTlsView>,
    file: SourceFile,
)
    ensures
        is_listener(made, expected) <==> (made is None && expected is None) || (made is Some
            && expected is Some && made->Some_0@ == expected->Some_0),
        file_view(None) is None,
        file_view(Some(file)) == Some(file@),
{
}

}
