//! History kept in a Valkey or Redis service, one sorted set per identity.

use vstd::prelude::*;

use crate::engine::text;

verus! {

#[verifier::external_type_specification]
#[verifier::external_body]
pub struct ExClient(redis::Client);

#[verifier::external_type_specification]
#[verifier::external_body]
pub struct ExRedisError(redis::RedisError);

/// TLS settings for a service reached over `rediss://`: an internal
/// certificate authority, and a client certificate with its key.
#[derive(Debug, Clone)]
pub struct ValkeyTlsConfig {
    pub ca_file: Option<String>,
    pub client_cert_file: Option<String>,
    pub client_key_file: Option<String>,
}

impl Default for ValkeyTlsConfig {
    fn default() -> (tls: ValkeyTlsConfig)
        ensures
            tls.all_unset(),
    {
        ValkeyTlsConfig { ca_file: None, client_cert_file: None, client_key_file: None }
    }
}

impl ValkeyTlsConfig {
    pub open spec fn all_unset(self) -> bool {
        self.ca_file is None && self.client_cert_file is None && self.client_key_file is None
    }

    /// Whether nothing is set, so that the system's trust store is used and
    /// no client certificate is presented.
    pub fn is_default(&self) -> (unset: bool)
        ensures
            unset == self.all_unset(),
    {
        self.ca_file.is_none() && self.client_cert_file.is_none() && self.client_key_file.is_none()
    }

    /// Whether the client certificate and its key are both set or both unset.
    pub open spec fn is_paired(self) -> bool {
        self.client_cert_file is Some <==> self.client_key_file is Some
    }
}

/// The contents of the files that a [`ValkeyTlsConfig`] names.
#[derive(Debug, Clone)]
pub struct ValkeyTlsFiles {
    pub ca: Option<Vec<u8>>,
    pub client_cert: Option<Vec<u8>>,
    pub client_key: Option<Vec<u8>>,
}

impl ValkeyTlsFiles {
    /// Whether there is a content for every file that is needed.
    pub open spec fn complete_for(self, tls: ValkeyTlsConfig) -> bool {
        &&& tls.ca_file is Some <==> self.ca is Some
        &&& tls.is_paired() ==> (tls.client_cert_file is Some <==> self.client_cert is Some) && (
        tls.client_key_file is Some <==> self.client_key is Some)
    }
}

/// Why a store cannot be opened.
#[derive(Debug, Clone, Copy, PartialEq, Eq, Structural)]
pub enum ValkeyError {
    /// The URL does not name a service.
    InvalidUrl,
    /// A client certificate without a key, or a key without a certificate.
    UnpairedClientCert,
    /// The URL does not name a service reached over TLS, or the certificates
    /// cannot be read.
    InvalidTls,
}

impl ValkeyError {
    /// What the error reads.
    pub open spec fn reading(self) -> Seq<char> {
        match self {
            ValkeyError::InvalidUrl => "parsing Valkey/Redis state_db URL"@,
            ValkeyError::UnpairedClientCert => "Valkey state_db TLS config: client_cert_file and client_key_file must be set together"@,
            ValkeyError::InvalidTls => "building TLS-enabled Valkey/Redis client"@,
        }
    }

    /// The text of the error.
    pub fn message(&self) -> (text: &'static str)
        ensures
            text@ == self.reading(),
            text@ == match self {
                ValkeyError::InvalidUrl => "parsing Valkey/Redis state_db URL"@,
                ValkeyError::UnpairedClientCert => "Valkey state_db TLS config: client_cert_file and client_key_file must be set together"@,
                ValkeyError::InvalidTls => "building TLS-enabled Valkey/Redis client"@,
            },
    {
        match self {
            ValkeyError::InvalidUrl => "parsing Valkey/Redis state_db URL",
            ValkeyError::UnpairedClientCert => {
                "Valkey state_db TLS config: client_cert_file and client_key_file must be set together"
            },
            ValkeyError::InvalidTls => "building TLS-enabled Valkey/Redis client",
        }
    }
}

/// The client that `redis::Client::open` makes for a URL; none when it
/// refuses the URL.
pub uninterp spec fn plain_client(url: Seq<char>) -> Option<redis::Client>;

/// `redis::Client::open` checks the URL and makes no connection. The result
/// is a function of the URL alone.
#[verifier::external_body]
fn open_client(url: &str) -> (client: Result<redis::Client, redis::RedisError>)
    ensures
        match client {
            Ok(client) => plain_client(url@) == Some(client),
            Err(_) => plain_client(url@) is None,
        },
{
    redis::Client::open(url)
}

/// The client that `redis::Client::build_with_tls` makes for a URL with a
/// root certificate, a client certificate and a client key in PEM form; none
/// when it refuses them.
pub uninterp spec fn tls_client(
    url: Seq<char>,
    root_cert: Option<Seq<u8>>,
    client_tls: Option<(Seq<u8>, Seq<u8>)>,
) -> Option<redis::Client>;

/// A pair of optional octets as a mathematical value.
pub open spec fn pair_view(pair: Option<(Vec<u8>, Vec<u8>)>) -> Option<(Seq<u8>, Seq<u8>)> {
    match pair {
        Some((cert, key)) => Some((cert@, key@)),
        None => None,
    }
}

/// `redis::Client::build_with_tls` checks the URL and reads the certificates,
/// and makes no connection. The result is a function of the arguments alone.
#[verifier::external_body]
fn build_tls_client(
    url: &str,
    root_cert: Option<Vec<u8>>,
    client_tls: Option<(Vec<u8>, Vec<u8>)>,
) -> (client: Result<redis::Client, redis::RedisError>)
    ensures
        ({
            let made = tls_client(url@, text::octets_view(root_cert), pair_view(client_tls));
            match client {
                Ok(client) => made == Some(client),
                Err(_) => made is None,
            }
        }),
{
    let client_tls = client_tls.map(
        |pair| redis::ClientTlsConfig { client_cert: pair.0, client_key: pair.1 },
    );
    redis::Client::build_with_tls(url, redis::TlsCertificates { client_tls, root_cert })
}

/// One member to be added to a sorted set.
#[derive(Debug, Clone)]
pub struct Addition {
    pub key: String,
    pub member: String,
    pub score: i64,
}

/// An [`Addition`] as a mathematical value.
pub struct AdditionView {
    pub key: Seq<char>,
    pub member: Seq<char>,
    pub score: i64,
}

impl View for Addition {
    type V = AdditionView;

    open spec fn view(&self) -> AdditionView {
        AdditionView { key: self.key@, member: self.member@, score: self.score }
    }
}

/// What is to be done about a key found in the service.
#[derive(Debug, Clone)]
pub enum KeyOutcome {
    /// Every event has aged out: the key is deleted.
    Delete,
    /// The key is not one of this store's.
    Skip,
    /// The events of an identity.
    Row(String, Vec<i64>),
}

/// A [`KeyOutcome`] as a mathematical value.
pub enum KeyOutcomeView {
    Delete,
    Skip,
    Row { identity: Seq<char>, timestamps: Seq<i64> },
}

impl View for KeyOutcome {
    type V = KeyOutcomeView;

    open spec fn view(&self) -> KeyOutcomeView {
        match self {
            KeyOutcome::Delete => KeyOutcomeView::Delete,
            KeyOutcome::Skip => KeyOutcomeView::Skip,
            KeyOutcome::Row(identity, timestamps) => KeyOutcomeView::Row {
                identity: identity@,
                timestamps: timestamps@,
            },
        }
    }
}

/// What is to be done about a key of a service, given how many events it has
/// left and when they were.
pub open spec fn folded(
    prefix: Seq<char>,
    key: Seq<char>,
    count: nat,
    scores: Seq<i64>,
) -> KeyOutcomeView {
    if count == 0 {
        KeyOutcomeView::Delete
    } else {
        match text::after_prefix(key, keys_begin_with(prefix)) {
            Some(identity) => KeyOutcomeView::Row { identity, timestamps: scores },
            None => KeyOutcomeView::Skip,
        }
    }
}

/// What all keys of a store begin with.
pub open spec fn keys_begin_with(prefix: Seq<char>) -> Seq<char> {
    prefix + ":history:"@
}

/// The key of an identity's events.
pub open spec fn key_of(prefix: Seq<char>, identity: Seq<char>) -> Seq<char> {
    keys_begin_with(prefix) + identity
}

/// The member that an event is stored as. A sorted set holds a member once
/// whatever its score, so the sequence number keeps apart events of the same
/// moment, and the text of the instance those of stores that share a service.
pub open spec fn member_of(instance: Seq<char>, millis: i64, seq: u64) -> Seq<char> {
    instance + seq!['-'] + text::signed_decimal(millis as int) + seq!['-'] + text::decimal(
        seq as nat,
    )
}

/// What has to be added to the sorted sets for one event.
pub open spec fn addition_of(
    prefix: Seq<char>,
    instance: Seq<char>,
    seq: u64,
    identity: Seq<char>,
    millis: i64,
) -> AdditionView {
    AdditionView {
        key: key_of(prefix, identity),
        member: member_of(instance, millis, seq),
        score: millis,
    }
}

/// How many characters the text of an instance has.
pub const INSTANCE_LEN: u8 = 32;

/// The text that stands for an instance with the given number.
pub open spec fn instance_of(number: u128) -> Seq<char> {
    text::fixed_hex(number as nat, INSTANCE_LEN as nat)
}

/// `rand::random` for a `u128`: some number, and no claim which.
#[verifier::external_body]
fn random_number() -> (number: u128) {
    rand::random()
}

/// Writes down the number of an instance.
pub fn instance_text(number: u128) -> (instance: String)
    ensures
        instance@ == instance_of(number),
{
    let mut instance = String::new();
    text::push_fixed_hex(&mut instance, number, INSTANCE_LEN);
    assert(instance@ =~= instance_of(number));
    instance
}

/// Draws the text that stands for an instance. It is drawn once, when a store
/// is opened.
pub fn draw_instance() -> (instance: String)
    ensures
        exists|number: u128| instance@ == #[trigger] instance_of(number),
{
    instance_text(random_number())
}

/// The `n`-th sequence number after `seq`.
pub open spec fn seq_after(seq: u64, n: nat) -> u64 {
    ((seq + n) % 0x1_0000_0000_0000_0000) as u64
}

/// Whether a URL names a service that is reached without encryption, so that
/// TLS settings play no part.
pub open spec fn is_plain_url(url: Seq<char>) -> bool {
    "redis://"@.is_prefix_of(url)
}

/// Recognizes the URL of a service that is reached without encryption.
pub fn ignores_tls(url: &str) -> (plain: bool)
    ensures
        plain == is_plain_url(url@),
{
    text::strip_prefix(url, "redis://").is_some()
}

/// A store in a Valkey or Redis service. Connecting to the service is left to
/// whoever drives the store.
pub struct ValkeyStore {
    client: redis::Client,
    key_prefix: String,
    instance: String,
    member_seq: u64,
}

impl ValkeyStore {
    pub closed spec fn prefix(self) -> Seq<char> {
        self.key_prefix@
    }

    /// The text that tells this store's members from those of other stores.
    pub closed spec fn instance(self) -> Seq<char> {
        self.instance@
    }

    pub closed spec fn next_seq(self) -> u64 {
        self.member_seq
    }

    /// Checks the URL and the TLS settings of a store; `files` holds the
    /// contents of the files that `tls` names, and `instance` tells this store
    /// from others on the same service. `tls` plays no part unless something
    /// in it is set and the service is reached over TLS.
    pub fn open(
        url: &str,
        key_prefix: String,
        tls: ValkeyTlsConfig,
        files: ValkeyTlsFiles,
        instance: String,
    ) -> (store: Result<ValkeyStore, ValkeyError>)
        requires
            is_plain_url(url@) || files.complete_for(tls),
        ensures
            store matches Ok(store) ==> store.prefix() == key_prefix@ && store.instance()
                == instance@ && store.next_seq() == 0,
            match opening(url@, tls, files) {
                Ok(client) => store matches Ok(store) && store.service() == client,
                Err(error) => store matches Err(e) && e == error,
            },
            if is_plain_url(url@) || tls.all_unset() {
                match plain_client(url@) {
                    Some(client) => store matches Ok(store) && store.service() == client,
                    None => store matches Err(e) && e == ValkeyError::InvalidUrl,
                }
            } else if !tls.is_paired() {
                store matches Err(e) && e == ValkeyError::UnpairedClientCert
            } else {
                let pair = match (files.client_cert, files.client_key) {
                    (Some(cert), Some(key)) => Some((cert@, key@)),
                    _ => None,
                };
                match tls_client(url@, text::octets_view(files.ca), pair) {
                    Some(client) => store matches Ok(store) && store.service() == client,
                    None => store matches Err(e) && e == ValkeyError::InvalidTls,
                }
            },
    {
        let client = if ignores_tls(url) || tls.is_default() {
            match open_client(url) {
                Ok(client) => client,
                Err(_) => {
                    return Err(ValkeyError::InvalidUrl);
                },
            }
        } else {
            if tls.client_cert_file.is_some() != tls.client_key_file.is_some() {
                return Err(ValkeyError::UnpairedClientCert);
            }
            let pair = match (files.client_cert, files.client_key) {
                (Some(cert), Some(key)) => Some((cert, key)),
                _ => None,
            };
            match build_tls_client(url, files.ca, pair) {
                Ok(client) => client,
                Err(_) => {
                    return Err(ValkeyError::InvalidTls);
                },
            }
        };
        Ok(ValkeyStore { client, key_prefix, instance, member_seq: 0 })
    }

    pub closed spec fn service(self) -> redis::Client {
        self.client
    }

    /// The client to connect with.
    pub fn client(&self) -> (client: &redis::Client)
        ensures
            *client == self.service(),
    {
        &self.client
    }

    /// What all keys of this store begin with.
    pub fn key_prefix(&self) -> (prefix: String)
        ensures
            prefix@ == keys_begin_with(self.prefix()),
    {
        let mut prefix = self.key_prefix.clone();
        prefix.append(":history:");
        prefix
    }

    /// The pattern that all keys of this store match.
    pub fn key_pattern(&self) -> (pattern: String)
        ensures
            pattern@ == keys_begin_with(self.prefix()).push('*'),
    {
        let mut pattern = self.key_prefix();
        pattern.push('*');
        pattern
    }

    /// The key of an identity's events.
    pub fn history_key(&self, identity: &str) -> (key: String)
        ensures
            key@ == key_of(self.prefix(), identity@),
    {
        let mut key = self.key_prefix();
        key.append(identity);
        key
    }

    /// What has to be added to the sorted sets for new events.
    pub fn additions(&mut self, new_events: &Vec<(String, i64)>) -> (additions: Vec<Addition>)
        ensures
            final(self).prefix() == old(self).prefix(),
            final(self).instance() == old(self).instance(),
            final(self).service() == old(self).service(),
            final(self).next_seq() == seq_after(old(self).next_seq(), new_events@.len()),
            additions@.len() == new_events@.len(),
            forall|i: int|
                0 <= i < additions@.len() ==> (#[trigger] additions@[i])@ == addition_of(
                    old(self).prefix(),
                    old(self).instance(),
                    seq_after(old(self).next_seq(), i as nat),
                    new_events@[i].0@,
                    new_events@[i].1,
                ),
            forall|i: int|
                0 <= i < additions@.len() ==> (#[trigger] additions@[i])@ == (AdditionView {
                    key: key_of(old(self).prefix(), new_events@[i].0@),
                    member: member_of(
                        old(self).instance(),
                        new_events@[i].1,
                        seq_after(old(self).next_seq(), i as nat),
                    ),
                    score: new_events@[i].1,
                }),
    {
        let mut additions: Vec<Addition> = Vec::new();
        let mut n: usize = 0;
        while n < new_events.len()
            invariant
                n <= new_events@.len(),
                additions@.len() == n,
                self.prefix() == old(self).prefix(),
                self.instance() == old(self).instance(),
                self.service() == old(self).service(),
                self.next_seq() == seq_after(old(self).next_seq(), n as nat),
                forall|i: int|
                    0 <= i < n ==> (#[trigger] additions@[i])@ == (AdditionView {
                        key: key_of(old(self).prefix(), new_events@[i].0@),
                        member: member_of(
                            old(self).instance(),
                            new_events@[i].1,
                            seq_after(old(self).next_seq(), i as nat),
                        ),
                        score: new_events@[i].1,
                    }),
            decreases new_events.len() - n,
        {
            let score: i64 = new_events[n].1;
            let mut member = self.instance.clone();
            member.push('-');
            text::push_signed_decimal(&mut member, score);
            member.push('-');
            text::push_decimal(&mut member, self.member_seq as u128);
            assert(member@ =~= member_of(self.instance@, score, self.member_seq));
            let key = self.history_key(new_events[n].0.as_str());
            additions.push(Addition { key, member, score });
            self.member_seq = self.member_seq.wrapping_add(1);
            n += 1;
        }
        additions
    }

    /// The greatest score that is forgotten: everything at the cutoff or
    /// before it goes.
    pub fn cutoff_bound(&self, cutoff_epoch_millis: i64) -> (bound: String)
        ensures
            bound@ == text::signed_decimal(cutoff_epoch_millis as int),
    {
        let mut bound = String::new();
        text::push_signed_decimal(&mut bound, cutoff_epoch_millis);
        assert(bound@ =~= text::signed_decimal(cutoff_epoch_millis as int));
        bound
    }

    /// Decides about a key found in the service, given how many events it has
    /// left and when they were.
    pub fn fold_key(&self, key: &str, count: usize, scores: Vec<i64>) -> (outcome: KeyOutcome)
        ensures
            outcome@ == folded(self.prefix(), key@, count as nat, scores@),
            if count == 0 {
                outcome is Delete
            } else {
                match text::after_prefix(key@, keys_begin_with(self.prefix())) {
                    Some(identity) => outcome matches KeyOutcome::Row(name, timestamps) && name@
                        == identity && timestamps@ == scores@,
                    None => outcome is Skip,
                }
            },
    {
        if count == 0 {
            return KeyOutcome::Delete;
        }
        match text::strip_prefix(key, self.key_prefix().as_str()) {
            Some(identity) => KeyOutcome::Row(identity, scores),
            None => KeyOutcome::Skip,
        }
    }
}

/// The identity of a key is read back from it.
pub proof fn keys_name_their_identities(prefix: Seq<char>, identity: Seq<char>)
    ensures
        text::after_prefix(key_of(prefix, identity), keys_begin_with(prefix)) == Some(identity),
{
    let begin = keys_begin_with(prefix);
    assert(begin =~= key_of(prefix, identity).subrange(0, begin.len() as int));
    assert(key_of(prefix, identity).skip(begin.len() as int) =~= identity);
}

/// Events that differ in their instance or in their sequence number are
/// different members, even at the same moment, so that a sorted set holds each
/// of them, also where several instances write to it.
pub proof fn members_do_not_collapse(
    a_instance: Seq<char>,
    a_millis: i64,
    a_seq: u64,
    b_instance: Seq<char>,
    b_millis: i64,
    b_seq: u64,
)
    requires
        a_instance.len() == b_instance.len(),
        a_instance != b_instance || a_seq != b_seq,
    ensures
        member_of(a_instance, a_millis, a_seq) != member_of(b_instance, b_millis, b_seq),
{
    let a = member_of(a_instance, a_millis, a_seq);
    let b = member_of(b_instance, b_millis, b_seq);
    let a_digits = text::decimal(a_seq as nat);
    let b_digits = text::decimal(b_seq as nat);
    text::decimal_is_digits(a_seq as nat);
    text::decimal_is_digits(b_seq as nat);
    if a == b {
        assert(a.take(a_instance.len() as int) =~= a_instance);
        assert(b.take(b_instance.len() as int) =~= b_instance);
        let a_dash = a.len() - a_digits.len() - 1;
        let b_dash = b.len() - b_digits.len() - 1;
        assert(a[a_dash] == '-');
        assert(b[b_dash] == '-');
        if a_dash < b_dash {
            assert(a[b_dash] == a_digits[b_dash - a_dash - 1]);
        } else if b_dash < a_dash {
            assert(b[a_dash] == b_digits[a_dash - b_dash - 1]);
        }
        assert(a.skip(a_dash + 1) =~= a_digits);
        assert(b.skip(b_dash + 1) =~= b_digits);
        text::decimal_is_injective(a_seq as nat, b_seq as nat);
    }
}

/// Instances with different numbers have different texts, and all texts of
/// instances have one length.
pub proof fn instances_are_told_apart(a: u128, b: u128)
    ensures
        instance_of(a).len() == INSTANCE_LEN,
        a != b ==> instance_of(a) != instance_of(b),
{
    assert(text::hex_numbers(INSTANCE_LEN as nat) == 0x1_0000_0000_0000_0000_0000_0000_0000_0000nat)
        by {
        reveal_with_fuel(text::hex_numbers, 33);
    }
    text::fixed_hex_is_injective(a as nat, b as nat, INSTANCE_LEN as nat);
}

/// A key is the prefix of its store, a mark and the identity as it is.
pub proof fn keys_are_made_of_prefix_and_identity(prefix: Seq<char>, identity: Seq<char>)
    ensures
        key_of(prefix, identity) == prefix + seq![':', 'h', 'i', 's', 't', 'o', 'r', 'y', ':']
            + identity,
        keys_begin_with(prefix) == key_of(prefix, Seq::empty()),
{
    reveal_strlit(":history:");
    assert(":history:"@ =~= seq![':', 'h', 'i', 's', 't', 'o', 'r', 'y', ':']);
    assert(key_of(prefix, Seq::empty()) =~= keys_begin_with(prefix));
}

/// A member says who wrote it, when the event was and which number it has:
/// read from its ends, it begins with the instance and a dash and ends with a
/// dash and the number, and between them stands the time.
pub proof fn members_say_what_they_stand_for(instance: Seq<char>, millis: i64, seq: u64)
    ensures
        ({
            let member = member_of(instance, millis, seq);
            let begin = instance.len() as int;
            let end = member.len() - text::decimal(seq as nat).len();
            &&& member.take(begin) == instance
            &&& member[begin] == '-'
            &&& member[end - 1] == '-'
            &&& member.subrange(begin + 1, end - 1) == text::signed_decimal(millis as int)
            &&& text::number_read(member.skip(end), 10, 0) == seq
        }),
{
    let member = member_of(instance, millis, seq);
    let begin = instance.len() as int;
    let end = member.len() - text::decimal(seq as nat).len();
    text::decimal_reads_as_its_number(seq as nat);
    assert(member.take(begin) =~= instance);
    assert(member.subrange(begin + 1, end - 1) =~= text::signed_decimal(millis as int));
    assert(member.skip(end) =~= text::decimal(seq as nat));
}

/// The text of an instance is its number in 32 hexadecimal digits.
pub proof fn instances_are_written_in_full(number: u128)
    ensures
        instance_of(number).len() == 32,
        text::number_read(instance_of(number), 16, 0) == number,
{
    assert(text::hex_numbers(32) == 0x1_0000_0000_0000_0000_0000_0000_0000_0000nat) by {
        reveal_with_fuel(text::hex_numbers, 33);
    }
    text::fixed_hex_reads_as_its_number(number as nat, 32);
}

/// Sequence numbers go up by one, and begin again at zero after the largest.
pub proof fn sequence_numbers_go_up(seq: u64, n: nat)
    ensures
        seq_after(seq, 0) == seq,
        seq_after(seq, n + 1) == if seq_after(seq, n) == 0xffff_ffff_ffff_ffff {
            0int
        } else {
            seq_after(seq, n) + 1
        },
{
}

/// A service is reached without encryption if and only if its URL begins with
/// the scheme for that, whatever follows; the scheme for TLS is another one.
pub proof fn schemes_tell_whether_tls_is_used(url: Seq<char>, rest: Seq<char>)
    ensures
        is_plain_url(seq!['r', 'e', 'd', 'i', 's', ':', '/', '/'] + rest),
        !is_plain_url(seq!['r', 'e', 'd', 'i', 's', 's', ':', '/', '/'] + rest),
        is_plain_url(url) ==> url.len() >= 8 && url.take(8) == seq![
            'r',
            'e',
            'd',
            'i',
            's',
            ':',
            '/',
            '/',
        ],
{
    reveal_strlit("redis://");
    let scheme = seq!['r', 'e', 'd', 'i', 's', ':', '/', '/'];
    assert("redis://"@ =~= scheme);
    assert((scheme + rest).subrange(0, 8) =~= scheme);
    let other = seq!['r', 'e', 'd', 'i', 's', 's', ':', '/', '/'] + rest;
    assert(other[5] == 's');
    if is_plain_url(other) {
        assert(scheme[5] == other.subrange(0, 8)[5]);
    }
    if is_plain_url(url) {
        assert(url.take(8) =~= scheme);
    }
}

/// TLS settings are unset if none of the three files is named, and paired if
/// a certificate comes with a key and a key with a certificate.
pub proof fn tls_settings_are_unset_or_paired(tls: ValkeyTlsConfig)
    ensures
        tls.all_unset() <==> !(tls.ca_file is Some) && !(tls.client_cert_file is Some) && !(
        tls.client_key_file is Some),
        tls.is_paired() <==> (tls.client_cert_file is Some && tls.client_key_file is Some) || (
        tls.client_cert_file is None && tls.client_key_file is None),
        tls.all_unset() ==> tls.is_paired(),
{
}

/// A key without events is deleted, whosever it is. Of the others, those of a
/// store give their identity and all their events, and those that are not its
/// own are skipped.
pub proof fn keys_are_folded_by_their_identity(
    prefix: Seq<char>,
    key: Seq<char>,
    identity: Seq<char>,
    count: nat,
    scores: Seq<i64>,
)
    ensures
        folded(prefix, key, 0, scores) is Delete,
        count > 0 ==> folded(prefix, key_of(prefix, identity), count, scores)
            == (KeyOutcomeView::Row { identity, timestamps: scores }),
        count > 0 && (forall|other: Seq<char>| key != #[trigger] key_of(prefix, other)) ==> folded(
            prefix,
            key,
            count,
            scores,
        ) is Skip,
{
    keys_name_their_identities(prefix, identity);
    if forall|other: Seq<char>| key != #[trigger] key_of(prefix, other) {
        text::prefixes_come_off(key, keys_begin_with(prefix), identity);
        assert forall|other: Seq<char>| key != #[trigger] (keys_begin_with(prefix) + other) by {
            assert(key != key_of(prefix, other));
        }
    }
}

/// What comes of opening a store: which client it is given, or why it is not
/// given one.
pub open spec fn opening(
    url: Seq<char>,
    tls: ValkeyTlsConfig,
    files: ValkeyTlsFiles,
) -> Result<redis::Client, ValkeyError> {
    if is_plain_url(url) || tls.all_unset() {
        match plain_client(url) {
            Some(client) => Ok(client),
            None => Err(ValkeyError::InvalidUrl),
        }
    } else if !tls.is_paired() {
        Err(ValkeyError::UnpairedClientCert)
    } else {
        let pair = match (files.client_cert, files.client_key) {
            (Some(cert), Some(key)) => Some((cert@, key@)),
            _ => None,
        };
        match tls_client(url, text::octets_view(files.ca), pair) {
            Some(client) => Ok(client),
            None => Err(ValkeyError::InvalidTls),
        }
    }
}

/// Whether the settings for TLS play a part is a matter of the URL and of
/// whether there are any. Where they do not, the client is that of the URL
/// alone; where they do, a certificate without a key and a key without a
/// certificate are refused first, and the client is given every file that is
/// named.
pub proof fn clients_are_given_what_is_configured(
    url: Seq<char>,
    rest: Seq<char>,
    tls: ValkeyTlsConfig,
    other_tls: ValkeyTlsConfig,
    files: ValkeyTlsFiles,
    other_files: ValkeyTlsFiles,
)
    requires
        files.complete_for(tls),
    ensures
        url == seq!['r', 'e', 'd', 'i', 's', ':', '/', '/'] + rest ==> opening(url, tls, files)
            == opening(url, other_tls, other_files),
        url == seq!['r', 'e', 'd', 'i', 's', ':', '/', '/'] + rest || tls.all_unset() ==> match opening(
            url,
            tls,
            files,
        ) {
            Ok(client) => plain_client(url) == Some(client),
            Err(error) => plain_client(url) is None && error == ValkeyError::InvalidUrl,
        },
        url == seq!['r', 'e', 'd', 'i', 's', 's', ':', '/', '/'] + rest && !tls.all_unset()
            && tls.client_cert_file is Some != tls.client_key_file is Some ==> opening(
            url,
            tls,
            files,
        ) == Err::<redis::Client, ValkeyError>(ValkeyError::UnpairedClientCert),
        url == seq!['r', 'e', 'd', 'i', 's', 's', ':', '/', '/'] + rest && !tls.all_unset()
            && tls.client_cert_file is Some == tls.client_key_file is Some ==> {
            let ca = match files.ca {
                Some(ca) => Some(ca@),
                None => None,
            };
            let pair = if tls.client_cert_file is Some {
                Some((files.client_cert->Some_0@, files.client_key->Some_0@))
            } else {
                None
            };
            match opening(url, tls, files) {
                Ok(client) => tls_client(url, ca, pair) == Some(client),
                Err(error) => tls_client(url, ca, pair) is None && error == ValkeyError::InvalidTls,
            }
        },
{
    schemes_tell_whether_tls_is_used(url, rest);
}

/// What errors in opening a store read.
pub proof fn store_errors_read()
    ensures
        ValkeyError::InvalidUrl.reading() == "parsing Valkey/Redis state_db URL"@,
        ValkeyError::UnpairedClientCert.reading()
            == "Valkey state_db TLS config: client_cert_file and client_key_file must be set together"@,
        ValkeyError::InvalidTls.reading() == "building TLS-enabled Valkey/Redis client"@,
{
}

/// The value of an addition is its key, its member and its score; that of an
/// outcome is what is to be done and, for a row, with what; and that of a pair
/// is its two parts.
pub proof fn additions_and_rows_are_known_by_their_parts(
    addition: Addition,
    identity: String,
    timestamps: Vec<i64>,
    cert: Vec<u8>,
    key: Vec<u8>,
)
    ensures
        addition@.key == addition.key@,
        addition@.member == addition.member@,
        addition@.score == addition.score,
        KeyOutcome::Delete@ is Delete,
        KeyOutcome::Skip@ is Skip,
        KeyOutcome::Row(identity, timestamps)@ == (KeyOutcomeView::Row {
            identity: identity@,
            timestamps: timestamps@,
        }),
        pair_view(None) is None,
        pair_view(Some((cert, key))) == Some((cert@, key@)),
{
}

/// An event is added to the set of its own identity, with its own time as the
/// score; and events of one store that differ in their number, or of two
/// stores, are added as different members.
pub proof fn events_are_added_where_they_belong(
    prefix: Seq<char>,
    instance: Seq<char>,
    seq: u64,
    identity: Seq<char>,
    millis: i64,
    other_instance: Seq<char>,
    other_seq: u64,
    other_identity: Seq<char>,
    other_millis: i64,
)
    requires
        instance.len() == other_instance.len(),
    ensures
        ({
            let added = addition_of(prefix, instance, seq, identity, millis);
            let other = addition_of(
                prefix,
                other_instance,
                other_seq,
                other_identity,
                other_millis,
            );
            &&& added.score == millis
            &&& added.key == other.key <==> identity == other_identity
            &&& text::after_prefix(added.key, keys_begin_with(prefix)) == Some(identity)
            &&& instance != other_instance || seq != other_seq ==> added.member != other.member
            &&& added.member.take(instance.len() as int) == instance
        }),
{
    keys_name_their_identities(prefix, identity);
    keys_name_their_identities(prefix, other_identity);
    members_say_what_they_stand_for(instance, millis, seq);
    if instance != other_instance || seq != other_seq {
        members_do_not_collapse(instance, millis, seq, other_instance, other_millis, other_seq);
    }
}

}
