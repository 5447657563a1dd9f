//! The node as an embedding application runs it.
//!
//! A [`YggstackMobile`] holds what the application has set up: a configuration, the
//! addresses of the proxy and the name server, and the port mappings. While the node
//! runs, each mapping has a listener, and the handle that stops it.
use vstd::prelude::*;
use crate::addr::{Endpoint, Ip, IpAddr, endpoint, ip_text};
use crate::addr_laws::is_endpoint;
use crate::config::{
    self, Config, addr_for_key, is_userspace, subnet_for_key, subnet_form, subnet_octets,
    subnet_text, text_or_empty, userspace,
};
use crate::forward::key_laws::{
    law_kinds_have_different_keys, law_local_tcp_keys, law_local_udp_keys, law_remote_tcp_keys,
    law_remote_udp_keys,
};
use crate::forward::tcp::{
    TcpForwarder, local_tcp_key, remote_tcp_key, spawn_local_tcp, spawn_remote_tcp,
};
use crate::forward::udp::{
    UdpForwarder, local_udp_key, remote_udp_key, spawn_local_udp, spawn_remote_udp,
};
use crate::keys::{hex_encoded, public_key_text};
use crate::mapping::{Mapping, TcpMapping, UdpMapping, any_v4};
use crate::mapping_laws::law_mappings_are_addresses;
use crate::mobile::launch::{
    Job, Kind, all_serve, empty_registry, ends_list, handles_with_all, job_key,
    jobs_in_order, launch_all, lemma_handles_keys, mapping_of, registry_view, registry_with,
    registry_with_all, retained, tcp_serves, udp_serves,
};
use crate::mobile::table::{HandleTable, is_drained};
use crate::stats::{ListenerStatsRegistry, is_listing, listing_json};
use crate::text::{owned, push_text, same_text};

pub mod call_laws;
pub mod launch;
pub mod laws;
pub mod peers;
pub mod table;

verus! {

// ── Errors ────────────────────────────────────────────────────────────────────

/// What can go wrong.
#[derive(Debug)]
pub enum YggstackError {
    Config(String),
    Runtime(String),
    Io(String),
    AlreadyRunning(String),
    NotRunning(String),
}

impl YggstackError {
    /// The error as text.
    pub open spec fn text(&self) -> Seq<char> {
        match self {
            YggstackError::Config(m) => "Config: "@ + m@,
            YggstackError::Runtime(m) => "Runtime: "@ + m@,
            YggstackError::Io(m) => "Io: "@ + m@,
            YggstackError::AlreadyRunning(_) => "AlreadyRunning"@,
            YggstackError::NotRunning(_) => "NotRunning"@,
        }
    }

    /// The error as text.
    pub fn to_text(&self) -> (r: String)
        ensures
            r@ == self.text(),
    {
        match self {
            YggstackError::Config(m) => {
                let mut r = owned("Config: ");
                push_text(&mut r, m.as_str());
                r
            },
            YggstackError::Runtime(m) => {
                let mut r = owned("Runtime: ");
                push_text(&mut r, m.as_str());
                r
            },
            YggstackError::Io(m) => {
                let mut r = owned("Io: ");
                push_text(&mut r, m.as_str());
                r
            },
            YggstackError::AlreadyRunning(_) => owned("AlreadyRunning"),
            YggstackError::NotRunning(_) => owned("NotRunning"),
        }
    }
}

/// Whether an error is about the configuration, for this reason.
pub open spec fn is_config_error(e: YggstackError, reason: Seq<char>) -> bool {
    e matches YggstackError::Config(m) && m@ == reason
}

/// Whether an error says that the node does not run.
pub open spec fn is_not_running(e: YggstackError) -> bool {
    e matches YggstackError::NotRunning(m) && m@ == "not running"@
}

/// What an application gives to be told of log messages.
pub trait LogCallback: Send + Sync {
    fn on_log(&self, message: String);
}

// ── Functions of their own ────────────────────────────────────────────────────

/// The version of this library.
pub const VERSION: &'static str = "0.1.0";

/// The TOML text for a freshly generated config: the rendered text, or the
/// template where it could not be rendered.
pub fn generate_config(template: String, rendered: Option<String>) -> (r: String)
    ensures
        r@ == match rendered {
            Some(text) => text@,
            None => template@,
        },
{
    config::generate_text(template, rendered)
}

/// The name of the program with its version.
pub fn get_version() -> (r: String)
    ensures
        r@ == "yggstack "@ + VERSION@,
{
    let mut r = owned("yggstack ");
    push_text(&mut r, VERSION);
    r
}

/// Measure RTT to a QUIC peer. The node's core does not support QUIC connections,
/// so this is always -1 (unknown/unsupported).
pub fn check_quic_peer(_uri: String) -> (r: i64)
    ensures
        r == -1,
{
    -1
}

// ── The node ──────────────────────────────────────────────────────────────────

/// What a [`YggstackMobile`] stands for.
#[verifier::ext_equal]
pub ghost struct Node<C, L, H> {
    /// Whether it runs.
    pub running: bool,
    /// The configuration, without what is always the same.
    pub config: Option<C>,
    /// Who is told of log messages.
    pub callback: Option<L>,
    pub log_level: Seq<char>,
    /// Where the SOCKS proxy listens.
    pub socks: Option<Seq<char>>,
    pub nameserver: Seq<char>,
    pub local_tcp: Seq<(Endpoint, Endpoint)>,
    pub local_udp: Seq<(Endpoint, Endpoint)>,
    pub remote_tcp: Seq<(Endpoint, Endpoint)>,
    pub remote_udp: Seq<(Endpoint, Endpoint)>,
    /// The handles of running listeners, by key.
    pub listeners: Map<Seq<char>, H>,
}

/// The mappings of a kind.
pub open spec fn list_of<C, L, H>(n: Node<C, L, H>, kind: Kind) -> Seq<(Endpoint, Endpoint)> {
    match kind {
        Kind::LocalTcp => n.local_tcp,
        Kind::LocalUdp => n.local_udp,
        Kind::RemoteTcp => n.remote_tcp,
        Kind::RemoteUdp => n.remote_udp,
    }
}

/// The node with other mappings of a kind.
pub open spec fn with_list<C, L, H>(
    n: Node<C, L, H>,
    kind: Kind,
    list: Seq<(Endpoint, Endpoint)>,
) -> Node<C, L, H> {
    match kind {
        Kind::LocalTcp => Node { local_tcp: list, ..n },
        Kind::LocalUdp => Node { local_udp: list, ..n },
        Kind::RemoteTcp => Node { remote_tcp: list, ..n },
        Kind::RemoteUdp => Node { remote_udp: list, ..n },
    }
}

/// The mapping that two endpoints make.
pub open spec fn job(kind: Kind, ends: (Endpoint, Endpoint)) -> Job {
    Job { kind, listen: ends.0, target: ends.1 }
}

/// The mappings, in the order in which their listeners are started.
pub open spec fn all_jobs<C, L, H>(n: Node<C, L, H>) -> Seq<Job> {
    jobs_in_order(n.local_tcp, n.local_udp, n.remote_tcp, n.remote_udp)
}

/// Whether a mapping of a kind has a key.
pub open spec fn list_has_key<C, L, H>(n: Node<C, L, H>, kind: Kind, key: Seq<char>) -> bool {
    exists|i: int|
        0 <= i < list_of(n, kind).len() && job_key(job(kind, #[trigger] list_of(n, kind)[i])) == key
}

/// Whether a mapping has a key.
pub open spec fn has_mapping<C, L, H>(n: Node<C, L, H>, key: Seq<char>) -> bool {
    ||| list_has_key(n, Kind::LocalTcp, key)
    ||| list_has_key(n, Kind::LocalUdp, key)
    ||| list_has_key(n, Kind::RemoteTcp, key)
    ||| list_has_key(n, Kind::RemoteUdp, key)
}

/// The running listeners are those of the mappings; there are none while the node
/// does not run.
pub open spec fn is_consistent<C, L, H>(n: Node<C, L, H>) -> bool {
    forall|k: Seq<char>| #[trigger]
        n.listeners.contains_key(k) <==> n.running && has_mapping(n, k)
}

/// Whether two endpoints are those of a mapping of a kind: addresses with ports. A
/// remote one listens on a placeholder for the node's own address.
pub open spec fn is_mapping(kind: Kind, ends: (Endpoint, Endpoint)) -> bool {
    &&& is_endpoint(ends.0)
    &&& is_endpoint(ends.1)
    &&& kind is RemoteTcp || kind is RemoteUdp ==> ends.0 == endpoint(any_v4(), ends.0.port)
}

/// Whether all endpoints of a list are those of mappings of a kind.
pub open spec fn are_mappings(kind: Kind, list: Seq<(Endpoint, Endpoint)>) -> bool {
    forall|i: int| 0 <= i < list.len() ==> is_mapping(kind, #[trigger] list[i])
}

/// Whether the mappings of a node have addresses with ports.
pub open spec fn has_addresses<C, L, H>(n: Node<C, L, H>) -> bool {
    &&& are_mappings(Kind::LocalTcp, n.local_tcp)
    &&& are_mappings(Kind::LocalUdp, n.local_udp)
    &&& are_mappings(Kind::RemoteTcp, n.remote_tcp)
    &&& are_mappings(Kind::RemoteUdp, n.remote_udp)
}

/// The node after a mapping was added: it is remembered, and its listener runs
/// where the node does.
pub open spec fn with_mapping<C, L, H>(
    n: Node<C, L, H>,
    kind: Kind,
    ends: (Endpoint, Endpoint),
    handle: H,
) -> Node<C, L, H> {
    let m = with_list(n, kind, list_of(n, kind).push(ends));
    if n.running {
        Node { listeners: n.listeners.insert(job_key(job(kind, ends)), handle), ..m }
    } else {
        m
    }
}

/// The mappings that do not have a key.
pub open spec fn without_key(
    kind: Kind,
    list: Seq<(Endpoint, Endpoint)>,
    key: Seq<char>,
) -> Seq<(Endpoint, Endpoint)> {
    list.filter(|ends: (Endpoint, Endpoint)| job_key(job(kind, ends)) != key)
}

/// The node after the mappings with a key were removed, and their listener.
pub open spec fn without_mapping<C, L, H>(
    n: Node<C, L, H>,
    kind: Kind,
    key: Seq<char>,
) -> Node<C, L, H> {
    Node {
        listeners: n.listeners.remove(key),
        ..with_list(n, kind, without_key(kind, list_of(n, kind), key))
    }
}

/// The node after it was stopped.
pub open spec fn stopped<C, L, H>(n: Node<C, L, H>) -> Node<C, L, H> {
    Node { running: false, listeners: Map::empty(), ..n }
}

/// The node without mappings.
pub open spec fn cleared<C, L, H>(n: Node<C, L, H>) -> Node<C, L, H> {
    Node {
        local_tcp: Seq::empty(),
        local_udp: Seq::empty(),
        remote_tcp: Seq::empty(),
        remote_udp: Seq::empty(),
        listeners: Map::empty(),
        ..n
    }
}

/// The node after it was started, with a handle for each mapping.
pub open spec fn started<C, L, H>(n: Node<C, L, H>, handles: Seq<H>) -> Node<C, L, H> {
    Node {
        running: true,
        listeners: handles_with_all(Map::empty(), all_jobs(n), handles),
        ..n
    }
}

/// A node, as an application sets it up and runs it. The configuration holds a
/// `C` besides what the node itself reads, an `L` is told of log messages, and an
/// `H` stops a listener.
pub struct YggstackMobile<C, L, H> {
    running: bool,
    cfg: Option<Config<C>>,
    log_callback: Option<L>,
    log_level: String,
    socks_addr: Option<String>,
    nameserver: String,
    local_tcp: Vec<TcpMapping>,
    local_udp: Vec<UdpMapping>,
    remote_tcp: Vec<TcpMapping>,
    remote_udp: Vec<UdpMapping>,
    listeners: HandleTable<H>,
}

/// What a started node runs: where the SOCKS proxy listens, which name server is
/// asked, the listeners of the mappings, and the registry that they count in.
pub struct Launch {
    pub socks: Option<String>,
    pub nameserver: String,
    pub stats: ListenerStatsRegistry,
    pub local_tcp: Vec<TcpForwarder>,
    pub local_udp: Vec<UdpForwarder>,
    pub remote_tcp: Vec<TcpForwarder>,
    pub remote_udp: Vec<UdpForwarder>,
}

/// What is stopped: the node itself, where it ran, and the listeners that these
/// handles stop.
pub struct Stopped<H> {
    pub node: bool,
    pub listeners: Vec<H>,
}

/// What the node's core is to do about its peers.
pub enum PeerCommand {
    Add(String),
    Remove(String),
    Retry,
}

/// The view of a text that may be missing.
pub open spec fn optional_text(t: Option<String>) -> Option<Seq<char>> {
    match t {
        Some(s) => Some(s@),
        None => None,
    }
}

/// Whether a launch runs a node.
pub open spec fn launches<C, L, H>(l: Launch, n: Node<C, L, H>) -> bool {
    &&& optional_text(l.socks) == n.socks
    &&& l.nameserver@ == n.nameserver
    &&& l.stats.wf()
    &&& registry_view(l.stats) == registry_with_all(empty_registry(), all_jobs(n))
    &&& all_serve::<TcpMapping>(l.local_tcp@, Kind::LocalTcp, n.local_tcp, l.stats@)
    &&& all_serve::<UdpMapping>(l.local_udp@, Kind::LocalUdp, n.local_udp, l.stats@)
    &&& all_serve::<TcpMapping>(l.remote_tcp@, Kind::RemoteTcp, n.remote_tcp, l.stats@)
    &&& all_serve::<UdpMapping>(l.remote_udp@, Kind::RemoteUdp, n.remote_udp, l.stats@)
}

fn no_config() -> (r: YggstackError)
    ensures
        is_config_error(r, "no config loaded"@),
{
    YggstackError::Config(owned("no config loaded"))
}

fn not_running() -> (r: YggstackError)
    ensures
        is_not_running(r),
{
    YggstackError::NotRunning(owned("not running"))
}

impl<C, L, H> View for YggstackMobile<C, L, H> {
    type V = Node<C, L, H>;

    closed spec fn view(&self) -> Node<C, L, H> {
        Node {
            running: self.running,
            config: match self.cfg {
                Some(c) => Some(c.rest),
                None => None,
            },
            callback: self.log_callback,
            log_level: self.log_level@,
            socks: optional_text(self.socks_addr),
            nameserver: self.nameserver@,
            local_tcp: ends_list(self.local_tcp@),
            local_udp: ends_list(self.local_udp@),
            remote_tcp: ends_list(self.remote_tcp@),
            remote_udp: ends_list(self.remote_udp@),
            listeners: self.listeners@,
        }
    }
}

impl<C, L, H> YggstackMobile<C, L, H> {
    /// Each mapping has a listener while the node runs, and nothing else has one.
    pub closed spec fn wf(&self) -> bool {
        &&& self.listeners.wf()
        &&& self.cfg matches Some(c) ==> is_userspace(c)
        &&& is_consistent(self@)
        &&& has_addresses(self@)
    }

    /// Where the mappings of a node listen and lead are addresses with ports.
    pub proof fn law_mappings_have_addresses(&self)
        requires
            self.wf(),
        ensures
            has_addresses(self@),
    {
    }

    /// While a node runs, the listeners that run are those of its mappings; while it
    /// does not, none runs.
    pub proof fn law_listeners_are_those_of_mappings(&self)
        requires
            self.wf(),
        ensures
            is_consistent(self@),
    {
    }

    /// A node that nothing has been set up for.
    pub fn new() -> (r: Self)
        ensures
            r.wf(),
            r@ == (Node::<C, L, H> {
                running: false,
                config: None,
                callback: None,
                log_level: "info"@,
                socks: None,
                nameserver: Seq::empty(),
                local_tcp: Seq::empty(),
                local_udp: Seq::empty(),
                remote_tcp: Seq::empty(),
                remote_udp: Seq::empty(),
                listeners: Map::empty(),
            }),
    {
        YggstackMobile {
            running: false,
            cfg: None,
            log_callback: None,
            log_level: owned("info"),
            socks_addr: None,
            nameserver: String::new(),
            local_tcp: Vec::new(),
            local_udp: Vec::new(),
            remote_tcp: Vec::new(),
            remote_udp: Vec::new(),
            listeners: HandleTable::new(),
        }
    }

    /// Choose who is told of log messages.
    pub fn set_log_callback(&mut self, callback: L)
        requires
            old(self).wf(),
        ensures
            final(self).wf(),
            final(self)@ == (Node { callback: Some(callback), ..old(self)@ }),
    {
        self.log_callback = Some(callback);
        proof {
            lemma_same_mappings(old(self)@, self@);
        }
    }

    /// Choose what is logged.
    pub fn set_log_level(&mut self, level: String)
        requires
            old(self).wf(),
        ensures
            final(self).wf(),
            final(self)@ == (Node { log_level: level@, ..old(self)@ }),
    {
        self.log_level = level;
        proof {
            lemma_same_mappings(old(self)@, self@);
        }
    }

    /// Take a configuration, which its text was parsed to.
    pub fn load_config(&mut self, parsed: Result<Config<C>, String>) -> (r: Result<
        (),
        YggstackError,
    >)
        requires
            old(self).wf(),
        ensures
            final(self).wf(),
            match parsed {
                Ok(cfg) => r is Ok && final(self)@ == (Node {
                    config: Some(cfg.rest),
                    ..old(self)@
                }),
                Err(e) => r matches Err(y) && is_config_error(y, e@) && final(self)@ == old(self)@,
            },
    {
        match parsed {
            Ok(cfg) => {
                self.cfg = Some(userspace(cfg));
                proof {
                    lemma_same_mappings(old(self)@, self@);
                }
                Ok(())
            },
            Err(e) => Err(YggstackError::Config(e)),
        }
    }

    /// Take a configuration that was generated, and that its text was parsed to.
    pub fn generate_and_load_config(&mut self, parsed: Result<Config<C>, String>) -> (r: Result<
        (),
        YggstackError,
    >)
        requires
            old(self).wf(),
        ensures
            final(self).wf(),
            match parsed {
                Ok(cfg) => r is Ok && final(self)@ == (Node {
                    config: Some(cfg.rest),
                    ..old(self)@
                }),
                Err(e) => r matches Err(y) && is_config_error(y, e@) && final(self)@ == old(self)@,
            },
    {
        self.load_config(parsed)
    }

    /// The configuration. It uses neither a TUN adapter nor an admin socket.
    pub fn config(&self) -> (r: Option<&Config<C>>)
        requires
            self.wf(),
        ensures
            match r {
                Some(c) => self@.config == Some(c.rest) && is_userspace(*c),
                None => self@.config is None,
            },
    {
        match &self.cfg {
            Some(c) => Some(c),
            None => None,
        }
    }

    /// The text of the configuration, as it was rendered: empty where there is none,
    /// or where it could not be rendered.
    pub fn get_config(&self, rendered: Option<String>) -> (r: String)
        ensures
            r@ == match (self@.config, rendered) {
                (Some(_), Some(text)) => text@,
                _ => Seq::<char>::empty(),
            },
    {
        match &self.cfg {
            Some(_) => text_or_empty(rendered),
            None => String::new(),
        }
    }

    /// The node's address, which was derived from its key.
    pub fn get_address(&self, derived: Result<[u8; 16], String>) -> (r: Result<
        String,
        YggstackError,
    >)
        ensures
            match (self@.config, derived) {
                (None, _) => r matches Err(e) && is_config_error(e, "no config loaded"@),
                (Some(_), Err(m)) => r matches Err(e) && is_config_error(e, m@),
                (Some(_), Ok(octets)) => r matches Ok(t) && t@ == ip_text(Ip::V6(octets@)),
            },
    {
        match &self.cfg {
            None => Err(no_config()),
            Some(_) => match derived {
                Err(m) => Err(YggstackError::Config(m)),
                Ok(octets) => Ok(IpAddr::V6(addr_for_key(octets)).to_text()),
            },
        }
    }

    /// The node's subnet, which was derived from its key.
    pub fn get_subnet(&self, derived: Result<[u8; 8], String>) -> (r: Result<String, YggstackError>)
        ensures
            match (self@.config, derived) {
                (None, _) => r matches Err(e) && is_config_error(e, "no config loaded"@),
                (Some(_), Err(m)) => r matches Err(e) && is_config_error(e, m@),
                (Some(_), Ok(prefix)) => r matches Ok(t) && t@ == subnet_form(
                    subnet_octets(prefix@),
                    64,
                ),
            },
    {
        match &self.cfg {
            None => Err(no_config()),
            Some(_) => match derived {
                Err(m) => Err(YggstackError::Config(m)),
                Ok(prefix) => Ok(subnet_text(subnet_for_key(prefix))),
            },
        }
    }

    /// The node's public key.
    pub fn get_public_key(&self, key: Result<[u8; 32], String>) -> (r: Result<
        String,
        YggstackError,
    >)
        ensures
            match (self@.config, key) {
                (None, _) => r matches Err(e) && is_config_error(e, "no config loaded"@),
                (Some(_), Err(m)) => r matches Err(e) && is_config_error(e, m@),
                (Some(_), Ok(k)) => r matches Ok(t) && t@ == hex_encoded(k@),
            },
    {
        match &self.cfg {
            None => Err(no_config()),
            Some(_) => match key {
                Err(m) => Err(YggstackError::Config(m)),
                Ok(k) => Ok(public_key_text(&k)),
            },
        }
    }

    /// How many mappings there are; none where they cannot be counted.
    pub fn mapping_count(&self) -> (r: Option<usize>)
        ensures
            match r {
                Some(n) => n == all_jobs(self@).len(),
                None => all_jobs(self@).len() > usize::MAX,
            },
    {
        let n = self.local_tcp.len();
        match n.checked_add(self.local_udp.len()) {
            None => None,
            Some(n) => match n.checked_add(self.remote_tcp.len()) {
                None => None,
                Some(n) => n.checked_add(self.remote_udp.len()),
            },
        }
    }

    /// Whether the node can be started: it does not run, and it has a configuration,
    /// which holds a key.
    pub fn check_start(&self, key: &Result<(), String>) -> (r: Result<(), YggstackError>)
        ensures
            match (self@.running, self@.config, key) {
                (true, _, _) => r matches Err(YggstackError::AlreadyRunning(m)) && m@
                    == "already running"@,
                (false, None, _) => r matches Err(e) && is_config_error(e, "no config loaded"@),
                (false, Some(_), Err(m)) => r matches Err(e) && is_config_error(e, m@),
                (false, Some(_), Ok(_)) => r is Ok,
            },
    {
        if self.running {
            return Err(YggstackError::AlreadyRunning(owned("already running")));
        }
        match &self.cfg {
            None => Err(no_config()),
            Some(_) => match key {
                Err(m) => Err(YggstackError::Config(owned(m.as_str()))),
                Ok(_) => Ok(()),
            },
        }
    }

    /// Start the node: the listeners of all mappings, with a handle for each, and
    /// the proxy where it has an address. The configuration's key was read, or it
    /// was not, for a reason.
    pub fn start(&mut self, key: Result<(), String>, handles: Vec<H>) -> (r: Result<
        Launch,
        YggstackError,
    >)
        requires
            old(self).wf(),
            handles@.len() == all_jobs(old(self)@).len(),
        ensures
            final(self).wf(),
            match (old(self)@.running, old(self)@.config, key) {
                (true, _, _) => {
                    &&& r matches Err(YggstackError::AlreadyRunning(m))
                    &&& m@ == "already running"@
                    &&& final(self)@ == old(self)@
                },
                (false, None, _) => {
                    &&& r matches Err(e)
                    &&& is_config_error(e, "no config loaded"@)
                    &&& final(self)@ == old(self)@
                },
                (false, Some(_), Err(m)) => {
                    &&& r matches Err(e)
                    &&& is_config_error(e, m@)
                    &&& final(self)@ == old(self)@
                },
                (false, Some(_), Ok(_)) => {
                    &&& r matches Ok(l)
                    &&& launches(l, old(self)@)
                    &&& final(self)@ == started(old(self)@, handles@)
                },
            },
    {
        match self.check_start(&key) {
            Err(e) => {
                return Err(e);
            },
            Ok(_) => {},
        }
        let ghost n = self@;
        let ghost all = handles@;
        proof {
            lemma_none_running(n);
        }
        let (stats, local_tcp, local_udp, remote_tcp, remote_udp) = launch_all(
            &self.local_tcp,
            &self.local_udp,
            &self.remote_tcp,
            &self.remote_udp,
            handles,
            &mut self.listeners,
        );
        self.running = true;
        let socks = match &self.socks_addr {
            Some(s) => Some(owned(s.as_str())),
            None => None,
        };
        let nameserver = owned(self.nameserver.as_str());
        proof {
            lemma_jobs_mapped(n);
            lemma_handles_keys(Map::<Seq<char>, H>::empty(), all_jobs(n), all);
            lemma_same_lists(n, self@);
        }
        Ok(Launch { socks, nameserver, stats, local_tcp, local_udp, remote_tcp, remote_udp })
    }

    /// Stop the node, and every listener.
    pub fn stop(&mut self) -> (r: Stopped<H>)
        requires
            old(self).wf(),
        ensures
            final(self).wf(),
            final(self)@ == stopped(old(self)@),
            r.node == old(self)@.running,
            is_drained(r.listeners@, old(self)@.listeners),
    {
        let node = self.running;
        self.running = false;
        let listeners = self.listeners.drain();
        Stopped { node, listeners }
    }

    /// Choose where the SOCKS proxy listens; an empty address is none.
    pub fn set_socks(&mut self, addr: String)
        requires
            old(self).wf(),
        ensures
            final(self).wf(),
            final(self)@ == (Node {
                socks: if addr@.len() == 0 {
                    None
                } else {
                    Some(addr@)
                },
                ..old(self)@
            }),
    {
        proof {
            reveal_strlit("");
            assert(addr@.len() == 0 <==> addr@ =~= ""@);
        }
        let empty = same_text(addr.as_str(), "");
        self.socks_addr = if empty {
            None
        } else {
            Some(addr)
        };
        proof {
            lemma_same_mappings(old(self)@, self@);
        }
    }

    /// Choose which name server is asked.
    pub fn set_nameserver(&mut self, addr: String)
        requires
            old(self).wf(),
        ensures
            final(self).wf(),
            final(self)@ == (Node { nameserver: addr@, ..old(self)@ }),
    {
        self.nameserver = addr;
        proof {
            lemma_same_mappings(old(self)@, self@);
        }
    }

    /// Add a local-tcp mapping. While the node runs its listener starts immediately
    /// under its stats key; the mapping is always remembered so a later start picks
    /// it up too.
    pub fn add_local_tcp(
        &mut self,
        spec_text: String,
        stats: &mut ListenerStatsRegistry,
        handle: H,
    ) -> (r: Result<Option<TcpForwarder>, YggstackError>)
        requires
            old(self).wf(),
            old(stats).wf(),
            old(stats).next() < u64::MAX,
        ensures
            final(self).wf(),
            final(stats).wf(),
            match mapping_of(Kind::LocalTcp, spec_text@) {
                Err(reason) => {
                    &&& r matches Err(e)
                    &&& is_config_error(e, reason)
                    &&& final(self)@ == old(self)@
                    &&& registry_view(*final(stats)) == registry_view(*old(stats))
                },
                Ok(ends) => {
                    &&& final(self)@ == with_mapping(old(self)@, Kind::LocalTcp, ends, handle)
                    &&& if old(self)@.running {
                        &&& r matches Ok(Some(f))
                        &&& tcp_serves(f, job(Kind::LocalTcp, ends), final(stats)@)
                        &&& registry_view(*final(stats)) == registry_with(
                            registry_view(*old(stats)),
                            job(Kind::LocalTcp, ends),
                        )
                    } else {
                        &&& r matches Ok(None)
                        &&& registry_view(*final(stats)) == registry_view(*old(stats))
                    }
                },
            },
    {
        let m = match TcpMapping::parse_local(spec_text.as_str()) {
            Ok(m) => m,
            Err(e) => {
                return Err(YggstackError::Config(e));
            },
        };
        let ghost n = self@;
        let ghost ends = m.ends();
        self.local_tcp.push(m);
        assert(ends_list(self.local_tcp@) =~= n.local_tcp.push(ends));
        let r = if self.running {
            let f = spawn_local_tcp(m, stats);
            self.listeners.insert(f.key(), handle);
            Some(f)
        } else {
            None
        };
        proof {
            lemma_with_mapping(n, Kind::LocalTcp, ends, handle);
            lemma_mapping_of(Kind::LocalTcp, spec_text@);
            lemma_addresses_added(n, Kind::LocalTcp, ends, handle);
        }
        Ok(r)
    }

    /// Add a local-udp mapping. While the node runs its listener starts immediately
    /// under its stats key; the mapping is always remembered so a later start picks
    /// it up too.
    pub fn add_local_udp(
        &mut self,
        spec_text: String,
        stats: &mut ListenerStatsRegistry,
        handle: H,
    ) -> (r: Result<Option<UdpForwarder>, YggstackError>)
        requires
            old(self).wf(),
            old(stats).wf(),
            old(stats).next() < u64::MAX,
        ensures
            final(self).wf(),
            final(stats).wf(),
            match mapping_of(Kind::LocalUdp, spec_text@) {
                Err(reason) => {
                    &&& r matches Err(e)
                    &&& is_config_error(e, reason)
                    &&& final(self)@ == old(self)@
                    &&& registry_view(*final(stats)) == registry_view(*old(stats))
                },
                Ok(ends) => {
                    &&& final(self)@ == with_mapping(old(self)@, Kind::LocalUdp, ends, handle)
                    &&& if old(self)@.running {
                        &&& r matches Ok(Some(f))
                        &&& udp_serves(f, job(Kind::LocalUdp, ends), final(stats)@)
                        &&& registry_view(*final(stats)) == registry_with(
                            registry_view(*old(stats)),
                            job(Kind::LocalUdp, ends),
                        )
                    } else {
                        &&& r matches Ok(None)
                        &&& registry_view(*final(stats)) == registry_view(*old(stats))
                    }
                },
            },
    {
        let m = match UdpMapping::parse_local(spec_text.as_str()) {
            Ok(m) => m,
            Err(e) => {
                return Err(YggstackError::Config(e));
            },
        };
        let ghost n = self@;
        let ghost ends = m.ends();
        self.local_udp.push(m);
        assert(ends_list(self.local_udp@) =~= n.local_udp.push(ends));
        let r = if self.running {
            let f = spawn_local_udp(m, stats);
            self.listeners.insert(f.key(), handle);
            Some(f)
        } else {
            None
        };
        proof {
            lemma_with_mapping(n, Kind::LocalUdp, ends, handle);
            lemma_mapping_of(Kind::LocalUdp, spec_text@);
            lemma_addresses_added(n, Kind::LocalUdp, ends, handle);
        }
        Ok(r)
    }

    /// Add a remote-tcp mapping. While the node runs its listener starts immediately
    /// under its stats key; the mapping is always remembered so a later start picks
    /// it up too.
    pub fn add_remote_tcp(
        &mut self,
        spec_text: String,
        stats: &mut ListenerStatsRegistry,
        handle: H,
    ) -> (r: Result<Option<TcpForwarder>, YggstackError>)
        requires
            old(self).wf(),
            old(stats).wf(),
            old(stats).next() < u64::MAX,
        ensures
            final(self).wf(),
            final(stats).wf(),
            match mapping_of(Kind::RemoteTcp, spec_text@) {
                Err(reason) => {
                    &&& r matches Err(e)
                    &&& is_config_error(e, reason)
                    &&& final(self)@ == old(self)@
                    &&& registry_view(*final(stats)) == registry_view(*old(stats))
                },
                Ok(ends) => {
                    &&& final(self)@ == with_mapping(old(self)@, Kind::RemoteTcp, ends, handle)
                    &&& if old(self)@.running {
                        &&& r matches Ok(Some(f))
                        &&& tcp_serves(f, job(Kind::RemoteTcp, ends), final(stats)@)
                        &&& registry_view(*final(stats)) == registry_with(
                            registry_view(*old(stats)),
                            job(Kind::RemoteTcp, ends),
                        )
                    } else {
                        &&& r matches Ok(None)
                        &&& registry_view(*final(stats)) == registry_view(*old(stats))
                    }
                },
            },
    {
        let m = match TcpMapping::parse_remote(spec_text.as_str()) {
            Ok(m) => m,
            Err(e) => {
                return Err(YggstackError::Config(e));
            },
        };
        let ghost n = self@;
        let ghost ends = m.ends();
        self.remote_tcp.push(m);
        assert(ends_list(self.remote_tcp@) =~= n.remote_tcp.push(ends));
        let r = if self.running {
            let f = spawn_remote_tcp(m, stats);
            self.listeners.insert(f.key(), handle);
            Some(f)
        } else {
            None
        };
        proof {
            lemma_with_mapping(n, Kind::RemoteTcp, ends, handle);
            lemma_mapping_of(Kind::RemoteTcp, spec_text@);
            lemma_addresses_added(n, Kind::RemoteTcp, ends, handle);
        }
        Ok(r)
    }

    /// Add a remote-udp mapping. While the node runs its listener starts immediately
    /// under its stats key; the mapping is always remembered so a later start picks
    /// it up too.
    pub fn add_remote_udp(
        &mut self,
        spec_text: String,
        stats: &mut ListenerStatsRegistry,
        handle: H,
    ) -> (r: Result<Option<UdpForwarder>, YggstackError>)
        requires
            old(self).wf(),
            old(stats).wf(),
            old(stats).next() < u64::MAX,
        ensures
            final(self).wf(),
            final(stats).wf(),
            match mapping_of(Kind::RemoteUdp, spec_text@) {
                Err(reason) => {
                    &&& r matches Err(e)
                    &&& is_config_error(e, reason)
                    &&& final(self)@ == old(self)@
                    &&& registry_view(*final(stats)) == registry_view(*old(stats))
                },
                Ok(ends) => {
                    &&& final(self)@ == with_mapping(old(self)@, Kind::RemoteUdp, ends, handle)
                    &&& if old(self)@.running {
                        &&& r matches Ok(Some(f))
                        &&& udp_serves(f, job(Kind::RemoteUdp, ends), final(stats)@)
                        &&& registry_view(*final(stats)) == registry_with(
                            registry_view(*old(stats)),
                            job(Kind::RemoteUdp, ends),
                        )
                    } else {
                        &&& r matches Ok(None)
                        &&& registry_view(*final(stats)) == registry_view(*old(stats))
                    }
                },
            },
    {
        let m = match UdpMapping::parse_remote(spec_text.as_str()) {
            Ok(m) => m,
            Err(e) => {
                return Err(YggstackError::Config(e));
            },
        };
        let ghost n = self@;
        let ghost ends = m.ends();
        self.remote_udp.push(m);
        assert(ends_list(self.remote_udp@) =~= n.remote_udp.push(ends));
        let r = if self.running {
            let f = spawn_remote_udp(m, stats);
            self.listeners.insert(f.key(), handle);
            Some(f)
        } else {
            None
        };
        proof {
            lemma_with_mapping(n, Kind::RemoteUdp, ends, handle);
            lemma_mapping_of(Kind::RemoteUdp, spec_text@);
            lemma_addresses_added(n, Kind::RemoteUdp, ends, handle);
        }
        Ok(r)
    }

    /// Remove a single local-tcp mapping. Its listener is to be stopped, where one
    /// runs; the mapping is dropped from the next start either way.
    pub fn remove_local_tcp(&mut self, spec_text: String) -> (r: Result<Option<H>, YggstackError>)
        requires
            old(self).wf(),
        ensures
            final(self).wf(),
            match mapping_of(Kind::LocalTcp, spec_text@) {
                Err(reason) => {
                    &&& r matches Err(e)
                    &&& is_config_error(e, reason)
                    &&& final(self)@ == old(self)@
                },
                Ok(ends) => {
                    let key = job_key(job(Kind::LocalTcp, ends));
                    &&& final(self)@ == without_mapping(old(self)@, Kind::LocalTcp, key)
                    &&& r matches Ok(h)
                    &&& match h {
                        Some(handle) => old(self)@.listeners.contains_key(key) && handle == old(
                            self,
                        )@.listeners[key],
                        None => !old(self)@.listeners.contains_key(key),
                    }
                },
            },
    {
        let m = match TcpMapping::parse_local(spec_text.as_str()) {
            Ok(m) => m,
            Err(e) => {
                return Err(YggstackError::Config(e));
            },
        };
        let key = local_tcp_key(&m);
        let ghost n = self@;
        let ghost ends = m.ends();
        let kept = retained(false, &self.local_tcp, key.as_str());
        self.local_tcp = kept;
        let h = self.listeners.remove(key.as_str());
        proof {
            lemma_without_mapping(n, Kind::LocalTcp, ends);
            lemma_addresses_removed(n, Kind::LocalTcp, key@);
        }
        Ok(h)
    }

    /// Remove a single local-udp mapping. Its listener is to be stopped, where one
    /// runs; the mapping is dropped from the next start either way.
    pub fn remove_local_udp(&mut self, spec_text: String) -> (r: Result<Option<H>, YggstackError>)
        requires
            old(self).wf(),
        ensures
            final(self).wf(),
            match mapping_of(Kind::LocalUdp, spec_text@) {
                Err(reason) => {
                    &&& r matches Err(e)
                    &&& is_config_error(e, reason)
                    &&& final(self)@ == old(self)@
                },
                Ok(ends) => {
                    let key = job_key(job(Kind::LocalUdp, ends));
                    &&& final(self)@ == without_mapping(old(self)@, Kind::LocalUdp, key)
                    &&& r matches Ok(h)
                    &&& match h {
                        Some(handle) => old(self)@.listeners.contains_key(key) && handle == old(
                            self,
                        )@.listeners[key],
                        None => !old(self)@.listeners.contains_key(key),
                    }
                },
            },
    {
        let m = match UdpMapping::parse_local(spec_text.as_str()) {
            Ok(m) => m,
            Err(e) => {
                return Err(YggstackError::Config(e));
            },
        };
        let key = local_udp_key(&m);
        let ghost n = self@;
        let ghost ends = m.ends();
        let kept = retained(false, &self.local_udp, key.as_str());
        self.local_udp = kept;
        let h = self.listeners.remove(key.as_str());
        proof {
            lemma_without_mapping(n, Kind::LocalUdp, ends);
            lemma_addresses_removed(n, Kind::LocalUdp, key@);
        }
        Ok(h)
    }

    /// Remove a single remote-tcp mapping. Its listener is to be stopped, where one
    /// runs; the mapping is dropped from the next start either way.
    pub fn remove_remote_tcp(&mut self, spec_text: String) -> (r: Result<Option<H>, YggstackError>)
        requires
            old(self).wf(),
        ensures
            final(self).wf(),
            match mapping_of(Kind::RemoteTcp, spec_text@) {
                Err(reason) => {
                    &&& r matches Err(e)
                    &&& is_config_error(e, reason)
                    &&& final(self)@ == old(self)@
                },
                Ok(ends) => {
                    let key = job_key(job(Kind::RemoteTcp, ends));
                    &&& final(self)@ == without_mapping(old(self)@, Kind::RemoteTcp, key)
                    &&& r matches Ok(h)
                    &&& match h {
                        Some(handle) => old(self)@.listeners.contains_key(key) && handle == old(
                            self,
                        )@.listeners[key],
                        None => !old(self)@.listeners.contains_key(key),
                    }
                },
            },
    {
        let m = match TcpMapping::parse_remote(spec_text.as_str()) {
            Ok(m) => m,
            Err(e) => {
                return Err(YggstackError::Config(e));
            },
        };
        let key = remote_tcp_key(&m);
        let ghost n = self@;
        let ghost ends = m.ends();
        let kept = retained(true, &self.remote_tcp, key.as_str());
        self.remote_tcp = kept;
        let h = self.listeners.remove(key.as_str());
        proof {
            lemma_without_mapping(n, Kind::RemoteTcp, ends);
            lemma_addresses_removed(n, Kind::RemoteTcp, key@);
        }
        Ok(h)
    }

    /// Remove a single remote-udp mapping. Its listener is to be stopped, where one
    /// runs; the mapping is dropped from the next start either way.
    pub fn remove_remote_udp(&mut self, spec_text: String) -> (r: Result<Option<H>, YggstackError>)
        requires
            old(self).wf(),
        ensures
            final(self).wf(),
            match mapping_of(Kind::RemoteUdp, spec_text@) {
                Err(reason) => {
                    &&& r matches Err(e)
                    &&& is_config_error(e, reason)
                    &&& final(self)@ == old(self)@
                },
                Ok(ends) => {
                    let key = job_key(job(Kind::RemoteUdp, ends));
                    &&& final(self)@ == without_mapping(old(self)@, Kind::RemoteUdp, key)
                    &&& r matches Ok(h)
                    &&& match h {
                        Some(handle) => old(self)@.listeners.contains_key(key) && handle == old(
                            self,
                        )@.listeners[key],
                        None => !old(self)@.listeners.contains_key(key),
                    }
                },
            },
    {
        let m = match UdpMapping::parse_remote(spec_text.as_str()) {
            Ok(m) => m,
            Err(e) => {
                return Err(YggstackError::Config(e));
            },
        };
        let key = remote_udp_key(&m);
        let ghost n = self@;
        let ghost ends = m.ends();
        let kept = retained(true, &self.remote_udp, key.as_str());
        self.remote_udp = kept;
        let h = self.listeners.remove(key.as_str());
        proof {
            lemma_without_mapping(n, Kind::RemoteUdp, ends);
            lemma_addresses_removed(n, Kind::RemoteUdp, key@);
        }
        Ok(h)
    }

    /// Remove all mappings. Their listeners are to be stopped.
    pub fn clear_mappings(&mut self) -> (r: Vec<H>)
        requires
            old(self).wf(),
        ensures
            final(self).wf(),
            final(self)@ == cleared(old(self)@),
            is_drained(r@, old(self)@.listeners),
    {
        self.local_tcp = Vec::new();
        self.local_udp = Vec::new();
        self.remote_tcp = Vec::new();
        self.remote_udp = Vec::new();
        let r = self.listeners.drain();
        assert(self@ =~= cleared(old(self)@));
        r
    }

    /// Whether the node runs.
    pub fn is_running(&self) -> (r: bool)
        ensures
            r == self@.running,
    {
        self.running
    }

    /// Add a peer while the node runs.
    pub fn add_live_peer(&self, uri: String) -> (r: Result<PeerCommand, YggstackError>)
        ensures
            if self@.running {
                r matches Ok(PeerCommand::Add(u)) && u@ == uri@
            } else {
                r matches Err(e) && is_not_running(e)
            },
    {
        if self.running {
            Ok(PeerCommand::Add(uri))
        } else {
            Err(not_running())
        }
    }

    /// Remove a peer while the node runs.
    pub fn remove_live_peer(&self, uri: String) -> (r: Result<PeerCommand, YggstackError>)
        ensures
            if self@.running {
                r matches Ok(PeerCommand::Remove(u)) && u@ == uri@
            } else {
                r matches Err(e) && is_not_running(e)
            },
    {
        if self.running {
            Ok(PeerCommand::Remove(uri))
        } else {
            Err(not_running())
        }
    }

    /// Connect to the peers again at once, while the node runs.
    pub fn retry_peers_now(&self) -> (r: Result<PeerCommand, YggstackError>)
        ensures
            if self@.running {
                r matches Ok(PeerCommand::Retry)
            } else {
                r matches Err(e) && is_not_running(e)
            },
    {
        if self.running {
            Ok(PeerCommand::Retry)
        } else {
            Err(not_running())
        }
    }

    /// A JSON array of per-listener connection/traffic stats:
    /// `[{"Key","Kind","Listen","Target","ActiveConns","TotalConns","RXBytes",
    /// "TXBytes"}]`, or `[]` when the node is not running.
    pub fn get_listeners_json(&self, stats: &ListenerStatsRegistry) -> (r: String)
        requires
            stats.wf(),
        ensures
            if self@.running {
                exists|keys: Seq<Seq<char>>| #[trigger]
                    is_listing(keys, stats@) && r@ == listing_json(keys, stats@)
            } else {
                r@ == "[]"@
            },
    {
        if self.running {
            stats.to_json()
        } else {
            owned("[]")
        }
    }
}

impl<C, L, H> Default for YggstackMobile<C, L, H> {
    fn default() -> (r: Self)
        ensures
            r.wf(),
            r@ == (Node::<C, L, H> {
                running: false,
                config: None,
                callback: None,
                log_level: "info"@,
                socks: None,
                nameserver: Seq::empty(),
                local_tcp: Seq::empty(),
                local_udp: Seq::empty(),
                remote_tcp: Seq::empty(),
                remote_udp: Seq::empty(),
                listeners: Map::empty(),
            }),
    {
        YggstackMobile::new()
    }
}

/// What came of a command to the node's core.
pub fn peer_outcome(outcome: Result<(), String>) -> (r: Result<(), YggstackError>)
    ensures
        match outcome {
            Ok(_) => r is Ok,
            Err(e) => r matches Err(YggstackError::Runtime(m)) && m@ == e@,
        },
{
    match outcome {
        Ok(_) => Ok(()),
        Err(e) => Err(YggstackError::Runtime(e)),
    }
}

// ── What operations keep ──────────────────────────────────────────────────────

/// The mappings have the same keys where the lists are the same.
proof fn lemma_same_lists<C, L, H>(n: Node<C, L, H>, m: Node<C, L, H>)
    requires
        m.local_tcp == n.local_tcp,
        m.local_udp == n.local_udp,
        m.remote_tcp == n.remote_tcp,
        m.remote_udp == n.remote_udp,
    ensures
        forall|k: Seq<char>| #[trigger] has_mapping(m, k) == has_mapping(n, k),
{
    assert forall|k: Seq<char>, kind: Kind| #[trigger]
        list_has_key(m, kind, k) == list_has_key(n, kind, k) by {
        assert(list_of(m, kind) == list_of(n, kind));
    }
}

proof fn lemma_same_mappings<C, L, H>(n: Node<C, L, H>, m: Node<C, L, H>)
    requires
        is_consistent(n),
        m.running == n.running,
        m.listeners == n.listeners,
        m.local_tcp == n.local_tcp,
        m.local_udp == n.local_udp,
        m.remote_tcp == n.remote_tcp,
        m.remote_udp == n.remote_udp,
    ensures
        is_consistent(m),
{
    lemma_same_lists(n, m);
    assert forall|k: Seq<char>| #[trigger]
        m.listeners.contains_key(k) <==> m.running && has_mapping(m, k) by {
        assert(n.listeners.contains_key(k) <==> n.running && has_mapping(n, k));
    }
}

/// No listener runs where the node does not.
proof fn lemma_none_running<C, L, H>(n: Node<C, L, H>)
    requires
        is_consistent(n),
        !n.running,
    ensures
        n.listeners == Map::<Seq<char>, H>::empty(),
{
    assert(n.listeners =~= Map::<Seq<char>, H>::empty());
}

/// A key is that of a mapping just where one in the order of starting has it.
proof fn lemma_jobs_mapped<C, L, H>(n: Node<C, L, H>)
    ensures
        forall|k: Seq<char>| #[trigger]
            has_mapping(n, k) <==> exists|i: int|
                0 <= i < all_jobs(n).len() && job_key(#[trigger] all_jobs(n)[i]) == k,
{
    let jobs = all_jobs(n);
    let a = n.local_tcp.len() as int;
    let b = a + n.local_udp.len();
    let c = b + n.remote_tcp.len();
    let d = c + n.remote_udp.len();
    assert forall|k: Seq<char>| #[trigger] has_mapping(n, k) <==> exists|i: int|
        0 <= i < jobs.len() && job_key(#[trigger] jobs[i]) == k by {
        if list_has_key(n, Kind::LocalTcp, k) {
            let i = choose|i: int|
                0 <= i < n.local_tcp.len() && job_key(
                    job(Kind::LocalTcp, #[trigger] list_of(n, Kind::LocalTcp)[i]),
                ) == k;
            assert(job_key(jobs[i]) == k);
        }
        if list_has_key(n, Kind::LocalUdp, k) {
            let i = choose|i: int|
                0 <= i < n.local_udp.len() && job_key(
                    job(Kind::LocalUdp, #[trigger] list_of(n, Kind::LocalUdp)[i]),
                ) == k;
            assert(job_key(jobs[a + i]) == k);
        }
        if list_has_key(n, Kind::RemoteTcp, k) {
            let i = choose|i: int|
                0 <= i < n.remote_tcp.len() && job_key(
                    job(Kind::RemoteTcp, #[trigger] list_of(n, Kind::RemoteTcp)[i]),
                ) == k;
            assert(job_key(jobs[b + i]) == k);
        }
        if list_has_key(n, Kind::RemoteUdp, k) {
            let i = choose|i: int|
                0 <= i < n.remote_udp.len() && job_key(
                    job(Kind::RemoteUdp, #[trigger] list_of(n, Kind::RemoteUdp)[i]),
                ) == k;
            assert(job_key(jobs[c + i]) == k);
        }
        if exists|i: int| 0 <= i < jobs.len() && job_key(#[trigger] jobs[i]) == k {
            let i = choose|i: int| 0 <= i < jobs.len() && job_key(#[trigger] jobs[i]) == k;
            if i < a {
                assert(job(Kind::LocalTcp, list_of(n, Kind::LocalTcp)[i]) == jobs[i]);
            } else if i < b {
                assert(job(Kind::LocalUdp, list_of(n, Kind::LocalUdp)[i - a]) == jobs[i]);
            } else if i < c {
                assert(job(Kind::RemoteTcp, list_of(n, Kind::RemoteTcp)[i - b]) == jobs[i]);
            } else {
                assert(job(Kind::RemoteUdp, list_of(n, Kind::RemoteUdp)[i - c]) == jobs[i]);
            }
        }
    }
}

/// A specification that is accepted stands for a mapping.
pub proof fn lemma_mapping_of(kind: Kind, s: Seq<char>)
    ensures
        mapping_of(kind, s) matches Ok(ends) ==> is_mapping(kind, ends),
{
    law_mappings_are_addresses(s);
}

/// Adding a mapping keeps addresses with ports.
proof fn lemma_addresses_added<C, L, H>(
    n: Node<C, L, H>,
    kind: Kind,
    ends: (Endpoint, Endpoint),
    handle: H,
)
    requires
        has_addresses(n),
        is_mapping(kind, ends),
    ensures
        has_addresses(with_mapping(n, kind, ends, handle)),
{
    assert(are_mappings(kind, list_of(n, kind).push(ends)));
}

/// Removing mappings keeps addresses with ports.
proof fn lemma_addresses_removed<C, L, H>(n: Node<C, L, H>, kind: Kind, key: Seq<char>)
    requires
        has_addresses(n),
    ensures
        has_addresses(without_mapping(n, kind, key)),
{
    let list = list_of(n, kind);
    let keep = |e: (Endpoint, Endpoint)| job_key(job(kind, e)) != key;
    let after = without_key(kind, list, key);
    assert(after == list.filter(keep));
    assert(are_mappings(kind, list));
    assert forall|i: int| 0 <= i < after.len() implies is_mapping(kind, #[trigger] after[i]) by {
        list.lemma_filter_contains_rev(keep, after[i]);
        let j = choose|j: int| 0 <= j < list.len() && list[j] == after[i];
        assert(is_mapping(kind, list[j]));
    }
    assert(are_mappings(kind, after));
}

/// Mappings of a kind have the same key only where they are the same.
pub proof fn lemma_keys_tell_mappings(
    kind: Kind,
    a: (Endpoint, Endpoint),
    b: (Endpoint, Endpoint),
)
    requires
        is_mapping(kind, a),
        is_mapping(kind, b),
        job_key(job(kind, a)) == job_key(job(kind, b)),
    ensures
        a == b,
{
    match kind {
        Kind::LocalTcp => law_local_tcp_keys(a.0, a.1, b.0, b.1),
        Kind::LocalUdp => law_local_udp_keys(a.0, a.1, b.0, b.1),
        Kind::RemoteTcp => law_remote_tcp_keys(a.0, a.1, b.0, b.1),
        Kind::RemoteUdp => law_remote_udp_keys(a.0, a.1, b.0, b.1),
    }
}

/// Mappings of different kinds have different keys.
proof fn lemma_keys_tell_kinds(a: Job, b: Job)
    requires
        a.kind != b.kind,
    ensures
        job_key(a) != job_key(b),
{
    law_kinds_have_different_keys(a.listen, a.target, b.listen, b.target);
    law_kinds_have_different_keys(b.listen, b.target, a.listen, a.target);
}

/// Adding a mapping adds its key.
proof fn lemma_with_mapping<C, L, H>(
    n: Node<C, L, H>,
    kind: Kind,
    ends: (Endpoint, Endpoint),
    handle: H,
)
    requires
        is_consistent(n),
    ensures
        is_consistent(with_mapping(n, kind, ends, handle)),
{
    let m = with_mapping(n, kind, ends, handle);
    let key = job_key(job(kind, ends));
    let before = list_of(n, kind);
    let after = list_of(m, kind);
    assert(after == before.push(ends));
    assert forall|k: Seq<char>, o: Kind| #[trigger]
        list_has_key(m, o, k) == (list_has_key(n, o, k) || (o == kind && k == key)) by {
        if o == kind {
            if list_has_key(n, o, k) {
                let i = choose|i: int|
                    0 <= i < before.len() && job_key(job(kind, #[trigger] list_of(n, kind)[i])) == k;
                assert(list_of(m, kind)[i] == before[i]);
            }
            if k == key {
                assert(list_of(m, kind)[before.len() as int] == ends);
            }
            if list_has_key(m, o, k) {
                let i = choose|i: int|
                    0 <= i < after.len() && job_key(job(kind, #[trigger] list_of(m, kind)[i])) == k;
                if i < before.len() {
                    assert(list_of(n, kind)[i] == after[i]);
                }
            }
        } else {
            assert(list_of(m, o) == list_of(n, o));
        }
    }
    assert forall|k: Seq<char>| #[trigger]
        m.listeners.contains_key(k) <==> m.running && has_mapping(m, k) by {
        assert(n.listeners.contains_key(k) <==> n.running && has_mapping(n, k));
        assert(list_has_key(m, kind, k) == (list_has_key(n, kind, k) || k == key));
    }
}

/// Removing a mapping removes its key, and no other.
proof fn lemma_without_mapping<C, L, H>(n: Node<C, L, H>, kind: Kind, ends: (Endpoint, Endpoint))
    requires
        is_consistent(n),
    ensures
        is_consistent(without_mapping(n, kind, job_key(job(kind, ends)))),
{
    let key = job_key(job(kind, ends));
    let m = without_mapping(n, kind, key);
    let keep = |e: (Endpoint, Endpoint)| job_key(job(kind, e)) != key;
    let before = list_of(n, kind);
    let after = list_of(m, kind);
    assert(after == before.filter(keep));
    assert forall|k: Seq<char>, o: Kind| #[trigger]
        list_has_key(m, o, k) == (list_has_key(n, o, k) && k != key) by {
        if o == kind {
            if list_has_key(m, o, k) {
                let i = choose|i: int|
                    0 <= i < after.len() && job_key(job(kind, #[trigger] list_of(m, kind)[i])) == k;
                assert(keep(before.filter(keep)[i]));
                before.lemma_filter_contains_rev(keep, after[i]);
                assert(before.contains(after[i]));
                let j = choose|j: int| 0 <= j < before.len() && before[j] == after[i];
                assert(list_of(n, kind)[j] == after[i]);
            }
            if list_has_key(n, o, k) && k != key {
                let i = choose|i: int|
                    0 <= i < before.len() && job_key(job(kind, #[trigger] list_of(n, kind)[i])) == k;
                before.lemma_filter_contains(keep, i);
                assert(after.contains(before[i]));
                let j = choose|j: int| 0 <= j < after.len() && after[j] == before[i];
                assert(list_of(m, kind)[j] == before[i]);
            }
        } else {
            assert(list_of(m, o) == list_of(n, o));
            if list_has_key(n, o, k) {
                let i = choose|i: int|
                    0 <= i < list_of(n, o).len() && job_key(job(o, #[trigger] list_of(n, o)[i])) == k;
                lemma_keys_tell_kinds(job(o, list_of(n, o)[i]), job(kind, ends));
            }
        }
    }
    assert forall|k: Seq<char>| #[trigger]
        m.listeners.contains_key(k) <==> m.running && has_mapping(m, k) by {
        assert(n.listeners.contains_key(k) <==> n.running && has_mapping(n, k));
    }
}

} // verus!
