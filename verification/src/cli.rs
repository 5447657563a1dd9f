//! What the command line asks for.
use vstd::prelude::*;
use crate::mapping::{Mapping, TcpMapping, UdpMapping, mapping_for};
use crate::addr::Endpoint;
use crate::text::{chars_of, owned, push_text, same_text};

verus! {

// ── What to do ────────────────────────────────────────────────────────────────

/// The options that decide what is done.
pub struct Options {
    pub help: bool,
    pub version: bool,
    pub genconf: bool,
    pub autoconf: bool,
    pub useconf: bool,
    pub useconffile: Option<String>,
    pub address: bool,
    pub subnet: bool,
    pub publickey: bool,
    pub exportkey: bool,
    pub normaliseconf: bool,
}

/// Where the configuration comes from.
pub enum Source {
    /// It is generated.
    Generated,
    /// It is read from stdin.
    Stdin,
    /// It is read from this file.
    File(String),
}

/// What is done with the configuration.
pub enum Task {
    /// Print the address.
    Address,
    /// Print the subnet.
    Subnet,
    /// Print the public key.
    PublicKey,
    /// Print the private key.
    ExportKey,
    /// Print the configuration.
    Normalise,
    /// Run the node.
    Run,
}

/// What is done first.
pub enum Plan {
    /// Print how the program is used.
    Help,
    /// Print the version.
    Version,
    /// Print a new configuration.
    GenerateConfig,
    /// Complain that no configuration is named.
    NoConfig,
    /// Get the configuration, and go on with it.
    Load(Source, Task),
}

/// What is done with the configuration. Of several questions the first in this
/// order is answered: address, subnet, public key, private key, configuration.
pub open spec fn task_of(o: Options) -> Task {
    if o.address {
        Task::Address
    } else if o.subnet {
        Task::Subnet
    } else if o.publickey {
        Task::PublicKey
    } else if o.exportkey {
        Task::ExportKey
    } else if o.normaliseconf {
        Task::Normalise
    } else {
        Task::Run
    }
}

/// Whether a plan follows from the options. Help goes before the version, that
/// before a new configuration, and that before everything that needs one.
pub open spec fn is_plan(o: Options, p: Plan) -> bool {
    if o.help {
        p is Help
    } else if o.version {
        p is Version
    } else if o.genconf {
        p is GenerateConfig
    } else if o.autoconf {
        p matches Plan::Load(source, task) && source is Generated && task == task_of(o)
    } else if o.useconf {
        p matches Plan::Load(source, task) && source is Stdin && task == task_of(o)
    } else {
        match o.useconffile {
            Some(path) => p matches Plan::Load(Source::File(f), task) && f@ == path@ && task
                == task_of(o),
            None => p is NoConfig,
        }
    }
}

fn task(o: &Options) -> (r: Task)
    ensures
        r == task_of(*o),
{
    if o.address {
        Task::Address
    } else if o.subnet {
        Task::Subnet
    } else if o.publickey {
        Task::PublicKey
    } else if o.exportkey {
        Task::ExportKey
    } else if o.normaliseconf {
        Task::Normalise
    } else {
        Task::Run
    }
}

/// What the options ask for.
pub fn plan(o: &Options) -> (r: Plan)
    ensures
        is_plan(*o, r),
{
    if o.help {
        Plan::Help
    } else if o.version {
        Plan::Version
    } else if o.genconf {
        Plan::GenerateConfig
    } else if o.autoconf {
        Plan::Load(Source::Generated, task(o))
    } else if o.useconf {
        Plan::Load(Source::Stdin, task(o))
    } else {
        match &o.useconffile {
            Some(path) => Plan::Load(Source::File(owned(path.as_str())), task(o)),
            None => Plan::NoConfig,
        }
    }
}

// ── Forwarding specifications ─────────────────────────────────────────────────

/// A mapping that a specification stands for: where it listens, and where it
/// leads.
pub type Parsed = Result<(Endpoint, Endpoint), Seq<char>>;

/// What is said of a specification that is refused.
pub open spec fn refusal(option: Seq<char>, spec_text: Seq<char>, reason: Seq<char>) -> Seq<char> {
    option + " '"@ + spec_text + "': "@ + reason
}

/// Whether something is said of the first specification that is refused.
pub open spec fn is_first_refusal(
    option: Seq<char>,
    specs: Seq<String>,
    parse: spec_fn(Seq<char>) -> Parsed,
    said: Seq<char>,
) -> bool {
    exists|i: int|
        0 <= i < specs.len() && (forall|j: int|
            0 <= j < i ==> parse((#[trigger] specs[j])@) is Ok) && (parse(
            (#[trigger] specs[i])@,
        ) matches Err(reason) && said == refusal(option, specs[i]@, reason))
}

/// Whether all specifications are accepted.
pub open spec fn all_accepted(specs: Seq<String>, parse: spec_fn(Seq<char>) -> Parsed) -> bool {
    forall|j: int| 0 <= j < specs.len() ==> parse((#[trigger] specs[j])@) is Ok
}

/// How a remote or a local specification is read.
pub open spec fn reading(remote: bool) -> spec_fn(Seq<char>) -> Parsed {
    |s: Seq<char>| mapping_for(remote, s)
}

/// Whether mappings are those of the specifications, in order.
pub open spec fn mappings_of<M: Mapping>(
    v: Seq<M>,
    specs: Seq<String>,
    parse: spec_fn(Seq<char>) -> Parsed,
) -> bool {
    &&& v.len() == specs.len()
    &&& forall|i: int|
        0 <= i < v.len() ==> parse((#[trigger] specs[i])@) == Parsed::Ok(v[i].ends())
}

fn refuse(option: &str, spec_text: &str, reason: &str) -> (r: String)
    ensures
        r@ == refusal(option@, spec_text@, reason@),
{
    let mut r = owned(option);
    push_text(&mut r, " '");
    push_text(&mut r, spec_text);
    push_text(&mut r, "': ");
    push_text(&mut r, reason);
    r
}

/// Read the specifications that an option gives.
fn read_all<M: Mapping>(option: &str, remote: bool, specs: &Vec<String>) -> (r: Result<
    Vec<M>,
    String,
>)
    ensures
        match r {
            Ok(v) => mappings_of(v@, specs@, reading(remote)),
            Err(m) => is_first_refusal(option@, specs@, reading(remote), m@),
        },
{
    let mut v: Vec<M> = Vec::new();
    let mut i: usize = 0;
    while i < specs.len()
        invariant
            i <= specs@.len(),
            mappings_of(v@, specs@.take(i as int), reading(remote)),
        decreases specs.len() - i,
    {
        let ghost done = specs@.take(i as int);
        match M::read(remote, specs[i].as_str()) {
            Ok(m) => {
                v.push(m);
                assert forall|j: int| 0 <= j < v@.len() implies reading(remote)(
                    (#[trigger] specs@.take(i + 1)[j])@,
                ) == Parsed::Ok(v@[j].ends()) by {
                    if j < i {
                        assert(done[j] == specs@[j]);
                    }
                }
            },
            Err(e) => {
                assert forall|j: int| 0 <= j < i implies reading(remote)(
                    (#[trigger] specs@[j])@,
                ) is Ok by {
                    assert(done[j] == specs@[j]);
                }
                return Err(refuse(option, specs[i].as_str(), e.as_str()));
            },
        }
        i += 1;
    }
    assert(specs@.take(specs@.len() as int) =~= specs@);
    Ok(v)
}

/// Read the `--local-tcp` specifications.
pub fn parse_local_tcp(specs: &Vec<String>) -> (r: Result<Vec<TcpMapping>, String>)
    ensures
        match r {
            Ok(v) => mappings_of(v@, specs@, reading(false)),
            Err(m) => is_first_refusal("--local-tcp"@, specs@, reading(false), m@),
        },
{
    read_all("--local-tcp", false, specs)
}

/// Read the `--local-udp` specifications.
pub fn parse_local_udp(specs: &Vec<String>) -> (r: Result<Vec<UdpMapping>, String>)
    ensures
        match r {
            Ok(v) => mappings_of(v@, specs@, reading(false)),
            Err(m) => is_first_refusal("--local-udp"@, specs@, reading(false), m@),
        },
{
    read_all("--local-udp", false, specs)
}

/// Read the `--remote-tcp` specifications.
pub fn parse_remote_tcp(specs: &Vec<String>) -> (r: Result<Vec<TcpMapping>, String>)
    ensures
        match r {
            Ok(v) => mappings_of(v@, specs@, reading(true)),
            Err(m) => is_first_refusal("--remote-tcp"@, specs@, reading(true), m@),
        },
{
    read_all("--remote-tcp", true, specs)
}

/// Read the `--remote-udp` specifications.
pub fn parse_remote_udp(specs: &Vec<String>) -> (r: Result<Vec<UdpMapping>, String>)
    ensures
        match r {
            Ok(v) => mappings_of(v@, specs@, reading(true)),
            Err(m) => is_first_refusal("--remote-udp"@, specs@, reading(true), m@),
        },
{
    read_all("--remote-udp", true, specs)
}

/// The mappings that a node is run with.
pub struct Forwards {
    pub local_tcp: Vec<TcpMapping>,
    pub local_udp: Vec<UdpMapping>,
    pub remote_tcp: Vec<TcpMapping>,
    pub remote_udp: Vec<UdpMapping>,
}

/// Read all forwarding specifications.
pub fn forwards(
    local_tcp: &Vec<String>,
    local_udp: &Vec<String>,
    remote_tcp: &Vec<String>,
    remote_udp: &Vec<String>,
) -> (r: Result<Forwards, String>)
    ensures
        match r {
            Ok(f) => {
                &&& mappings_of(f.local_tcp@, local_tcp@, reading(false))
                &&& mappings_of(f.local_udp@, local_udp@, reading(false))
                &&& mappings_of(f.remote_tcp@, remote_tcp@, reading(true))
                &&& mappings_of(f.remote_udp@, remote_udp@, reading(true))
            },
            Err(m) => if !all_accepted(local_tcp@, reading(false)) {
                is_first_refusal("--local-tcp"@, local_tcp@, reading(false), m@)
            } else if !all_accepted(local_udp@, reading(false)) {
                is_first_refusal("--local-udp"@, local_udp@, reading(false), m@)
            } else if !all_accepted(remote_tcp@, reading(true)) {
                is_first_refusal("--remote-tcp"@, remote_tcp@, reading(true), m@)
            } else {
                is_first_refusal("--remote-udp"@, remote_udp@, reading(true), m@)
            },
        },
{
    let lt = match parse_local_tcp(local_tcp) {
        Ok(v) => v,
        Err(e) => {
            return Err(e);
        },
    };
    let lu = match parse_local_udp(local_udp) {
        Ok(v) => v,
        Err(e) => {
            return Err(e);
        },
    };
    let rt = match parse_remote_tcp(remote_tcp) {
        Ok(v) => v,
        Err(e) => {
            return Err(e);
        },
    };
    let ru = match parse_remote_udp(remote_udp) {
        Ok(v) => v,
        Err(e) => {
            return Err(e);
        },
    };
    Ok(Forwards { local_tcp: lt, local_udp: lu, remote_tcp: rt, remote_udp: ru })
}

// ── Other options ─────────────────────────────────────────────────────────────

/// Where the SOCKS proxy listens: on all addresses, where only a port is given.
pub open spec fn socks_listen(addr: Seq<char>) -> Seq<char> {
    if addr.len() > 0 && addr[0] == ':' {
        "0.0.0.0"@ + addr
    } else {
        addr
    }
}

/// Where the SOCKS proxy listens.
pub fn socks_address(addr: &str) -> (r: String)
    ensures
        r@ == socks_listen(addr@),
{
    let chars = chars_of(addr);
    if chars.len() > 0 && chars[0] == ':' {
        let mut r = owned("0.0.0.0");
        push_text(&mut r, addr);
        r
    } else {
        owned(addr)
    }
}

/// Which messages are logged: those of a level of this program and the node's
/// core, and warnings of the routing layer.
pub fn log_filter(level: &str) -> (r: String)
    ensures
        r@ == "yggstack="@ + level@ + ",yggdrasil="@ + level@ + ",ironwood=warn"@,
{
    let mut r = owned("yggstack=");
    push_text(&mut r, level);
    push_text(&mut r, ",yggdrasil=");
    push_text(&mut r, level);
    push_text(&mut r, ",ironwood=warn");
    r
}

/// The level that is logged: `info`, where none is given.
pub fn log_level(given: Option<String>) -> (r: String)
    ensures
        r@ == match given {
            Some(level) => level@,
            None => "info"@,
        },
{
    match given {
        Some(level) => level,
        None => owned("info"),
    }
}

/// Where messages are logged to: a file; none for stdout.
pub fn log_file(logto: Option<String>) -> (r: Option<String>)
    ensures
        match logto {
            Some(path) => if path@ == "stdout"@ {
                r is None
            } else {
                r matches Some(p) && p@ == path@
            },
            None => r is None,
        },
{
    match logto {
        Some(path) => if same_text(path.as_str(), "stdout") {
            None
        } else {
            Some(path)
        },
        None => None,
    }
}

/// What is said of a configuration that could not be loaded.
pub fn config_failure(source: &Source, reason: &str) -> (r: String)
    ensures
        match source {
            Source::Generated => r@ == reason@,
            Source::Stdin => r@ == "stdin"@ + ": "@ + reason@,
            Source::File(path) => r@ == path@ + ": "@ + reason@,
        },
{
    let mut r = match source {
        Source::Generated => {
            return owned(reason);
        },
        Source::Stdin => owned("stdin"),
        Source::File(path) => owned(path.as_str()),
    };
    push_text(&mut r, ": ");
    push_text(&mut r, reason);
    r
}

} // verus!
