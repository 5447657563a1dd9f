//! The node's configuration.
//!
//! The TUN adapter and the admin socket are always disabled. The rest of a
//! configuration is carried along as it is.
use vstd::prelude::*;
use crate::addr::{Ip, Ipv6Addr, ip_text, IpAddr};
use crate::text::{dec_text, owned, push_decimal, push_text};

pub use crate::resolver::NAME_MAPPING_SUFFIX;

verus! {

/// A configuration. What the node's core alone reads is its `rest`.
pub struct Config<R> {
    /// The name of the TUN adapter.
    pub if_name: String,
    /// Where the admin socket listens.
    pub admin_listen: String,
    /// Everything else.
    pub rest: R,
}

/// Whether neither a TUN adapter nor an admin socket is used.
pub open spec fn is_userspace<R>(cfg: Config<R>) -> bool {
    cfg.if_name@ == "none"@ && cfg.admin_listen@ == "none"@
}

/// The configuration without TUN adapter and admin socket.
pub fn userspace<R>(cfg: Config<R>) -> (r: Config<R>)
    ensures
        is_userspace(r),
        r.rest == cfg.rest,
{
    Config { if_name: owned("none"), admin_listen: owned("none"), rest: cfg.rest }
}

/// What came of reading a configuration.
pub enum Loaded<R> {
    /// The text could not be read, for this reason.
    Unreadable(String),
    /// The text is no configuration, for this reason.
    Malformed(String),
    /// The text holds this configuration.
    Parsed(Config<R>),
}

/// The text of a reason, behind what went wrong.
fn because(what: &str, reason: &str) -> (r: String)
    ensures
        r@ == what@ + reason@,
{
    let mut r = owned(what);
    push_text(&mut r, reason);
    r
}

/// A config from a file path.
pub fn load_file<R>(path: &str, loaded: Loaded<R>) -> (r: Result<Config<R>, String>)
    ensures
        match loaded {
            Loaded::Unreadable(e) => r matches Err(m) && m@ == "cannot read "@ + path@ + ": "@ + e@,
            Loaded::Malformed(e) => r matches Err(m) && m@ == "TOML parse error: "@ + e@,
            Loaded::Parsed(cfg) => r matches Ok(c) && is_userspace(c) && c.rest == cfg.rest,
        },
{
    match loaded {
        Loaded::Unreadable(e) => {
            let mut m = owned("cannot read ");
            push_text(&mut m, path);
            push_text(&mut m, ": ");
            push_text(&mut m, e.as_str());
            Err(m)
        },
        Loaded::Malformed(e) => Err(because("TOML parse error: ", e.as_str())),
        Loaded::Parsed(cfg) => Ok(userspace(cfg)),
    }
}

/// A config from stdin.
pub fn load_stdin<R>(loaded: Loaded<R>) -> (r: Result<Config<R>, String>)
    ensures
        match loaded {
            Loaded::Unreadable(e) => r matches Err(m) && m@ == "stdin read error: "@ + e@,
            Loaded::Malformed(e) => r matches Err(m) && m@ == "TOML parse error: "@ + e@,
            Loaded::Parsed(cfg) => r matches Ok(c) && is_userspace(c) && c.rest == cfg.rest,
        },
{
    match loaded {
        Loaded::Unreadable(e) => Err(because("stdin read error: ", e.as_str())),
        Loaded::Malformed(e) => Err(because("TOML parse error: ", e.as_str())),
        Loaded::Parsed(cfg) => Ok(userspace(cfg)),
    }
}

/// A brand-new config: one with a random keypair, TUN disabled.
pub fn generate<R>(fresh: Config<R>) -> (r: Config<R>)
    ensures
        is_userspace(r),
        r.rest == fresh.rest,
{
    userspace(fresh)
}

/// The configuration that a generated template stands for: what it was parsed to,
/// or the default one where it could not be parsed.
pub fn template_config<R>(parsed: Option<Config<R>>, default_config: Config<R>) -> (r: Config<R>)
    ensures
        is_userspace(r),
        r.rest == match parsed {
            Some(cfg) => cfg.rest,
            None => default_config.rest,
        },
{
    match parsed {
        Some(cfg) => userspace(cfg),
        None => userspace(default_config),
    }
}

/// The TOML text for a freshly generated config: the rendered text, or the
/// template where it could not be rendered.
pub fn generate_text(template: String, rendered: Option<String>) -> (r: String)
    ensures
        r@ == match rendered {
            Some(text) => text@,
            None => template@,
        },
{
    match rendered {
        Some(text) => text,
        None => template,
    }
}

/// The text of a configuration: empty where it could not be rendered.
pub fn text_or_empty(rendered: Option<String>) -> (r: String)
    ensures
        r@ == match rendered {
            Some(text) => text@,
            None => Seq::<char>::empty(),
        },
{
    match rendered {
        Some(text) => text,
        None => String::new(),
    }
}

/// The Yggdrasil IPv6 address that the 16 octets derived from a public key make.
pub fn addr_for_key(derived: [u8; 16]) -> (r: Ipv6Addr)
    ensures
        r.octets@ == derived@,
{
    Ipv6Addr { octets: derived }
}

/// The subnet that starts with 8 octets.
pub open spec fn subnet_octets(prefix: Seq<u8>) -> Seq<u8> {
    prefix + Seq::new(8, |i: int| 0u8)
}

/// The Yggdrasil /64 subnet that the 8 octets derived from a public key make.
pub fn subnet_for_key(derived: [u8; 8]) -> (r: (Ipv6Addr, u8))
    ensures
        r.0.octets@ == subnet_octets(derived@),
        r.1 == 64,
{
    let p = derived;
    let octets: [u8; 16] = [
        p[0], p[1], p[2], p[3], p[4], p[5], p[6], p[7], 0, 0, 0, 0, 0, 0, 0, 0,
    ];
    assert(octets@ =~= subnet_octets(derived@));
    (Ipv6Addr { octets }, 64)
}

/// A subnet as text: `<address>/<length>`.
pub open spec fn subnet_form(octets: Seq<u8>, len: nat) -> Seq<char> {
    ip_text(Ip::V6(octets)) + "/"@ + dec_text(len)
}

/// A subnet as text.
pub fn subnet_text(subnet: (Ipv6Addr, u8)) -> (r: String)
    ensures
        r@ == subnet_form(subnet.0.octets@, subnet.1 as nat),
{
    let mut r = IpAddr::V6(subnet.0).to_text();
    push_text(&mut r, "/");
    push_decimal(&mut r, subnet.1 as u64);
    r
}

} // verus!
