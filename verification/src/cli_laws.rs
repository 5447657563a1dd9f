//! What holds of the command line and of configurations.
use vstd::prelude::*;
use crate::addr::{Ip, Ipv6Addr, ip_text};
use crate::cli::{
    Forwards, Options, Parsed, Plan, Source, Task, all_accepted, config_failure, forwards,
    is_first_refusal, log_file, log_filter, log_level, mappings_of, parse_local_tcp,
    parse_local_udp, parse_remote_tcp, parse_remote_udp, plan, reading, socks_address,
};
use crate::config::{
    Config, Loaded, addr_for_key, generate, generate_text, load_file, load_stdin, subnet_for_key,
    subnet_text, template_config, text_or_empty, userspace,
};
use crate::mapping::{Mapping, TcpMapping, UdpMapping};
use crate::text::dec_text;

verus! {

// ── What to do ────────────────────────────────────────────────────────────────

/// Whether something is asked of the configuration.
pub open spec fn asks(o: Options) -> bool {
    o.address || o.subnet || o.publickey || o.exportkey || o.normaliseconf
}

/// Help, the version and a new configuration are given without loading one, in this
/// order, whatever else is asked; without any source of a configuration, nothing can
/// be loaded.
pub proof fn law_what_needs_no_configuration(o: &Options, p: Plan)
    requires
        call_ensures(plan, (o,), p),
    ensures
        p is Help <==> o.help,
        p is Version <==> o.version && !o.help,
        p is GenerateConfig <==> o.genconf && !o.version && !o.help,
        p is NoConfig <==> !o.genconf && !o.version && !o.help && !o.autoconf && !o.useconf
            && o.useconffile is None,
        p is Load <==> !o.genconf && !o.version && !o.help && (o.autoconf || o.useconf
            || o.useconffile is Some),
{
}

/// A configuration is generated where that is asked for, else read from stdin where
/// that is asked for, else from the file that is named.
pub proof fn law_where_the_configuration_comes_from(o: &Options, p: Plan)
    requires
        call_ensures(plan, (o,), p),
    ensures
        p matches Plan::Load(s, _) ==> {
            &&& s is Generated <==> o.autoconf
            &&& s is Stdin <==> !o.autoconf && o.useconf
            &&& s matches Source::File(f) ==> !o.autoconf && !o.useconf && (
            o.useconffile matches Some(path) && f@ == path@)
        },
{
}

/// The node is run only where nothing is asked of its configuration, and a question
/// is answered in place of running it: the first of address, subnet, public key,
/// private key and configuration that was asked.
pub proof fn law_questions_are_answered(o: &Options, p: Plan)
    requires
        call_ensures(plan, (o,), p),
    ensures
        p matches Plan::Load(_, t) ==> {
            &&& t is Run <==> !asks(*o)
            &&& t is Address <==> o.address
            &&& t is Subnet <==> o.subnet && !o.address
            &&& t is PublicKey <==> o.publickey && !o.subnet && !o.address
            &&& t is ExportKey <==> o.exportkey && !o.publickey && !o.subnet && !o.address
            &&& t is Normalise <==> o.normaliseconf && !o.exportkey && !o.publickey && !o.subnet
                && !o.address
        },
{
}

/// Wherever two configurations come from, the same questions lead to the same task.
pub proof fn law_tasks_do_not_depend_on_the_source(o: &Options, p: Plan, u: &Options, q: Plan)
    requires
        call_ensures(plan, (o,), p),
        call_ensures(plan, (u,), q),
        o.address == u.address,
        o.subnet == u.subnet,
        o.publickey == u.publickey,
        o.exportkey == u.exportkey,
        o.normaliseconf == u.normaliseconf,
        p is Load,
        q is Load,
    ensures
        p->Load_1 == q->Load_1,
{
}

// ── Forwarding specifications ─────────────────────────────────────────────────


/// The `--local-tcp` specifications are read one for one, in order: each as it reads
/// alone. One that does not read refuses all.
pub proof fn law_local_tcp_specifications(
    specs: &Vec<String>,
    r: Result<Vec<TcpMapping>, String>,
    i: int,
    text: &str,
    one: Result<TcpMapping, String>,
)
    requires
        call_ensures(parse_local_tcp, (specs,), r),
        0 <= i < specs@.len(),
        text@ == specs@[i]@,
        call_ensures(TcpMapping::parse_local, (text,), one),
    ensures
        r matches Ok(v) ==> (one matches Ok(m) && v@.len() == specs@.len() && v@[i].listen@
            == m.listen@ && v@[i].target@ == m.target@),
        one is Err ==> r is Err,
{
    if let Ok(v) = r {
        assert(reading(false)(specs@[i]@) == Parsed::Ok(v@[i].ends()));
    }
}

/// The `--local-udp` specifications are read one for one, in order.
pub proof fn law_local_udp_specifications(
    specs: &Vec<String>,
    r: Result<Vec<UdpMapping>, String>,
    i: int,
    text: &str,
    one: Result<UdpMapping, String>,
)
    requires
        call_ensures(parse_local_udp, (specs,), r),
        0 <= i < specs@.len(),
        text@ == specs@[i]@,
        call_ensures(UdpMapping::parse_local, (text,), one),
    ensures
        r matches Ok(v) ==> (one matches Ok(m) && v@.len() == specs@.len() && v@[i].listen@
            == m.listen@ && v@[i].target@ == m.target@),
        one is Err ==> r is Err,
{
    if let Ok(v) = r {
        assert(reading(false)(specs@[i]@) == Parsed::Ok(v@[i].ends()));
    }
}

/// The `--remote-tcp` specifications are read one for one, in order.
pub proof fn law_remote_tcp_specifications(
    specs: &Vec<String>,
    r: Result<Vec<TcpMapping>, String>,
    i: int,
    text: &str,
    one: Result<TcpMapping, String>,
)
    requires
        call_ensures(parse_remote_tcp, (specs,), r),
        0 <= i < specs@.len(),
        text@ == specs@[i]@,
        call_ensures(TcpMapping::parse_remote, (text,), one),
    ensures
        r matches Ok(v) ==> (one matches Ok(m) && v@.len() == specs@.len() && v@[i].listen@
            == m.listen@ && v@[i].target@ == m.target@),
        one is Err ==> r is Err,
{
    if let Ok(v) = r {
        assert(reading(true)(specs@[i]@) == Parsed::Ok(v@[i].ends()));
    }
}

/// The `--remote-udp` specifications are read one for one, in order.
pub proof fn law_remote_udp_specifications(
    specs: &Vec<String>,
    r: Result<Vec<UdpMapping>, String>,
    i: int,
    text: &str,
    one: Result<UdpMapping, String>,
)
    requires
        call_ensures(parse_remote_udp, (specs,), r),
        0 <= i < specs@.len(),
        text@ == specs@[i]@,
        call_ensures(UdpMapping::parse_remote, (text,), one),
    ensures
        r matches Ok(v) ==> (one matches Ok(m) && v@.len() == specs@.len() && v@[i].listen@
            == m.listen@ && v@[i].target@ == m.target@),
        one is Err ==> r is Err,
{
    if let Ok(v) = r {
        assert(reading(true)(specs@[i]@) == Parsed::Ok(v@[i].ends()));
    }
}

/// Where every specification reads, all are accepted, each list by its own option; a
/// mapping is never taken for one of another kind.
pub proof fn law_forwards_keep_their_kind(
    lt: &Vec<String>,
    lu: &Vec<String>,
    rt: &Vec<String>,
    ru: &Vec<String>,
    r: Result<Forwards, String>,
    a: Result<Vec<TcpMapping>, String>,
    b: Result<Vec<UdpMapping>, String>,
    c: Result<Vec<TcpMapping>, String>,
    d: Result<Vec<UdpMapping>, String>,
)
    requires
        call_ensures(forwards, (lt, lu, rt, ru), r),
        call_ensures(parse_local_tcp, (lt,), a),
        call_ensures(parse_local_udp, (lu,), b),
        call_ensures(parse_remote_tcp, (rt,), c),
        call_ensures(parse_remote_udp, (ru,), d),
    ensures
        r is Ok <==> a is Ok && b is Ok && c is Ok && d is Ok,
        r matches Ok(f) ==> {
            &&& f.local_tcp@.len() == lt@.len() && f.local_udp@.len() == lu@.len()
            &&& f.remote_tcp@.len() == rt@.len() && f.remote_udp@.len() == ru@.len()
            &&& forall|i: int|
                0 <= i < lt@.len() ==> (#[trigger] f.local_tcp@[i]).ends() == a->Ok_0@[i].ends()
            &&& forall|i: int|
                0 <= i < lu@.len() ==> (#[trigger] f.local_udp@[i]).ends() == b->Ok_0@[i].ends()
            &&& forall|i: int|
                0 <= i < rt@.len() ==> (#[trigger] f.remote_tcp@[i]).ends() == c->Ok_0@[i].ends()
            &&& forall|i: int|
                0 <= i < ru@.len() ==> (#[trigger] f.remote_udp@[i]).ends() == d->Ok_0@[i].ends()
        },
{
    if let Ok(f) = r {
        lemma_same_mappings(f.local_tcp@, lt@, false, a, "--local-tcp"@);
        lemma_same_mappings(f.local_udp@, lu@, false, b, "--local-udp"@);
        lemma_same_mappings(f.remote_tcp@, rt@, true, c, "--remote-tcp"@);
        lemma_same_mappings(f.remote_udp@, ru@, true, d, "--remote-udp"@);
    } else if a is Ok && b is Ok && c is Ok && d is Ok {
        lemma_accepted(a->Ok_0@, lt@, false);
        lemma_accepted(b->Ok_0@, lu@, false);
        lemma_accepted(c->Ok_0@, rt@, true);
        lemma_accepted(d->Ok_0@, ru@, true);
        let m = r->Err_0@;
        assert(is_first_refusal("--remote-udp"@, ru@, reading(true), m));
    }
}

proof fn lemma_accepted<M: Mapping>(v: Seq<M>, specs: Seq<String>, remote: bool)
    requires
        mappings_of(v, specs, reading(remote)),
    ensures
        all_accepted(specs, reading(remote)),
{
}

proof fn lemma_same_mappings<M: Mapping>(
    v: Seq<M>,
    specs: Seq<String>,
    remote: bool,
    r: Result<Vec<M>, String>,
    option: Seq<char>,
)
    requires
        mappings_of(v, specs, reading(remote)),
        match r {
            Ok(w) => mappings_of(w@, specs, reading(remote)),
            Err(m) => is_first_refusal(option, specs, reading(remote), m@),
        },
    ensures
        r matches Ok(w) && w@.len() == v.len() && forall|i: int|
            0 <= i < v.len() ==> (#[trigger] v[i]).ends() == w@[i].ends(),
{
    match r {
        Ok(w) => {
            assert forall|i: int| 0 <= i < v.len() implies (#[trigger] v[i]).ends()
                == w@[i].ends() by {
                assert(reading(remote)(specs[i]@) == Parsed::Ok(v[i].ends()));
            }
        },
        Err(_) => {},
    }
}

/// What is said of a refused list names the option, the first specification that does
/// not read, and why that does not.
pub proof fn law_refusals_name_the_first(
    specs: &Vec<String>,
    r: Result<Vec<TcpMapping>, String>,
    i: int,
    text: &str,
    one: Result<TcpMapping, String>,
    earlier: Seq<Result<TcpMapping, String>>,
    texts: Seq<&str>,
)
    requires
        call_ensures(parse_local_tcp, (specs,), r),
        0 <= i < specs@.len(),
        text@ == specs@[i]@,
        call_ensures(TcpMapping::parse_local, (text,), one),
        one is Err,
        earlier.len() == i,
        texts.len() == i,
        forall|j: int|
            0 <= j < i ==> #[trigger] call_ensures(TcpMapping::parse_local, (texts[j],), earlier[j]),
        forall|j: int| 0 <= j < i ==> (#[trigger] texts[j])@ == specs@[j]@,
        forall|j: int| 0 <= j < i ==> #[trigger] earlier[j] is Ok,
    ensures
        r matches Err(m) && m@ == "--local-tcp"@ + " '"@ + text@ + "': "@ + one->Err_0@,
{
    let parse = reading(false);
    if let Ok(v) = r {
        assert(parse(specs@[i]@) == Parsed::Ok(v@[i].ends()));
    } else {
        let m = r->Err_0@;
        let k = choose|k: int|
            0 <= k < specs@.len() && (forall|j: int|
                0 <= j < k ==> parse((#[trigger] specs@[j])@) is Ok) && (parse(
                (#[trigger] specs@[k])@,
            ) matches Err(reason) && m == crate::cli::refusal("--local-tcp"@, specs@[k]@, reason));
        if k < i {
            assert(call_ensures(TcpMapping::parse_local, (texts[k],), earlier[k]));
            assert(texts[k]@ == specs@[k]@);
        } else if k > i {
            assert(parse(specs@[i]@) is Ok);
        }
    }
}

// ── Other options ─────────────────────────────────────────────────────────────

/// A listening address that is only a colon and a port stands for that port on every
/// IPv4 address; any other is taken as it is.
pub proof fn law_socks_addresses(addr: &str, r: String)
    requires
        call_ensures(socks_address, (addr,), r),
    ensures
        addr@.len() > 0 && addr@[0] == ':' ==> r@ == "0.0.0.0"@ + addr@,
        addr@.len() == 0 || addr@[0] != ':' ==> r@ == addr@,
{
}

/// The level that is given is the one that is logged, `info` where none is; messages
/// go to the file that is given, and to stdout where that, or nothing, is.
pub proof fn law_logging(
    given: Option<String>,
    level: String,
    logto: Option<String>,
    file: Option<String>,
    shown: &str,
    filter: String,
)
    requires
        call_ensures(log_level, (given,), level),
        call_ensures(log_file, (logto,), file),
        call_ensures(log_filter, (shown,), filter),
    ensures
        given matches Some(l) ==> level@ == l@,
        given is None ==> level@ == "info"@,
        file matches Some(f) ==> (logto matches Some(p) && p@ == f@ && p@ != "stdout"@),
        logto matches Some(p) && p@ != "stdout"@ ==> file is Some,
        filter@ == "yggstack="@ + shown@ + ",yggdrasil="@ + shown@ + ",ironwood=warn"@,
{
}

/// What is said of a configuration that was not loaded names where it came from.
pub proof fn law_config_failures(source: &Source, reason: &str, r: String)
    requires
        call_ensures(config_failure, (source, reason), r),
    ensures
        source matches Source::File(f) ==> r@ == f@ + ": "@ + reason@,
        source is Stdin ==> r@ == "stdin: "@ + reason@,
        source is Generated ==> r@ == reason@,
{
    reveal_strlit("stdin");
    reveal_strlit(": ");
    reveal_strlit("stdin: ");
    assert("stdin"@ + ": "@ =~= "stdin: "@);
}

// ── Configurations ────────────────────────────────────────────────────────────

/// Wherever a configuration comes from, it uses neither a TUN adapter nor an admin
/// socket, and the rest of it is as it was loaded; what was not read or understood is
/// no configuration.
pub proof fn law_configurations_stay_in_userspace<R>(
    path: &str,
    loaded: Loaded<R>,
    a: Result<Config<R>, String>,
    b: Result<Config<R>, String>,
    fresh: Config<R>,
    c: Config<R>,
)
    requires
        call_ensures(load_file::<R>, (path, loaded), a),
        call_ensures(load_stdin::<R>, (loaded,), b),
        call_ensures(generate::<R>, (fresh,), c),
    ensures
        a is Ok <==> loaded is Parsed,
        b is Ok <==> loaded is Parsed,
        a matches Ok(cfg) ==> cfg.if_name@ == "none"@ && cfg.admin_listen@ == "none"@ && cfg.rest
            == loaded->Parsed_0.rest,
        b matches Ok(cfg) ==> cfg.if_name@ == "none"@ && cfg.admin_listen@ == "none"@ && cfg.rest
            == loaded->Parsed_0.rest,
        c.if_name@ == "none"@ && c.admin_listen@ == "none"@ && c.rest == fresh.rest,
        loaded matches Loaded::Unreadable(e) ==> a->Err_0@ == "cannot read "@ + path@ + ": "@ + e@
            && b->Err_0@ == "stdin read error: "@ + e@,
        loaded matches Loaded::Malformed(e) ==> a->Err_0@ == "TOML parse error: "@ + e@
            && b->Err_0@ == "TOML parse error: "@ + e@,
{
}

/// A template is the configuration that it was parsed to, the default one where it
/// was not; a text is the rendered one, the template itself, or nothing, where it
/// could not be rendered.
pub proof fn law_templates<R>(
    parsed: Option<Config<R>>,
    other: Config<R>,
    c: Config<R>,
    template: String,
    rendered: Option<String>,
    a: String,
    b: String,
)
    requires
        call_ensures(template_config::<R>, (parsed, other), c),
        call_ensures(generate_text, (template, rendered), a),
        call_ensures(text_or_empty, (rendered,), b),
    ensures
        c.if_name@ == "none"@ && c.admin_listen@ == "none"@,
        parsed matches Some(p) ==> c.rest == p.rest,
        parsed is None ==> c.rest == other.rest,
        rendered matches Some(t) ==> a@ == t@ && b@ == t@,
        rendered is None ==> a@ == template@ && b@.len() == 0,
{
}

/// The address of a key is made of its 16 octets; its subnet of its 8 octets and as
/// many zeros, 64 bits long, and is written so.
pub proof fn law_addresses_of_keys(
    derived: [u8; 16],
    a: Ipv6Addr,
    prefix: [u8; 8],
    s: (Ipv6Addr, u8),
    text: String,
)
    requires
        call_ensures(addr_for_key, (derived,), a),
        call_ensures(subnet_for_key, (prefix,), s),
        call_ensures(subnet_text, (s,), text),
    ensures
        a.octets@ == derived@,
        s.1 == 64,
        forall|i: int| 0 <= i < 8 ==> s.0.octets@[i] == prefix@[i],
        forall|i: int| 8 <= i < 16 ==> s.0.octets@[i] == 0,
        text@ == ip_text(Ip::V6(s.0.octets@)) + "/"@ + dec_text(64),
{
}

} // verus!
