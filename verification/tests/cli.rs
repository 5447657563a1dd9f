//! The command line and the configuration.
use yggstack::cli::{
    config_failure, forwards, log_file, log_filter, log_level, plan, socks_address, Options, Plan, Source,
    Task,
};
use yggstack::config::{
    addr_for_key, generate, generate_text, load_file, load_stdin, subnet_for_key, subnet_text,
    template_config, text_or_empty, Config, Loaded, NAME_MAPPING_SUFFIX,
};

fn options() -> Options {
    Options {
        help: false,
        version: false,
        genconf: false,
        autoconf: false,
        useconf: false,
        useconffile: None,
        address: false,
        subnet: false,
        publickey: false,
        exportkey: false,
        normaliseconf: false,
    }
}

fn config(rest: u8) -> Config<u8> {
    Config { if_name: "auto".to_string(), admin_listen: "x".to_string(), rest }
}

fn is_userspace(c: &Config<u8>, rest: u8) -> bool {
    c.if_name == "none" && c.admin_listen == "none" && c.rest == rest
}

fn texts(v: &[&str]) -> Vec<String> {
    v.iter().map(|s| s.to_string()).collect()
}

#[test]
fn the_first_request_is_granted() {
    assert!(matches!(plan(&options()), Plan::NoConfig));
    let mut o = options();
    o.useconffile = Some("f".to_string());
    assert!(matches!(plan(&o), Plan::Load(Source::File(f), Task::Run) if f == "f"));
    o.normaliseconf = true;
    assert!(matches!(plan(&o), Plan::Load(Source::File(_), Task::Normalise)));
    o.useconf = true;
    o.exportkey = true;
    assert!(matches!(plan(&o), Plan::Load(Source::Stdin, Task::ExportKey)));
    o.autoconf = true;
    o.publickey = true;
    assert!(matches!(plan(&o), Plan::Load(Source::Generated, Task::PublicKey)));
    o.subnet = true;
    assert!(matches!(plan(&o), Plan::Load(_, Task::Subnet)));
    o.address = true;
    assert!(matches!(plan(&o), Plan::Load(_, Task::Address)));
    o.genconf = true;
    assert!(matches!(plan(&o), Plan::GenerateConfig));
    o.version = true;
    assert!(matches!(plan(&o), Plan::Version));
    o.help = true;
    assert!(matches!(plan(&o), Plan::Help));
}

#[test]
fn specifications_are_read_in_order() {
    let none = texts(&[]);
    let f = forwards(&texts(&["80:[200::1]:81", "82:[200::2]:83"]), &none, &texts(&["22"]), &none).ok().unwrap();
    assert_eq!(f.local_tcp.len(), 2);
    assert_eq!(f.local_tcp[1].target.to_text(), "[200::2]:83");
    assert_eq!(f.remote_tcp[0].listen.port(), 22);
    assert!(f.local_udp.is_empty() && f.remote_udp.is_empty());
    for i in 0..4 {
        let bad = texts(&["x"]);
        let pick = |k: usize| if k >= i { &bad } else { &none };
        let e = forwards(pick(0), pick(1), pick(2), pick(3)).err().unwrap();
        let option = ["--local-tcp", "--local-udp", "--remote-tcp", "--remote-udp"][i];
        assert!(e.starts_with(&format!("{} 'x': ", option)), "{}", e);
    }
}

#[test]
fn a_bare_port_listens_everywhere() {
    assert_eq!(socks_address(":1080"), "0.0.0.0:1080");
    assert_eq!(socks_address("127.0.0.1:1080"), "127.0.0.1:1080");
    assert_eq!(socks_address(""), "");
}

#[test]
fn logging_options() {
    assert_eq!(log_filter("debug"), "yggstack=debug,yggdrasil=debug,ironwood=warn");
    assert_eq!(log_level(None), "info");
    assert_eq!(log_level(Some("warn".to_string())), "warn");
    assert_eq!(log_file(None), None);
    assert_eq!(log_file(Some("stdout".to_string())), None);
    assert_eq!(log_file(Some("/tmp/x".to_string())).as_deref(), Some("/tmp/x"));
    assert_eq!(config_failure(&Source::Stdin, "e"), "stdin: e");
    assert_eq!(config_failure(&Source::File("f".to_string()), "e"), "f: e");
}

#[test]
fn configurations_never_use_a_tun() {
    assert!(is_userspace(&generate(config(1)), 1));
    assert!(is_userspace(&template_config(Some(config(1)), config(2)), 1));
    assert!(is_userspace(&template_config(None, config(2)), 2));
    assert!(is_userspace(&load_file("f", Loaded::Parsed(config(3))).ok().unwrap(), 3));
    assert!(is_userspace(&load_stdin(Loaded::Parsed(config(4))).ok().unwrap(), 4));
}

#[test]
fn configurations_that_cannot_be_loaded() {
    let e = || "e".to_string();
    assert_eq!(load_file::<u8>("f", Loaded::Unreadable(e())).err().unwrap(), "cannot read f: e");
    assert_eq!(load_file::<u8>("f", Loaded::Malformed(e())).err().unwrap(), "TOML parse error: e");
    assert_eq!(load_stdin::<u8>(Loaded::Unreadable(e())).err().unwrap(), "stdin read error: e");
    assert_eq!(load_stdin::<u8>(Loaded::Malformed(e())).err().unwrap(), "TOML parse error: e");
    assert_eq!(generate_text(e(), None), "e");
    assert_eq!(generate_text(e(), Some("r".to_string())), "r");
    assert_eq!(text_or_empty(None), "");
    assert_eq!(NAME_MAPPING_SUFFIX, ".pk.ygg");
}

#[test]
fn subnets_are_half_an_address() {
    assert_eq!(addr_for_key([7; 16]).octets, [7; 16]);
    let s = subnet_for_key([3, 1, 0, 0, 0, 0, 0, 9]);
    assert_eq!(s.0.octets, [3, 1, 0, 0, 0, 0, 0, 9, 0, 0, 0, 0, 0, 0, 0, 0]);
    assert_eq!(s.1, 64);
    assert_eq!(subnet_text(s), "301:0:0:9::/64");
}
