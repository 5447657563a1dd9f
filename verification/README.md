# yggstack

A Yggdrasil node in user space, with a SOCKS5 proxy, an HTTP proxy and TCP/UDP port
forwarding. No TUN device and no root access are needed.

The logic of the node is a library in Verus: executable Rust whose behaviour is stated in
contracts and proved. The program around it does the input and output.

## Layout

- `src/` — the library.
  - `text`, `bytes`, `addr`, `json`, `keys` — texts, octets, addresses, JSON strings, keys.
  - `mapping` — forwarding specifications.
  - `config`, `cli` — configurations and the command line.
  - `stats` — the registry of listeners, with connection and traffic counts.
  - `netstack` — fragment reassembly, the device, and the TCP/UDP stack on `smoltcp`.
  - `resolver` — `.pk.ygg` names and DNS over the overlay network.
  - `forward` — TCP and UDP forwarders.
  - `socks`, `http_head`, `http_proxy`, `proxy` — the proxies.
  - `quic_check` — the round trip time to a QUIC peer.
  - `mobile` — the node as an embedding application runs it.
  - Modules whose name ends in `laws` state what holds over several calls.
- `app/` — the program: arguments, sockets, tasks, and the node's core.
- `tests/` — tests of the library.

## How the parts fit

The library never waits. Forwarders, proxies, lookups and checks are machines: a `step`
takes what happened and says what to do next, and the program does it. What the machines
count goes to the registry, which every step that counts takes along.

What the library has from other crates stands behind small functions whose contracts say
what is relied on; `netstack::sockets` holds those for the TCP/IP stack.
