//! The peers of a node, as JSON.
use vstd::prelude::*;
use vstd::slice::slice_subrange;
use crate::json::{json_string, json_text};
use crate::mobile::YggstackMobile;
use crate::text::{
    chars_of, dec_text, find, find_char, owned, parse_dec, parse_u16, push_decimal, push_text,
    rfind, rfind_char,
};

verus! {

/// What the node's core says of a peer.
pub struct PeerInfo {
    pub uri: String,
    pub up: bool,
    pub inbound: bool,
    pub priority: u64,
    pub cost: u64,
    pub rx_bytes: u64,
    pub tx_bytes: u64,
    /// Nanoseconds that it has been up, as a number without a fraction.
    pub uptime: String,
    /// Nanoseconds of latency, as a number without a fraction.
    pub latency: String,
}

/// The port at the end of a URI, before its query; 0 where there is none.
pub open spec fn port_of_uri(uri: Seq<char>) -> nat {
    let u = match find(uri, '?') {
        Some(i) => uri.take(i),
        None => uri,
    };
    let p = match rfind(u, ':') {
        Some(i) => u.skip(i + 1),
        None => u,
    };
    match parse_dec(p, 65535) {
        Some(n) => n,
        None => 0,
    }
}

/// The port at the end of a URI.
pub fn peer_port(uri: &str) -> (r: u16)
    ensures
        r == port_of_uri(uri@),
{
    let chars = chars_of(uri);
    let all = chars.as_slice();
    let u = match find_char(all, '?') {
        Some(i) => {
            let u = slice_subrange(all, 0, i);
            assert(u@ =~= all@.take(i as int));
            u
        },
        None => all,
    };
    let p = match rfind_char(u, ':') {
        Some(i) => {
            let p = slice_subrange(u, i + 1, u.len());
            assert(p@ =~= u@.skip(i + 1));
            p
        },
        None => u,
    };
    match parse_u16(p) {
        Some(n) => n,
        None => 0,
    }
}

/// A truth value as JSON.
pub open spec fn bool_text(b: bool) -> Seq<char> {
    if b {
        "true"@
    } else {
        "false"@
    }
}

/// A peer as JSON.
pub open spec fn peer_json(p: PeerInfo) -> Seq<char> {
    "{\"URI\":"@ + json_text(p.uri@) + ",\"Up\":"@ + bool_text(p.up) + ",\"Inbound\":"@ + bool_text(
        p.inbound,
    ) + ",\"Port\":"@ + dec_text(port_of_uri(p.uri@)) + ",\"Priority\":"@ + dec_text(
        p.priority as nat,
    ) + ",\"Cost\":"@ + dec_text(p.cost as nat) + ",\"RXBytes\":"@ + dec_text(p.rx_bytes as nat)
        + ",\"TXBytes\":"@ + dec_text(p.tx_bytes as nat) + ",\"Uptime\":"@ + p.uptime@
        + ",\"Latency\":"@ + p.latency@ + "}"@
}

/// Peers as the items of a JSON array.
pub open spec fn peer_items(peers: Seq<PeerInfo>) -> Seq<char>
    decreases peers.len(),
{
    if peers.len() == 0 {
        Seq::empty()
    } else if peers.len() == 1 {
        peer_json(peers[0])
    } else {
        peer_items(peers.drop_last()) + ","@ + peer_json(peers.last())
    }
}

fn push_bool(s: &mut String, b: bool)
    ensures
        final(s)@ == old(s)@ + bool_text(b),
{
    if b {
        push_text(s, "true");
    } else {
        push_text(s, "false");
    }
}

/// A peer as JSON.
fn peer_object(p: &PeerInfo) -> (r: String)
    ensures
        r@ == peer_json(*p),
{
    let mut r = owned("{\"URI\":");
    push_text(&mut r, json_string(p.uri.as_str()).as_str());
    push_text(&mut r, ",\"Up\":");
    push_bool(&mut r, p.up);
    push_text(&mut r, ",\"Inbound\":");
    push_bool(&mut r, p.inbound);
    push_text(&mut r, ",\"Port\":");
    push_decimal(&mut r, peer_port(p.uri.as_str()) as u64);
    push_text(&mut r, ",\"Priority\":");
    push_decimal(&mut r, p.priority);
    push_text(&mut r, ",\"Cost\":");
    push_decimal(&mut r, p.cost);
    push_text(&mut r, ",\"RXBytes\":");
    push_decimal(&mut r, p.rx_bytes);
    push_text(&mut r, ",\"TXBytes\":");
    push_decimal(&mut r, p.tx_bytes);
    push_text(&mut r, ",\"Uptime\":");
    push_text(&mut r, p.uptime.as_str());
    push_text(&mut r, ",\"Latency\":");
    push_text(&mut r, p.latency.as_str());
    push_text(&mut r, "}");
    r
}

impl<C, L, H> YggstackMobile<C, L, H> {
    /// A JSON array of connected peer stats. Each object has the fields: URI, Up,
    /// Inbound, Port, Priority, Cost, RXBytes, TXBytes, Uptime (nanoseconds),
    /// Latency (nanoseconds). It is `[]` when the node is not running.
    pub fn get_peers_json(&self, peers: &Vec<PeerInfo>) -> (r: String)
        ensures
            r@ == if self@.running {
                "["@ + peer_items(peers@) + "]"@
            } else {
                "[]"@
            },
    {
        if !self.is_running() {
            return owned("[]");
        }
        let mut r = owned("[");
        let mut i: usize = 0;
        assert(peers@.take(0) =~= Seq::<PeerInfo>::empty());
        while i < peers.len()
            invariant
                i <= peers@.len(),
                r@ == "["@ + peer_items(peers@.take(i as int)),
            decreases peers.len() - i,
        {
            let ghost before = r@;
            let item = peer_object(&peers[i]);
            proof {
                assert(peers@.take(i + 1).drop_last() =~= peers@.take(i as int));
            }
            if i > 0 {
                push_text(&mut r, ",");
            }
            push_text(&mut r, item.as_str());
            assert(r@ =~= "["@ + peer_items(peers@.take(i + 1)));
            i += 1;
        }
        assert(peers@.take(peers@.len() as int) =~= peers@);
        push_text(&mut r, "]");
        r
    }
}

} // verus!
