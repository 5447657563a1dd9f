//! The listening side of the proxy servers.
use vstd::prelude::*;
use crate::addr::{SocketAddr, socket_text};
use crate::stats::{EntryId, ListenerStatsRegistry, registered};

verus! {

/// What happened to a proxy server that listens.
#[derive(Clone, Copy)]
pub enum ProxyEvent {
    /// A client connected.
    Accepted,
    /// A connection could not be accepted.
    AcceptFailed,
    /// The server is to stop.
    Stop,
}

/// What a proxy server does next.
#[derive(Clone, Copy)]
pub enum ProxyAction {
    /// Wait for the next client.
    Accept,
    /// Serve the client in a task of its own, and wait for the next one.
    Serve,
    /// Come to an end.
    Exit,
}

/// A proxy server that listens, registered under a key.
pub struct ProxyListener {
    key: &'static str,
    entry: EntryId,
    stopped: bool,
}

impl ProxyListener {
    /// The key that it is registered under.
    pub closed spec fn key_text(&self) -> Seq<char> {
        self.key@
    }

    /// The number of its entry.
    pub closed spec fn num(&self) -> nat {
        self.entry.num()
    }

    /// Whether it has come to an end.
    pub closed spec fn stopped(&self) -> bool {
        self.stopped
    }

    /// A server that listens on an address.
    pub fn new(
        key: &'static str,
        kind: &'static str,
        local: &SocketAddr,
        registry: &mut ListenerStatsRegistry,
    ) -> (r: Self)
        requires
            old(registry).wf(),
            old(registry).next() < u64::MAX,
        ensures
            final(registry).wf(),
            final(registry)@ == registered(
                old(registry)@,
                old(registry).next(),
                key@,
                kind@,
                socket_text(local@),
                Seq::empty(),
            ),
            r.key_text() == key@,
            r.num() == final(registry)@[key@].id,
            !r.stopped(),
    {
        proof {
            reveal_strlit("");
            assert(""@ =~= Seq::<char>::empty());
        }
        let entry = registry.entry(key, kind, local.to_text().as_str(), "");
        ProxyListener { key, entry, stopped: false }
    }

    /// The entry that clients count on.
    pub fn entry(&self) -> (r: EntryId)
        ensures
            r.num() == self.num(),
    {
        self.entry
    }

    /// What to do after an event.
    pub fn step(&mut self, registry: &mut ListenerStatsRegistry, event: ProxyEvent) -> (r:
        ProxyAction)
        requires
            old(registry).wf(),
        ensures
            final(registry).wf(),
            final(registry).next() == old(registry).next(),
            final(self).key_text() == old(self).key_text(),
            final(self).num() == old(self).num(),
            final(self).stopped() == (old(self).stopped() || event is Stop),
            r == if final(self).stopped() {
                ProxyAction::Exit
            } else if event is Accepted {
                ProxyAction::Serve
            } else {
                ProxyAction::Accept
            },
            final(registry)@ == if !old(self).stopped() && event is Stop {
                old(registry)@.remove(old(self).key_text())
            } else {
                old(registry)@
            },
    {
        if self.stopped {
            return ProxyAction::Exit;
        }
        match event {
            ProxyEvent::Accepted => ProxyAction::Serve,
            ProxyEvent::AcceptFailed => ProxyAction::Accept,
            ProxyEvent::Stop => {
                registry.remove(self.key);
                self.stopped = true;
                ProxyAction::Exit
            },
        }
    }
}

} // verus!
