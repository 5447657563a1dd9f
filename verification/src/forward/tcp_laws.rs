//! What holds of TCP forwarders and relayed connections.
use vstd::prelude::*;
use crate::addr::SocketAddr;
use crate::forward::tcp::{
    RelayAction, RelayEvent, RelayPhase, TcpAction, TcpEvent, TcpPhase, relay_next, tcp_next,
};

verus! {

/// How far a forwarder has come after events.
pub open spec fn tcp_phase_after(
    phase: TcpPhase,
    target: SocketAddr,
    events: Seq<TcpEvent>,
) -> TcpPhase
    decreases events.len(),
{
    if events.len() == 0 {
        phase
    } else {
        tcp_next(tcp_phase_after(phase, target, events.drop_last()), target, events.last()).0
    }
}

/// How far a relayed connection has come after events.
pub open spec fn relay_phase_after(phase: RelayPhase, events: Seq<RelayEvent>) -> RelayPhase
    decreases events.len(),
{
    if events.len() == 0 {
        phase
    } else {
        relay_next(relay_phase_after(phase, events.drop_last()), events.last()).0
    }
}

/// A forwarder relays to its own target only, and only connections that came in
/// while it accepts them.
pub proof fn law_connections_go_to_target(phase: TcpPhase, target: SocketAddr, event: TcpEvent)
    ensures
        phase is Accepting && event is Accepted <==> tcp_next(phase, target, event).1
            matches TcpAction::Relay { .. },
        tcp_next(phase, target, event).1 matches TcpAction::Relay { target: to } ==> to == target,
{
}

/// A forwarder that fails to accept a connection goes on accepting.
pub proof fn law_failed_accepts_are_survived(target: SocketAddr)
    ensures
        tcp_next(TcpPhase::Accepting, target, TcpEvent::AcceptFailed) == (
            TcpPhase::Accepting,
            TcpAction::Accept,
            false,
        ),
{
}

/// The registry entry of a forwarder is dropped exactly when the forwarder comes to
/// an end.
pub proof fn law_entry_ends_with_forwarder(phase: TcpPhase, target: SocketAddr, event: TcpEvent)
    ensures
        tcp_next(phase, target, event).2 <==> !(phase is Stopped) && tcp_next(
            phase,
            target,
            event,
        ).0 is Stopped,
        !(phase is Stopped) && event is Stop ==> tcp_next(phase, target, event).0 is Stopped,
{
}

/// A forwarder that has come to an end does nothing any more, whatever happens.
pub proof fn law_stopped_forwarders_stay_stopped(target: SocketAddr, events: Seq<TcpEvent>)
    ensures
        tcp_phase_after(TcpPhase::Stopped, target, events) is Stopped,
    decreases events.len(),
{
    if events.len() > 0 {
        law_stopped_forwarders_stay_stopped(target, events.drop_last());
    }
}

/// A relayed connection that is over stays over, whatever happens, so that it
/// counts as closed once.
pub proof fn law_relays_end_once(events: Seq<RelayEvent>, event: RelayEvent)
    ensures
        relay_phase_after(RelayPhase::Over, events) is Over,
        relay_next(RelayPhase::Over, event) == (RelayPhase::Over, RelayAction::Ignore),
    decreases events.len(),
{
    if events.len() > 0 {
        law_relays_end_once(events.drop_last(), event);
    }
}

/// Bytes are copied only once the target is reached, and until one of the two
/// copies ends or the forwarder stops.
pub proof fn law_bytes_flow_once_connected(phase: RelayPhase, event: RelayEvent)
    ensures
        relay_next(phase, event).1 is Copy <==> phase is Connecting && event is Connected,
        phase is Copying && (event is CopyEnded || event is Stop) <==> phase is Copying
            && relay_next(phase, event).0 is Over,
{
}

} // verus!
