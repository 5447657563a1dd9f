//! What holds of a node, from what an application asks to what it gets.
use vstd::prelude::*;
use crate::addr::{Endpoint, Ip, ip_text, socket_text};
use crate::config::Config;
use crate::forward::tcp::TcpForwarder;
use crate::forward::udp::UdpForwarder;
use crate::mapping::{TcpMapping, UdpMapping};
use crate::mobile::launch::{
    Job, Kind, empty_registry, handles_with_all, job_key, jobs_of, lemma_handles_keys,
    registry_with_all, tcp_serves, udp_serves,
};
use crate::mobile::{
    Launch, Node, PeerCommand, Stopped, YggstackError, YggstackMobile, all_jobs, are_mappings,
    check_quic_peer, generate_config, get_version, has_addresses, is_mapping, job,
    lemma_keys_tell_kinds, lemma_keys_tell_mappings, lemma_mapping_of, list_of, peer_outcome,
    without_key, without_mapping,
};
use crate::stats::{Entry, ListenerStatsRegistry, is_listing, listing_json};
use crate::text::{
    dec_text, lemma_find_from, lemma_find_from_is, lemma_rfind_at, lemma_rfind_to, parse_u16, rfind,
};
use crate::mobile::peers::{PeerInfo, peer_items, peer_json, peer_port};
use crate::mobile::table::{HandleTable, is_drained, is_drained_as};
use crate::stats_laws::{item_texts, lemma_item_texts};
use crate::json::json_text;

verus! {

// ── Mappings ──────────────────────────────────────────────────────────────────

/// A list without a mapping.
pub open spec fn without(list: Seq<(Endpoint, Endpoint)>, ends: (Endpoint, Endpoint)) -> Seq<
    (Endpoint, Endpoint),
> {
    list.filter(|e: (Endpoint, Endpoint)| e != ends)
}

proof fn lemma_removed<C, L, H>(n: Node<C, L, H>, kind: Kind, ends: (Endpoint, Endpoint))
    requires
        has_addresses(n),
        is_mapping(kind, ends),
    ensures
        list_of(without_mapping(n, kind, job_key(job(kind, ends))), kind) == without(
            list_of(n, kind),
            ends,
        ),
{
    assert(are_mappings(kind, list_of(n, kind)));
    lemma_without(kind, list_of(n, kind), ends);
}

proof fn lemma_without(kind: Kind, list: Seq<(Endpoint, Endpoint)>, ends: (Endpoint, Endpoint))
    requires
        are_mappings(kind, list),
        is_mapping(kind, ends),
    ensures
        without_key(kind, list, job_key(job(kind, ends))) == without(list, ends),
    decreases list.len(),
{
    reveal(Seq::filter);
    if list.len() > 0 {
        let before = list.drop_last();
        assert forall|i: int| 0 <= i < before.len() implies is_mapping(
            kind,
            #[trigger] before[i],
        ) by {
            assert(before[i] == list[i]);
        }
        lemma_without(kind, before, ends);
        let last = list[list.len() - 1];
        if job_key(job(kind, last)) == job_key(job(kind, ends)) {
            lemma_keys_tell_mappings(kind, last, ends);
        }
    }
}

/// Whether two nodes differ in their mappings and listeners at most.
pub open spec fn same_setup<C, L, H>(a: Node<C, L, H>, b: Node<C, L, H>) -> bool {
    &&& a.running == b.running && a.config == b.config && a.callback == b.callback
    &&& a.log_level == b.log_level && a.socks == b.socks && a.nameserver == b.nameserver
}

/// A local-tcp mapping that is added is the one that its specification reads as: it
/// stands behind the others of its kind, and on a running node it is registered and
/// listened for at once, with the handle that was given. Nothing else changes.
pub proof fn law_local_tcp_is_added<C, L, H>(
    y: &mut YggstackMobile<C, L, H>,
    text: String,
    stats: &mut ListenerStatsRegistry,
    handle: H,
    r: Result<Option<TcpForwarder>, YggstackError>,
    s: &str,
    m: TcpMapping,
    other: Seq<char>,
)
    requires
        call_ensures(YggstackMobile::<C, L, H>::add_local_tcp, (y, text, stats, handle), r),
        s@ == text@,
        call_ensures(TcpMapping::parse_local, (s,), Ok::<TcpMapping, String>(m)),
    ensures
        same_setup(old(y)@, final(y)@),
        final(y)@.local_tcp == old(y)@.local_tcp.push((m.listen@, m.target@)),
        final(y)@.local_udp == old(y)@.local_udp && final(y)@.remote_tcp == old(y)@.remote_tcp && final(y)@.remote_udp == old(y)@.remote_udp,
        ({
            let key = "ltcp:"@ + socket_text(m.listen@) + "->"@ + socket_text(m.target@);
            &&& old(y)@.running ==> {
                &&& final(y)@.listeners == old(y)@.listeners.insert(key, handle)
                &&& r matches Ok(Some(f)) && f.listens_on()@ == m.listen@ && f.target()@ == m.target@
                    && f.key_text() == key && f.phase() is Starting && final(stats)@.contains_key(key) && f.num()
                    == final(stats)@[key].id
                &&& !old(stats)@.contains_key(key) ==> final(stats)@[key].kind == "local-tcp"@
                    && final(stats)@[key].listen == socket_text(m.listen@) && final(stats)@[key].target == socket_text(m.target@) && final(stats)@[key].active == 0
                &&& old(stats)@.contains_key(other) ==> final(stats)@.contains_key(other) && final(stats)@[other] == old(stats)@[other]
                &&& final(stats)@.contains_key(other) ==> other == key || old(stats)@.contains_key(other)
            }
            &&& !old(y)@.running ==> (r matches Ok(None)) && final(y)@.listeners == old(y)@.listeners
                && final(stats)@ == old(stats)@
        }),
{
}

/// A specification of a local-tcp mapping that does not read is refused with the
/// reason, and changes nothing.
pub proof fn law_local_tcp_is_refused<C, L, H>(
    y: &mut YggstackMobile<C, L, H>,
    text: String,
    stats: &mut ListenerStatsRegistry,
    handle: H,
    r: Result<Option<TcpForwarder>, YggstackError>,
    z: &mut YggstackMobile<C, L, H>,
    q: Result<Option<H>, YggstackError>,
    s: &str,
    e: String,
)
    requires
        call_ensures(YggstackMobile::<C, L, H>::add_local_tcp, (y, text, stats, handle), r),
        call_ensures(YggstackMobile::<C, L, H>::remove_local_tcp, (z, text), q),
        s@ == text@,
        call_ensures(TcpMapping::parse_local, (s,), Err::<TcpMapping, String>(e)),
    ensures
        r matches Err(YggstackError::Config(f)) && f@ == e@,
        q matches Err(YggstackError::Config(f)) && f@ == e@,
        final(y)@ == old(y)@ && final(z)@ == old(z)@ && final(stats)@ == old(stats)@,
{
}

/// A local-tcp mapping that is removed is gone, however often it was added, and the
/// handle that stops its listener comes back; all else stays.
pub proof fn law_local_tcp_is_removed<C, L, H>(
    y: &mut YggstackMobile<C, L, H>,
    text: String,
    r: Result<Option<H>, YggstackError>,
    s: &str,
    m: TcpMapping,
)
    requires
        old(y).wf(),
        call_ensures(YggstackMobile::<C, L, H>::remove_local_tcp, (y, text), r),
        s@ == text@,
        call_ensures(TcpMapping::parse_local, (s,), Ok::<TcpMapping, String>(m)),
    ensures
        same_setup(old(y)@, final(y)@),
        final(y)@.local_tcp == without(old(y)@.local_tcp, (m.listen@, m.target@)),
        final(y)@.local_udp == old(y)@.local_udp && final(y)@.remote_tcp == old(y)@.remote_tcp && final(y)@.remote_udp == old(y)@.remote_udp,
        ({
            let key = "ltcp:"@ + socket_text(m.listen@) + "->"@ + socket_text(m.target@);
            &&& final(y)@.listeners == old(y)@.listeners.remove(key)
            &&& old(y)@.listeners.contains_key(key) ==> r == Ok::<Option<H>, YggstackError>(
                Some(old(y)@.listeners[key]),
            )
            &&& !old(y)@.listeners.contains_key(key) ==> r matches Ok(None)
        }),
{
    old(y).law_mappings_have_addresses();
    lemma_mapping_of(Kind::LocalTcp, text@);
    lemma_removed(old(y)@, Kind::LocalTcp, (m.listen@, m.target@));
}

/// A local-udp mapping that is added is the one that its specification reads as: it
/// stands behind the others of its kind, and on a running node it is registered and
/// listened for at once, with the handle that was given. Nothing else changes.
pub proof fn law_local_udp_is_added<C, L, H>(
    y: &mut YggstackMobile<C, L, H>,
    text: String,
    stats: &mut ListenerStatsRegistry,
    handle: H,
    r: Result<Option<UdpForwarder>, YggstackError>,
    s: &str,
    m: UdpMapping,
    other: Seq<char>,
)
    requires
        call_ensures(YggstackMobile::<C, L, H>::add_local_udp, (y, text, stats, handle), r),
        s@ == text@,
        call_ensures(UdpMapping::parse_local, (s,), Ok::<UdpMapping, String>(m)),
    ensures
        same_setup(old(y)@, final(y)@),
        final(y)@.local_udp == old(y)@.local_udp.push((m.listen@, m.target@)),
        final(y)@.local_tcp == old(y)@.local_tcp && final(y)@.remote_tcp == old(y)@.remote_tcp && final(y)@.remote_udp == old(y)@.remote_udp,
        ({
            let key = "ludp:"@ + socket_text(m.listen@) + "->"@ + socket_text(m.target@);
            &&& old(y)@.running ==> {
                &&& final(y)@.listeners == old(y)@.listeners.insert(key, handle)
                &&& r matches Ok(Some(f)) && f.listens_on()@ == m.listen@ && f@.target@ == m.target@
                    && f.key_text() == key && f@.phase is Starting && f@.side is Local && final(stats)@.contains_key(key) && f.num()
                    == final(stats)@[key].id
                &&& !old(stats)@.contains_key(key) ==> final(stats)@[key].kind == "local-udp"@
                    && final(stats)@[key].listen == socket_text(m.listen@) && final(stats)@[key].target == socket_text(m.target@) && final(stats)@[key].active == 0
                &&& old(stats)@.contains_key(other) ==> final(stats)@.contains_key(other) && final(stats)@[other] == old(stats)@[other]
                &&& final(stats)@.contains_key(other) ==> other == key || old(stats)@.contains_key(other)
            }
            &&& !old(y)@.running ==> (r matches Ok(None)) && final(y)@.listeners == old(y)@.listeners
                && final(stats)@ == old(stats)@
        }),
{
}

/// A specification of a local-udp mapping that does not read is refused with the
/// reason, and changes nothing.
pub proof fn law_local_udp_is_refused<C, L, H>(
    y: &mut YggstackMobile<C, L, H>,
    text: String,
    stats: &mut ListenerStatsRegistry,
    handle: H,
    r: Result<Option<UdpForwarder>, YggstackError>,
    z: &mut YggstackMobile<C, L, H>,
    q: Result<Option<H>, YggstackError>,
    s: &str,
    e: String,
)
    requires
        call_ensures(YggstackMobile::<C, L, H>::add_local_udp, (y, text, stats, handle), r),
        call_ensures(YggstackMobile::<C, L, H>::remove_local_udp, (z, text), q),
        s@ == text@,
        call_ensures(UdpMapping::parse_local, (s,), Err::<UdpMapping, String>(e)),
    ensures
        r matches Err(YggstackError::Config(f)) && f@ == e@,
        q matches Err(YggstackError::Config(f)) && f@ == e@,
        final(y)@ == old(y)@ && final(z)@ == old(z)@ && final(stats)@ == old(stats)@,
{
}

/// A local-udp mapping that is removed is gone, however often it was added, and the
/// handle that stops its listener comes back; all else stays.
pub proof fn law_local_udp_is_removed<C, L, H>(
    y: &mut YggstackMobile<C, L, H>,
    text: String,
    r: Result<Option<H>, YggstackError>,
    s: &str,
    m: UdpMapping,
)
    requires
        old(y).wf(),
        call_ensures(YggstackMobile::<C, L, H>::remove_local_udp, (y, text), r),
        s@ == text@,
        call_ensures(UdpMapping::parse_local, (s,), Ok::<UdpMapping, String>(m)),
    ensures
        same_setup(old(y)@, final(y)@),
        final(y)@.local_udp == without(old(y)@.local_udp, (m.listen@, m.target@)),
        final(y)@.local_tcp == old(y)@.local_tcp && final(y)@.remote_tcp == old(y)@.remote_tcp && final(y)@.remote_udp == old(y)@.remote_udp,
        ({
            let key = "ludp:"@ + socket_text(m.listen@) + "->"@ + socket_text(m.target@);
            &&& final(y)@.listeners == old(y)@.listeners.remove(key)
            &&& old(y)@.listeners.contains_key(key) ==> r == Ok::<Option<H>, YggstackError>(
                Some(old(y)@.listeners[key]),
            )
            &&& !old(y)@.listeners.contains_key(key) ==> r matches Ok(None)
        }),
{
    old(y).law_mappings_have_addresses();
    lemma_mapping_of(Kind::LocalUdp, text@);
    lemma_removed(old(y)@, Kind::LocalUdp, (m.listen@, m.target@));
}

/// A remote-tcp mapping that is added is the one that its specification reads as: it
/// stands behind the others of its kind, and on a running node it is registered and
/// listened for at once, with the handle that was given. Nothing else changes.
pub proof fn law_remote_tcp_is_added<C, L, H>(
    y: &mut YggstackMobile<C, L, H>,
    text: String,
    stats: &mut ListenerStatsRegistry,
    handle: H,
    r: Result<Option<TcpForwarder>, YggstackError>,
    s: &str,
    m: TcpMapping,
    other: Seq<char>,
)
    requires
        call_ensures(YggstackMobile::<C, L, H>::add_remote_tcp, (y, text, stats, handle), r),
        s@ == text@,
        call_ensures(TcpMapping::parse_remote, (s,), Ok::<TcpMapping, String>(m)),
    ensures
        same_setup(old(y)@, final(y)@),
        final(y)@.remote_tcp == old(y)@.remote_tcp.push((m.listen@, m.target@)),
        final(y)@.local_tcp == old(y)@.local_tcp && final(y)@.local_udp == old(y)@.local_udp && final(y)@.remote_udp == old(y)@.remote_udp,
        ({
            let key = "rtcp:"@ + dec_text(m.listen.port as nat) + "->"@ + socket_text(m.target@);
            &&& old(y)@.running ==> {
                &&& final(y)@.listeners == old(y)@.listeners.insert(key, handle)
                &&& r matches Ok(Some(f)) && f.listens_on()@ == m.listen@ && f.target()@ == m.target@
                    && f.key_text() == key && f.phase() is Starting && final(stats)@.contains_key(key) && f.num()
                    == final(stats)@[key].id
                &&& !old(stats)@.contains_key(key) ==> final(stats)@[key].kind == "remote-tcp"@
                    && final(stats)@[key].listen == "ygg:"@ + dec_text(m.listen.port as nat) && final(stats)@[key].target == socket_text(m.target@) && final(stats)@[key].active == 0
                &&& old(stats)@.contains_key(other) ==> final(stats)@.contains_key(other) && final(stats)@[other] == old(stats)@[other]
                &&& final(stats)@.contains_key(other) ==> other == key || old(stats)@.contains_key(other)
            }
            &&& !old(y)@.running ==> (r matches Ok(None)) && final(y)@.listeners == old(y)@.listeners
                && final(stats)@ == old(stats)@
        }),
{
}

/// A specification of a remote-tcp mapping that does not read is refused with the
/// reason, and changes nothing.
pub proof fn law_remote_tcp_is_refused<C, L, H>(
    y: &mut YggstackMobile<C, L, H>,
    text: String,
    stats: &mut ListenerStatsRegistry,
    handle: H,
    r: Result<Option<TcpForwarder>, YggstackError>,
    z: &mut YggstackMobile<C, L, H>,
    q: Result<Option<H>, YggstackError>,
    s: &str,
    e: String,
)
    requires
        call_ensures(YggstackMobile::<C, L, H>::add_remote_tcp, (y, text, stats, handle), r),
        call_ensures(YggstackMobile::<C, L, H>::remove_remote_tcp, (z, text), q),
        s@ == text@,
        call_ensures(TcpMapping::parse_remote, (s,), Err::<TcpMapping, String>(e)),
    ensures
        r matches Err(YggstackError::Config(f)) && f@ == e@,
        q matches Err(YggstackError::Config(f)) && f@ == e@,
        final(y)@ == old(y)@ && final(z)@ == old(z)@ && final(stats)@ == old(stats)@,
{
}

/// A remote-tcp mapping that is removed is gone, however often it was added, and the
/// handle that stops its listener comes back; all else stays.
pub proof fn law_remote_tcp_is_removed<C, L, H>(
    y: &mut YggstackMobile<C, L, H>,
    text: String,
    r: Result<Option<H>, YggstackError>,
    s: &str,
    m: TcpMapping,
)
    requires
        old(y).wf(),
        call_ensures(YggstackMobile::<C, L, H>::remove_remote_tcp, (y, text), r),
        s@ == text@,
        call_ensures(TcpMapping::parse_remote, (s,), Ok::<TcpMapping, String>(m)),
    ensures
        same_setup(old(y)@, final(y)@),
        final(y)@.remote_tcp == without(old(y)@.remote_tcp, (m.listen@, m.target@)),
        final(y)@.local_tcp == old(y)@.local_tcp && final(y)@.local_udp == old(y)@.local_udp && final(y)@.remote_udp == old(y)@.remote_udp,
        ({
            let key = "rtcp:"@ + dec_text(m.listen.port as nat) + "->"@ + socket_text(m.target@);
            &&& final(y)@.listeners == old(y)@.listeners.remove(key)
            &&& old(y)@.listeners.contains_key(key) ==> r == Ok::<Option<H>, YggstackError>(
                Some(old(y)@.listeners[key]),
            )
            &&& !old(y)@.listeners.contains_key(key) ==> r matches Ok(None)
        }),
{
    old(y).law_mappings_have_addresses();
    lemma_mapping_of(Kind::RemoteTcp, text@);
    lemma_removed(old(y)@, Kind::RemoteTcp, (m.listen@, m.target@));
}

/// A remote-udp mapping that is added is the one that its specification reads as: it
/// stands behind the others of its kind, and on a running node it is registered and
/// listened for at once, with the handle that was given. Nothing else changes.
pub proof fn law_remote_udp_is_added<C, L, H>(
    y: &mut YggstackMobile<C, L, H>,
    text: String,
    stats: &mut ListenerStatsRegistry,
    handle: H,
    r: Result<Option<UdpForwarder>, YggstackError>,
    s: &str,
    m: UdpMapping,
    other: Seq<char>,
)
    requires
        call_ensures(YggstackMobile::<C, L, H>::add_remote_udp, (y, text, stats, handle), r),
        s@ == text@,
        call_ensures(UdpMapping::parse_remote, (s,), Ok::<UdpMapping, String>(m)),
    ensures
        same_setup(old(y)@, final(y)@),
        final(y)@.remote_udp == old(y)@.remote_udp.push((m.listen@, m.target@)),
        final(y)@.local_tcp == old(y)@.local_tcp && final(y)@.local_udp == old(y)@.local_udp && final(y)@.remote_tcp == old(y)@.remote_tcp,
        ({
            let key = "rudp:"@ + dec_text(m.listen.port as nat) + "->"@ + socket_text(m.target@);
            &&& old(y)@.running ==> {
                &&& final(y)@.listeners == old(y)@.listeners.insert(key, handle)
                &&& r matches Ok(Some(f)) && f.listens_on()@ == m.listen@ && f@.target@ == m.target@
                    && f.key_text() == key && f@.phase is Starting && f@.side is Remote && final(stats)@.contains_key(key) && f.num()
                    == final(stats)@[key].id
                &&& !old(stats)@.contains_key(key) ==> final(stats)@[key].kind == "remote-udp"@
                    && final(stats)@[key].listen == "ygg:"@ + dec_text(m.listen.port as nat) && final(stats)@[key].target == socket_text(m.target@) && final(stats)@[key].active == 0
                &&& old(stats)@.contains_key(other) ==> final(stats)@.contains_key(other) && final(stats)@[other] == old(stats)@[other]
                &&& final(stats)@.contains_key(other) ==> other == key || old(stats)@.contains_key(other)
            }
            &&& !old(y)@.running ==> (r matches Ok(None)) && final(y)@.listeners == old(y)@.listeners
                && final(stats)@ == old(stats)@
        }),
{
}

/// A specification of a remote-udp mapping that does not read is refused with the
/// reason, and changes nothing.
pub proof fn law_remote_udp_is_refused<C, L, H>(
    y: &mut YggstackMobile<C, L, H>,
    text: String,
    stats: &mut ListenerStatsRegistry,
    handle: H,
    r: Result<Option<UdpForwarder>, YggstackError>,
    z: &mut YggstackMobile<C, L, H>,
    q: Result<Option<H>, YggstackError>,
    s: &str,
    e: String,
)
    requires
        call_ensures(YggstackMobile::<C, L, H>::add_remote_udp, (y, text, stats, handle), r),
        call_ensures(YggstackMobile::<C, L, H>::remove_remote_udp, (z, text), q),
        s@ == text@,
        call_ensures(UdpMapping::parse_remote, (s,), Err::<UdpMapping, String>(e)),
    ensures
        r matches Err(YggstackError::Config(f)) && f@ == e@,
        q matches Err(YggstackError::Config(f)) && f@ == e@,
        final(y)@ == old(y)@ && final(z)@ == old(z)@ && final(stats)@ == old(stats)@,
{
}

/// A remote-udp mapping that is removed is gone, however often it was added, and the
/// handle that stops its listener comes back; all else stays.
pub proof fn law_remote_udp_is_removed<C, L, H>(
    y: &mut YggstackMobile<C, L, H>,
    text: String,
    r: Result<Option<H>, YggstackError>,
    s: &str,
    m: UdpMapping,
)
    requires
        old(y).wf(),
        call_ensures(YggstackMobile::<C, L, H>::remove_remote_udp, (y, text), r),
        s@ == text@,
        call_ensures(UdpMapping::parse_remote, (s,), Ok::<UdpMapping, String>(m)),
    ensures
        same_setup(old(y)@, final(y)@),
        final(y)@.remote_udp == without(old(y)@.remote_udp, (m.listen@, m.target@)),
        final(y)@.local_tcp == old(y)@.local_tcp && final(y)@.local_udp == old(y)@.local_udp && final(y)@.remote_tcp == old(y)@.remote_tcp,
        ({
            let key = "rudp:"@ + dec_text(m.listen.port as nat) + "->"@ + socket_text(m.target@);
            &&& final(y)@.listeners == old(y)@.listeners.remove(key)
            &&& old(y)@.listeners.contains_key(key) ==> r == Ok::<Option<H>, YggstackError>(
                Some(old(y)@.listeners[key]),
            )
            &&& !old(y)@.listeners.contains_key(key) ==> r matches Ok(None)
        }),
{
    old(y).law_mappings_have_addresses();
    lemma_mapping_of(Kind::RemoteUdp, text@);
    lemma_removed(old(y)@, Kind::RemoteUdp, (m.listen@, m.target@));
}

// ── Starting and stopping ─────────────────────────────────────────────────────

proof fn lemma_last_handle<H>(m: Map<Seq<char>, H>, jobs: Seq<Job>, handles: Seq<H>, i: int)
    requires
        0 <= i < jobs.len(),
        forall|j: int| i < j < jobs.len() ==> job_key(#[trigger] jobs[j]) != job_key(jobs[i]),
    ensures
        handles_with_all(m, jobs, handles).contains_key(job_key(jobs[i])),
        handles_with_all(m, jobs, handles)[job_key(jobs[i])] == handles[i],
    decreases jobs.len(),
{
    if i < jobs.len() - 1 {
        let before = jobs.drop_last();
        assert(before[i] == jobs[i]);
        assert(job_key(jobs[jobs.len() - 1]) != job_key(jobs[i]));
        assert forall|j: int| i < j < before.len() implies job_key(#[trigger] before[j]) != job_key(
            before[i],
        ) by {
            assert(before[j] == jobs[j]);
        }
        lemma_last_handle(m, before, handles, i);
    }
}

/// Whether an entry is that of a mapping, with nothing counted.
pub open spec fn is_entry_of(e: Entry, j: Job) -> bool {
    &&& e.kind == match j.kind {
        Kind::LocalTcp => "local-tcp"@,
        Kind::LocalUdp => "local-udp"@,
        Kind::RemoteTcp => "remote-tcp"@,
        Kind::RemoteUdp => "remote-udp"@,
    }
    &&& e.listen == if j.kind is LocalTcp || j.kind is LocalUdp {
        socket_text(j.listen)
    } else {
        "ygg:"@ + dec_text(j.listen.port)
    }
    &&& e.target == socket_text(j.target)
    &&& e.active == 0 && e.total == 0 && e.rx == 0 && e.tx == 0
}

proof fn lemma_entries(jobs: Seq<Job>, k: Seq<char>) -> (j: int)
    requires
        registry_with_all(empty_registry(), jobs).entries.contains_key(k),
    ensures
        0 <= j < jobs.len(),
        job_key(jobs[j]) == k,
        is_entry_of(registry_with_all(empty_registry(), jobs).entries[k], jobs[j]),
    decreases jobs.len(),
{
    let before = jobs.drop_last();
    if registry_with_all(empty_registry(), before).entries.contains_key(k) {
        let j = lemma_entries(before, k);
        assert(before[j] == jobs[j]);
        j
    } else {
        jobs.len() - 1
    }
}

proof fn lemma_jobs_are_mappings<C, L, H>(n: Node<C, L, H>, i: int)
    requires
        has_addresses(n),
        0 <= i < all_jobs(n).len(),
    ensures
        is_mapping(all_jobs(n)[i].kind, (all_jobs(n)[i].listen, all_jobs(n)[i].target)),
{
    let a = n.local_tcp.len() as int;
    let b = a + n.local_udp.len();
    let c = b + n.remote_tcp.len();
    if i < a {
        assert(is_mapping(Kind::LocalTcp, n.local_tcp[i]));
    } else if i < b {
        assert(is_mapping(Kind::LocalUdp, n.local_udp[i - a]));
    } else if i < c {
        assert(is_mapping(Kind::RemoteTcp, n.remote_tcp[i - b]));
    } else {
        assert(is_mapping(Kind::RemoteUdp, n.remote_udp[i - c]));
    }
}

proof fn lemma_entry_of_job<C, L, H>(n: Node<C, L, H>, i: int)
    requires
        has_addresses(n),
        0 <= i < all_jobs(n).len(),
        registry_with_all(empty_registry(), all_jobs(n)).entries.contains_key(
            job_key(all_jobs(n)[i]),
        ),
    ensures
        is_entry_of(
            registry_with_all(empty_registry(), all_jobs(n)).entries[job_key(all_jobs(n)[i])],
            all_jobs(n)[i],
        ),
{
    let jobs = all_jobs(n);
    let j = lemma_entries(jobs, job_key(jobs[i]));
    if jobs[i].kind != jobs[j].kind {
        lemma_keys_tell_kinds(jobs[i], jobs[j]);
    }
    lemma_jobs_are_mappings(n, i);
    lemma_jobs_are_mappings(n, j);
    lemma_keys_tell_mappings(
        jobs[i].kind,
        (jobs[i].listen, jobs[i].target),
        (jobs[j].listen, jobs[j].target),
    );
}

/// A node is started where it does not run, has a configuration, and the key of that was
/// read; else it stays as it is, and says why. Starting keeps all that was set up.
pub proof fn law_nodes_are_started<C, L, H>(
    y: &mut YggstackMobile<C, L, H>,
    key: Result<(), String>,
    handles: Vec<H>,
    r: Result<Launch, YggstackError>,
)
    requires
        call_ensures(YggstackMobile::<C, L, H>::start, (y, key, handles), r),
    ensures
        r is Ok <==> !old(y)@.running && old(y)@.config is Some && key is Ok,
        r is Err ==> final(y)@ == old(y)@,
        old(y)@.running ==> (r matches Err(YggstackError::AlreadyRunning(m)) && m@
            == "already running"@),
        !old(y)@.running && old(y)@.config is None ==> (r matches Err(YggstackError::Config(m))
            && m@ == "no config loaded"@),
        !old(y)@.running && old(y)@.config is Some ==> (key matches Err(e) ==> (r matches Err(
            YggstackError::Config(m),
        ) && m@ == e@)),
        r matches Ok(l) ==> {
            let (n, m) = (old(y)@, final(y)@);
            &&& m.running
            &&& m.config == n.config && m.callback == n.callback && m.log_level == n.log_level
            &&& m.socks == n.socks && m.nameserver == n.nameserver
            &&& m.local_tcp == n.local_tcp && m.local_udp == n.local_udp
            &&& m.remote_tcp == n.remote_tcp && m.remote_udp == n.remote_udp
            &&& l.nameserver@ == n.nameserver
            &&& l.socks is Some <==> n.socks is Some
            &&& n.socks matches Some(a) ==> l.socks->0@ == a
        },
{
}

/// On a started node each local-tcp mapping is listened for where it listens, leads
/// where it leads, counts on an entry that says so, and has the handle of its place; a
/// mapping that was added twice has that of the last place.
pub proof fn law_started_local_tcp<C, L, H>(
    y: &mut YggstackMobile<C, L, H>,
    handles: Vec<H>,
    l: Launch,
    i: int,
)
    requires
        old(y).wf(),
        call_ensures(
            YggstackMobile::<C, L, H>::start,
            (y, Ok(()), handles),
            Ok::<Launch, YggstackError>(l),
        ),
        0 <= i < old(y)@.local_tcp.len(),
    ensures
        l.local_tcp@.len() == old(y)@.local_tcp.len(),
        ({
            let ends = old(y)@.local_tcp[i];
            let f = l.local_tcp@[i];
            let key = "ltcp:"@ + socket_text(ends.0) + "->"@ + socket_text(ends.1);
            &&& f.listens_on()@ == ends.0 && f.target()@ == ends.1 && f.phase() is Starting
            &&& f.key_text() == key
            &&& l.stats@.contains_key(key) && l.stats@[key].id == f.num()
            &&& l.stats@[key].kind == "local-tcp"@ && l.stats@[key].listen == socket_text(ends.0)
            &&& l.stats@[key].target == socket_text(ends.1) && l.stats@[key].active == 0
            &&& final(y)@.listeners.contains_key(key)
            &&& (forall|j: int|
                i < j < old(y)@.local_tcp.len() ==> #[trigger] old(y)@.local_tcp[j] != ends)
                ==> final(y)@.listeners[key] == handles@[i]
        }),
{
    let n = old(y)@;
    old(y).law_mappings_have_addresses();
    let jobs = all_jobs(n);
    let at = 0 + i;
    let ends = n.local_tcp[i];
    assert(jobs[at] == job(Kind::LocalTcp, ends));
    assert(tcp_serves(l.local_tcp@[i], jobs_of(Kind::LocalTcp, n.local_tcp)[i], l.stats@));
    lemma_entry_of_job(n, at);
    lemma_handles_keys(Map::<Seq<char>, H>::empty(), jobs, handles@);
    assert(job_key(jobs[at]) == job_key(job(Kind::LocalTcp, ends)));
    if forall|j: int| i < j < n.local_tcp.len() ==> #[trigger] n.local_tcp[j] != ends {
        assert forall|j: int| at < j < jobs.len() implies job_key(#[trigger] jobs[j]) != job_key(
            jobs[at],
        ) by {
            if job_key(jobs[j]) == job_key(jobs[at]) {
                if jobs[j].kind != jobs[at].kind {
                    lemma_keys_tell_kinds(jobs[j], jobs[at]);
                }
                lemma_jobs_are_mappings(n, j);
                lemma_jobs_are_mappings(n, at);
                lemma_keys_tell_mappings(Kind::LocalTcp, (jobs[j].listen, jobs[j].target), ends);
                let k = j - (0);
                assert(n.local_tcp[k] == ends);
            }
        }
        lemma_last_handle(Map::<Seq<char>, H>::empty(), jobs, handles@, at);
    }
}

/// On a started node each local-udp mapping is listened for where it listens, leads
/// where it leads, counts on an entry that says so, and has the handle of its place; a
/// mapping that was added twice has that of the last place.
pub proof fn law_started_local_udp<C, L, H>(
    y: &mut YggstackMobile<C, L, H>,
    handles: Vec<H>,
    l: Launch,
    i: int,
)
    requires
        old(y).wf(),
        call_ensures(
            YggstackMobile::<C, L, H>::start,
            (y, Ok(()), handles),
            Ok::<Launch, YggstackError>(l),
        ),
        0 <= i < old(y)@.local_udp.len(),
    ensures
        l.local_udp@.len() == old(y)@.local_udp.len(),
        ({
            let ends = old(y)@.local_udp[i];
            let f = l.local_udp@[i];
            let key = "ludp:"@ + socket_text(ends.0) + "->"@ + socket_text(ends.1);
            &&& f.listens_on()@ == ends.0 && f@.target@ == ends.1 && f@.phase is Starting && f@.side is Local
            &&& f.key_text() == key
            &&& l.stats@.contains_key(key) && l.stats@[key].id == f.num()
            &&& l.stats@[key].kind == "local-udp"@ && l.stats@[key].listen == socket_text(ends.0)
            &&& l.stats@[key].target == socket_text(ends.1) && l.stats@[key].active == 0
            &&& final(y)@.listeners.contains_key(key)
            &&& (forall|j: int|
                i < j < old(y)@.local_udp.len() ==> #[trigger] old(y)@.local_udp[j] != ends)
                ==> final(y)@.listeners[key] == handles@[old(y)@.local_tcp.len() + i]
        }),
{
    let n = old(y)@;
    old(y).law_mappings_have_addresses();
    let jobs = all_jobs(n);
    let at = n.local_tcp.len() + i;
    let ends = n.local_udp[i];
    assert(jobs[at] == job(Kind::LocalUdp, ends));
    assert(udp_serves(l.local_udp@[i], jobs_of(Kind::LocalUdp, n.local_udp)[i], l.stats@));
    lemma_entry_of_job(n, at);
    lemma_handles_keys(Map::<Seq<char>, H>::empty(), jobs, handles@);
    assert(job_key(jobs[at]) == job_key(job(Kind::LocalUdp, ends)));
    if forall|j: int| i < j < n.local_udp.len() ==> #[trigger] n.local_udp[j] != ends {
        assert forall|j: int| at < j < jobs.len() implies job_key(#[trigger] jobs[j]) != job_key(
            jobs[at],
        ) by {
            if job_key(jobs[j]) == job_key(jobs[at]) {
                if jobs[j].kind != jobs[at].kind {
                    lemma_keys_tell_kinds(jobs[j], jobs[at]);
                }
                lemma_jobs_are_mappings(n, j);
                lemma_jobs_are_mappings(n, at);
                lemma_keys_tell_mappings(Kind::LocalUdp, (jobs[j].listen, jobs[j].target), ends);
                let k = j - (n.local_tcp.len());
                assert(n.local_udp[k] == ends);
            }
        }
        lemma_last_handle(Map::<Seq<char>, H>::empty(), jobs, handles@, at);
    }
}

/// On a started node each remote-tcp mapping is listened for where it listens, leads
/// where it leads, counts on an entry that says so, and has the handle of its place; a
/// mapping that was added twice has that of the last place.
pub proof fn law_started_remote_tcp<C, L, H>(
    y: &mut YggstackMobile<C, L, H>,
    handles: Vec<H>,
    l: Launch,
    i: int,
)
    requires
        old(y).wf(),
        call_ensures(
            YggstackMobile::<C, L, H>::start,
            (y, Ok(()), handles),
            Ok::<Launch, YggstackError>(l),
        ),
        0 <= i < old(y)@.remote_tcp.len(),
    ensures
        l.remote_tcp@.len() == old(y)@.remote_tcp.len(),
        ({
            let ends = old(y)@.remote_tcp[i];
            let f = l.remote_tcp@[i];
            let key = "rtcp:"@ + dec_text(ends.0.port) + "->"@ + socket_text(ends.1);
            &&& f.listens_on()@ == ends.0 && f.target()@ == ends.1 && f.phase() is Starting
            &&& f.key_text() == key
            &&& l.stats@.contains_key(key) && l.stats@[key].id == f.num()
            &&& l.stats@[key].kind == "remote-tcp"@ && l.stats@[key].listen == "ygg:"@ + dec_text(ends.0.port)
            &&& l.stats@[key].target == socket_text(ends.1) && l.stats@[key].active == 0
            &&& final(y)@.listeners.contains_key(key)
            &&& (forall|j: int|
                i < j < old(y)@.remote_tcp.len() ==> #[trigger] old(y)@.remote_tcp[j] != ends)
                ==> final(y)@.listeners[key] == handles@[old(y)@.local_tcp.len() + old(y)@.local_udp.len() + i]
        }),
{
    let n = old(y)@;
    old(y).law_mappings_have_addresses();
    let jobs = all_jobs(n);
    let at = n.local_tcp.len() + n.local_udp.len() + i;
    let ends = n.remote_tcp[i];
    assert(jobs[at] == job(Kind::RemoteTcp, ends));
    assert(tcp_serves(l.remote_tcp@[i], jobs_of(Kind::RemoteTcp, n.remote_tcp)[i], l.stats@));
    lemma_entry_of_job(n, at);
    lemma_handles_keys(Map::<Seq<char>, H>::empty(), jobs, handles@);
    assert(job_key(jobs[at]) == job_key(job(Kind::RemoteTcp, ends)));
    if forall|j: int| i < j < n.remote_tcp.len() ==> #[trigger] n.remote_tcp[j] != ends {
        assert forall|j: int| at < j < jobs.len() implies job_key(#[trigger] jobs[j]) != job_key(
            jobs[at],
        ) by {
            if job_key(jobs[j]) == job_key(jobs[at]) {
                if jobs[j].kind != jobs[at].kind {
                    lemma_keys_tell_kinds(jobs[j], jobs[at]);
                }
                lemma_jobs_are_mappings(n, j);
                lemma_jobs_are_mappings(n, at);
                lemma_keys_tell_mappings(Kind::RemoteTcp, (jobs[j].listen, jobs[j].target), ends);
                let k = j - (n.local_tcp.len() + n.local_udp.len());
                assert(n.remote_tcp[k] == ends);
            }
        }
        lemma_last_handle(Map::<Seq<char>, H>::empty(), jobs, handles@, at);
    }
}

/// On a started node each remote-udp mapping is listened for where it listens, leads
/// where it leads, counts on an entry that says so, and has the handle of its place; a
/// mapping that was added twice has that of the last place.
pub proof fn law_started_remote_udp<C, L, H>(
    y: &mut YggstackMobile<C, L, H>,
    handles: Vec<H>,
    l: Launch,
    i: int,
)
    requires
        old(y).wf(),
        call_ensures(
            YggstackMobile::<C, L, H>::start,
            (y, Ok(()), handles),
            Ok::<Launch, YggstackError>(l),
        ),
        0 <= i < old(y)@.remote_udp.len(),
    ensures
        l.remote_udp@.len() == old(y)@.remote_udp.len(),
        ({
            let ends = old(y)@.remote_udp[i];
            let f = l.remote_udp@[i];
            let key = "rudp:"@ + dec_text(ends.0.port) + "->"@ + socket_text(ends.1);
            &&& f.listens_on()@ == ends.0 && f@.target@ == ends.1 && f@.phase is Starting && f@.side is Remote
            &&& f.key_text() == key
            &&& l.stats@.contains_key(key) && l.stats@[key].id == f.num()
            &&& l.stats@[key].kind == "remote-udp"@ && l.stats@[key].listen == "ygg:"@ + dec_text(ends.0.port)
            &&& l.stats@[key].target == socket_text(ends.1) && l.stats@[key].active == 0
            &&& final(y)@.listeners.contains_key(key)
            &&& (forall|j: int|
                i < j < old(y)@.remote_udp.len() ==> #[trigger] old(y)@.remote_udp[j] != ends)
                ==> final(y)@.listeners[key] == handles@[old(y)@.local_tcp.len() + old(y)@.local_udp.len() + old(y)@.remote_tcp.len() + i]
        }),
{
    let n = old(y)@;
    old(y).law_mappings_have_addresses();
    let jobs = all_jobs(n);
    let at = n.local_tcp.len() + n.local_udp.len() + n.remote_tcp.len() + i;
    let ends = n.remote_udp[i];
    assert(jobs[at] == job(Kind::RemoteUdp, ends));
    assert(udp_serves(l.remote_udp@[i], jobs_of(Kind::RemoteUdp, n.remote_udp)[i], l.stats@));
    lemma_entry_of_job(n, at);
    lemma_handles_keys(Map::<Seq<char>, H>::empty(), jobs, handles@);
    assert(job_key(jobs[at]) == job_key(job(Kind::RemoteUdp, ends)));
    if forall|j: int| i < j < n.remote_udp.len() ==> #[trigger] n.remote_udp[j] != ends {
        assert forall|j: int| at < j < jobs.len() implies job_key(#[trigger] jobs[j]) != job_key(
            jobs[at],
        ) by {
            if job_key(jobs[j]) == job_key(jobs[at]) {
                if jobs[j].kind != jobs[at].kind {
                    lemma_keys_tell_kinds(jobs[j], jobs[at]);
                }
                lemma_jobs_are_mappings(n, j);
                lemma_jobs_are_mappings(n, at);
                lemma_keys_tell_mappings(Kind::RemoteUdp, (jobs[j].listen, jobs[j].target), ends);
                let k = j - (n.local_tcp.len() + n.local_udp.len() + n.remote_tcp.len());
                assert(n.remote_udp[k] == ends);
            }
        }
        lemma_last_handle(Map::<Seq<char>, H>::empty(), jobs, handles@, at);
    }
}

/// Nothing is listened for on a started node but its mappings.
pub proof fn law_only_mappings_are_listened_for<C, L, H>(
    y: &mut YggstackMobile<C, L, H>,
    handles: Vec<H>,
    l: Launch,
    k: Seq<char>,
)
    requires
        call_ensures(
            YggstackMobile::<C, L, H>::start,
            (y, Ok(()), handles),
            Ok::<Launch, YggstackError>(l),
        ),
        final(y)@.listeners.contains_key(k) || l.stats@.contains_key(k),
    ensures
        exists|kind: Kind, ends: (Endpoint, Endpoint)| #[trigger]
            is_listed(old(y)@, kind, ends) && k == job_key(job(kind, ends)),
{
    let n = old(y)@;
    let jobs = all_jobs(n);
    lemma_handles_keys(Map::<Seq<char>, H>::empty(), jobs, handles@);
    let i = if l.stats@.contains_key(k) {
        lemma_entries(jobs, k)
    } else {
        choose|i: int| 0 <= i < jobs.len() && job_key(#[trigger] jobs[i]) == k
    };
    let a = n.local_tcp.len() as int;
    let b = a + n.local_udp.len();
    let c = b + n.remote_tcp.len();
    let ends = (jobs[i].listen, jobs[i].target);
    if i < a {
        assert(n.local_tcp[i] == ends);
    } else if i < b {
        assert(n.local_udp[i - a] == ends);
    } else if i < c {
        assert(n.remote_tcp[i - b] == ends);
    } else {
        assert(n.remote_udp[i - c] == ends);
    }
    assert(is_listed(n, jobs[i].kind, ends));
}

/// Whether a node has a mapping.
pub open spec fn is_listed<C, L, H>(
    n: Node<C, L, H>,
    kind: Kind,
    ends: (Endpoint, Endpoint),
) -> bool {
    match kind {
        Kind::LocalTcp => n.local_tcp.contains(ends),
        Kind::LocalUdp => n.local_udp.contains(ends),
        Kind::RemoteTcp => n.remote_tcp.contains(ends),
        Kind::RemoteUdp => n.remote_udp.contains(ends),
    }
}

/// Whether a handle is that of a listener.
pub open spec fn stops_one<H>(handle: H, listeners: Map<Seq<char>, H>) -> bool {
    exists|k: Seq<char>| #[trigger] listeners.contains_key(k) && listeners[k] == handle
}

/// Whether handles are those of listeners: one for each, and no other.
pub open spec fn stops_all<H>(handles: Seq<H>, listeners: Map<Seq<char>, H>) -> bool {
    &&& forall|k: Seq<char>| #[trigger]
        listeners.contains_key(k) ==> handles.contains(listeners[k])
    &&& forall|i: int| 0 <= i < handles.len() ==> stops_one(#[trigger] handles[i], listeners)
    &&& handles.len() == listeners.dom().len()
}

proof fn lemma_drained<H>(handles: Seq<H>, m: Map<Seq<char>, H>)
    requires
        is_drained(handles, m),
    ensures
        stops_all(handles, m),
{
    let keys = choose|keys: Seq<Seq<char>>| #[trigger] is_drained_as(keys, handles, m);
    assert forall|k: Seq<char>| #[trigger] m.contains_key(k) implies handles.contains(m[k]) by {
        assert(keys.contains(k));
        let i = choose|i: int| 0 <= i < keys.len() && keys[i] == k;
        assert(handles[i] == m[keys[i]]);
    }
    assert forall|i: int| 0 <= i < handles.len() implies stops_one(#[trigger] handles[i], m) by {
        assert(keys.contains(keys[i]));
        assert(m.contains_key(keys[i]) && m[keys[i]] == handles[i]);
    }
    keys.unique_seq_to_set();
    assert forall|k: Seq<char>| keys.to_set().contains(k) <==> m.dom().contains(k) by {
        assert(keys.contains(k) <==> m.contains_key(k));
    }
    assert(keys.to_set() =~= m.dom());
}

/// A node that is stopped does not run, listens for nothing, hands out the handle of
/// each listener, and keeps all that was set up, its mappings too.
pub proof fn law_nodes_are_stopped<C, L, H>(y: &mut YggstackMobile<C, L, H>, r: Stopped<H>)
    requires
        call_ensures(YggstackMobile::<C, L, H>::stop, (y,), r),
    ensures
        r.node <==> old(y)@.running,
        stops_all(r.listeners@, old(y)@.listeners),
        ({
            let (n, m) = (old(y)@, final(y)@);
            &&& !m.running
            &&& forall|k: Seq<char>| !(#[trigger] m.listeners.contains_key(k))
            &&& m.config == n.config && m.callback == n.callback && m.log_level == n.log_level
            &&& m.socks == n.socks && m.nameserver == n.nameserver
            &&& m.local_tcp == n.local_tcp && m.local_udp == n.local_udp
            &&& m.remote_tcp == n.remote_tcp && m.remote_udp == n.remote_udp
        }),
{
    lemma_drained(r.listeners@, old(y)@.listeners);
}

/// Clearing the mappings leaves none of any kind, hands out the handle of each listener,
/// and keeps the rest.
pub proof fn law_mappings_are_cleared<C, L, H>(y: &mut YggstackMobile<C, L, H>, r: Vec<H>)
    requires
        call_ensures(YggstackMobile::<C, L, H>::clear_mappings, (y,), r),
    ensures
        stops_all(r@, old(y)@.listeners),
        same_setup(old(y)@, final(y)@),
        ({
            let m = final(y)@;
            &&& forall|k: Seq<char>| !(#[trigger] m.listeners.contains_key(k))
            &&& m.local_tcp.len() == 0 && m.local_udp.len() == 0
            &&& m.remote_tcp.len() == 0 && m.remote_udp.len() == 0
        }),
{
    lemma_drained(r@, old(y)@.listeners);
}

// ── What is set up ────────────────────────────────────────────────────────────

/// Whether two nodes have the same mappings and listeners, and both run or neither.
pub open spec fn same_mappings<C, L, H>(a: Node<C, L, H>, b: Node<C, L, H>) -> bool {
    &&& a.running == b.running && a.listeners == b.listeners
    &&& a.local_tcp == b.local_tcp && a.local_udp == b.local_udp
    &&& a.remote_tcp == b.remote_tcp && a.remote_udp == b.remote_udp
}

/// A new node does not run, has nothing set up and no mappings, and logs at the level
/// `info`.
pub proof fn law_new_nodes<C, L, H>(a: YggstackMobile<C, L, H>, k: Seq<char>)
    requires
        call_ensures(YggstackMobile::<C, L, H>::new, (), a) || call_ensures(
            <YggstackMobile<C, L, H> as Default>::default,
            (),
            a,
        ),
    ensures
        a.wf(),
        !a@.running && a@.config is None && a@.callback is None && a@.socks is None,
        a@.log_level == seq!['i', 'n', 'f', 'o'],
        a@.nameserver.len() == 0,
        a@.local_tcp.len() == 0 && a@.local_udp.len() == 0,
        a@.remote_tcp.len() == 0 && a@.remote_udp.len() == 0,
        !a@.listeners.contains_key(k),
{
    reveal_strlit("info");
    assert("info"@ =~= seq!['i', 'n', 'f', 'o']);
}

/// Choosing who is told of log messages, and which, changes just that.
pub proof fn law_logging_is_chosen<C, L, H>(
    y: &mut YggstackMobile<C, L, H>,
    callback: L,
    z: &mut YggstackMobile<C, L, H>,
    level: String,
)
    requires
        call_ensures(YggstackMobile::<C, L, H>::set_log_callback, (y, callback), ()),
        call_ensures(YggstackMobile::<C, L, H>::set_log_level, (z, level), ()),
    ensures
        same_mappings(old(y)@, final(y)@) && same_mappings(old(z)@, final(z)@),
        ({
            let (n, m) = (old(y)@, final(y)@);
            &&& m.callback == Some(callback)
            &&& m.log_level == n.log_level && m.config == n.config && m.socks == n.socks
            &&& m.nameserver == n.nameserver
        }),
        ({
            let (n, m) = (old(z)@, final(z)@);
            &&& m.log_level == level@
            &&& m.callback == n.callback && m.config == n.config && m.socks == n.socks
            &&& m.nameserver == n.nameserver
        }),
{
}

/// Choosing where the proxy listens, and which name server is asked, changes just that;
/// an empty address of the proxy is none.
pub proof fn law_addresses_are_chosen<C, L, H>(
    y: &mut YggstackMobile<C, L, H>,
    socks: String,
    z: &mut YggstackMobile<C, L, H>,
    nameserver: String,
)
    requires
        call_ensures(YggstackMobile::<C, L, H>::set_socks, (y, socks), ()),
        call_ensures(YggstackMobile::<C, L, H>::set_nameserver, (z, nameserver), ()),
    ensures
        same_mappings(old(y)@, final(y)@) && same_mappings(old(z)@, final(z)@),
        ({
            let (n, m) = (old(y)@, final(y)@);
            &&& socks@.len() == 0 ==> m.socks is None
            &&& socks@.len() > 0 ==> m.socks == Some(socks@)
            &&& m.log_level == n.log_level && m.config == n.config && m.callback == n.callback
            &&& m.nameserver == n.nameserver
        }),
        ({
            let (n, m) = (old(z)@, final(z)@);
            &&& m.nameserver == nameserver@
            &&& m.log_level == n.log_level && m.config == n.config && m.callback == n.callback
            &&& m.socks == n.socks
        }),
{
}

/// A configuration that was read is taken, whether it came from outside or was
/// generated; one that was not is refused with the reason, and the old one is kept.
pub proof fn law_configurations_are_taken<C, L, H>(
    y: &mut YggstackMobile<C, L, H>,
    parsed: Result<Config<C>, String>,
    r: Result<(), YggstackError>,
)
    requires
        call_ensures(YggstackMobile::<C, L, H>::load_config, (y, parsed), r) || call_ensures(
            YggstackMobile::<C, L, H>::generate_and_load_config,
            (y, parsed),
            r,
        ),
    ensures
        same_mappings(old(y)@, final(y)@),
        r is Ok <==> parsed is Ok,
        parsed matches Ok(c) ==> final(y)@.config == Some(c.rest),
        parsed matches Err(e) ==> (r matches Err(YggstackError::Config(m)) && m@ == e@) && final(y)@.config == old(y)@.config,
        final(y)@.log_level == old(y)@.log_level && final(y)@.callback == old(y)@.callback,
        final(y)@.socks == old(y)@.socks && final(y)@.nameserver == old(y)@.nameserver,
{
}

/// A configuration that is loaded is given back, without TUN adapter and admin socket.
pub proof fn law_configurations_are_kept<C, L, H>(
    y: &mut YggstackMobile<C, L, H>,
    cfg: Config<C>,
    z: &YggstackMobile<C, L, H>,
    c: Option<&Config<C>>,
    rendered: Option<String>,
    text: String,
)
    requires
        call_ensures(
            YggstackMobile::<C, L, H>::load_config,
            (y, Ok(cfg)),
            Ok::<(), YggstackError>(()),
        ),
        *final(y) == *z,
        call_ensures(YggstackMobile::<C, L, H>::config, (z,), c),
        call_ensures(YggstackMobile::<C, L, H>::get_config, (z, rendered), text),
    ensures
        c is Some,
        c->0.rest == cfg.rest,
        c->0.if_name@ == seq!['n', 'o', 'n', 'e'],
        c->0.admin_listen@ == seq!['n', 'o', 'n', 'e'],
        rendered matches Some(t) ==> text@ == t@,
        rendered is None ==> text@.len() == 0,
{
    reveal_strlit("none");
    assert("none"@ =~= seq!['n', 'o', 'n', 'e']);
}

/// Without a configuration there is no text of it, no address, no subnet and no key.
pub proof fn law_nothing_without_a_configuration<C, L, H>(
    y: &YggstackMobile<C, L, H>,
    rendered: Option<String>,
    text: String,
    a: Result<[u8; 16], String>,
    address: Result<String, YggstackError>,
    b: Result<[u8; 8], String>,
    subnet: Result<String, YggstackError>,
    k: Result<[u8; 32], String>,
    key: Result<String, YggstackError>,
)
    requires
        call_ensures(YggstackMobile::<C, L, H>::get_config, (y, rendered), text),
        call_ensures(YggstackMobile::<C, L, H>::get_address, (y, a), address),
        call_ensures(YggstackMobile::<C, L, H>::get_subnet, (y, b), subnet),
        call_ensures(YggstackMobile::<C, L, H>::get_public_key, (y, k), key),
        y@.config is None,
    ensures
        text@.len() == 0,
        address matches Err(YggstackError::Config(m)) && m@ == "no config loaded"@,
        subnet matches Err(YggstackError::Config(m)) && m@ == "no config loaded"@,
        key matches Err(YggstackError::Config(m)) && m@ == "no config loaded"@,
{
}

/// With a configuration they are those of its key: the address of the sixteen octets,
/// the subnet of the eight octets with zeros behind them, 64 bits long, and two lower
/// case hexadecimal digits for each byte of the key.
pub proof fn law_addresses_are_those_of_the_key<C, L, H>(
    y: &YggstackMobile<C, L, H>,
    a: [u8; 16],
    address: Result<String, YggstackError>,
    b: [u8; 8],
    subnet: Result<String, YggstackError>,
    k: [u8; 32],
    key: Result<String, YggstackError>,
    i: int,
)
    requires
        call_ensures(YggstackMobile::<C, L, H>::get_address, (y, Ok(a)), address),
        call_ensures(YggstackMobile::<C, L, H>::get_subnet, (y, Ok(b)), subnet),
        call_ensures(YggstackMobile::<C, L, H>::get_public_key, (y, Ok(k)), key),
        y@.config is Some,
        0 <= i < 32,
    ensures
        address matches Ok(t) && t@ == ip_text(Ip::V6(a@)),
        subnet matches Ok(t) && t@ == ip_text(
            Ip::V6(b@ + seq![0u8, 0u8, 0u8, 0u8, 0u8, 0u8, 0u8, 0u8]),
        ) + seq!['/', '6', '4'],
        key matches Ok(t) && t@.len() == 64 && t@[2 * i] == "0123456789abcdef"@[(k@[i] / 16) as int]
            && t@[2 * i + 1] == "0123456789abcdef"@[(k@[i] % 16) as int],
{
    reveal_strlit("/");
    reveal_strlit("0123456789abcdef");
    reveal_with_fuel(dec_text, 3);
    assert(dec_text(64) =~= seq!['6', '4']);
    assert(b@ + Seq::new(8, |i: int| 0u8) =~= b@ + seq![0u8, 0u8, 0u8, 0u8, 0u8, 0u8, 0u8, 0u8]);
    assert("/"@ + dec_text(64) =~= seq!['/', '6', '4']);
    let t = ip_text(Ip::V6(b@ + seq![0u8, 0u8, 0u8, 0u8, 0u8, 0u8, 0u8, 0u8]));
    assert(t + "/"@ + dec_text(64) =~= t + seq!['/', '6', '4']);
}

/// What could not be derived from the key is told.
pub proof fn law_underived_addresses<C, L, H>(
    y: &YggstackMobile<C, L, H>,
    e: String,
    address: Result<String, YggstackError>,
    subnet: Result<String, YggstackError>,
    key: Result<String, YggstackError>,
)
    requires
        call_ensures(YggstackMobile::<C, L, H>::get_address, (y, Err(e)), address),
        call_ensures(YggstackMobile::<C, L, H>::get_subnet, (y, Err(e)), subnet),
        call_ensures(YggstackMobile::<C, L, H>::get_public_key, (y, Err(e)), key),
        y@.config is Some,
    ensures
        address matches Err(YggstackError::Config(m)) && m@ == e@,
        subnet matches Err(YggstackError::Config(m)) && m@ == e@,
        key matches Err(YggstackError::Config(m)) && m@ == e@,
{
}

/// The mappings of all kinds are counted together.
pub proof fn law_mappings_are_counted<C, L, H>(y: &YggstackMobile<C, L, H>, r: Option<usize>)
    requires
        call_ensures(YggstackMobile::<C, L, H>::mapping_count, (y,), r),
    ensures
        ({
            let n = y@;
            let all = n.local_tcp.len() + n.local_udp.len() + n.remote_tcp.len()
                + n.remote_udp.len();
            &&& r is Some <==> all <= usize::MAX
            &&& r matches Some(c) ==> c == all
        }),
{
}

/// Whether a node can be started is told as starting it tells it.
pub proof fn law_starting_is_checked<C, L, H>(
    y: &mut YggstackMobile<C, L, H>,
    key: Result<(), String>,
    handles: Vec<H>,
    r: Result<Launch, YggstackError>,
    z: &YggstackMobile<C, L, H>,
    q: Result<(), YggstackError>,
)
    requires
        call_ensures(YggstackMobile::<C, L, H>::start, (y, key, handles), r),
        z@ == old(y)@,
        call_ensures(YggstackMobile::<C, L, H>::check_start, (z, &key), q),
    ensures
        q is Ok <==> r is Ok,
        q matches Err(e) ==> (r matches Err(f) && e.text() == f.text()),
{
}

// ── Peers, listings and errors ────────────────────────────────────────────────

/// Peers are added, removed and retried while the node runs, under the URI that was
/// given; else the node says that it does not run.
pub proof fn law_peers_need_a_running_node<C, L, H>(
    y: &YggstackMobile<C, L, H>,
    uri: String,
    a: Result<PeerCommand, YggstackError>,
    b: Result<PeerCommand, YggstackError>,
    c: Result<PeerCommand, YggstackError>,
    running: bool,
)
    requires
        call_ensures(YggstackMobile::<C, L, H>::add_live_peer, (y, uri), a),
        call_ensures(YggstackMobile::<C, L, H>::remove_live_peer, (y, uri), b),
        call_ensures(YggstackMobile::<C, L, H>::retry_peers_now, (y,), c),
        call_ensures(YggstackMobile::<C, L, H>::is_running, (y,), running),
    ensures
        running <==> y@.running,
        running ==> (a matches Ok(PeerCommand::Add(u)) && u@ == uri@),
        running ==> (b matches Ok(PeerCommand::Remove(u)) && u@ == uri@),
        running ==> (c matches Ok(PeerCommand::Retry)),
        !running ==> (a matches Err(YggstackError::NotRunning(m)) && m@ == "not running"@),
        !running ==> (b matches Err(YggstackError::NotRunning(m)) && m@ == "not running"@),
        !running ==> (c matches Err(YggstackError::NotRunning(m)) && m@ == "not running"@),
{
}

/// What came of a command is told as it came.
pub proof fn law_outcomes_are_told(outcome: Result<(), String>, r: Result<(), YggstackError>)
    requires
        call_ensures(peer_outcome, (outcome,), r),
    ensures
        r is Ok <==> outcome is Ok,
        outcome matches Err(e) ==> (r matches Err(YggstackError::Runtime(m)) && m@ == e@),
{
}

/// An error names its kind, and what it is about where that is not always the same.
pub proof fn law_errors_are_told(e: &YggstackError, r: String)
    requires
        call_ensures(YggstackError::to_text, (e,), r),
    ensures
        e matches YggstackError::Config(m) ==> r@ == "Config: "@ + m@,
        e matches YggstackError::Runtime(m) ==> r@ == "Runtime: "@ + m@,
        e matches YggstackError::Io(m) ==> r@ == "Io: "@ + m@,
        e is AlreadyRunning ==> r@ == "AlreadyRunning"@,
        e is NotRunning ==> r@ == "NotRunning"@,
{
}

/// The version begins with the name of the program; no QUIC peer can be reached; a
/// generated configuration is the rendered text, or the template where there is none.
pub proof fn law_plain_functions(
    version: String,
    uri: String,
    rtt: i64,
    template: String,
    rendered: Option<String>,
    text: String,
)
    requires
        call_ensures(get_version, (), version),
        call_ensures(check_quic_peer, (uri,), rtt),
        call_ensures(generate_config, (template, rendered), text),
    ensures
        version@ == seq![
            'y', 'g', 'g', 's', 't', 'a', 'c', 'k', ' ', '0', '.', '1', '.', '0',
        ],
        rtt == -1,
        rendered matches Some(t) ==> text@ == t@,
        rendered is None ==> text@ == template@,
{
    reveal_strlit("yggstack ");
    reveal_strlit("0.1.0");
    assert(version@ =~= seq![
        'y', 'g', 'g', 's', 't', 'a', 'c', 'k', ' ', '0', '.', '1', '.', '0',
    ]);
}

/// The listing of listeners is empty while the node does not run, and else that of the
/// registry: a listing that the registry may give itself.
pub proof fn law_listings_need_a_running_node<C, L, H>(
    y: &YggstackMobile<C, L, H>,
    stats: &ListenerStatsRegistry,
    r: String,
)
    requires
        call_ensures(YggstackMobile::<C, L, H>::get_listeners_json, (y, stats), r),
        forall|k: Seq<char>| #[trigger] stats@.contains_key(k) ==> stats@[k].active >= 0,
    ensures
        !y@.running ==> r@ == seq!['[', ']'],
        y@.running ==> exists|keys: Seq<Seq<char>>|
            {
                &&& keys.no_duplicates()
                &&& forall|k: Seq<char>| keys.contains(k) <==> #[trigger] stats@.contains_key(k)
                &&& r@ == seq!['['] + #[trigger] item_texts(keys, stats@) + seq![']']
            },
{
    reveal_strlit("[]");
    reveal_strlit("[");
    reveal_strlit("]");
    assert("[]"@ =~= seq!['[', ']']);
    if y@.running {
        let keys = choose|keys: Seq<Seq<char>>| #[trigger]
            is_listing(keys, stats@) && r@ == listing_json(keys, stats@);
        assert forall|i: int| 0 <= i < keys.len() implies stats@[#[trigger] keys[i]].active >= 0 by {
            assert(keys.contains(keys[i]));
            assert(stats@.contains_key(keys[i]));
        }
        lemma_item_texts(keys, stats@);
        assert(r@ =~= seq!['['] + item_texts(keys, stats@) + seq![']']);
    }
}

/// A peer as JSON: its URI, whether it is up and inbound, its port, and its numbers.
pub open spec fn peer_text(p: PeerInfo, port: nat) -> Seq<char> {
    "{\"URI\":"@ + json_text(p.uri@) + ",\"Up\":"@ + (if p.up {
        "true"@
    } else {
        "false"@
    }) + ",\"Inbound\":"@ + (if p.inbound {
        "true"@
    } else {
        "false"@
    }) + ",\"Port\":"@ + dec_text(port) + ",\"Priority\":"@ + dec_text(p.priority as nat)
        + ",\"Cost\":"@ + dec_text(p.cost as nat) + ",\"RXBytes\":"@ + dec_text(p.rx_bytes as nat)
        + ",\"TXBytes\":"@ + dec_text(p.tx_bytes as nat) + ",\"Uptime\":"@ + p.uptime@
        + ",\"Latency\":"@ + p.latency@ + "}"@
}

/// The listing of peers is empty while the node does not run; else it is of the peers,
/// in their order: one more peer stands behind the others, with a comma between.
pub proof fn law_peers_are_listed<C, L, H>(
    y: &YggstackMobile<C, L, H>,
    peers: &Vec<PeerInfo>,
    r: String,
    more: &Vec<PeerInfo>,
    q: String,
    uri: &str,
    port: u16,
)
    requires
        call_ensures(YggstackMobile::<C, L, H>::get_peers_json, (y, peers), r),
        call_ensures(YggstackMobile::<C, L, H>::get_peers_json, (y, more), q),
        more@.len() == peers@.len() + 1,
        more@.drop_last() == peers@,
        uri@ == more@.last().uri@,
        call_ensures(peer_port, (uri,), port),
    ensures
        !y@.running ==> r@ == seq!['[', ']'] && q@ == seq!['[', ']'],
        y@.running && peers@.len() == 0 ==> r@ == seq!['[', ']'] && q@ == seq!['['] + peer_text(
            more@.last(),
            port as nat,
        ) + seq![']'],
        y@.running && peers@.len() > 0 ==> q@ == r@.drop_last() + seq![','] + peer_text(
            more@.last(),
            port as nat,
        ) + seq![']'],
{
    reveal_strlit("[]");
    reveal_strlit("[");
    reveal_strlit("]");
    reveal_strlit(",");
    assert("[]"@ =~= seq!['[', ']']);
    let t = peer_text(more@.last(), port as nat);
    assert(t == peer_json(more@.last()));
    if y@.running {
        if peers@.len() == 0 {
            assert(more@[0] == more@.last());
            assert(r@ =~= seq!['[', ']']);
            assert(q@ =~= seq!['['] + t + seq![']']);
        } else {
            assert(r@.drop_last() =~= "["@ + peer_items(peers@));
            assert(q@ =~= r@.drop_last() + seq![','] + t + seq![']']);
        }
    }
}

/// The port of a peer is the number behind the last colon before the query, and 0 where
/// there is none, or it is too large.
pub proof fn law_ports_of_peers(
    uri: &str,
    front: Seq<char>,
    digits: Seq<char>,
    query: Seq<char>,
    s: &[char],
    n: Option<u16>,
    port: u16,
)
    requires
        call_ensures(peer_port, (uri,), port),
        uri@ == front + digits + query,
        !front.contains('?') && !digits.contains('?') && !digits.contains(':'),
        front.len() > 0 ==> front.last() == ':',
        query.len() > 0 ==> query[0] == '?',
        s@ == digits,
        call_ensures(parse_u16, (s,), n),
    ensures
        n matches Some(p) ==> port == p,
        n is None ==> port == 0,
{
    let u = front + digits;
    assert forall|j: int| 0 <= j < u.len() implies u[j] != '?' by {
        if j < front.len() {
            assert(front.contains(front[j]));
        } else {
            assert(digits.contains(digits[j - front.len()]));
        }
    }
    if query.len() > 0 {
        assert(uri@[u.len() as int] == '?');
        lemma_find_from_is(uri@, '?', 0, u.len() as int);
        assert(uri@.take(u.len() as int) =~= u);
    } else {
        assert(uri@ =~= u);
        lemma_find_from(uri@, '?', 0);
    }
    let k = front.len() as int;
    if k > 0 {
        assert(u[k - 1] == ':');
        assert forall|j: int| k - 1 < j < u.len() implies u[j] != ':' by {
            assert(digits.contains(digits[j - k]));
        }
        lemma_rfind_at(u, ':', k - 1);
        assert(u.skip(k) =~= digits);
    } else {
        assert(u =~= digits);
        lemma_rfind_to(u, ':', u.len() as int);
        if rfind(u, ':') is Some {
            assert(digits.contains(digits[rfind(u, ':')->0]));
        }
    }
}

// ── Tables of handles ─────────────────────────────────────────────────────────

/// A table has at most one handle per key: the one that it was given last, until it is
/// taken out; other keys keep theirs.
pub proof fn law_handles_are_kept<H>(
    n: HandleTable<H>,
    t: &mut HandleTable<H>,
    key: String,
    handle: H,
    u: &mut HandleTable<H>,
    k: &str,
    r: Option<H>,
    other: Seq<char>,
)
    requires
        call_ensures(HandleTable::<H>::new, (), n),
        call_ensures(HandleTable::<H>::insert, (t, key, handle), ()),
        *final(t) == *old(u),
        call_ensures(HandleTable::<H>::remove, (u, k), r),
    ensures
        !n@.contains_key(other),
        k@ == key@ ==> r == Some(handle),
        k@ != key@ ==> (r is Some <==> old(t)@.contains_key(k@)),
        k@ != key@ && old(t)@.contains_key(k@) ==> r == Some(old(t)@[k@]),
        !final(u)@.contains_key(k@),
        other != key@ && other != k@ ==> (final(u)@.contains_key(other) <==> old(t)@.contains_key(other)) && (old(t)@.contains_key(other) ==> final(u)@[other]
            == old(t)@[other]),
{
}

/// Taking all handles out gives each once, and leaves none.
pub proof fn law_handles_are_taken<H>(t: &mut HandleTable<H>, r: Vec<H>)
    requires
        call_ensures(HandleTable::<H>::drain, (t,), r),
    ensures
        stops_all(r@, old(t)@),
        forall|k: Seq<char>| !(#[trigger] final(t)@.contains_key(k)),
{
    lemma_drained(r@, old(t)@);
}

} // verus!
