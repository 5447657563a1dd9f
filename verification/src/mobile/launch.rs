//! Starting the listeners of all mappings.
use vstd::prelude::*;
use crate::addr::{Endpoint, socket_text};
use crate::cli::Parsed;
use crate::forward::tcp::{
    TcpForwarder, local_tcp_key, local_tcp_key_text, remote_tcp_key, remote_tcp_key_text,
    spawn_local_tcp, spawn_remote_tcp,
};
use crate::forward::udp::{
    Side, UdpForwarder, local_udp_key, local_udp_key_text, remote_udp_key, remote_udp_key_text,
    spawn_local_udp, spawn_remote_udp, udp_start,
};
use crate::mapping::{Mapping, TcpMapping, UdpMapping, local_mapping, remote_mapping};
use crate::mobile::table::HandleTable;
use crate::mobile::{job, without_key};
use crate::stats::{Entry, ListenerStatsRegistry, registered};
use crate::text::{dec_text, same_text};

verus! {

// ── Mappings ──────────────────────────────────────────────────────────────────

/// The kinds of mappings.
pub ghost enum Kind {
    LocalTcp,
    LocalUdp,
    RemoteTcp,
    RemoteUdp,
}

/// A mapping: its kind, where it listens, and where it leads.
pub ghost struct Job {
    pub kind: Kind,
    pub listen: Endpoint,
    pub target: Endpoint,
}

/// The mapping that a specification of a kind stands for.
pub open spec fn mapping_of(kind: Kind, s: Seq<char>) -> Parsed {
    match kind {
        Kind::LocalTcp | Kind::LocalUdp => local_mapping(s),
        Kind::RemoteTcp | Kind::RemoteUdp => remote_mapping(s),
    }
}

/// The key of a mapping.
pub open spec fn job_key(j: Job) -> Seq<char> {
    match j.kind {
        Kind::LocalTcp => local_tcp_key_text(j.listen, j.target),
        Kind::LocalUdp => local_udp_key_text(j.listen, j.target),
        Kind::RemoteTcp => remote_tcp_key_text(j.listen, j.target),
        Kind::RemoteUdp => remote_udp_key_text(j.listen, j.target),
    }
}

/// What a kind is called in the registry.
pub open spec fn kind_name(kind: Kind) -> Seq<char> {
    match kind {
        Kind::LocalTcp => "local-tcp"@,
        Kind::LocalUdp => "local-udp"@,
        Kind::RemoteTcp => "remote-tcp"@,
        Kind::RemoteUdp => "remote-udp"@,
    }
}

/// Where a mapping listens, as the registry says it.
pub open spec fn listen_text(j: Job) -> Seq<char> {
    match j.kind {
        Kind::LocalTcp | Kind::LocalUdp => socket_text(j.listen),
        Kind::RemoteTcp | Kind::RemoteUdp => "ygg:"@ + dec_text(j.listen.port),
    }
}

/// Mappings of one kind.
pub open spec fn jobs_of(kind: Kind, ends: Seq<(Endpoint, Endpoint)>) -> Seq<Job> {
    Seq::new(ends.len(), |i: int| Job { kind, listen: ends[i].0, target: ends[i].1 })
}

/// Mappings as where they listen and where they lead.
pub open spec fn ends_list<M: Mapping>(v: Seq<M>) -> Seq<(Endpoint, Endpoint)> {
    Seq::new(v.len(), |i: int| v[i].ends())
}

// ── Listeners ─────────────────────────────────────────────────────────────────

/// A registry: its entries, and the number of the next one.
pub ghost struct Registry {
    pub entries: Map<Seq<char>, Entry>,
    pub next: nat,
}

/// A registry as its entries and the number of the next one.
pub open spec fn registry_view(r: ListenerStatsRegistry) -> Registry {
    Registry { entries: r@, next: r.next() }
}

/// The registry after a mapping's listener was registered.
pub open spec fn registry_with(r: Registry, j: Job) -> Registry {
    Registry {
        entries: registered(
            r.entries,
            r.next,
            job_key(j),
            kind_name(j.kind),
            listen_text(j),
            socket_text(j.target),
        ),
        next: if r.entries.contains_key(job_key(j)) {
            r.next
        } else {
            r.next + 1
        },
    }
}

/// The registry after the listeners of mappings were registered in turn.
pub open spec fn registry_with_all(r: Registry, jobs: Seq<Job>) -> Registry
    decreases jobs.len(),
{
    if jobs.len() == 0 {
        r
    } else {
        registry_with(registry_with_all(r, jobs.drop_last()), jobs.last())
    }
}

/// The handles of running listeners after those of mappings were started in turn.
pub open spec fn handles_with_all<H>(
    m: Map<Seq<char>, H>,
    jobs: Seq<Job>,
    handles: Seq<H>,
) -> Map<Seq<char>, H>
    decreases jobs.len(),
{
    if jobs.len() == 0 {
        m
    } else {
        handles_with_all(m, jobs.drop_last(), handles).insert(
            job_key(jobs.last()),
            handles[jobs.len() - 1],
        )
    }
}

/// Whether a TCP forwarder serves a mapping, and counts on its entry.
pub open spec fn tcp_serves(f: TcpForwarder, j: Job, entries: Map<Seq<char>, Entry>) -> bool {
    &&& f.phase() is Starting
    &&& f.listens_on()@ == j.listen
    &&& f.target()@ == j.target
    &&& f.key_text() == job_key(j)
    &&& entries.contains_key(job_key(j))
    &&& f.num() == entries[job_key(j)].id
}

/// Whether a UDP forwarder serves a mapping, and counts on its entry.
pub open spec fn udp_serves(f: UdpForwarder, j: Job, entries: Map<Seq<char>, Entry>) -> bool {
    &&& f.wf()
    &&& f@ == udp_start(
        if j.kind is LocalUdp {
            Side::Local
        } else {
            Side::Remote
        },
        f@.target,
    )
    &&& f.listens_on()@ == j.listen
    &&& f@.target@ == j.target
    &&& f.key_text() == job_key(j)
    &&& entries.contains_key(job_key(j))
    &&& f.num() == entries[job_key(j)].id
}

/// A registry without entries.
pub open spec fn empty_registry() -> Registry {
    Registry { entries: Map::empty(), next: 0 }
}

/// Mappings whose listeners are forwarders.
pub trait Launched: Mapping {
    /// What listens for a mapping.
    type Forwarder;

    /// The kind of the mappings of a side.
    spec fn kind(remote: bool) -> Kind;

    /// Whether a forwarder serves a mapping, and counts on its entry.
    spec fn serves(f: Self::Forwarder, j: Job, entries: Map<Seq<char>, Entry>) -> bool;

    /// A forwarder still serves its mapping where the mapping's entry is the same.
    proof fn lemma_still_serves(
        f: Self::Forwarder,
        j: Job,
        earlier: Map<Seq<char>, Entry>,
        later: Map<Seq<char>, Entry>,
    )
        requires
            Self::serves(f, j, earlier),
            extends(later, earlier),
        ensures
            Self::serves(f, j, later),
    ;

    /// The key of the mapping.
    fn key(&self, remote: bool) -> (r: String)
        ensures
            r@ == job_key(job(Self::kind(remote), self.ends())),
    ;

    /// Start the mapping's listener: register it under its key.
    fn spawn(self, remote: bool, stats: &mut ListenerStatsRegistry) -> (f: Self::Forwarder)
        requires
            old(stats).wf(),
            old(stats).next() < u64::MAX,
        ensures
            final(stats).wf(),
            registry_view(*final(stats)) == registry_with(
                registry_view(*old(stats)),
                job(Self::kind(remote), self.ends()),
            ),
            Self::serves(f, job(Self::kind(remote), self.ends()), final(stats)@),
    ;
}

impl Launched for TcpMapping {
    type Forwarder = TcpForwarder;

    open spec fn kind(remote: bool) -> Kind {
        if remote {
            Kind::RemoteTcp
        } else {
            Kind::LocalTcp
        }
    }

    open spec fn serves(f: TcpForwarder, j: Job, entries: Map<Seq<char>, Entry>) -> bool {
        tcp_serves(f, j, entries)
    }

    proof fn lemma_still_serves(
        f: TcpForwarder,
        j: Job,
        earlier: Map<Seq<char>, Entry>,
        later: Map<Seq<char>, Entry>,
    ) {
        assert(earlier.contains_key(job_key(j)));
    }

    fn key(&self, remote: bool) -> (r: String) {
        if remote {
            remote_tcp_key(self)
        } else {
            local_tcp_key(self)
        }
    }

    fn spawn(self, remote: bool, stats: &mut ListenerStatsRegistry) -> (f: TcpForwarder) {
        if remote {
            spawn_remote_tcp(self, stats)
        } else {
            spawn_local_tcp(self, stats)
        }
    }
}

impl Launched for UdpMapping {
    type Forwarder = UdpForwarder;

    open spec fn kind(remote: bool) -> Kind {
        if remote {
            Kind::RemoteUdp
        } else {
            Kind::LocalUdp
        }
    }

    open spec fn serves(f: UdpForwarder, j: Job, entries: Map<Seq<char>, Entry>) -> bool {
        udp_serves(f, j, entries)
    }

    proof fn lemma_still_serves(
        f: UdpForwarder,
        j: Job,
        earlier: Map<Seq<char>, Entry>,
        later: Map<Seq<char>, Entry>,
    ) {
        assert(earlier.contains_key(job_key(j)));
    }

    fn key(&self, remote: bool) -> (r: String) {
        if remote {
            remote_udp_key(self)
        } else {
            local_udp_key(self)
        }
    }

    fn spawn(self, remote: bool, stats: &mut ListenerStatsRegistry) -> (f: UdpForwarder) {
        if remote {
            spawn_remote_udp(self, stats)
        } else {
            spawn_local_udp(self, stats)
        }
    }
}

/// Whether later entries are earlier ones and more.
pub open spec fn extends(
    later: Map<Seq<char>, Entry>,
    earlier: Map<Seq<char>, Entry>,
) -> bool {
    forall|k: Seq<char>| #[trigger]
        earlier.contains_key(k) ==> later.contains_key(k) && later[k] == earlier[k]
}

/// Whether forwarders serve the mappings of a kind, in order.
pub open spec fn all_serve<M: Launched>(
    v: Seq<M::Forwarder>,
    kind: Kind,
    list: Seq<(Endpoint, Endpoint)>,
    entries: Map<Seq<char>, Entry>,
) -> bool {
    &&& v.len() == list.len()
    &&& forall|i: int| 0 <= i < v.len() ==> M::serves(#[trigger] v[i], jobs_of(kind, list)[i], entries)
}

/// Registering keeps the entries that are there, and grows the next number by one
/// for each mapping at most.
pub proof fn lemma_registry_grows(r: Registry, jobs: Seq<Job>)
    ensures
        registry_with_all(r, jobs).next <= r.next + jobs.len(),
        forall|k: Seq<char>| #[trigger]
            r.entries.contains_key(k) ==> registry_with_all(r, jobs).entries.contains_key(k)
                && registry_with_all(r, jobs).entries[k] == r.entries[k],
    decreases jobs.len(),
{
    if jobs.len() > 0 {
        lemma_registry_grows(r, jobs.drop_last());
    }
}

/// Registering in two steps is registering in one.
pub proof fn lemma_registry_concat(r: Registry, a: Seq<Job>, b: Seq<Job>)
    ensures
        registry_with_all(registry_with_all(r, a), b) == registry_with_all(r, a + b),
    decreases b.len(),
{
    if b.len() == 0 {
        assert(a + b =~= a);
    } else {
        lemma_registry_concat(r, a, b.drop_last());
        assert((a + b).drop_last() =~= a + b.drop_last());
    }
}

/// Starting in two steps is starting in one.
pub proof fn lemma_handles_concat<H>(
    m: Map<Seq<char>, H>,
    a: Seq<Job>,
    b: Seq<Job>,
    ha: Seq<H>,
    hb: Seq<H>,
)
    requires
        ha.len() == a.len(),
        hb.len() >= b.len(),
    ensures
        handles_with_all(handles_with_all(m, a, ha), b, hb) == handles_with_all(m, a + b, ha + hb),
    decreases b.len(),
{
    if b.len() == 0 {
        assert(a + b =~= a);
        lemma_handles_prefix(m, a, ha, ha + hb);
    } else {
        lemma_handles_concat(m, a, b.drop_last(), ha, hb);
        assert((a + b).drop_last() =~= a + b.drop_last());
        assert((ha + hb)[(a + b).len() - 1] == hb[b.len() - 1]);
    }
}

/// Handles beyond those of the mappings do not matter.
pub proof fn lemma_handles_prefix<H>(
    m: Map<Seq<char>, H>,
    jobs: Seq<Job>,
    h: Seq<H>,
    longer: Seq<H>,
)
    requires
        jobs.len() <= h.len() <= longer.len(),
        forall|i: int| 0 <= i < jobs.len() ==> h[i] == longer[i],
    ensures
        handles_with_all(m, jobs, h) == handles_with_all(m, jobs, longer),
    decreases jobs.len(),
{
    if jobs.len() > 0 {
        lemma_handles_prefix(m, jobs.drop_last(), h, longer);
    }
}

/// After starting, the running listeners are those that ran, and those of the
/// mappings.
pub proof fn lemma_handles_keys<H>(m: Map<Seq<char>, H>, jobs: Seq<Job>, handles: Seq<H>)
    ensures
        forall|k: Seq<char>| #[trigger]
            handles_with_all(m, jobs, handles).contains_key(k) <==> m.contains_key(k) || exists|
                i: int,
            |
                0 <= i < jobs.len() && job_key(#[trigger] jobs[i]) == k,
    decreases jobs.len(),
{
    if jobs.len() > 0 {
        let before = jobs.drop_last();
        lemma_handles_keys(m, before, handles);
        let x = handles_with_all(m, jobs, handles);
        assert forall|k: Seq<char>| #[trigger] x.contains_key(k) <==> m.contains_key(k) || exists|
            i: int,
        |
            0 <= i < jobs.len() && job_key(#[trigger] jobs[i]) == k by {
            let y = handles_with_all(m, before, handles);
            if x.contains_key(k) {
                if k == job_key(jobs.last()) {
                    assert(job_key(jobs[jobs.len() - 1]) == k);
                } else {
                    assert(y.contains_key(k));
                    if !m.contains_key(k) {
                        let i = choose|i: int|
                            0 <= i < before.len() && job_key(#[trigger] before[i]) == k;
                        assert(jobs[i] == before[i]);
                    }
                }
            }
            if m.contains_key(k) {
                assert(y.contains_key(k));
            }
            if exists|i: int| 0 <= i < jobs.len() && job_key(#[trigger] jobs[i]) == k {
                let i = choose|i: int| 0 <= i < jobs.len() && job_key(#[trigger] jobs[i]) == k;
                if i < before.len() {
                    assert(before[i] == jobs[i]);
                    assert(y.contains_key(k));
                }
            }
        }
    }
}

// ── Starting ──────────────────────────────────────────────────────────────────

/// The mappings of a side that do not have a key.
pub(crate) fn retained<M: Launched>(remote: bool, v: &Vec<M>, key: &str) -> (r: Vec<M>)
    ensures
        ends_list(r@) == without_key(M::kind(remote), ends_list(v@), key@),
{
    let ghost list = ends_list(v@);
    let ghost keep = |ends: (Endpoint, Endpoint)| job_key(job(M::kind(remote), ends)) != key@;
    let mut r: Vec<M> = Vec::new();
    let mut i: usize = 0;
    proof {
        reveal(Seq::filter);
        assert(list.take(0) =~= Seq::<(Endpoint, Endpoint)>::empty());
        assert(ends_list(r@) =~= list.take(0).filter(keep));
    }
    while i < v.len()
        invariant
            i <= v@.len(),
            list == ends_list(v@),
            keep == (|ends: (Endpoint, Endpoint)| job_key(job(M::kind(remote), ends)) != key@),
            ends_list(r@) == list.take(i as int).filter(keep),
        decreases v.len() - i,
    {
        let ghost before = r@;
        let k = v[i].key(remote);
        proof {
            reveal(Seq::filter);
            assert(list.take(i + 1).drop_last() =~= list.take(i as int));
            assert(list.take(i + 1).last() == list[i as int]);
        }
        if !same_text(k.as_str(), key) {
            r.push(v[i]);
            assert(ends_list(r@) =~= ends_list(before).push(list[i as int]));
        }
        i += 1;
    }
    assert(list.take(v@.len() as int) =~= list);
    r
}

/// Start the listeners of the mappings of a side, in order.
fn launch_side<M: Launched, H>(
    remote: bool,
    mappings: &Vec<M>,
    handles: &mut Vec<H>,
    listeners: &mut HandleTable<H>,
    stats: &mut ListenerStatsRegistry,
) -> (r: Vec<M::Forwarder>)
    requires
        old(stats).wf(),
        old(listeners).wf(),
        old(stats).next() + mappings@.len() <= u64::MAX,
        mappings@.len() <= old(handles)@.len(),
    ensures
        final(stats).wf(),
        final(listeners).wf(),
        registry_view(*final(stats)) == registry_with_all(
            registry_view(*old(stats)),
            jobs_of(M::kind(remote), ends_list(mappings@)),
        ),
        final(listeners)@ == handles_with_all(
            old(listeners)@,
            jobs_of(M::kind(remote), ends_list(mappings@)),
            old(handles)@.take(mappings@.len() as int),
        ),
        final(handles)@ == old(handles)@.skip(mappings@.len() as int),
        all_serve::<M>(r@, M::kind(remote), ends_list(mappings@), final(stats)@),
{
    let ghost jobs = jobs_of(M::kind(remote), ends_list(mappings@));
    let ghost reg = registry_view(*stats);
    let ghost start = listeners@;
    let ghost all = handles@;
    let ghost n = mappings@.len() as int;
    let mut r: Vec<M::Forwarder> = Vec::new();
    let mut i: usize = 0;
    assert(jobs.take(0) =~= Seq::<Job>::empty());
    assert(all.skip(0) =~= all);
    while i < mappings.len()
        invariant
            i <= mappings@.len(),
            n == mappings@.len(),
            n <= all.len(),
            jobs == jobs_of(M::kind(remote), ends_list(mappings@)),
            reg.next + n <= u64::MAX,
            stats.wf(),
            listeners.wf(),
            registry_view(*stats) == registry_with_all(reg, jobs.take(i as int)),
            listeners@ == handles_with_all(start, jobs.take(i as int), all.take(n)),
            handles@ == all.skip(i as int),
            r@.len() == i,
            forall|k: int| 0 <= k < i ==> M::serves(#[trigger] r@[k], jobs[k], stats@),
        decreases mappings.len() - i,
    {
        let ghost before = jobs.take(i as int);
        let ghost entries = stats@;
        let ghost served = r@;
        proof {
            lemma_registry_grows(reg, before);
            lemma_registry_grows(registry_with_all(reg, before), seq![jobs[i as int]]);
            assert(jobs.take(i + 1).drop_last() =~= before);
            assert(jobs.take(i + 1).last() == jobs[i as int]);
            assert(jobs[i as int] == job(M::kind(remote), mappings@[i as int].ends()));
        }
        let key = mappings[i].key(remote);
        let f = mappings[i].spawn(remote, stats);
        let h = handles.remove(0);
        assert(h == all[i as int]);
        assert(all.take(n)[i as int] == all[i as int]);
        listeners.insert(key, h);
        assert(handles@ =~= all.skip(i + 1));
        r.push(f);
        assert forall|k: int| 0 <= k < i + 1 implies M::serves(#[trigger] r@[k], jobs[k], stats@) by {
            if k < i {
                assert(M::serves(served[k], jobs[k], entries));
                M::lemma_still_serves(served[k], jobs[k], entries, stats@);
            }
        }
        i += 1;
    }
    assert(jobs.take(n) =~= jobs);
    r
}


/// The jobs of all mappings, in the order in which their listeners are started.
pub open spec fn jobs_in_order(
    local_tcp: Seq<(Endpoint, Endpoint)>,
    local_udp: Seq<(Endpoint, Endpoint)>,
    remote_tcp: Seq<(Endpoint, Endpoint)>,
    remote_udp: Seq<(Endpoint, Endpoint)>,
) -> Seq<Job> {
    jobs_of(Kind::LocalTcp, local_tcp) + jobs_of(Kind::LocalUdp, local_udp) + jobs_of(
        Kind::RemoteTcp,
        remote_tcp,
    ) + jobs_of(Kind::RemoteUdp, remote_udp)
}

proof fn lemma_registry_four(r: Registry, a: Seq<Job>, b: Seq<Job>, c: Seq<Job>, d: Seq<Job>)
    ensures
        ({
            let r1 = registry_with_all(r, a);
            let r2 = registry_with_all(r1, b);
            let r3 = registry_with_all(r2, c);
            let r4 = registry_with_all(r3, d);
            &&& r4 == registry_with_all(r, a + b + c + d)
            &&& r1.next <= r.next + a.len()
            &&& r2.next <= r1.next + b.len()
            &&& r3.next <= r2.next + c.len()
            &&& r4.next <= r3.next + d.len()
            &&& extends(r4.entries, r1.entries)
            &&& extends(r4.entries, r2.entries)
            &&& extends(r4.entries, r3.entries)
        }),
{
    let r1 = registry_with_all(r, a);
    let r2 = registry_with_all(r1, b);
    let r3 = registry_with_all(r2, c);
    lemma_registry_grows(r, a);
    lemma_registry_grows(r1, b);
    lemma_registry_grows(r2, c);
    lemma_registry_grows(r3, d);
    lemma_registry_concat(r, a, b);
    lemma_registry_concat(r, a + b, c);
    lemma_registry_concat(r, a + b + c, d);
}

#[verifier::rlimit(30)]
proof fn lemma_handles_four<H>(
    m: Map<Seq<char>, H>,
    a: Seq<Job>,
    b: Seq<Job>,
    c: Seq<Job>,
    d: Seq<Job>,
    all: Seq<H>,
)
    requires
        all.len() == a.len() + b.len() + c.len() + d.len(),
    ensures
        ({
            let h1 = all.skip(a.len() as int);
            let h2 = h1.skip(b.len() as int);
            let h3 = h2.skip(c.len() as int);
            let m1 = handles_with_all(m, a, all.take(a.len() as int));
            let m2 = handles_with_all(m1, b, h1.take(b.len() as int));
            let m3 = handles_with_all(m2, c, h2.take(c.len() as int));
            handles_with_all(m3, d, h3.take(d.len() as int)) == handles_with_all(
                m,
                a + b + c + d,
                all,
            )
        }),
{
    let ha = all.take(a.len() as int);
    let h1 = all.skip(a.len() as int);
    let hb = h1.take(b.len() as int);
    let h2 = h1.skip(b.len() as int);
    let hc = h2.take(c.len() as int);
    let h3 = h2.skip(c.len() as int);
    let hd = h3.take(d.len() as int);
    lemma_handles_concat(m, a, b, ha, hb);
    lemma_handles_concat(m, a + b, c, ha + hb, hc);
    lemma_handles_concat(m, a + b + c, d, ha + hb + hc, hd);
    assert(ha + hb + hc + hd =~= all);
}

proof fn lemma_all_still_serve<M: Launched>(
    v: Seq<M::Forwarder>,
    kind: Kind,
    list: Seq<(Endpoint, Endpoint)>,
    earlier: Map<Seq<char>, Entry>,
    later: Map<Seq<char>, Entry>,
)
    requires
        extends(later, earlier),
        all_serve::<M>(v, kind, list, earlier),
    ensures
        all_serve::<M>(v, kind, list, later),
{
    let jobs = jobs_of(kind, list);
    assert forall|i: int| 0 <= i < v.len() implies M::serves(#[trigger] v[i], jobs[i], later) by {
        M::lemma_still_serves(v[i], jobs[i], earlier, later);
    }
}

/// Start the listeners of all mappings, with a handle for each, and register them
/// in a new registry.
#[verifier::rlimit(30)]
pub(crate) fn launch_all<H>(
    local_tcp: &Vec<TcpMapping>,
    local_udp: &Vec<UdpMapping>,
    remote_tcp: &Vec<TcpMapping>,
    remote_udp: &Vec<UdpMapping>,
    handles: Vec<H>,
    listeners: &mut HandleTable<H>,
) -> (r: (
    ListenerStatsRegistry,
    Vec<TcpForwarder>,
    Vec<UdpForwarder>,
    Vec<TcpForwarder>,
    Vec<UdpForwarder>,
))
    requires
        old(listeners).wf(),
        handles@.len() == local_tcp@.len() + local_udp@.len() + remote_tcp@.len()
            + remote_udp@.len(),
    ensures
        final(listeners).wf(),
        r.0.wf(),
        registry_view(r.0) == registry_with_all(
            empty_registry(),
            jobs_in_order(
                ends_list(local_tcp@),
                ends_list(local_udp@),
                ends_list(remote_tcp@),
                ends_list(remote_udp@),
            ),
        ),
        final(listeners)@ == handles_with_all(
            old(listeners)@,
            jobs_in_order(
                ends_list(local_tcp@),
                ends_list(local_udp@),
                ends_list(remote_tcp@),
                ends_list(remote_udp@),
            ),
            handles@,
        ),
        all_serve::<TcpMapping>(r.1@, Kind::LocalTcp, ends_list(local_tcp@), r.0@),
        all_serve::<UdpMapping>(r.2@, Kind::LocalUdp, ends_list(local_udp@), r.0@),
        all_serve::<TcpMapping>(r.3@, Kind::RemoteTcp, ends_list(remote_tcp@), r.0@),
        all_serve::<UdpMapping>(r.4@, Kind::RemoteUdp, ends_list(remote_udp@), r.0@),
{
    let ghost all = handles@;
    let ghost a = jobs_of(Kind::LocalTcp, ends_list(local_tcp@));
    let ghost b = jobs_of(Kind::LocalUdp, ends_list(local_udp@));
    let ghost c = jobs_of(Kind::RemoteTcp, ends_list(remote_tcp@));
    let ghost d = jobs_of(Kind::RemoteUdp, ends_list(remote_udp@));
    let total: usize = handles.len();
    assert(total == a.len() + b.len() + c.len() + d.len());
    let mut handles = handles;
    let mut stats = ListenerStatsRegistry::new();
    proof {
        lemma_registry_four(empty_registry(), a, b, c, d);
        lemma_handles_four(listeners@, a, b, c, d, all);
        assert(registry_view(stats) == empty_registry());
    }
    let lt = launch_side(false, local_tcp, &mut handles, listeners, &mut stats);
    let ghost e1 = stats@;
    let lu = launch_side(false, local_udp, &mut handles, listeners, &mut stats);
    let ghost e2 = stats@;
    let rt = launch_side(true, remote_tcp, &mut handles, listeners, &mut stats);
    let ghost e3 = stats@;
    let ru = launch_side(true, remote_udp, &mut handles, listeners, &mut stats);
    proof {
        lemma_all_still_serve::<TcpMapping>(
            lt@,
            Kind::LocalTcp,
            ends_list(local_tcp@),
            e1,
            stats@,
        );
        lemma_all_still_serve::<UdpMapping>(
            lu@,
            Kind::LocalUdp,
            ends_list(local_udp@),
            e2,
            stats@,
        );
        lemma_all_still_serve::<TcpMapping>(
            rt@,
            Kind::RemoteTcp,
            ends_list(remote_tcp@),
            e3,
            stats@,
        );
    }
    (stats, lt, lu, rt, ru)
}

} // verus!
