//! What holds of a node over several operations.
use vstd::prelude::*;
use crate::addr::Endpoint;
use crate::mobile::launch::{Job, Kind, handles_with_all, job_key, lemma_handles_keys};
use crate::mobile::{
    Node, all_jobs, are_mappings, cleared, has_addresses, has_mapping, is_consistent, is_mapping,
    job, lemma_jobs_mapped, lemma_keys_tell_kinds, lemma_keys_tell_mappings, lemma_same_lists,
    lemma_with_mapping, lemma_without_mapping, list_has_key, list_of, started, stopped, with_list,
    with_mapping, without_key, without_mapping,
};

verus! {

/// Every operation keeps it: while the node runs, the listeners that run are those
/// of the mappings, and while it does not, none runs.
pub proof fn law_listeners_follow_mappings<C, L, H>(
    n: Node<C, L, H>,
    kind: Kind,
    ends: (Endpoint, Endpoint),
    handle: H,
    handles: Seq<H>,
)
    requires
        is_consistent(n),
    ensures
        is_consistent(with_mapping(n, kind, ends, handle)),
        is_consistent(without_mapping(n, kind, job_key(job(kind, ends)))),
        is_consistent(stopped(n)),
        is_consistent(cleared(n)),
        is_consistent(started(n, handles)),
{
    lemma_with_mapping(n, kind, ends, handle);
    lemma_without_mapping(n, kind, ends);
    lemma_jobs_mapped(n);
    lemma_handles_keys(Map::<Seq<char>, H>::empty(), all_jobs(n), handles);
    lemma_same_lists(n, started(n, handles));
}

/// A mapping that is added to a running node has its listener at once; one that is
/// added before has it from the next start on.
pub proof fn law_added_mappings_listen<C, L, H>(
    n: Node<C, L, H>,
    kind: Kind,
    ends: (Endpoint, Endpoint),
    handle: H,
    handles: Seq<H>,
)
    requires
        is_consistent(n),
    ensures
        n.running ==> with_mapping(n, kind, ends, handle).listeners[job_key(job(kind, ends))]
            == handle,
        n.running ==> with_mapping(n, kind, ends, handle).listeners.contains_key(
            job_key(job(kind, ends)),
        ),
        started(stopped(with_mapping(n, kind, ends, handle)), handles).listeners.contains_key(
            job_key(job(kind, ends)),
        ),
{
    let m = stopped(with_mapping(n, kind, ends, handle));
    let key = job_key(job(kind, ends));
    let list = list_of(m, kind);
    assert(list == list_of(n, kind).push(ends));
    assert(list_of(m, kind)[list.len() - 1] == ends);
    assert(list_has_key(m, kind, key));
    lemma_jobs_mapped(m);
    lemma_handles_keys(Map::<Seq<char>, H>::empty(), all_jobs(m), handles);
    assert(has_mapping(m, key));
}

/// A mapping that has been removed has no listener any more, and none after the
/// next start.
pub proof fn law_removed_mappings_are_gone<C, L, H>(
    n: Node<C, L, H>,
    kind: Kind,
    ends: (Endpoint, Endpoint),
    handles: Seq<H>,
)
    requires
        is_consistent(n),
    ensures
        !without_mapping(n, kind, job_key(job(kind, ends))).listeners.contains_key(
            job_key(job(kind, ends)),
        ),
        !started(
            stopped(without_mapping(n, kind, job_key(job(kind, ends)))),
            handles,
        ).listeners.contains_key(job_key(job(kind, ends))),
{
    let key = job_key(job(kind, ends));
    let w = without_mapping(n, kind, key);
    let m = stopped(w);
    assert forall|o: Kind| !list_has_key(m, o, key) by {
        if list_has_key(m, o, key) {
            let i = choose|i: int|
                0 <= i < list_of(m, o).len() && job_key(job(o, #[trigger] list_of(m, o)[i])) == key;
            if o == kind {
                let keep = |e: (Endpoint, Endpoint)| job_key(job(kind, e)) != key;
                assert(list_of(m, o) == list_of(n, kind).filter(keep));
                list_of(n, kind).lemma_filter_pred(keep, i);
            } else {
                lemma_keys_tell_kinds(job(o, list_of(m, o)[i]), job(kind, ends));
            }
        }
    }
    assert(!has_mapping(m, key));
    lemma_jobs_mapped(m);
    lemma_handles_keys(Map::<Seq<char>, H>::empty(), all_jobs(m), handles);
}

/// Removing a mapping leaves every other mapping and its listener alone.
pub proof fn law_removal_spares_others<C, L, H>(
    n: Node<C, L, H>,
    kind: Kind,
    ends: (Endpoint, Endpoint),
    other: Kind,
    i: int,
)
    requires
        is_consistent(n),
        0 <= i < list_of(n, other).len(),
        job_key(job(other, list_of(n, other)[i])) != job_key(job(kind, ends)),
    ensures
        ({
            let m = without_mapping(n, kind, job_key(job(kind, ends)));
            let key = job_key(job(other, list_of(n, other)[i]));
            &&& list_of(m, other).contains(list_of(n, other)[i])
            &&& m.listeners.contains_key(key) <==> n.listeners.contains_key(key)
            &&& m.listeners.contains_key(key) ==> m.listeners[key] == n.listeners[key]
        }),
{
    let key = job_key(job(kind, ends));
    let m = without_mapping(n, kind, key);
    if other == kind {
        let keep = |e: (Endpoint, Endpoint)| job_key(job(kind, e)) != key;
        assert(list_of(m, other) == list_of(n, kind).filter(keep));
        list_of(n, kind).lemma_filter_contains(keep, i);
    } else {
        assert(list_of(m, other) == list_of(n, other));
        assert(list_of(n, other).contains(list_of(n, other)[i]));
    }
}

/// Removing a mapping takes just the mappings of its kind that listen and lead where
/// it does, and its listener; the other mappings stay, in their order, and so do
/// the lists of the other kinds and all other listeners.
pub proof fn law_removal_is_exact<C, L, H>(
    n: Node<C, L, H>,
    kind: Kind,
    ends: (Endpoint, Endpoint),
    other: Kind,
    key: Seq<char>,
)
    requires
        has_addresses(n),
        is_mapping(kind, ends),
        other != kind,
        key != job_key(job(kind, ends)),
    ensures
        ({
            let m = without_mapping(n, kind, job_key(job(kind, ends)));
            &&& !list_of(m, kind).contains(ends)
            &&& list_of(m, kind) == list_of(n, kind).filter(
                |e: (Endpoint, Endpoint)| e != ends,
            )
            &&& list_of(m, other) == list_of(n, other)
            &&& !m.listeners.contains_key(job_key(job(kind, ends)))
            &&& m.listeners.contains_key(key) <==> n.listeners.contains_key(key)
            &&& n.listeners.contains_key(key) ==> m.listeners[key] == n.listeners[key]
        }),
{
    let list = list_of(n, kind);
    let own = job_key(job(kind, ends));
    assert(are_mappings(kind, list));
    lemma_filter_by_ends(kind, list, ends);
    let keep = |e: (Endpoint, Endpoint)| e != ends;
    let after = list.filter(keep);
    assert(list_of(without_mapping(n, kind, own), kind) == after);
    if after.contains(ends) {
        let i = choose|i: int| 0 <= i < after.len() && after[i] == ends;
        list.lemma_filter_pred(keep, i);
    }
}

proof fn lemma_filter_by_ends(
    kind: Kind,
    list: Seq<(Endpoint, Endpoint)>,
    ends: (Endpoint, Endpoint),
)
    requires
        are_mappings(kind, list),
        is_mapping(kind, ends),
    ensures
        without_key(kind, list, job_key(job(kind, ends))) == list.filter(
            |e: (Endpoint, Endpoint)| e != ends,
        ),
    decreases list.len(),
{
    reveal(Seq::filter);
    if list.len() > 0 {
        let before = list.drop_last();
        let last = list[list.len() - 1];
        assert forall|i: int| 0 <= i < before.len() implies is_mapping(
            kind,
            #[trigger] before[i],
        ) by {
            assert(before[i] == list[i]);
        }
        lemma_filter_by_ends(kind, before, ends);
        assert(is_mapping(kind, last));
        if job_key(job(kind, last)) == job_key(job(kind, ends)) {
            lemma_keys_tell_mappings(kind, last, ends);
        }
    }
}

/// Removing a mapping undoes adding it, where no mapping of its kind listened and
/// led where it does: the node is as it was before, each list in its order.
pub proof fn law_removal_undoes_addition<C, L, H>(
    n: Node<C, L, H>,
    kind: Kind,
    ends: (Endpoint, Endpoint),
    handle: H,
)
    requires
        is_consistent(n),
        has_addresses(n),
        is_mapping(kind, ends),
        !list_of(n, kind).contains(ends),
    ensures
        without_mapping(with_mapping(n, kind, ends, handle), kind, job_key(job(kind, ends))) == n,
{
    let key = job_key(job(kind, ends));
    let list = list_of(n, kind);
    let m = with_mapping(n, kind, ends, handle);
    let w = without_mapping(m, kind, key);
    assert(are_mappings(kind, list));
    assert forall|i: int| 0 <= i < list.len() implies job_key(job(kind, #[trigger] list[i]))
        != key by {
        assert(list.contains(list[i]));
        if job_key(job(kind, list[i])) == key {
            lemma_keys_tell_mappings(kind, list[i], ends);
        }
    }
    lemma_filter_none(kind, list, key);
    reveal(Seq::filter);
    assert(list.push(ends).drop_last() =~= list);
    assert(without_key(kind, list.push(ends), key) =~= list);
    assert(list_of(w, kind) == list);
    assert(!has_mapping(n, key)) by {
        assert forall|o: Kind| !list_has_key(n, o, key) by {
            if list_has_key(n, o, key) {
                let i = choose|i: int|
                    0 <= i < list_of(n, o).len() && job_key(job(o, #[trigger] list_of(n, o)[i]))
                        == key;
                if o != kind {
                    lemma_keys_tell_kinds(job(o, list_of(n, o)[i]), job(kind, ends));
                }
            }
        }
    }
    assert(!n.listeners.contains_key(key));
    assert(w.listeners =~= n.listeners);
    assert(with_list(n, kind, list) == n);
    assert(w =~= n);
}

proof fn lemma_filter_none(kind: Kind, list: Seq<(Endpoint, Endpoint)>, key: Seq<char>)
    requires
        forall|i: int| 0 <= i < list.len() ==> job_key(job(kind, #[trigger] list[i])) != key,
    ensures
        without_key(kind, list, key) == list,
    decreases list.len(),
{
    reveal(Seq::filter);
    if list.len() > 0 {
        let before = list.drop_last();
        assert forall|i: int| 0 <= i < before.len() implies job_key(job(kind, #[trigger] before[i]))
            != key by {
            assert(before[i] == list[i]);
        }
        lemma_filter_none(kind, before, key);
        assert(job_key(job(kind, list[list.len() - 1])) != key);
        assert(list =~= before.push(list.last()));
    } else {
        assert(without_key(kind, list, key) =~= list);
    }
}

/// A node that is stopped and started again runs the listeners of the same
/// mappings, in the same order, and keeps everything that was set up.
pub proof fn law_restart_keeps_setup<C, L, H>(n: Node<C, L, H>, handles: Seq<H>)
    ensures
        all_jobs(stopped(n)) == all_jobs(n),
        started(stopped(n), handles) == started(n, handles),
        stopped(started(n, handles)) == stopped(n),
        !stopped(n).running,
        started(n, handles).running,
{
}

/// Stopping a node that does not run does nothing.
pub proof fn law_stopping_twice_is_stopping_once<C, L, H>(n: Node<C, L, H>)
    requires
        is_consistent(n),
    ensures
        !n.running ==> stopped(n) == n,
        stopped(stopped(n)) == stopped(n),
{
    if !n.running {
        assert(n.listeners =~= Map::<Seq<char>, H>::empty());
    }
}

/// Without mappings nothing listens, also after the next start.
pub proof fn law_cleared_nodes_do_not_listen<C, L, H>(n: Node<C, L, H>, handles: Seq<H>)
    ensures
        cleared(n).running == n.running,
        cleared(n).listeners.dom().is_empty(),
        started(stopped(cleared(n)), handles).listeners.dom().is_empty(),
{
    let m = stopped(cleared(n));
    assert(all_jobs(m) =~= Seq::<Job>::empty());
    assert(handles_with_all(Map::<Seq<char>, H>::empty(), all_jobs(m), handles).dom()
        =~= Set::<Seq<char>>::empty());
    assert(cleared(n).listeners.dom() =~= Set::<Seq<char>>::empty());
}

} // verus!
