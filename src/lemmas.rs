use vstd::prelude::*;
use crate::registry::{
    Item, Signal, after_register, after_signal, after_signals, any_in_state, contains_path,
    dispatch_tickets, dispatchable, generations_below, index_of, item_class, next_app_state,
    paths_unique, signal_outcome, signal_ticket, Ticket,
};
use crate::state::{AppState, ItemState};

verus! {

/// Receiving a signal changes no item's path, configuration or generation,
/// and neither adds nor removes items.
pub proof fn lemma_signal_keeps_configs<C, E>(s: Seq<Item<C, E>>, signal: Signal<E>)
    ensures
        after_signal(s, signal).len() == s.len(),
        forall|i: int| 0 <= i < s.len() ==> {
            &&& #[trigger] after_signal(s, signal)[i].path == s[i].path
            &&& after_signal(s, signal)[i].config == s[i].config
            &&& after_signal(s, signal)[i].generation == s[i].generation
        },
{
}

/// Receiving any sequence of signals changes no item's path, configuration
/// or generation.
pub proof fn lemma_signals_keep_configs<C, E>(s: Seq<Item<C, E>>, signals: Seq<Signal<E>>)
    ensures
        after_signals(s, signals).len() == s.len(),
        forall|i: int| 0 <= i < s.len() ==> {
            &&& #[trigger] after_signals(s, signals)[i].path == s[i].path
            &&& after_signals(s, signals)[i].config == s[i].config
            &&& after_signals(s, signals)[i].generation == s[i].generation
        },
    decreases signals.len(),
{
    if signals.len() > 0 {
        lemma_signals_keep_configs(s, signals.drop_last());
        lemma_signal_keeps_configs(after_signals(s, signals.drop_last()), signals.last());
    }
}

/// Registering a path leaves the entries of every other path as they were.
pub proof fn lemma_register_keeps_other_items<C, E>(s: Seq<Item<C, E>>, item: Item<C, E>)
    requires
        paths_unique(s),
    ensures
        forall|i: int| 0 <= i < s.len() && s[i].path@ != item.path@ ==> #[trigger] after_register(
            s,
            item,
        )[i] == s[i],
        contains_path(after_register(s, item), item.path@),
{
    let r = after_register(s, item);
    if contains_path(s, item.path@) {
        assert(r[index_of(s, item.path@)].path@ == item.path@);
    } else {
        assert(r[s.len() as int].path@ == item.path@);
    }
}

/// An outcome, once present, is never replaced: a signal only fills an
/// absent outcome, and an item with an outcome is left untouched.
pub proof fn lemma_outcome_set_once<C, E>(s: Seq<Item<C, E>>, signal: Signal<E>)
    ensures
        forall|i: int| 0 <= i < s.len() && s[i].outcome is Some ==> #[trigger] after_signal(s, signal)[i]
            == s[i],
        forall|i: int|
            0 <= i < s.len() && #[trigger] after_signal(s, signal)[i] != s[i] ==> s[i].outcome is None
                && after_signal(s, signal)[i].outcome is Some,
{
}

/// Over any sequence of signals, an outcome that was present stays as it was.
pub proof fn lemma_outcome_kept<C, E>(s: Seq<Item<C, E>>, signals: Seq<Signal<E>>)
    ensures
        forall|i: int| 0 <= i < s.len() && s[i].outcome is Some ==> #[trigger] after_signals(s, signals)[i]
            == s[i],
    decreases signals.len(),
{
    if signals.len() > 0 {
        let prev = after_signals(s, signals.drop_last());
        lemma_outcome_kept(s, signals.drop_last());
        lemma_signals_keep_configs(s, signals.drop_last());
        lemma_outcome_set_once(prev, signals.last());
    }
}

/// A signal for a path that is not registered, for instance one removed by
/// `clear` while its job ran, leaves the registry unchanged.
pub proof fn lemma_signal_for_absent_path<C, E>(s: Seq<Item<C, E>>, signal: Signal<E>)
    requires
        !contains_path(s, signal_ticket(signal).path@),
    ensures
        after_signal(s, signal) == s,
{
}

/// Every dispatched ticket names an item of the registry it came from, with
/// that item's generation.
pub proof fn lemma_ticket_from_item<C, E>(s: Seq<Item<C, E>>, j: int)
    requires
        0 <= j < dispatch_tickets(s).len(),
    ensures
        exists|i: int|
            0 <= i < s.len() && #[trigger] s[i].path == dispatch_tickets(s)[j].path && s[i].generation
                == dispatch_tickets(s)[j].generation && dispatchable(s[i]),
    decreases s.len(),
{
    let prev = dispatch_tickets(s.drop_last());
    if j < prev.len() {
        lemma_ticket_from_item(s.drop_last(), j);
        let i = choose|i: int|
            0 <= i < s.drop_last().len() && #[trigger] s.drop_last()[i].path == prev[j].path
                && s.drop_last()[i].generation == prev[j].generation && dispatchable(
                s.drop_last()[i],
            );
        assert(s[i] == s.drop_last()[i]);
    } else {
        assert(s[s.len() - 1].path == dispatch_tickets(s)[j].path);
    }
}

/// A signal whose ticket was dispatched from a registry whose generations
/// were all below `counter` is ignored by a registry whose items were all
/// registered later (generation `counter` or above): clearing the registry
/// and registering the same path again never lets the old job's signal land
/// on the new entry.
pub proof fn lemma_stale_signal_dropped<C, E>(
    before: Seq<Item<C, E>>,
    counter: nat,
    later: Seq<Item<C, E>>,
    signal: Signal<E>,
)
    requires
        generations_below(before, counter),
        dispatch_tickets(before).contains(signal_ticket(signal)),
        forall|i: int| 0 <= i < later.len() ==> #[trigger] later[i].generation >= counter,
    ensures
        after_signal(later, signal) == later,
{
    let j = choose|j: int|
        0 <= j < dispatch_tickets(before).len() && dispatch_tickets(before)[j] == signal_ticket(signal);
    lemma_ticket_from_item(before, j);
    if contains_path(later, signal_ticket(signal).path@) {
        let k = index_of(later, signal_ticket(signal).path@);
        assert(later[k].generation >= counter);
    }
}

/// Classification never yields `Unknown`, for any registry and application
/// state.
pub proof fn lemma_no_unknown_items<C, E>(s: Seq<Item<C, E>>, app_state: AppState)
    ensures
        !any_in_state(s, app_state, ItemState::Unknown),
{
}

/// An empty registry is in the initial state.
pub proof fn lemma_empty_is_init<C, E>(prior: AppState, s: Seq<Item<C, E>>)
    requires
        s.len() == 0,
    ensures
        next_app_state(prior, s) == AppState::Init,
{
}

/// Outside processing, an item with an invalid configuration makes the
/// state `InvalidConfigs`.
pub proof fn lemma_invalid_item_blocks<C, E>(prior: AppState, s: Seq<Item<C, E>>, i: int)
    requires
        prior != AppState::Processing,
        0 <= i < s.len(),
        s[i].config is Err,
        s[i].outcome is None,
    ensures
        next_app_state(prior, s) == AppState::InvalidConfigs,
{
    assert(item_class(prior, s[i]) == ItemState::InvalidConfig);
}

/// Outside processing, a non-empty registry of valid configurations is in
/// the state `ValidConfigs`.
pub proof fn lemma_all_valid_ready<C, E>(prior: AppState, s: Seq<Item<C, E>>)
    requires
        prior != AppState::Processing,
        s.len() > 0,
        forall|i: int| 0 <= i < s.len() ==> (#[trigger] s[i]).config is Ok,
    ensures
        next_app_state(prior, s) == AppState::ValidConfigs,
{
    assert forall|i: int| 0 <= i < s.len() implies #[trigger] item_class(prior, s[i])
        != ItemState::InvalidConfig by {
        assert(s[i].config is Ok);
    }
}

/// During processing, once no valid item is waiting for its outcome and no
/// job failed, the state becomes `ProcessingDone`.
pub proof fn lemma_all_finished_done<C, E>(s: Seq<Item<C, E>>)
    requires
        s.len() > 0,
        forall|i: int| 0 <= i < s.len() ==> !dispatchable(#[trigger] s[i]),
        forall|i: int| 0 <= i < s.len() ==> !failed(#[trigger] s[i]),
    ensures
        next_app_state(AppState::Processing, s) == AppState::ProcessingDone,
{
    assert forall|i: int| 0 <= i < s.len() implies {
        &&& #[trigger] item_class(AppState::Processing, s[i]) != ItemState::Processing
        &&& item_class(AppState::Processing, s[i]) != ItemState::ProcessingError
    } by {
        assert(!dispatchable(s[i]) && !failed(s[i]));
    }
}

/// Whether the item's job reported a failure.
pub open spec fn failed<C, E>(item: Item<C, E>) -> bool {
    item.outcome matches Some(r) && r is Err
}

/// During processing, a failed job makes the state `ProcessingErrors`,
/// whether or not other jobs are still running.
pub proof fn lemma_failure_gives_errors<C, E>(s: Seq<Item<C, E>>, i: int)
    requires
        0 <= i < s.len(),
        failed(s[i]),
    ensures
        next_app_state(AppState::Processing, s) == AppState::ProcessingErrors,
{
    assert(item_class(AppState::Processing, s[i]) == ItemState::ProcessingError);
}

/// The success signals for `tickets`, in the same order.
pub open spec fn success_signals<E>(tickets: Seq<Ticket>) -> Seq<Signal<E>> {
    tickets.map_values(|t: Ticket| Signal::<E>::Success(t))
}

/// When every item is dispatchable, there is one ticket per item, in order.
pub proof fn lemma_all_dispatchable_tickets<C, E>(s: Seq<Item<C, E>>)
    requires
        forall|i: int| 0 <= i < s.len() ==> dispatchable(#[trigger] s[i]),
    ensures
        dispatch_tickets(s).len() == s.len(),
        forall|i: int| 0 <= i < s.len() ==> #[trigger] dispatch_tickets(s)[i] == (Ticket {
            path: s[i].path,
            generation: s[i].generation,
        }),
    decreases s.len(),
{
    if s.len() > 0 {
        let d = s.drop_last();
        assert forall|i: int| 0 <= i < d.len() implies dispatchable(#[trigger] d[i]) by {
            assert(d[i] == s[i]);
        }
        lemma_all_dispatchable_tickets(d);
        assert(dispatchable(s[s.len() - 1]));
        assert forall|i: int| 0 <= i < s.len() implies #[trigger] dispatch_tickets(s)[i] == (Ticket {
            path: s[i].path,
            generation: s[i].generation,
        }) by {
            if i < d.len() {
                assert(d[i] == s[i]);
            }
        }
    }
}

/// Whether `signals` holds one terminal signal per dispatched ticket of `s`,
/// in dispatch order.
pub open spec fn one_signal_per_ticket<C, E>(s: Seq<Item<C, E>>, signals: Seq<Signal<E>>) -> bool {
    &&& signals.len() == dispatch_tickets(s).len()
    &&& forall|i: int| 0 <= i < signals.len() ==> signal_ticket(#[trigger] signals[i]) == dispatch_tickets(s)[i]
}

proof fn lemma_signal_prefix<C, E>(s: Seq<Item<C, E>>, signals: Seq<Signal<E>>, k: int)
    requires
        paths_unique(s),
        0 <= k <= s.len(),
        forall|i: int| 0 <= i < s.len() ==> dispatchable(#[trigger] s[i]),
        one_signal_per_ticket(s, signals),
    ensures
        ({
            let t = after_signals(s, signals.take(k));
            &&& t.len() == s.len()
            &&& forall|i: int| 0 <= i < k ==> (#[trigger] t[i]).outcome == Some(signal_outcome(signals[i]))
            &&& forall|i: int| k <= i < s.len() ==> #[trigger] t[i] == s[i]
        }),
    decreases k,
{
    lemma_all_dispatchable_tickets(s);
    if k > 0 {
        lemma_signal_prefix(s, signals, k - 1);
        assert(signals.take(k).drop_last() =~= signals.take(k - 1));
        let prev = after_signals(s, signals.take(k - 1));
        let sig = signals.take(k).last();
        assert(sig == signals[k - 1]);
        assert(signal_ticket(sig) == dispatch_tickets(s)[k - 1]);
        lemma_signals_keep_configs(s, signals.take(k - 1));
        assert(prev[k - 1] == s[k - 1]);
        assert(contains_path(prev, s[k - 1].path@));
        let j = index_of(prev, s[k - 1].path@);
        assert(prev[j].path@ == s[j].path@);
        assert(j == k - 1);
        assert(dispatchable(s[k - 1]));
    }
}

proof fn lemma_all_signals_received<C, E>(s: Seq<Item<C, E>>, signals: Seq<Signal<E>>)
    requires
        paths_unique(s),
        forall|i: int| 0 <= i < s.len() ==> dispatchable(#[trigger] s[i]),
        one_signal_per_ticket(s, signals),
    ensures
        after_signals(s, signals).len() == s.len(),
        forall|i: int| 0 <= i < s.len() ==> (#[trigger] after_signals(s, signals)[i]).outcome == Some(
            signal_outcome(signals[i]),
        ),
{
    lemma_all_dispatchable_tickets(s);
    lemma_signal_prefix(s, signals, s.len() as int);
    assert(signals.take(s.len() as int) =~= signals);
}

/// Starting from valid items that have no outcome yet, once the success
/// signal of every dispatched job has been received, processing ends in
/// `ProcessingDone`.
pub proof fn lemma_all_jobs_succeed<C, E>(s: Seq<Item<C, E>>)
    requires
        paths_unique(s),
        s.len() > 0,
        forall|i: int| 0 <= i < s.len() ==> dispatchable(#[trigger] s[i]),
    ensures
        next_app_state(
            AppState::Processing,
            after_signals(s, success_signals::<E>(dispatch_tickets(s))),
        ) == AppState::ProcessingDone,
{
    lemma_all_dispatchable_tickets(s);
    let sigs = success_signals::<E>(dispatch_tickets(s));
    assert forall|i: int| 0 <= i < sigs.len() implies signal_ticket(#[trigger] sigs[i])
        == dispatch_tickets(s)[i] by {
    }
    lemma_all_signals_received(s, sigs);
    let t = after_signals(s, sigs);
    assert forall|i: int| 0 <= i < t.len() implies !dispatchable(#[trigger] t[i]) && !failed(t[i]) by {
        assert(t[i].outcome == Some(signal_outcome(sigs[i])));
        assert(sigs[i] == Signal::<E>::Success(dispatch_tickets(s)[i]));
    }
    lemma_all_finished_done(t);
}

/// Starting from valid items that have no outcome yet, once one signal per
/// dispatched job has been received and at least one of them is a failure,
/// processing ends in `ProcessingErrors`.
pub proof fn lemma_some_job_fails<C, E>(s: Seq<Item<C, E>>, signals: Seq<Signal<E>>, f: int)
    requires
        paths_unique(s),
        forall|i: int| 0 <= i < s.len() ==> dispatchable(#[trigger] s[i]),
        one_signal_per_ticket(s, signals),
        0 <= f < signals.len(),
        signals[f] is Error,
    ensures
        next_app_state(AppState::Processing, after_signals(s, signals))
            == AppState::ProcessingErrors,
{
    lemma_all_dispatchable_tickets(s);
    lemma_all_signals_received(s, signals);
    let t = after_signals(s, signals);
    assert(t[f].outcome == Some(signal_outcome(signals[f])));
    lemma_failure_gives_errors(t, f);
}

/// Clearing the registry while a job runs and registering the same path
/// again: the old job's signal leaves the new entry as it was registered.
pub proof fn lemma_reregister_drops_stale<C, E>(
    before: Seq<Item<C, E>>,
    counter: nat,
    item: Item<C, E>,
    signal: Signal<E>,
)
    requires
        generations_below(before, counter),
        dispatch_tickets(before).contains(signal_ticket(signal)),
        item.generation >= counter,
    ensures
        after_signal(after_register(Seq::<Item<C, E>>::empty(), item), signal) == after_register(
            Seq::<Item<C, E>>::empty(),
            item,
        ),
{
    let later = after_register(Seq::<Item<C, E>>::empty(), item);
    assert(!contains_path(Seq::<Item<C, E>>::empty(), item.path@));
    assert(later =~= seq![item]);
    lemma_stale_signal_dropped(before, counter, later, signal);
}

/// The dispatched tickets name distinct paths when the registry does, so
/// no path gets two jobs from one dispatch.
pub proof fn lemma_dispatch_paths_unique<C, E>(s: Seq<Item<C, E>>)
    requires
        paths_unique(s),
    ensures
        forall|a: int, b: int|
            0 <= a < b < dispatch_tickets(s).len() ==> #[trigger] dispatch_tickets(s)[a].path@
                != #[trigger] dispatch_tickets(s)[b].path@,
    decreases s.len(),
{
    if s.len() > 0 {
        let d = s.drop_last();
        assert(paths_unique(d)) by {
            assert forall|a: int, b: int| 0 <= a < b < d.len() implies #[trigger] d[a].path@
                != #[trigger] d[b].path@ by {
                assert(d[a] == s[a] && d[b] == s[b]);
            }
        }
        lemma_dispatch_paths_unique(d);
        let prev = dispatch_tickets(d);
        if dispatchable(s.last()) {
            assert forall|a: int| 0 <= a < prev.len() implies #[trigger] prev[a].path@ != s.last().path@ by {
                lemma_ticket_from_item(d, a);
                let i = choose|i: int|
                    0 <= i < d.len() && #[trigger] d[i].path == prev[a].path && d[i].generation
                        == prev[a].generation && dispatchable(d[i]);
                assert(d[i] == s[i]);
                assert(s[i].path@ != s[s.len() - 1].path@);
            }
        }
    }
}

} // verus!
