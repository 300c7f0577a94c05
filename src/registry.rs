use vstd::prelude::*;
use crate::state::{AppState, ItemState, classify, item_state, outcome_view};

verus! {

/// Identity of one registration of a path: the path and the generation
/// number it was registered under.
pub struct Ticket {
    pub path: String,
    pub generation: u64,
}

/// Terminal message of a job, tagged with the ticket it was dispatched for.
pub enum Signal<E> {
    Success(Ticket),
    Error(Ticket, E),
}

/// One tracked input path with its validation result and terminal outcome.
pub struct Item<C, E> {
    pub path: String,
    pub config: Result<C, E>,
    pub outcome: Option<Result<(), E>>,
    pub generation: u64,
}

/// A job to launch: the ticket it reports under and a clone of the
/// validated configuration.
pub struct Job<C> {
    pub ticket: Ticket,
    pub config: C,
}

pub open spec fn signal_ticket<E>(signal: Signal<E>) -> Ticket {
    match signal {
        Signal::Success(t) => t,
        Signal::Error(t, _) => t,
    }
}

pub open spec fn signal_outcome<E>(signal: Signal<E>) -> Result<(), E> {
    match signal {
        Signal::Success(_) => Ok(()),
        Signal::Error(_, e) => Err(e),
    }
}

pub open spec fn paths_unique<C, E>(s: Seq<Item<C, E>>) -> bool {
    forall|i: int, j: int|
        0 <= i < j < s.len() ==> #[trigger] s[i].path@ != #[trigger] s[j].path@
}

pub open spec fn generations_below<C, E>(s: Seq<Item<C, E>>, bound: nat) -> bool {
    forall|i: int| 0 <= i < s.len() ==> #[trigger] s[i].generation < bound
}

pub open spec fn contains_path<C, E>(s: Seq<Item<C, E>>, path: Seq<char>) -> bool {
    exists|i: int| 0 <= i < s.len() && #[trigger] s[i].path@ == path
}

/// Position of the entry for `path`; meaningful when `contains_path(s, path)`.
pub open spec fn index_of<C, E>(s: Seq<Item<C, E>>, path: Seq<char>) -> int {
    choose|i: int| 0 <= i < s.len() && #[trigger] s[i].path@ == path
}

/// The registry after registering `item`: it replaces the entry with the same
/// path, or is appended when there is none.
pub open spec fn after_register<C, E>(s: Seq<Item<C, E>>, item: Item<C, E>) -> Seq<Item<C, E>> {
    if contains_path(s, item.path@) {
        s.update(index_of(s, item.path@), item)
    } else {
        s.push(item)
    }
}

/// Whether `signal` is to be recorded: its path is registered under the same
/// generation, that entry's configuration is valid (so a job can have been
/// dispatched for it), and it has no outcome yet.
pub open spec fn signal_applies<C, E>(s: Seq<Item<C, E>>, signal: Signal<E>) -> bool {
    let t = signal_ticket(signal);
    contains_path(s, t.path@) && s[index_of(s, t.path@)].generation == t.generation
        && s[index_of(s, t.path@)].config is Ok && s[index_of(s, t.path@)].outcome is None
}

/// No item with an invalid configuration carries an outcome.
pub open spec fn invalid_without_outcome<C, E>(s: Seq<Item<C, E>>) -> bool {
    forall|i: int| 0 <= i < s.len() && (#[trigger] s[i]).config is Err ==> s[i].outcome is None
}

/// The registry after receiving `signal`.
pub open spec fn after_signal<C, E>(s: Seq<Item<C, E>>, signal: Signal<E>) -> Seq<Item<C, E>> {
    if signal_applies(s, signal) {
        let i = index_of(s, signal_ticket(signal).path@);
        s.update(
            i,
            Item {
                path: s[i].path,
                config: s[i].config,
                outcome: Some(signal_outcome(signal)),
                generation: s[i].generation,
            },
        )
    } else {
        s
    }
}

/// The registry after receiving `signals` in order.
pub open spec fn after_signals<C, E>(s: Seq<Item<C, E>>, signals: Seq<Signal<E>>) -> Seq<
    Item<C, E>,
>
    decreases signals.len(),
{
    if signals.len() == 0 {
        s
    } else {
        after_signal(after_signals(s, signals.drop_last()), signals.last())
    }
}

/// Whether an item is eligible for dispatch: validated and without outcome.
pub open spec fn dispatchable<C, E>(item: Item<C, E>) -> bool {
    item.config is Ok && item.outcome is None
}

/// Tickets of the dispatchable items, in registry order.
pub open spec fn dispatch_tickets<C, E>(s: Seq<Item<C, E>>) -> Seq<Ticket>
    decreases s.len(),
{
    if s.len() == 0 {
        Seq::empty()
    } else {
        let prev = dispatch_tickets(s.drop_last());
        if dispatchable(s.last()) {
            prev.push(Ticket { path: s.last().path, generation: s.last().generation })
        } else {
            prev
        }
    }
}

/// Whether `copy` is a clone of the item's validated configuration.
pub open spec fn config_cloned<C: Clone, E>(item: Item<C, E>, copy: C) -> bool {
    match item.config {
        Ok(c) => cloned::<C>(c, copy),
        Err(_) => false,
    }
}

/// Whether `job` carries the path of an entry of `s` and a clone of its
/// validated configuration.
pub open spec fn job_cloned_from<C: Clone, E>(s: Seq<Item<C, E>>, job: Job<C>) -> bool {
    exists|k: int|
        0 <= k < s.len() && #[trigger] s[k].path == job.ticket.path && config_cloned(s[k], job.config)
}

pub open spec fn item_class<C, E>(app_state: AppState, item: Item<C, E>) -> ItemState {
    classify(app_state, item.config is Ok, outcome_view(item.outcome))
}

pub open spec fn any_in_state<C, E>(s: Seq<Item<C, E>>, app_state: AppState, st: ItemState) -> bool {
    exists|i: int| 0 <= i < s.len() && #[trigger] item_class(app_state, s[i]) == st
}

/// Application state derived from the state on entry and the registry.
pub open spec fn next_app_state<C, E>(prior: AppState, s: Seq<Item<C, E>>) -> AppState {
    if s.len() == 0 {
        AppState::Init
    } else if prior == AppState::Processing {
        if any_in_state(s, prior, ItemState::ProcessingError) {
            AppState::ProcessingErrors
        } else if !any_in_state(s, prior, ItemState::Processing) {
            AppState::ProcessingDone
        } else {
            AppState::Processing
        }
    } else if !any_in_state(s, prior, ItemState::InvalidConfig) {
        AppState::ValidConfigs
    } else {
        AppState::InvalidConfigs
    }
}

/// The set of tracked items, one per distinct path.
pub struct Registry<C, E> {
    items: Vec<Item<C, E>>,
    next_generation: u64,
}

impl<C, E> View for Registry<C, E> {
    type V = Seq<Item<C, E>>;

    closed spec fn view(&self) -> Seq<Item<C, E>> {
        self.items@
    }
}

impl<C, E> Registry<C, E> {
    /// Generation number that the next registration receives.
    pub closed spec fn generation_counter(&self) -> nat {
        self.next_generation as nat
    }

    pub closed spec fn wf(&self) -> bool {
        paths_unique(self.items@) && generations_below(self.items@, self.next_generation as nat)
            && invalid_without_outcome(self.items@)
    }

    /// What well-formedness guarantees: one entry per path, every generation
    /// below the counter, and no outcome on an invalid configuration.
    pub proof fn lemma_wf(&self)
        requires
            self.wf(),
        ensures
            paths_unique(self@),
            generations_below(self@, self.generation_counter()),
            invalid_without_outcome(self@),
    {
    }

    pub fn new() -> (r: Self)
        ensures
            r.wf(),
            r@ == Seq::<Item<C, E>>::empty(),
            r.generation_counter() == 0,
    {
        Registry { items: Vec::new(), next_generation: 0 }
    }

    pub fn items(&self) -> (r: &Vec<Item<C, E>>)
        ensures
            r@ == self@,
    {
        &self.items
    }

    pub fn len(&self) -> (r: usize)
        ensures
            r == self@.len(),
    {
        self.items.len()
    }

    pub fn is_empty(&self) -> (r: bool)
        ensures
            r == (self@.len() == 0),
    {
        self.items.len() == 0
    }

    /// Whether another path can be registered without the generation counter
    /// running out.
    pub fn can_register(&self) -> (r: bool)
        ensures
            r == (self.generation_counter() < u64::MAX),
    {
        self.next_generation < u64::MAX
    }

    fn position(&self, path: &String) -> (r: Option<usize>)
        requires
            self.wf(),
        ensures
            r matches Some(i) ==> i < self@.len() && i == index_of(self@, path@)
                && self@[i as int].path@ == path@,
            r is None ==> !contains_path(self@, path@),
    {
        let mut i: usize = 0;
        while i < self.items.len()
            invariant
                self.wf(),
                i <= self.items@.len(),
                forall|k: int| 0 <= k < i ==> #[trigger] self.items@[k].path@ != path@,
            decreases self.items@.len() - i,
        {
            if self.items[i].path == *path {
                let ghost j = index_of(self@, path@);
                assert(0 <= j < self@.len() && self@[j].path@ == path@);
                assert(j == i as int);
                return Some(i);
            }
            i = i + 1;
        }
        None
    }

    /// Creates or replaces the entry for `path` with `config` and no outcome.
    pub fn register(&mut self, path: String, config: Result<C, E>)
        requires
            old(self).wf(),
            old(self).generation_counter() < u64::MAX,
        ensures
            final(self).wf(),
            final(self).generation_counter() == old(self).generation_counter() + 1,
            final(self)@ == after_register(
                old(self)@,
                Item {
                    path,
                    config,
                    outcome: None,
                    generation: old(self).generation_counter() as u64,
                },
            ),
    {
        let ghost old_items = self.items@;
        let pos = self.position(&path);
        let item = Item { path, config, outcome: None, generation: self.next_generation };
        match pos {
            Some(i) => {
                self.items.set(i, item);
            },
            None => {
                self.items.push(item);
            },
        }
        self.next_generation = self.next_generation + 1;
        assert(paths_unique(self.items@)) by {
            assert forall|a: int, b: int| 0 <= a < b < self.items@.len() implies
                #[trigger] self.items@[a].path@ != #[trigger] self.items@[b].path@ by {
                if pos is None {
                    if b == old_items.len() {
                        assert(old_items[a].path@ == self.items@[a].path@);
                    }
                }
            }
        }
    }

    /// Removes every entry. The generation counter is kept, so tickets of
    /// removed entries never match a later registration.
    pub fn clear(&mut self)
        requires
            old(self).wf(),
        ensures
            final(self).wf(),
            final(self)@ == Seq::<Item<C, E>>::empty(),
            final(self).generation_counter() == old(self).generation_counter(),
    {
        self.items.clear();
    }

    /// Records the outcome that `signal` carries, when it applies; otherwise
    /// the registry is left as it is.
    pub fn mark_outcome(&mut self, signal: Signal<E>)
        requires
            old(self).wf(),
        ensures
            final(self).wf(),
            final(self).generation_counter() == old(self).generation_counter(),
            final(self)@ == after_signal(old(self)@, signal),
    {
        let ghost old_items = self.items@;
        let ghost sig = signal;
        let (ticket, outcome) = match signal {
            Signal::Success(t) => (t, Ok(())),
            Signal::Error(t, e) => (t, Err(e)),
        };
        assert(ticket == signal_ticket(sig) && outcome == signal_outcome(sig));
        match self.position(&ticket.path) {
            Some(i) => {
                if self.items[i].generation == ticket.generation && self.items[i].config.is_ok()
                    && self.items[i].outcome.is_none() {
                    let old_item = self.items.remove(i);
                    let item = Item {
                        path: old_item.path,
                        config: old_item.config,
                        outcome: Some(outcome),
                        generation: old_item.generation,
                    };
                    self.items.insert(i, item);
                    assert(self.items@ =~= after_signal(old_items, sig));
                    assert(paths_unique(self.items@)) by {
                        assert forall|a: int, b: int| 0 <= a < b < self.items@.len() implies
                            #[trigger] self.items@[a].path@ != #[trigger] self.items@[b].path@ by {
                            assert(self.items@[a].path@ == old_items[a].path@);
                            assert(self.items@[b].path@ == old_items[b].path@);
                        }
                    }
                    assert(generations_below(self.items@, self.next_generation as nat)) by {
                        assert forall|a: int| 0 <= a < self.items@.len() implies
                            #[trigger] self.items@[a].generation < self.next_generation by {
                            assert(self.items@[a].generation == old_items[a].generation);
                        }
                    }
                    assert(invalid_without_outcome(self.items@)) by {
                        assert forall|a: int| 0 <= a < self.items@.len() && (#[trigger] self.items@[a]).config is Err
                            implies self.items@[a].outcome is None by {
                            if a != i {
                                assert(self.items@[a] == old_items[a]);
                            }
                        }
                    }
                }
            },
            None => {},
        }
    }

    /// Whether some entry classifies as `st` under `app_state`.
    pub fn any_in_state(&self, app_state: &AppState, st: &ItemState) -> (r: bool)
        ensures
            r == any_in_state(self@, *app_state, *st),
    {
        let mut i: usize = 0;
        while i < self.items.len()
            invariant
                i <= self.items@.len(),
                forall|k: int| 0 <= k < i ==> #[trigger] item_class(*app_state, self.items@[k]) != *st,
            decreases self.items@.len() - i,
        {
            let item = &self.items[i];
            if item_state(app_state, &item.config, &item.outcome) == *st {
                assert(item_class(*app_state, self@[i as int]) == *st);
                return true;
            }
            i = i + 1;
        }
        false
    }

    /// Application state for the next tick, given the state on entry.
    pub fn next_app_state(&self, prior: &AppState) -> (r: AppState)
        ensures
            r == next_app_state(*prior, self@),
    {
        if self.items.len() == 0 {
            AppState::Init
        } else if *prior == AppState::Processing {
            if self.any_in_state(prior, &ItemState::ProcessingError) {
                AppState::ProcessingErrors
            } else if !self.any_in_state(prior, &ItemState::Processing) {
                AppState::ProcessingDone
            } else {
                AppState::Processing
            }
        } else if !self.any_in_state(prior, &ItemState::InvalidConfig) {
            AppState::ValidConfigs
        } else {
            AppState::InvalidConfigs
        }
    }
}

impl<C: Clone, E> Registry<C, E> {
    /// One job per dispatchable entry, in registry order, each carrying a
    /// clone of the entry's configuration.
    pub fn pending_jobs(&self) -> (jobs: Vec<Job<C>>)
        ensures
            jobs@.len() == dispatch_tickets(self@).len(),
            forall|i: int| 0 <= i < jobs@.len() ==> #[trigger] jobs@[i].ticket == dispatch_tickets(self@)[i],
            forall|i: int| 0 <= i < jobs@.len() ==> #[trigger] job_cloned_from(self@, jobs@[i]),
    {
        let mut jobs: Vec<Job<C>> = Vec::new();
        let mut k: usize = 0;
        while k < self.items.len()
            invariant
                k <= self.items@.len(),
                jobs@.len() == dispatch_tickets(self.items@.take(k as int)).len(),
                forall|i: int| 0 <= i < jobs@.len() ==> #[trigger] jobs@[i].ticket == dispatch_tickets(self.items@.take(k as int))[i],
                forall|i: int| 0 <= i < jobs@.len() ==> #[trigger] job_cloned_from(self.items@, jobs@[i]),
            decreases self.items@.len() - k,
        {
            let item = &self.items[k];
            assert(self.items@.take(k + 1).drop_last() =~= self.items@.take(k as int));
            assert(self.items@.take(k + 1).last() == self.items@[k as int]);
            if item.outcome.is_none() {
                match &item.config {
                    Ok(c) => {
                        let ticket = Ticket { path: item.path.clone(), generation: item.generation };
                        let job = Job { ticket, config: c.clone() };
                        jobs.push(job);
                        assert(self.items@[k as int].path == jobs@.last().ticket.path);
                        assert(job_cloned_from(self.items@, jobs@.last()));
                    },
                    Err(_) => {},
                }
            }
            k = k + 1;
        }
        assert(self.items@.take(self.items@.len() as int) =~= self.items@);
        jobs
    }
}

} // verus!
