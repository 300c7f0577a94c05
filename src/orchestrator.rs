use vstd::prelude::*;
use crate::job::{Settings, VideoCodec, default_frame_rate};
use crate::registry::{
    Item, Job, Registry, Signal, after_register, after_signal, after_signals, dispatch_tickets,
    item_class, job_cloned_from, next_app_state,
};
use crate::state::{AppState, ItemState, item_state};

verus! {

/// The orchestrator: global settings, the application state of the last
/// tick, and the registry of dropped files. Jobs reach it only through the
/// signals handed to `poll`.
pub struct MigrationApp<C, E> {
    pub settings: Settings,
    pub state: AppState,
    pub dropped_files: Registry<C, E>,
}

impl<C, E> Default for MigrationApp<C, E> {
    fn default() -> (r: Self)
        ensures
            r.wf(),
            r.items() == Seq::<Item<C, E>>::empty(),
            r.generation_counter() == 0,
            r.state == AppState::Init,
            !r.settings.is_forest_green_enabled,
            !r.settings.is_video_enabled,
            r.settings.video_codec == VideoCodec::Unset,
            r.settings.ffmpeg_path is None,
            r.settings.video_output_path is None,
            r.settings.frame_rate == default_frame_rate(),
    {
        MigrationApp { settings: Settings::new(), state: AppState::Init, dropped_files: Registry::new() }
    }
}

impl<C, E> MigrationApp<C, E> {
    pub open spec fn wf(&self) -> bool {
        self.dropped_files.wf()
    }

    /// The registered items, one per distinct path.
    pub open spec fn items(&self) -> Seq<Item<C, E>> {
        self.dropped_files@
    }

    pub open spec fn generation_counter(&self) -> nat {
        self.dropped_files.generation_counter()
    }

    pub fn dropped_files(&self) -> (r: &Registry<C, E>)
        ensures
            r@ == self.items(),
    {
        &self.dropped_files
    }

    /// Whether `register` may be called.
    pub fn can_register(&self) -> (r: bool)
        ensures
            r == (self.generation_counter() < u64::MAX),
    {
        self.dropped_files.can_register()
    }

    /// Registers a dropped path with the result of validating it, replacing
    /// any earlier entry for that path along with its outcome.
    pub fn register(&mut self, path: String, config: Result<C, E>)
        requires
            old(self).wf(),
            old(self).generation_counter() < u64::MAX,
        ensures
            final(self).wf(),
            final(self).generation_counter() == old(self).generation_counter() + 1,
            final(self).items() == after_register(
                old(self).items(),
                Item {
                    path,
                    config,
                    outcome: None,
                    generation: old(self).generation_counter() as u64,
                },
            ),
            final(self).state == old(self).state,
            final(self).settings == old(self).settings,
    {
        self.dropped_files.register(path, config);
    }

    /// Removes every item; signals of jobs still running are dropped when
    /// they arrive.
    pub fn clear(&mut self)
        requires
            old(self).wf(),
        ensures
            final(self).wf(),
            final(self).items() == Seq::<Item<C, E>>::empty(),
            final(self).generation_counter() == old(self).generation_counter(),
            final(self).state == old(self).state,
            final(self).settings == old(self).settings,
    {
        self.dropped_files.clear();
    }

    /// Applies one signal.
    pub fn receive(&mut self, signal: Signal<E>)
        requires
            old(self).wf(),
        ensures
            final(self).wf(),
            final(self).items() == after_signal(old(self).items(), signal),
            final(self).generation_counter() == old(self).generation_counter(),
            final(self).state == old(self).state,
            final(self).settings == old(self).settings,
    {
        self.dropped_files.mark_outcome(signal);
    }

    /// Applies the signals drained from the result channel, in the order
    /// they were received.
    pub fn poll(&mut self, signals: Vec<Signal<E>>)
        requires
            old(self).wf(),
        ensures
            final(self).wf(),
            final(self).items() == after_signals(old(self).items(), signals@),
            final(self).generation_counter() == old(self).generation_counter(),
            final(self).state == old(self).state,
            final(self).settings == old(self).settings,
    {
        let ghost start = self.items();
        let ghost all = signals@;
        let mut rest = signals;
        let mut k: usize = 0;
        let total: usize = rest.len();
        assert(all.len() == total);
        while rest.len() > 0
            invariant
                self.wf(),
                k + rest@.len() == all.len(),
                all.len() <= usize::MAX,
                rest@ == all.subrange(k as int, all.len() as int),
                self.items() == after_signals(start, all.take(k as int)),
                self.generation_counter() == old(self).generation_counter(),
                self.state == old(self).state,
                self.settings == old(self).settings,
            decreases rest@.len(),
        {
            let signal = rest.remove(0);
            assert(all.take(k + 1).drop_last() =~= all.take(k as int));
            assert(all.take(k + 1).last() == signal);
            self.receive(signal);
            k = k + 1;
            assert(rest@ =~= all.subrange(k as int, all.len() as int));
        }
        assert(all.take(k as int) =~= all);
    }

    /// Recomputes the application state from the state on entry and the items.
    pub fn update_state(&mut self)
        ensures
            final(self).state == next_app_state(old(self).state, old(self).items()),
            final(self).items() == old(self).items(),
            final(self).wf() == old(self).wf(),
            final(self).generation_counter() == old(self).generation_counter(),
            final(self).settings == old(self).settings,
    {
        let next = self.dropped_files.next_app_state(&self.state);
        self.state = next;
    }

    /// Classification of every item under the current application state, in
    /// registry order.
    pub fn item_states(&self) -> (r: Vec<ItemState>)
        ensures
            r@.len() == self.items().len(),
            forall|i: int| 0 <= i < r@.len() ==> #[trigger] r@[i] == item_class(self.state, self.items()[i]),
    {
        let items = self.dropped_files.items();
        let mut r: Vec<ItemState> = Vec::new();
        let mut i: usize = 0;
        while i < items.len()
            invariant
                items@ == self.items(),
                i <= items@.len(),
                r@.len() == i,
                forall|k: int| 0 <= k < i ==> #[trigger] r@[k] == item_class(self.state, items@[k]),
            decreases items@.len() - i,
        {
            let item = &items[i];
            r.push(item_state(&self.state, &item.config, &item.outcome));
            i = i + 1;
        }
        r
    }
}

impl<C: Clone, E> MigrationApp<C, E> {
    /// The jobs to launch: one per item with a validated configuration and no
    /// outcome, each with a clone of that configuration.
    pub fn process(&self) -> (jobs: Vec<Job<C>>)
        ensures
            jobs@.len() == dispatch_tickets(self.items()).len(),
            forall|i: int| 0 <= i < jobs@.len() ==> #[trigger] jobs@[i].ticket == dispatch_tickets(self.items())[i],
            forall|i: int| 0 <= i < jobs@.len() ==> #[trigger] job_cloned_from(self.items(), jobs@[i]),
    {
        self.dropped_files.pending_jobs()
    }

    /// Enters the processing state and returns the jobs to launch.
    pub fn start_processing(&mut self) -> (jobs: Vec<Job<C>>)
        ensures
            final(self).state == AppState::Processing,
            final(self).items() == old(self).items(),
            final(self).wf() == old(self).wf(),
            final(self).generation_counter() == old(self).generation_counter(),
            final(self).settings == old(self).settings,
            jobs@.len() == dispatch_tickets(old(self).items()).len(),
            forall|i: int| 0 <= i < jobs@.len() ==> #[trigger] jobs@[i].ticket == dispatch_tickets(old(self).items())[i],
            forall|i: int| 0 <= i < jobs@.len() ==> #[trigger] job_cloned_from(old(self).items(), jobs@[i]),
    {
        self.state = AppState::Processing;
        self.process()
    }
}

} // verus!
