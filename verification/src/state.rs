//! What every request handler shares: the bearer key and the scheduler.

use crate::args::App;
use crate::schedule::Scheduler;
use vstd::prelude::*;

verus! {

/// Which vision-language model the service builds.
#[derive(Debug, Clone, Copy, PartialEq, Eq, Structural)]
pub enum VlmChoice {
    Default,
    Large,
    Offline,
    OfflineLarge,
}

impl VlmChoice {
    /// The model for a service that is or is not offline and does or does
    /// not use the larger models.
    pub open spec fn of(offline: bool, large_model: bool) -> VlmChoice {
        if offline {
            if large_model {
                VlmChoice::OfflineLarge
            } else {
                VlmChoice::Offline
            }
        } else if large_model {
            VlmChoice::Large
        } else {
            VlmChoice::Default
        }
    }

    /// The model that the settings ask for.
    pub fn from_args(args: &App) -> (choice: VlmChoice)
        ensures
            choice == Self::of(args.offline, args.large_model),
    {
        if args.offline {
            if args.large_model {
                VlmChoice::OfflineLarge
            } else {
                VlmChoice::Offline
            }
        } else if args.large_model {
            VlmChoice::Large
        } else {
            VlmChoice::Default
        }
    }
}

/// The bearer key and the scheduler of the service. `D` is the job descriptor.
pub struct AppState<D> {
    auth_key: String,
    scheduler: Scheduler<D>,
}

impl<D> AppState<D> {
    /// The bearer key, as characters.
    pub closed spec fn key_view(&self) -> Seq<char> {
        self.auth_key@
    }

    /// The scheduler.
    pub closed spec fn scheduler_view(&self) -> Scheduler<D> {
        self.scheduler
    }

    /// The state of a service with the settings `args`: its key, and a
    /// scheduler with empty tiers under its two ceilings.
    pub fn new(args: &App) -> (state: Self)
        ensures
            state.key_view() == args.auth_key@,
            state.scheduler_view()@.wf(),
            state.scheduler_view()@.max_concurrency == args.max_concurrency,
            state.scheduler_view()@.max_memory_size == args.max_memory_size,
            state.scheduler_view()@.queues.active.len() == 0,
            state.scheduler_view()@.queues.pending.len() == 0,
            state.scheduler_view()@.queues.finished.len() == 0,
    {
        AppState {
            auth_key: args.auth_key.clone(),
            scheduler: Scheduler::new(args.max_concurrency, args.max_memory_size),
        }
    }

    pub fn auth_key(&self) -> (key: &str)
        ensures
            key@ == self.key_view(),
    {
        self.auth_key.as_str()
    }

    pub fn scheduler(&self) -> (scheduler: &Scheduler<D>)
        ensures
            *scheduler == self.scheduler_view(),
    {
        &self.scheduler
    }

    /// Gives the state up for its scheduler.
    pub fn into_scheduler(self) -> (scheduler: Scheduler<D>)
        ensures
            scheduler == self.scheduler_view(),
    {
        self.scheduler
    }
}

} // verus!
