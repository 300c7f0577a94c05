use vstd::prelude::*;

verus! {

/// Coarse summary of the whole registry, recomputed on every tick.
#[derive(PartialEq, Eq, Structural, Clone, Copy, Debug)]
pub enum AppState {
    Init,
    InvalidConfigs,
    ValidConfigs,
    Processing,
    ProcessingDone,
    ProcessingErrors,
}

/// Classification of one registered item.
#[derive(PartialEq, Eq, Structural, Clone, Copy, Debug)]
pub enum ItemState {
    InvalidConfig,
    ValidConfig,
    Processing,
    ProcessingDone,
    ProcessingError,
    /// Defensive fallback; `item_state` never produces it.
    Unknown,
}

/// What a terminal outcome says: `None` while absent, `Some(true)` on success.
pub open spec fn outcome_view<E>(done: Option<Result<(), E>>) -> Option<bool> {
    match done {
        Some(r) => Some(r is Ok),
        None => None,
    }
}

/// Classification of an item from the application state, whether its
/// configuration validated, and its outcome, first matching rule first.
pub open spec fn classify(app_state: AppState, config_ok: bool, done: Option<bool>) -> ItemState {
    match done {
        Some(true) => ItemState::ProcessingDone,
        Some(false) => ItemState::ProcessingError,
        None => if config_ok && app_state == AppState::Processing {
            ItemState::Processing
        } else if config_ok {
            ItemState::ValidConfig
        } else {
            ItemState::InvalidConfig
        },
    }
}

/// Classifies one item.
pub fn item_state<C, E>(
    app_state: &AppState,
    config: &Result<C, E>,
    done: &Option<Result<(), E>>,
) -> (r: ItemState)
    ensures
        r == classify(*app_state, config is Ok, outcome_view(*done)),
{
    match done {
        Some(Ok(())) => ItemState::ProcessingDone,
        Some(Err(_)) => ItemState::ProcessingError,
        None => {
            let config_ok = config.is_ok();
            if config_ok && *app_state == AppState::Processing {
                ItemState::Processing
            } else if config_ok {
                ItemState::ValidConfig
            } else {
                ItemState::InvalidConfig
            }
        },
    }
}

/// Classification is total: every combination of application state,
/// configuration validity and outcome gets a definite state, never the
/// `Unknown` fallback.
pub proof fn lemma_classify_total(app_state: AppState, config_ok: bool, done: Option<bool>)
    ensures
        classify(app_state, config_ok, done) != ItemState::Unknown,
{
}

} // verus!
