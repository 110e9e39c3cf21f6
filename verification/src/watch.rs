//! The change watcher's rebuild scheduler, as a pure state machine.
//!
//! The driving loop performs the outside work — subscribing, sleeping out
//! the debounce window, running the build pipeline — and feeds each outcome
//! back as an event; every decision lives here and is verified.

use vstd::prelude::*;

use crate::engine::SearchError;

verus! {

/// The scheduler's states.
#[derive(Clone, Copy, PartialEq, Eq, Structural, Debug)]
pub enum WatchState {
    /// Not started.
    Idle,
    /// Subscribed and waiting for filesystem events.
    Watching,
    /// An event arrived; the burst is being absorbed until the debounce
    /// window elapses with no further event.
    Coalescing,
    /// A full rebuild is running; `pending` records whether another event
    /// arrived meanwhile.
    Rebuilding { pending: bool },
}

/// What the driving loop reports.
#[derive(Clone, Copy, PartialEq, Eq, Structural, Debug)]
pub enum WatchEvent {
    /// A create, modify, delete or rename notification under some root.
    FsChange,
    /// The debounce window passed with no further notification.
    DebounceElapsed,
    /// The rebuild finished, successfully or not.
    RebuildFinished,
}

/// What the scheduler asks of the driving loop.
#[derive(Clone, Copy, PartialEq, Eq, Structural, Debug)]
pub enum WatchAction {
    /// Keep waiting for the next event.
    Wait,
    /// Run the full walk-build-commit pipeline now.
    StartRebuild,
}

/// The transition relation: a rebuild starts exactly when the debounce
/// window elapses in `Coalescing`; events during a rebuild are remembered
/// and coalesce again once it finishes.
pub open spec fn spec_step(s: WatchState, e: WatchEvent) -> (WatchState, WatchAction) {
    match (s, e) {
        (WatchState::Watching, WatchEvent::FsChange) => (
            WatchState::Coalescing,
            WatchAction::Wait,
        ),
        (WatchState::Coalescing, WatchEvent::FsChange) => (
            WatchState::Coalescing,
            WatchAction::Wait,
        ),
        (WatchState::Coalescing, WatchEvent::DebounceElapsed) => (
            WatchState::Rebuilding { pending: false },
            WatchAction::StartRebuild,
        ),
        (WatchState::Rebuilding { pending: _ }, WatchEvent::FsChange) => (
            WatchState::Rebuilding { pending: true },
            WatchAction::Wait,
        ),
        (WatchState::Rebuilding { pending: true }, WatchEvent::RebuildFinished) => (
            WatchState::Coalescing,
            WatchAction::Wait,
        ),
        (WatchState::Rebuilding { pending: false }, WatchEvent::RebuildFinished) => (
            WatchState::Watching,
            WatchAction::Wait,
        ),
        _ => (s, WatchAction::Wait),
    }
}

/// One scheduler step, as executed by the driving loop.
pub fn step(s: WatchState, e: WatchEvent) -> (r: (WatchState, WatchAction))
    ensures
        r == spec_step(s, e),
{
    match (s, e) {
        (WatchState::Watching, WatchEvent::FsChange) => (
            WatchState::Coalescing,
            WatchAction::Wait,
        ),
        (WatchState::Coalescing, WatchEvent::FsChange) => (
            WatchState::Coalescing,
            WatchAction::Wait,
        ),
        (WatchState::Coalescing, WatchEvent::DebounceElapsed) => (
            WatchState::Rebuilding { pending: false },
            WatchAction::StartRebuild,
        ),
        (WatchState::Rebuilding { pending: _ }, WatchEvent::FsChange) => (
            WatchState::Rebuilding { pending: true },
            WatchAction::Wait,
        ),
        (WatchState::Rebuilding { pending: true }, WatchEvent::RebuildFinished) => (
            WatchState::Coalescing,
            WatchAction::Wait,
        ),
        (WatchState::Rebuilding { pending: false }, WatchEvent::RebuildFinished) => (
            WatchState::Watching,
            WatchAction::Wait,
        ),
        (other, _) => (other, WatchAction::Wait),
    }
}

/// Entering the watch loop: with no registered root it fails with the
/// configuration error before any subscription is attempted; otherwise the
/// scheduler starts out watching.
pub fn watch_start(roots: &Vec<String>) -> (r: Result<WatchState, SearchError>)
    ensures
        r is Err <==> roots@.len() == 0,
        roots@.len() == 0 ==> r matches Err(SearchError::NoRootsConfigured),
        roots@.len() > 0 ==> (r matches Ok(s) && s is Watching),
{
    if roots.len() == 0 {
        Err(SearchError::NoRootsConfigured)
    } else {
        Ok(WatchState::Watching)
    }
}

/// How many rebuilds a run of events triggers from a given state.
pub open spec fn rebuilds_triggered(s: WatchState, events: Seq<WatchEvent>) -> nat
    decreases events.len(),
{
    if events.len() == 0 {
        0
    } else {
        let (s1, a) = spec_step(s, events[0]);
        (if a is StartRebuild {
            1nat
        } else {
            0nat
        }) + rebuilds_triggered(s1, events.drop_first())
    }
}

proof fn lemma_coalescing_burst(burst: Seq<WatchEvent>)
    requires
        forall|i: int| 0 <= i < burst.len() ==> #[trigger] burst[i] is FsChange,
    ensures
        rebuilds_triggered(WatchState::Coalescing, burst.push(WatchEvent::DebounceElapsed)) == 1,
    decreases burst.len(),
{
    let run = burst.push(WatchEvent::DebounceElapsed);
    if burst.len() == 0 {
        assert(run[0] == WatchEvent::DebounceElapsed);
        assert(run.drop_first() =~= Seq::<WatchEvent>::empty());
        assert(rebuilds_triggered(
            WatchState::Rebuilding { pending: false },
            Seq::<WatchEvent>::empty(),
        ) == 0);
    } else {
        assert(run[0] == burst[0]);
        assert(burst[0] is FsChange);
        assert(run.drop_first() =~= burst.drop_first().push(WatchEvent::DebounceElapsed));
        assert(forall|i: int|
            0 <= i < burst.drop_first().len() ==> #[trigger] burst.drop_first()[i] == burst[i
                + 1]);
        lemma_coalescing_burst(burst.drop_first());
    }
}

/// Debounce coalescing: however many changes arrive inside one debounce
/// window, the elapsing window triggers exactly one rebuild.
pub proof fn lemma_debounce_single_rebuild(burst: Seq<WatchEvent>)
    requires
        burst.len() > 0,
        forall|i: int| 0 <= i < burst.len() ==> #[trigger] burst[i] is FsChange,
    ensures
        rebuilds_triggered(WatchState::Watching, burst.push(WatchEvent::DebounceElapsed)) == 1,
{
    let run = burst.push(WatchEvent::DebounceElapsed);
    assert(run[0] == burst[0]);
    assert(burst[0] is FsChange);
    assert(run.drop_first() =~= burst.drop_first().push(WatchEvent::DebounceElapsed));
    assert(forall|i: int|
        0 <= i < burst.drop_first().len() ==> #[trigger] burst.drop_first()[i] == burst[i + 1]);
    lemma_coalescing_burst(burst.drop_first());
}

} // verus!
