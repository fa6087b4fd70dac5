//! Decisions of the inbox poller: when it starts, stops and wakes, how long it
//! waits between sync cycles, and whether settlement work keeps it alive.
//! The host runs the loop, the timers and the sync calls.

use vstd::prelude::*;

use crate::error::SdkError;

verus! {

/// Default wait between sync cycles.
pub const DEFAULT_POLL_INTERVAL_MS: u64 = 60_000;

/// Wait used for a few cycles after items were processed, so follow-up
/// messages are picked up faster.
pub const EAGER_POLL_INTERVAL_MS: u64 = 8_000;

/// Wait while settlement work is outstanding.
pub const PENDING_GATE_POLL_INTERVAL_MS: u64 = 5_000;

/// Consecutive eager-interval cycles after items were processed.
pub const EAGER_POLL_CYCLES: u32 = 5;

/// Delay before the first cycle, so bootstrap settles.
pub const INITIAL_POLL_DELAY_MS: u64 = 5_000;

/// Items a sync request pulls at most.
pub const SYNC_PULL_LIMIT: u32 = 50;

/// What the host must do after a poller decision.
#[derive(Debug, Clone, Copy, PartialEq, Eq, Structural)]
pub enum PollerAction {
    /// Nothing: the poller is already running.
    Nothing,
    /// Spawn the background poll loop.
    Spawn,
    /// Wake the running loop at once.
    Wake,
}

/// The poller's two flags.
#[derive(Debug, Clone, Copy, PartialEq, Eq, Structural)]
pub struct PollerState {
    pub running: bool,
    pub stop: bool,
}

impl PollerState {
    /// Neither running nor asked to stop.
    pub fn new() -> (r: PollerState)
        ensures
            !r.running && !r.stop,
    {
        PollerState { running: false, stop: false }
    }

    /// Start the poller. Idempotent: when it is already running nothing
    /// changes; otherwise it is marked running, its stop request cleared, and
    /// the loop is spawned.
    pub fn start_poller(&mut self) -> (a: PollerAction)
        ensures
            old(self).running ==> a == PollerAction::Nothing && *final(self) == *old(self),
            !old(self).running ==> a == PollerAction::Spawn && final(self).running && !final(self).stop,
    {
        if self.running {
            return PollerAction::Nothing;
        }
        self.running = true;
        self.stop = false;
        PollerAction::Spawn
    }

    /// Stop unconditionally: the loop exits on its next iteration, woken now.
    pub fn stop_poller(&mut self) -> (a: PollerAction)
        ensures
            a == PollerAction::Wake,
            final(self).stop,
            final(self).running == old(self).running,
    {
        self.stop = true;
        PollerAction::Wake
    }

    /// Wake the poller, starting it when it is not running.
    pub fn resume_poller(&mut self) -> (a: PollerAction)
        ensures
            old(self).running ==> a == PollerAction::Wake && *final(self) == *old(self),
            !old(self).running ==> a == PollerAction::Spawn && final(self).running && !final(self).stop,
    {
        if self.running {
            PollerAction::Wake
        } else {
            self.start_poller()
        }
    }

    /// Whether the loop must exit before its next cycle.
    pub fn should_exit(&self) -> (r: bool)
        ensures
            r == self.stop,
    {
        self.stop
    }

    /// The loop exited.
    pub fn loop_exited(&mut self)
        ensures
            !final(self).running,
            final(self).stop == old(self).stop,
    {
        self.running = false;
    }
}

/// Whether settlement work is outstanding, from every settlement check: an
/// error when any check could not be read (a reader that could not look has
/// not seen an empty queue), whatever the others found; otherwise whether
/// any check found work.
pub open spec fn spec_pending_work(checks: Seq<Result<bool, SdkError>>) -> Result<bool, ()> {
    if exists|i: int| 0 <= i < checks.len() && (#[trigger] checks[i]) is Err {
        Err(())
    } else {
        Ok(exists|i: int| 0 <= i < checks.len() && #[trigger] checks[i] == Ok::<bool, SdkError>(true))
    }
}

/// Whether `i` is the first check of `checks` that could not be read.
pub open spec fn first_unreadable(checks: Seq<Result<bool, SdkError>>, i: int) -> bool {
    &&& 0 <= i < checks.len()
    &&& checks[i] is Err
    &&& forall|j: int| 0 <= j < i ==> (#[trigger] checks[j]) is Ok
}

/// Whether this device owes the network a settlement step only polling can
/// complete. `checks` are, in order: pending online outbox non-empty, a
/// cert-head resync outstanding, a finalization checkpoint pending on the
/// sender outbox, a relationship awaiting peer finalization, and pending
/// outbound replies non-empty. An unreadable check is the error (the first
/// one's, of its kind and with its detail), whatever the others found.
pub fn has_pending_settlement_work(checks: &[Result<bool, SdkError>]) -> (r: Result<bool, SdkError>)
    ensures
        spec_pending_work(checks@) matches Ok(b) ==> r == Ok::<bool, SdkError>(b),
        spec_pending_work(checks@) is Err ==> (r matches Err(e) && exists|i: int| first_unreadable(checks@, i)
            && (checks@[i] matches Err(c) && e.spec_kind() == c.spec_kind() && e.spec_detail() == c.spec_detail())),
{
    let mut found = false;
    let mut i: usize = 0;
    while i < checks.len()
        invariant
            i <= checks@.len(),
            forall|j: int| 0 <= j < i ==> (#[trigger] checks@[j]) is Ok,
            found == exists|j: int| 0 <= j < i && #[trigger] checks@[j] == Ok::<bool, SdkError>(true),
        decreases checks@.len() - i,
    {
        match &checks[i] {
            Err(e) => {
                proof {
                    assert(first_unreadable(checks@, i as int));
                    assert(checks@[i as int] is Err);
                }
                return Err(e.duplicate());
            },
            Ok(b) => {
                if *b {
                    found = true;
                }
            },
        }
        i = i + 1;
    }
    proof {
        assert(!exists|j: int| 0 <= j < checks@.len() && (#[trigger] checks@[j]) is Err);
    }
    Ok(found)
}

/// Lifecycle-driven stop (app backgrounded): `Ok(true)` when the poller was
/// stopped; `Ok(false)` when settlement work is outstanding; the error when the
/// settlement state cannot be read — and then the poller is not stopped either.
pub fn stop_poller_for_lifecycle(state: &mut PollerState, pending: Result<bool, SdkError>) -> (r: Result<bool, SdkError>)
    ensures
        pending is Err ==> r is Err && *final(state) == *old(state),
        pending == Ok::<bool, SdkError>(true) ==> r == Ok::<bool, SdkError>(false) && *final(state) == *old(state),
        pending == Ok::<bool, SdkError>(false) ==> r == Ok::<bool, SdkError>(true) && final(state).stop
            && final(state).running == old(state).running,
{
    match pending {
        Err(e) => Err(e),
        Ok(true) => Ok(false),
        Ok(false) => {
            let _ = state.stop_poller();
            Ok(true)
        },
    }
}

/// The wait before the next cycle and the eager cycles left, after a cycle
/// that processed `processed` items with settlement work `pending` (an
/// unreadable settlement state keeps the settlement cadence).
pub open spec fn spec_next_poll(processed: u32, pending: bool, eager_remaining: u32) -> (u64, u32) {
    let eager = if processed > 0 {
        EAGER_POLL_CYCLES
    } else if eager_remaining > 0 {
        (eager_remaining - 1) as u32
    } else {
        0
    };
    let interval = if pending {
        PENDING_GATE_POLL_INTERVAL_MS
    } else if eager > 0 {
        EAGER_POLL_INTERVAL_MS
    } else {
        DEFAULT_POLL_INTERVAL_MS
    };
    (interval, eager)
}

/// One step of the poll loop's cadence.
pub fn next_poll(processed: u32, pending: &Result<bool, SdkError>, eager_remaining: u32) -> (r: (u64, u32))
    ensures
        r == spec_next_poll(processed, match pending {
            Ok(p) => *p,
            Err(_) => true,
        }, eager_remaining),
{
    let pending_gate_active = match pending {
        Ok(p) => *p,
        Err(_) => true,
    };
    let eager = if processed > 0 {
        EAGER_POLL_CYCLES
    } else if eager_remaining > 0 {
        eager_remaining - 1
    } else {
        0
    };
    let interval = if pending_gate_active {
        PENDING_GATE_POLL_INTERVAL_MS
    } else if eager > 0 {
        EAGER_POLL_INTERVAL_MS
    } else {
        DEFAULT_POLL_INTERVAL_MS
    };
    (interval, eager)
}

/// What the host posts to the WebView after a sync cycle: `inbox.updated`
/// with the counts, and a wallet refresh when items were processed.
#[derive(Debug, Clone, Copy, PartialEq, Eq, Structural)]
pub struct InboxEvents {
    pub pulled: u32,
    pub processed: u32,
    pub refresh_wallet: bool,
}

/// The events a completed sync cycle announces.
pub fn push_inbox_event_to_webview(pulled: u32, processed: u32) -> (r: InboxEvents)
    ensures
        r.pulled == pulled,
        r.processed == processed,
        r.refresh_wallet == (processed > 0),
{
    InboxEvents { pulled, processed, refresh_wallet: processed > 0 }
}

/// Settlement work always polls at the settlement cadence, and the cadence
/// never waits longer than the default interval.
pub proof fn lemma_settlement_work_keeps_the_fast_cadence(processed: u32, eager_remaining: u32)
    ensures
        spec_next_poll(processed, true, eager_remaining).0 == PENDING_GATE_POLL_INTERVAL_MS,
        spec_next_poll(processed, false, eager_remaining).0 <= DEFAULT_POLL_INTERVAL_MS,
        processed > 0 ==> spec_next_poll(processed, false, eager_remaining) == (EAGER_POLL_INTERVAL_MS, EAGER_POLL_CYCLES),
{
}

/// A cycle that processed items enters a full eager burst whether or not
/// settlement work is pending (or unreadable); a cycle that processed none
/// spends one cycle of the burst. So once settlement work clears, the burst
/// a busy cycle entered still runs at the eager interval.
pub proof fn lemma_processing_enters_the_eager_burst(processed: u32, pending: bool, eager_remaining: u32)
    ensures
        processed > 0 ==> spec_next_poll(processed, pending, eager_remaining).1 == EAGER_POLL_CYCLES,
        processed == 0 ==> spec_next_poll(processed, pending, eager_remaining).1 == if eager_remaining > 0 {
            eager_remaining - 1
        } else {
            0
        },
        processed > 0 ==> spec_next_poll(0, false, spec_next_poll(processed, pending, eager_remaining).1) == (
            EAGER_POLL_INTERVAL_MS,
            (EAGER_POLL_CYCLES - 1) as u32,
        ),
        pending ==> spec_next_poll(processed, pending, eager_remaining).0 == PENDING_GATE_POLL_INTERVAL_MS,
        !pending ==> spec_next_poll(processed, pending, eager_remaining).0 == if spec_next_poll(
            processed,
            pending,
            eager_remaining,
        ).1 > 0 {
            EAGER_POLL_INTERVAL_MS
        } else {
            DEFAULT_POLL_INTERVAL_MS
        },
{
}

/// An eager burst, all its cycles together, is shorter than two default waits.
pub proof fn lemma_eager_burst_is_bounded()
    ensures
        EAGER_POLL_INTERVAL_MS * (EAGER_POLL_CYCLES as u64) < DEFAULT_POLL_INTERVAL_MS * 2,
{
}

} // verus!
