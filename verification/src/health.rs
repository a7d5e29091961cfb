//! Database availability: the shared state the request gate reads and the
//! background prober's schedule for keeping it current.

use vstd::prelude::*;

verus! {

/// Current view of database availability.
#[derive(Debug, PartialEq, Eq)]
pub enum HealthState {
    /// The database is reachable and the schema is present.
    Healthy,
    /// The database is unreachable or its schema is broken or incomplete.
    Unavailable {
        /// When the outage was first observed, microseconds since the epoch.
        since: i64,
        /// The most recent error message, for diagnostics.
        last_error: String,
    },
}

impl HealthState {
    /// A copy of this state.
    pub fn duplicate(&self) -> (r: Self)
        ensures
            r == *self,
    {
        match self {
            HealthState::Healthy => HealthState::Healthy,
            HealthState::Unavailable { since, last_error } => HealthState::Unavailable {
                since: *since,
                last_error: last_error.clone(),
            },
        }
    }
}

/// Database availability as last observed.
pub struct DbHealth {
    state: HealthState,
}

impl Default for DbHealth {
    /// Availability starts out healthy.
    fn default() -> (h: Self)
        ensures
            h@ == HealthState::Healthy,
    {
        DbHealth::new()
    }
}

impl View for DbHealth {
    type V = HealthState;

    closed spec fn view(&self) -> HealthState {
        self.state
    }
}

impl DbHealth {
    /// Availability starts out healthy.
    pub fn new() -> (h: Self)
        ensures
            h@ == HealthState::Healthy,
    {
        DbHealth { state: HealthState::Healthy }
    }

    /// Whether the database is currently considered healthy.
    pub fn is_healthy(&self) -> (r: bool)
        ensures
            r == (self@ is Healthy),
    {
        match &self.state {
            HealthState::Healthy => true,
            HealthState::Unavailable { .. } => false,
        }
    }

    /// A snapshot of the current state, for the health endpoint.
    pub fn snapshot(&self) -> (r: HealthState)
        ensures
            r == self@,
    {
        self.state.duplicate()
    }

    /// Mark the database healthy. Returns whether this was a recovery (the
    /// moment worth logging).
    pub fn mark_healthy(&mut self) -> (recovered: bool)
        ensures
            final(self)@ == HealthState::Healthy,
            recovered == !(old(self)@ is Healthy),
    {
        let recovered = !self.is_healthy();
        self.state = HealthState::Healthy;
        recovered
    }

    /// Mark the database unavailable as of `now`. The original `since` is
    /// kept across repeated reports; only the latest error is replaced.
    /// Returns whether this started an outage (the moment worth logging).
    pub fn mark_unavailable(&mut self, error: String, now: i64) -> (started: bool)
        ensures
            started == (old(self)@ is Healthy),
            final(self)@ == (match old(self)@ {
                HealthState::Healthy => HealthState::Unavailable { since: now, last_error: error },
                HealthState::Unavailable { since, .. } => HealthState::Unavailable {
                    since,
                    last_error: error,
                },
            }),
    {
        match &self.state {
            HealthState::Healthy => {
                self.state = HealthState::Unavailable { since: now, last_error: error };
                true
            },
            HealthState::Unavailable { since, .. } => {
                let since = *since;
                self.state = HealthState::Unavailable { since, last_error: error };
                false
            },
        }
    }
}

/// Routine re-check cadence while healthy, in seconds.
pub const HEALTHY_INTERVAL_SECS: u64 = 30;

/// The backoff schedule while unavailable: 1, 5, 15, then 30 seconds.
pub open spec fn backoff_spec(consecutive_failures: nat) -> u64 {
    if consecutive_failures == 0 {
        1
    } else if consecutive_failures == 1 {
        5
    } else if consecutive_failures == 2 {
        15
    } else {
        30
    }
}

/// How long the prober waits before its next check.
#[derive(Clone, Copy, Debug, PartialEq, Eq)]
pub enum ProberWait {
    /// Healthy: sleep this long, or until a request asks for a re-check.
    Routine { secs: u64 },
    /// Unavailable: back off this long.
    Backoff { secs: u64 },
}

/// The prober's decision after one readiness check: the new count of
/// consecutive failures and how long to wait.
pub fn after_probe(consecutive_failures: usize, ready: bool) -> (r: (usize, ProberWait))
    ensures
        ready ==> r == (0usize, (ProberWait::Routine { secs: HEALTHY_INTERVAL_SECS })),
        !ready ==> r.0 == (if consecutive_failures == usize::MAX {
            usize::MAX
        } else {
            (consecutive_failures + 1) as usize
        }) && r.1 == (ProberWait::Backoff { secs: backoff_spec(consecutive_failures as nat) }),
{
    if ready {
        return (0, ProberWait::Routine { secs: HEALTHY_INTERVAL_SECS });
    }
    let idx = if consecutive_failures < 3 {
        consecutive_failures
    } else {
        3
    };
    let secs: u64 = if idx == 0 {
        1
    } else if idx == 1 {
        5
    } else if idx == 2 {
        15
    } else {
        30
    };
    (consecutive_failures.saturating_add(1), ProberWait::Backoff { secs })
}

/// The backoff never shrinks as failures accumulate, and never exceeds the
/// routine interval.
pub proof fn lemma_backoff_monotonic_and_capped(a: nat, b: nat)
    requires
        a <= b,
    ensures
        backoff_spec(a) <= backoff_spec(b),
        backoff_spec(b) <= HEALTHY_INTERVAL_SECS,
{
}

} // verus!
