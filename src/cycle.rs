use vstd::prelude::*;

verus! {

/// The shortest refresh interval accepted, in milliseconds.
pub const MIN_REFRESH_MILLIS: u64 = 1_000;

/// A configuration the refresh loop cannot start with.
#[derive(Debug, Clone, Copy, PartialEq, Eq, Structural)]
pub enum ConfigError {
    /// The refresh interval is below `MIN_REFRESH_MILLIS`.
    RefreshTooShort,
    /// The host reported no logical CPUs.
    NoCpus,
}

/// Checks the settings before the loop starts: the refresh interval, in
/// milliseconds, and the host's logical CPU count.
pub fn check_settings(refresh_millis: u64, cores: u32) -> (r: Result<(), ConfigError>)
    ensures
        refresh_millis < MIN_REFRESH_MILLIS ==> r == Err::<(), ConfigError>(
            ConfigError::RefreshTooShort,
        ),
        refresh_millis >= MIN_REFRESH_MILLIS && cores == 0 ==> r == Err::<(), ConfigError>(
            ConfigError::NoCpus,
        ),
        refresh_millis >= MIN_REFRESH_MILLIS && cores > 0 ==> r is Ok,
{
    if refresh_millis < MIN_REFRESH_MILLIS {
        Err(ConfigError::RefreshTooShort)
    } else if cores == 0 {
        Err(ConfigError::NoCpus)
    } else {
        Ok(())
    }
}

/// Where the refresh loop stands.
#[derive(Debug, Clone, Copy, PartialEq, Eq, Structural)]
pub enum Phase {
    /// Taking the terminal and arming the shutdown flag.
    Starting,
    /// Taking the first snapshot of a tick.
    Sampling,
    /// Sleeping one refresh interval, then taking the second snapshot.
    Waiting,
    /// Deriving, filtering, ranking and drawing the table.
    Rendering,
    /// Giving the terminal back.
    Stopping,
    /// Done.
    Stopped,
}

/// The phase after `phase`. Shutdown is looked at once per tick, after the
/// table is drawn, so a tick in progress always completes.
pub open spec fn next_phase(phase: Phase, shutdown_requested: bool) -> Phase {
    match phase {
        Phase::Starting => Phase::Sampling,
        Phase::Sampling => Phase::Waiting,
        Phase::Waiting => Phase::Rendering,
        Phase::Rendering => if shutdown_requested {
            Phase::Stopping
        } else {
            Phase::Sampling
        },
        Phase::Stopping => Phase::Stopped,
        Phase::Stopped => Phase::Stopped,
    }
}

/// Moves the refresh loop on by one phase; `shutdown_requested` is the flag
/// as the loop reads it now.
pub fn step(phase: Phase, shutdown_requested: bool) -> (r: Phase)
    ensures
        r == next_phase(phase, shutdown_requested),
{
    match phase {
        Phase::Starting => Phase::Sampling,
        Phase::Sampling => Phase::Waiting,
        Phase::Waiting => Phase::Rendering,
        Phase::Rendering => if shutdown_requested {
            Phase::Stopping
        } else {
            Phase::Sampling
        },
        Phase::Stopping => Phase::Stopped,
        Phase::Stopped => Phase::Stopped,
    }
}

/// Once shutdown is requested, the loop reaches `Stopped` within one full
/// tick, passing through `Stopping` to give the terminal back.
pub proof fn law_shutdown_within_one_tick(phase: Phase)
    ensures
        next_phase(
            next_phase(next_phase(next_phase(next_phase(phase, true), true), true), true),
            true,
        ) == Phase::Stopped,
        phase != Phase::Stopped && phase != Phase::Stopping ==> exists|n: nat|
            n <= 4 && #[trigger] phase_after(phase, n) == Phase::Stopping,
{
    reveal_with_fuel(phase_after, 5);
    if phase != Phase::Stopped && phase != Phase::Stopping {
        match phase {
            Phase::Starting => assert(phase_after(phase, 4) == Phase::Stopping),
            Phase::Sampling => assert(phase_after(phase, 3) == Phase::Stopping),
            Phase::Waiting => assert(phase_after(phase, 2) == Phase::Stopping),
            Phase::Rendering => assert(phase_after(phase, 1) == Phase::Stopping),
            _ => {},
        }
    }
}

/// The phase `n` steps after `phase`, with shutdown requested throughout.
pub open spec fn phase_after(phase: Phase, n: nat) -> Phase
    decreases n,
{
    if n == 0 {
        phase
    } else {
        phase_after(next_phase(phase, true), (n - 1) as nat)
    }
}

} // verus!
