//! Choosing the seed of a compilation.
//!
//! A seed given on the command line wins, then one from the source header,
//! then one kept for the session; failing all three, the clock supplies it.

use vstd::prelude::*;
use std::time::{Duration, SystemTime, SystemTimeError};

verus! {

/// The system clock's time type.
#[verifier::external_type_specification]
#[verifier::external_body]
pub struct ExSystemTime(SystemTime);

/// The error `SystemTime::duration_since` gives for a time before the reference.
#[verifier::external_type_specification]
#[verifier::external_body]
pub struct ExSystemTimeError(SystemTimeError);

/// Calls `SystemTime::now`. Nothing is claimed of the time it returns.
#[verifier::external_body]
fn system_time_now() -> (r: SystemTime) {
    SystemTime::now()
}

/// Calls `SystemTime::duration_since` with `UNIX_EPOCH`. Nothing is claimed
/// of the result, which depends on the clock reading `t`.
#[verifier::external_body]
fn since_unix_epoch(t: &SystemTime) -> (r: Result<Duration, SystemTimeError>) {
    t.duration_since(std::time::UNIX_EPOCH)
}

/// Calls `Duration::as_nanos`. Nothing is claimed of the count, as the
/// duration's contents are not modelled.
#[verifier::external_body]
fn duration_as_nanos(d: &Duration) -> (r: u128) {
    d.as_nanos()
}

/// The seed used when the clock reads before the Unix epoch.
pub const CLOCK_FALLBACK_SEED: u64 = 0x517cc1b727220a95;

/// The seed chosen from the command line's, the header's and the session's
/// seeds, in that order of precedence, else from the clock: its nanoseconds
/// since the Unix epoch (the low 64 bits), or a fixed seed when the clock
/// reads before the epoch (`clock_nanos` is `None`).
pub open spec fn spec_seed(
    header_seed: Option<u64>,
    cli_seed: Option<u64>,
    session_seed: Option<u64>,
    clock_nanos: Option<u128>,
) -> u64 {
    match cli_seed {
        Some(s) => s,
        None => match header_seed {
            Some(s) => s,
            None => match session_seed {
                Some(s) => s,
                None => match clock_nanos {
                    Some(n) => n as u64,
                    None => CLOCK_FALLBACK_SEED,
                },
            },
        },
    }
}

/// Choose a seed given the clock reading `clock_nanos` (nanoseconds since
/// the Unix epoch, `None` when the clock reads before it).
pub fn choose_seed(
    header_seed: Option<u64>,
    cli_seed: Option<u64>,
    session_seed: Option<u64>,
    clock_nanos: Option<u128>,
) -> (r: u64)
    ensures
        r == spec_seed(header_seed, cli_seed, session_seed, clock_nanos),
{
    match cli_seed {
        Some(s) => s,
        None => match header_seed {
            Some(s) => s,
            None => match session_seed {
                Some(s) => s,
                None => match clock_nanos {
                    Some(n) => n as u64,
                    None => CLOCK_FALLBACK_SEED,
                },
            },
        },
    }
}

/// Resolve the seed of a compilation: `--seed` wins, then `@seed`, then the
/// session's seed, then the clock.
pub fn resolve_seed(header_seed: Option<u64>, cli_seed: Option<u64>, session_seed: Option<u64>) -> (r:
    u64)
    ensures
        cli_seed is Some || header_seed is Some || session_seed is Some ==> r == spec_seed(
            header_seed,
            cli_seed,
            session_seed,
            None,
        ),
        exists|clock: Option<u128>| r == spec_seed(header_seed, cli_seed, session_seed, clock),
{
    let clock = if cli_seed.is_some() || header_seed.is_some() || session_seed.is_some() {
        None
    } else {
        let now = system_time_now();
        match since_unix_epoch(&now) {
            Ok(d) => Some(duration_as_nanos(&d)),
            Err(_) => None,
        }
    };
    choose_seed(header_seed, cli_seed, session_seed, clock)
}

} // verus!
