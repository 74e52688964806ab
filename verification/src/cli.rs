//! The command-line surface: the accepted flags and the rule that
//! rejects contradictory combinations before sampling begins.

use vstd::prelude::*;

verus! {

/// The accepted command-line options.
#[derive(Debug)]
pub struct CliArgs {
    /// Live mode: updates output in place.
    pub live: bool,
    /// Log mode: prints a new line every update.
    pub log: bool,
    /// Update interval in seconds.
    pub interval: u64,
}

/// Why a combination of command-line flags is rejected.
#[derive(Debug, PartialEq, Eq, Structural)]
pub enum CliError {
    /// `live` and `log` are mutually exclusive.
    ConflictingModes,
}

impl CliArgs {
    /// Validates raw flag values: `live` and `log` are mutually
    /// exclusive, every other combination is accepted as given.
    pub fn new(live: bool, log: bool, interval: u64) -> (r: Result<CliArgs, CliError>)
        ensures
            !(live && log) ==> (r matches Ok(a) && a.live == live && a.log == log && a.interval
                == interval),
            (live && log) ==> (r matches Err(e) && e == CliError::ConflictingModes),
    {
        if live && log {
            Err(CliError::ConflictingModes)
        } else {
            Ok(CliArgs { live, log, interval })
        }
    }

    /// A single one-shot sample is taken exactly when neither mode
    /// flag is given.
    pub fn one_shot(&self) -> (r: bool)
        ensures
            r == (!self.live && !self.log),
    {
        !self.live && !self.log
    }
}

} // verus!
