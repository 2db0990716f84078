//! The horizon of a run: how many blocks it is to produce.

use vstd::prelude::*;

verus! {

/// Blocks produced in one day.
pub const BLOCKS_PER_DAY: u64 = 7200;

/// Why the horizon inputs do not name one block count.
#[derive(Clone, Copy, Debug, PartialEq, Eq)]
pub enum ConfigError {
    /// A block count and a day count were both given.
    AmbiguousHorizon,
    /// Neither a block count nor a day count was given.
    MissingHorizon,
}

impl ConfigError {
    /// The text shown to the user for this error.
    pub fn message(&self) -> (text: String)
        ensures
            *self == ConfigError::AmbiguousHorizon ==> text@ == "ambiguous horizon"@,
            *self == ConfigError::MissingHorizon ==> text@ == "missing horizon"@,
    {
        match self {
            ConfigError::AmbiguousHorizon => "ambiguous horizon".to_string(),
            ConfigError::MissingHorizon => "missing horizon".to_string(),
        }
    }
}

/// The block count that the two horizon inputs name: the block count itself,
/// or the day count times [`BLOCKS_PER_DAY`]; an error unless exactly one of
/// the two is given.
pub open spec fn horizon_of(blocks: Option<u64>, days: Option<u64>) -> Result<int, ConfigError> {
    match (blocks, days) {
        (Some(b), None) => Ok(b as int),
        (None, Some(d)) => Ok(d * BLOCKS_PER_DAY),
        (Some(_), Some(_)) => Err(ConfigError::AmbiguousHorizon),
        (None, None) => Err(ConfigError::MissingHorizon),
    }
}

/// Whether the horizon that the inputs name can be held in a `u64`.
pub open spec fn horizon_fits(blocks: Option<u64>, days: Option<u64>) -> bool {
    horizon_of(blocks, days) matches Ok(n) ==> n <= u64::MAX
}

/// Resolves the horizon inputs to one block count.
///
/// Exactly one of `blocks` and `days` must be given; a day count stands for
/// `days * 7200` blocks, multiplied exactly.
pub fn resolve_horizon(blocks: Option<u64>, days: Option<u64>) -> (horizon: Result<
    u64,
    ConfigError,
>)
    requires
        horizon_fits(blocks, days),
    ensures
        match horizon_of(blocks, days) {
            Ok(n) => horizon == Ok::<u64, ConfigError>(n as u64),
            Err(e) => horizon == Err::<u64, ConfigError>(e),
        },
        blocks is None && days is Some ==> horizon is Ok && horizon->Ok_0 == days->0 * 7200,
        blocks is Some && days is Some ==> horizon == Err::<u64, ConfigError>(
            ConfigError::AmbiguousHorizon,
        ),
        blocks is None && days is None ==> horizon == Err::<u64, ConfigError>(
            ConfigError::MissingHorizon,
        ),
{
    match (blocks, days) {
        (Some(b), None) => Ok(b),
        (None, Some(d)) => Ok(d * BLOCKS_PER_DAY),
        (Some(_), Some(_)) => Err(ConfigError::AmbiguousHorizon),
        (None, None) => Err(ConfigError::MissingHorizon),
    }
}

} // verus!
