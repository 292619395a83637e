//! The run's configuration: the collection name prefix, the grouping
//! precision in thousandths of a percent point, and the minimum no-modifier
//! star rating in thousandths of a star.

use vstd::prelude::*;

verus! {

/// Why a configuration is rejected.
#[derive(Clone, Copy, PartialEq, Eq, Structural, Debug)]
pub enum ConfigError {
    /// The grouping precision must be positive.
    ZeroPrecision,
}

#[derive(Debug)]
pub struct Config {
    /// Prefix of every generated collection name; collections carrying it
    /// are replaced on the next run.
    pub collection_prefix: String,
    /// The multiples the aim percentage is grouped by, in thousandths of a
    /// percent point. Must be positive.
    pub ratio_precision_milli: u32,
    /// Maps rated below this take no part in classification, in thousandths
    /// of a star.
    pub min_star_milli: u32,
}

impl Config {
    pub open spec fn wf(self) -> bool {
        self.ratio_precision_milli > 0
    }

    /// Validates and builds a configuration: a zero grouping precision is
    /// rejected, everything else is accepted as given.
    pub fn new(collection_prefix: String, ratio_precision_milli: u32, min_star_milli: u32) -> (r:
        Result<Config, ConfigError>)
        ensures
            ratio_precision_milli > 0 ==> (r matches Ok(c) && c == (Config {
                collection_prefix,
                ratio_precision_milli,
                min_star_milli,
            }) && c.wf()),
            ratio_precision_milli == 0 ==> r == Err::<Config, ConfigError>(
                ConfigError::ZeroPrecision,
            ),
    {
        if ratio_precision_milli == 0 {
            Err(ConfigError::ZeroPrecision)
        } else {
            Ok(Config { collection_prefix, ratio_precision_milli, min_star_milli })
        }
    }
}

} // verus!
