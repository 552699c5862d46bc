//! The settings of a run.

use vstd::prelude::*;
use crate::bytes::copy_bytes;

verus! {

/// Milliseconds in one centisecond, the unit in which time limits are given.
pub const MILLIS_PER_CENTI: u64 = 10;

/// Time limit, in milliseconds, of an execution that is not to be bounded:
/// the longest that can be said.
pub const UNBOUNDED_MILLIS: u64 = 0xffff_ffff_ffff_ffff;

/// A time limit of `centis` centiseconds, in milliseconds.
pub open spec fn millis_of(centis: u64) -> int {
    centis * MILLIS_PER_CENTI
}

/// Why settings were refused.
#[derive(Debug, Clone, Copy, PartialEq, Eq, Structural)]
pub enum ConfigError {
    /// The time limit, in milliseconds, does not fit in 64 bits.
    TimeLimitTooLong,
    /// No case could ever run: the degree of parallelism is zero.
    NoWorkers,
}

/// Mathematical model of a [`RunConfig`].
pub struct ConfigView {
    /// Time limit of one execution, in milliseconds.
    pub time_limit_millis: u64,
    /// How many cases may be under way at once.
    pub parallelism: usize,
    /// Number of cases of the run.
    pub cases: u64,
    /// Extension of input files.
    pub input_ext: Seq<u8>,
    /// Extension of output files.
    pub output_ext: Seq<u8>,
}

/// The settings of a run. They are made once and only read afterwards.
#[derive(Debug)]
pub struct RunConfig {
    time_limit_millis: u64,
    parallelism: usize,
    cases: u64,
    input_ext: Vec<u8>,
    output_ext: Vec<u8>,
}

impl View for RunConfig {
    type V = ConfigView;

    closed spec fn view(&self) -> ConfigView {
        ConfigView {
            time_limit_millis: self.time_limit_millis,
            parallelism: self.parallelism,
            cases: self.cases,
            input_ext: self.input_ext@,
            output_ext: self.output_ext@,
        }
    }
}

/// The settings that [`RunConfig::new`] makes of its arguments, or why it
/// refuses them. A time limit that is too long is reported first.
pub open spec fn config_of(
    time_limit_centis: u64,
    parallelism: usize,
    cases: u64,
    input_ext: Seq<u8>,
    output_ext: Seq<u8>,
) -> Result<ConfigView, ConfigError> {
    if millis_of(time_limit_centis) > u64::MAX {
        Err(ConfigError::TimeLimitTooLong)
    } else if parallelism == 0 {
        Err(ConfigError::NoWorkers)
    } else {
        Ok(
            ConfigView {
                time_limit_millis: millis_of(time_limit_centis) as u64,
                parallelism,
                cases,
                input_ext,
                output_ext,
            },
        )
    }
}

/// A time limit of `centis` centiseconds in milliseconds, or `None` where
/// that many milliseconds do not fit in 64 bits.
pub fn time_limit_millis(centis: u64) -> (millis: Option<u64>)
    ensures
        millis is Some <==> millis_of(centis) <= u64::MAX,
        millis matches Some(m) ==> m == millis_of(centis),
{
    centis.checked_mul(MILLIS_PER_CENTI)
}

impl RunConfig {
    /// Settings of a run from the parameters of an invocation: the time limit
    /// in centiseconds, the degree of parallelism, the number of cases, and
    /// the extensions of input and output files.
    pub fn new(
        time_limit_centis: u64,
        parallelism: usize,
        cases: u64,
        input_ext: &[u8],
        output_ext: &[u8],
    ) -> (r: Result<RunConfig, ConfigError>)
        ensures
            match r {
                Ok(config) => config_of(
                    time_limit_centis,
                    parallelism,
                    cases,
                    input_ext@,
                    output_ext@,
                ) == Ok::<ConfigView, ConfigError>(config@),
                Err(e) => config_of(time_limit_centis, parallelism, cases, input_ext@, output_ext@)
                    == Err::<ConfigView, ConfigError>(e),
            },
    {
        let time_limit_millis = match time_limit_millis(time_limit_centis) {
            Some(millis) => millis,
            None => {
                return Err(ConfigError::TimeLimitTooLong);
            },
        };
        if parallelism == 0 {
            return Err(ConfigError::NoWorkers);
        }
        Ok(
            RunConfig {
                time_limit_millis,
                parallelism,
                cases,
                input_ext: copy_bytes(input_ext),
                output_ext: copy_bytes(output_ext),
            },
        )
    }

    /// Time limit of one execution, in milliseconds.
    pub fn time_limit_millis(&self) -> (millis: u64)
        ensures
            millis == self@.time_limit_millis,
    {
        self.time_limit_millis
    }

    /// How many cases may be under way at once.
    pub fn parallelism(&self) -> (n: usize)
        ensures
            n == self@.parallelism,
    {
        self.parallelism
    }

    /// Number of cases of the run.
    pub fn cases(&self) -> (n: u64)
        ensures
            n == self@.cases,
    {
        self.cases
    }

    /// Extension of input files.
    pub fn input_ext(&self) -> (ext: &[u8])
        ensures
            ext@ == self@.input_ext,
    {
        self.input_ext.as_slice()
    }

    /// Extension of output files.
    pub fn output_ext(&self) -> (ext: &[u8])
        ensures
            ext@ == self@.output_ext,
    {
        self.output_ext.as_slice()
    }
}

} // verus!
