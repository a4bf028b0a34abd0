//! What a scan is configured with, and the errors that stop it before it starts.

use vstd::prelude::*;

verus! {

/// A fault in what the scan was asked to do. It is found before any probe
/// starts and aborts the whole scan.
#[derive(Clone, Copy, Debug, PartialEq, Eq, Structural)]
pub enum ConfigError {
    /// A port is not a decimal integer between 0 and 65535.
    UnparsablePort,
    /// A port range starts above its end.
    InvalidPortRange,
    /// The address is not one that the transport can connect to.
    UnparsableAddress,
    /// The word list could not be read.
    UnreadableWordlist,
    /// The concurrency limit is zero.
    ZeroConcurrency,
}

/// The number of probes allowed in flight where none is asked for.
pub const DEFAULT_CONCURRENCY: usize = 10;

/// The time a single probe may take where none is asked for, in milliseconds.
pub const DEFAULT_TIMEOUT_MS: u64 = 1000;

/// The limits of one scan. The concurrency limit is never zero.
#[derive(Clone, Copy, Debug)]
pub struct ScanConfig {
    concurrency_limit: usize,
    per_probe_timeout_ms: u64,
}

impl ScanConfig {
    #[verifier::type_invariant]
    spec fn positive_limit(self) -> bool {
        self.concurrency_limit >= 1
    }

    /// The largest number of probes that may be in flight at once.
    pub closed spec fn limit(self) -> nat {
        self.concurrency_limit as nat
    }

    /// The time one probe may take, in milliseconds.
    pub closed spec fn timeout_ms(self) -> nat {
        self.per_probe_timeout_ms as nat
    }

    /// A configuration with the given limits. A limit of zero probes in flight
    /// is refused, since no scan could make progress under it.
    pub fn new(concurrency_limit: usize, per_probe_timeout_ms: u64) -> (made: Result<
        ScanConfig,
        ConfigError,
    >)
        ensures
            concurrency_limit == 0 ==> made == Err::<ScanConfig, ConfigError>(
                ConfigError::ZeroConcurrency,
            ),
            concurrency_limit > 0 ==> made is Ok && made->Ok_0.limit() == concurrency_limit
                && made->Ok_0.timeout_ms() == per_probe_timeout_ms,
    {
        if concurrency_limit == 0 {
            Err(ConfigError::ZeroConcurrency)
        } else {
            Ok(ScanConfig { concurrency_limit, per_probe_timeout_ms })
        }
    }

    /// The configuration used where the caller asks for nothing else.
    pub fn standard() -> (made: ScanConfig)
        ensures
            made.limit() == DEFAULT_CONCURRENCY,
            made.timeout_ms() == DEFAULT_TIMEOUT_MS,
    {
        ScanConfig {
            concurrency_limit: DEFAULT_CONCURRENCY,
            per_probe_timeout_ms: DEFAULT_TIMEOUT_MS,
        }
    }

    /// The largest number of probes that may be in flight at once.
    pub fn concurrency_limit(&self) -> (limit: usize)
        ensures
            limit == self.limit(),
            limit >= 1,
    {
        proof {
            use_type_invariant(self);
        }
        self.concurrency_limit
    }

    /// The time one probe may take, in milliseconds.
    pub fn per_probe_timeout_ms(&self) -> (timeout: u64)
        ensures
            timeout == self.timeout_ms(),
    {
        self.per_probe_timeout_ms
    }
}

} // verus!
