//! The session that queries are planned and run in.

use crate::text::decimal;
use datafusion::common::DataFusionError;
use datafusion::prelude::SessionConfig;
use vstd::prelude::*;

verus! {

/// `datafusion::prelude::SessionConfig`: the options of a session.
#[verifier::external_type_specification]
#[verifier::external_body]
pub struct ExSessionConfig(SessionConfig);

/// The options that a session config holds: the value that `ConfigOptions::entries` lists under
/// each key that starts with `datafusion.`, as text, or `None` where the option is not set.
pub uninterp spec fn config_options(config: SessionConfig) -> Map<Seq<char>, Option<Seq<char>>>;

/// The key of the number of rows in a batch.
pub open spec fn batch_size_key() -> Seq<char> {
    "datafusion.execution.batch_size"@
}

/// The key of the number of partitions that queries are run with.
pub open spec fn target_partitions_key() -> Seq<char> {
    "datafusion.execution.target_partitions"@
}

/// `SessionConfig::from_env`: the config that the environment asks for, or an error where it asks
/// for a value that an option cannot have. It depends on the environment, so that nothing is said
/// of it here.
pub assume_specification[ SessionConfig::from_env ]() -> (r: Result<
    SessionConfig,
    DataFusionError,
>)
;

/// `SessionConfig::with_batch_size`: sets the number of rows in a batch and leaves every other
/// option as it is. It panics on 0.
pub assume_specification[ SessionConfig::with_batch_size ](config: SessionConfig, n: usize) -> (r:
    SessionConfig)
    requires
        n > 0,
    ensures
        config_options(r) == config_options(config).insert(
            batch_size_key(),
            Some(decimal(n as nat)),
        ),
;

/// The options with the number of partitions set to `n`.
pub open spec fn with_partitions(
    options: Map<Seq<char>, Option<Seq<char>>>,
    n: usize,
) -> Map<Seq<char>, Option<Seq<char>>> {
    options.insert(target_partitions_key(), Some(decimal(n as nat)))
}

/// `after` are the options of `before` with the number of partitions set to one that is not 0.
pub open spec fn with_some_partitions(
    before: Map<Seq<char>, Option<Seq<char>>>,
    after: Map<Seq<char>, Option<Seq<char>>>,
) -> bool {
    exists|n: usize| n >= 1 && after == #[trigger] with_partitions(before, n)
}

/// `SessionConfig::with_target_partitions`: sets the number of partitions that queries are run
/// with and leaves every other option as it is. In place of 0 it sets the number of threads that
/// the machine can run at once, which is not 0.
pub assume_specification[ SessionConfig::with_target_partitions ](
    config: SessionConfig,
    n: usize,
) -> (r: SessionConfig)
    ensures
        n > 0 ==> config_options(r) == with_partitions(config_options(config), n),
        n == 0 ==> with_some_partitions(config_options(config), config_options(r)),
;

} // verus!
