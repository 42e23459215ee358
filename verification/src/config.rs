//! The already-validated configuration the engine consumes: the endpoints to
//! probe, the probing cadence and timeout, and the concurrency cap.  Reading
//! and deserializing a configuration file is the caller's concern; this
//! module only fixes the shape of the value and the choice of file format.

use vstd::prelude::*;

use vstd::string::StrSliceExecFns;

verus! {

/// One monitored endpoint as configured.
#[derive(Debug)]
pub struct Target {
    /// The URL to probe; endpoint identifier within the aggregate.
    pub url: String,
    /// Acceptable latency budget for this endpoint, in milliseconds.
    pub acceptable_latency_ms: u64,
}

/// The full engine configuration.
#[derive(Debug)]
pub struct Config {
    /// Seconds between two ticks.
    pub interval_seconds: u64,
    /// Seconds a single probe may take before it counts as failed.
    pub timeout_seconds: u64,
    /// Greatest number of probes allowed in flight at once.
    pub max_concurrency: usize,
    /// The endpoints to probe each tick.
    pub targets: Vec<Target>,
}

/// Latency budget applied to a target whose configuration names none, and to
/// a history created lazily for an endpoint that no target names.
pub open spec fn spec_default_latency() -> u64 {
    1000
}

/// The default latency budget, in milliseconds.
pub fn default_latency() -> (r: u64)
    ensures
        r == spec_default_latency(),
{
    1000
}

/// Configuration file formats told apart by the file name's suffix.
#[derive(Clone, Copy, Debug, PartialEq, Eq, Structural)]
pub enum ConfigFormat {
    Toml,
    Yaml,
    Unsupported,
}

/// Whether `s` ends with the suffix `p`.
pub open spec fn spec_ends_with(s: Seq<char>, p: Seq<char>) -> bool {
    s.len() >= p.len() && s.subrange(s.len() - p.len(), s.len() as int) == p
}

/// Suffix test over characters.
pub fn str_ends_with(s: &str, p: &str) -> (r: bool)
    ensures
        r == spec_ends_with(s@, p@),
{
    let n = s.unicode_len();
    let m = p.unicode_len();
    if n < m {
        assert(!spec_ends_with(s@, p@));
        return false;
    }
    let mut k: usize = 0;
    while k < m
        invariant
            k <= m <= n,
            n == s@.len(),
            m == p@.len(),
            forall|j: int| 0 <= j < k ==> s@[n - m + j] == p@[j],
        decreases m - k,
    {
        if s.get_char(n - m + k) != p.get_char(k) {
            assert(s@.subrange(n - m, n as int)[k as int] != p@[k as int]);
            return false;
        }
        k = k + 1;
    }
    assert(s@.subrange(n - m, n as int) =~= p@);
    true
}

/// The file format the original loader would pick for this path: TOML for
/// `.toml`, YAML for `.yaml` or `.yml`, and unsupported otherwise.
pub open spec fn spec_config_format(path: Seq<char>) -> ConfigFormat {
    if spec_ends_with(path, ".toml"@) {
        ConfigFormat::Toml
    } else if spec_ends_with(path, ".yaml"@) || spec_ends_with(path, ".yml"@) {
        ConfigFormat::Yaml
    } else {
        ConfigFormat::Unsupported
    }
}

/// Decides which deserializer a configuration file path calls for.
pub fn config_format(path: &str) -> (r: ConfigFormat)
    ensures
        r == spec_config_format(path@),
{
    if str_ends_with(path, ".toml") {
        ConfigFormat::Toml
    } else if str_ends_with(path, ".yaml") || str_ends_with(path, ".yml") {
        ConfigFormat::Yaml
    } else {
        ConfigFormat::Unsupported
    }
}

} // verus!
