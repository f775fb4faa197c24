//! Health tracking and failover ordering for a pool of Soroban RPC endpoints.
//!
//! A [`ProviderRegistry`] holds a prioritized list of endpoints. Each one has a
//! circuit breaker, which takes it out of the pool for a while after repeated
//! failures, and latency statistics, which decide the order in which healthy
//! endpoints are tried.
//!
//! The contracts speak of the registry as a [`pool::PoolView`] and of the
//! statistics as a [`stats::StatsView`]. `pool_behaviour`, `stats_behaviour` and
//! `probe_behaviour` state what each operation does, `pool_laws` and `stats_laws`
//! what holds over several of them, and `result_laws` and `effect_laws` what the
//! functions give back and leave behind.
mod clock;
pub mod effect_laws;
pub mod health;
pub mod pool;
pub mod pool_behaviour;
pub mod pool_laws;
pub mod probe;
pub mod probe_behaviour;
pub mod provider;
pub mod registry;
pub mod result_laws;
pub mod stats;
pub mod stats_behaviour;
pub mod stats_laws;

pub use crate::health::{FailureNote, CIRCUIT_BREAKER_COOLDOWN_NANOS, CIRCUIT_BREAKER_THRESHOLD};
pub use crate::probe::{
    check_status, ledger_from_sequence, parse_ledger, probe_body, ProbeError, ProbeRequest,
    HEALTH_CHECK_TIMEOUT_SECS,
};
pub use crate::provider::RpcProvider;
pub use crate::registry::{HealthStep, ProviderRegistry, ProviderStatsSnapshot};
pub use crate::stats::{ProviderStats, MIN_SAMPLES_FOR_EMA};
