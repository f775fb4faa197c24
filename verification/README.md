# rpc_provider

Health tracking and failover ordering for a pool of Soroban RPC endpoints,
verified with Verus.

- `src/` is the verified library.
  - `stats`: the moving average of one provider's round-trip times.
  - `health`: the circuit breaker and the state of one provider.
  - `pool`: the registry as a mathematical value, on which the contracts rest.
  - `registry`: the registry itself.
  - `probe`: what a health probe sends and what its reply means.
  - `clock`: readings of the monotonic clock.
  - `stats_laws`, `pool_laws`: what holds over several operations.
- `tests/` runs the library on concrete values.
- `app/` is the service around it: configuration, locking, logging, HTTP, and the
  background health checker.
