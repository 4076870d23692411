# grpc_lb

Client-side load balancing for gRPC channels, verified with Verus.

- `src/pick_first*.rs`, `src/address_*.rs`, `src/state_cache.rs`,
  `src/lb_types.rs`, `src/name_resolution.rs`: the `pick_first` policy as a state
  machine. `pick_first_spec.rs` says what every input leads to,
  `pick_first.rs` and `pick_first_resolver.rs` do it, and `pick_first_laws.rs`
  and `address_laws.rs` state what holds of it in general.
- `src/outlier_*.rs`, `src/channel_state.rs`, `src/endpoint_pool.rs`,
  `src/config_cell.rs`, `src/time.rs`: outlier detection by failure percentage.
  `outlier_spec.rs` says what a sweep does, and `outlier_laws.rs` what holds of
  every sweep.
- `src/protoc_paths.rs`: where the build puts `protoc` and its gRPC plugin.
- `app/`: tasks, timers, locks and broadcasts around the library.
- `tests/`: runs the library on concrete values.

What is not proved is what the functions marked `external_body` say of `dashmap`,
`arc-swap`, `fastrand`, `rand` and the system's clock, and what is assumed of
`String::push`. Each says so in its comment.
