//! Client-side load balancing for gRPC channels: the `pick_first` policy as a
//! state machine over plain values, outlier detection for endpoint pools, and
//! the locations of the `protoc` executables.

pub mod address_laws;
pub mod address_list;
pub mod address_order_laws;
pub mod channel_state;
pub mod config_cell;
pub mod endpoint_pool;
pub mod lb_types;
pub mod name_resolution;
pub mod outlier_channel_laws;
pub mod outlier_config;
pub mod outlier_detection;
pub mod outlier_laws;
pub mod outlier_lemmas;
pub mod outlier_spec;
pub mod outlier_sweep_laws;
pub mod pick_first;
pub mod pick_first_laws;
pub mod pick_first_lemmas;
pub mod pick_first_pass_laws;
pub mod pick_first_report_laws;
pub mod pick_first_resolver;
pub mod pick_first_spec;
pub mod protoc_paths;
pub mod state_cache;
pub mod time;
