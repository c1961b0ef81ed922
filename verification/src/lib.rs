pub mod aggregator_config;
pub mod bpf_types;
pub mod clock;
pub mod config;
pub mod convert;
pub mod files;
pub mod http_config;
pub mod pb;
pub mod rates;
pub mod routes;
pub mod snapshot;
pub mod stream;
pub mod text;
pub mod text_order;
