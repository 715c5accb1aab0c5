//! The core of a tenancy proxy in front of OpenSearch clusters.
//!
//! A client works with logical indices and document ids. The proxy finds the partition
//! a request belongs to, rewrites it for the physical index the partition lives in, and
//! turns the cluster's answer back into the client's view. This crate is everything
//! about that which can be decided from plain values; what talks to the network, to a
//! disk or to a queue stands around it.
//!
//! - [`plan`], [`read`], [`mget`], [`msearch`], [`bulk`] and [`dbq`]: what is sent for a
//!   request, and what is answered.
//! - [`endpoints`], [`admin`], [`passthrough`], [`cursor`] and [`pipeline`]: the decisions
//!   of each endpoint, and those that span endpoints.
//! - [`search_scan`] and [`search_stream`]: the shaping of a search answer while it
//!   flows.
//! - [`asyncwrite`], [`retry`] and [`directives`]: the asynchronous write mode, the retry
//!   policy and the fleet's diagnostics directives.
//! - [`kafka`], [`wal`] and [`wal_drain`]: the traffic capture and its durable buffer.
//! - [`read_laws`], [`scan_laws`] and [`wal_laws`]: what holds across several of these.
//! - [`bulk_laws`], [`demux_laws`], [`run_laws`], [`line_laws`], [`write_laws`],
//!   [`view_laws`], [`multi_laws`], [`cursor_laws`], [`frame_laws`], [`policy_laws`],
//!   [`capture_laws`] and [`object_laws`]: what the operations are for, each stated of any
//!   call and what it returned.

pub mod admin;
pub mod asyncwrite;
pub mod bench_support;
pub mod bulk;
pub mod bulk_laws;
pub mod bulk_order;
pub mod bulkline;
pub mod bulkprep;
pub mod bulkrun;
pub mod capture_laws;
pub mod cursor;
pub mod cursor_laws;
pub mod dbq;
pub mod demux_laws;
pub mod directives;
pub mod endpoints;
pub mod error;
pub mod frame_laws;
pub mod json;
pub mod kafka;
pub mod line_laws;
pub mod mget;
pub mod msearch;
pub mod multi_laws;
pub mod ndjson;
pub mod object_laws;
pub mod observe;
pub mod passthrough;
pub mod pipeline;
pub mod placements;
pub mod plan;
pub mod policy_laws;
pub mod read;
pub mod read_laws;
pub mod retry;
pub mod run_laws;
pub mod scan_laws;
pub mod search_scan;
pub mod search_stream;
pub mod slots;
pub mod text;
pub mod types;
pub mod view_laws;
pub mod wal;
pub mod wal_drain;
pub mod wal_laws;
pub mod write_laws;

pub use admin::AdminPolicy;
pub use asyncwrite::{
    op_id_for, unsupported_async, valid_op_id, NoQueue, QueueError, QueuedWrite, WriteMode,
};
pub use directives::EtcdDirectiveStore;
pub use error::RequestError;
pub use kafka::{
    CaptureEnvelope, DeliveryConfig, InMemoryProducer, KafkaCapture, ProduceError, Producer,
};
pub use passthrough::PassthroughPolicy;
pub use pipeline::{Pipeline, PipelineResponse};
pub use plan::build_write_batch;
pub use retry::RetryPolicy;
pub use wal_drain::WalConfig;
