//! Verified runtime foundations for a real-time multimodal agent runtime:
//! validated frame payloads, structured errors, graph construction, bounded
//! queues, transport turn control, and manifest validation.
pub mod text;
pub mod error;
pub mod frame_buffer;
pub mod audio;
pub mod video;
pub mod bytes_order;
pub mod value;
pub mod extension;
pub mod string_set;
pub mod registry;
pub mod transport;
pub mod graph;
pub mod concurrent;
pub mod signal;
pub mod foreign;
pub mod managed_stream;
pub mod event_bus;
pub mod testkit;
pub mod providers;
pub mod studio;
pub mod audio_merge;
pub mod media_dump;
pub mod cli;
pub mod semantic_trace;
pub mod observability;
pub mod dotenv;
pub mod node_package;
pub mod node_registry;
pub mod package_registration;
pub mod factory_spec;
pub mod session_history;
pub mod python_host;
pub mod wire_frame;
