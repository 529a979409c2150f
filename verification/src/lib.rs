//! Persistent type layouts, the registry that indexes them, and executable
//! models of the transaction runtime that works on the objects they describe.

pub mod granule_holdings;
pub mod layout_codec;
pub mod layout_error;
pub mod layout_fingerprint;
pub mod layout_record;
pub mod le_bytes;
pub mod lock_check;
pub mod lock_model;
pub mod lock_run;
pub mod lock_schedule;
pub mod mixed_model;
pub mod mixed_recovery;
pub mod module_metadata;
pub mod object_graph;
pub mod object_model;
pub mod object_rebuild;
pub mod ordered;
pub mod permission_model;
pub mod recovered_winner;
pub mod recovery_samples;
pub mod registry;
pub mod registry_codec;
pub mod text;
pub mod tx_log;
pub mod type_layout;
pub mod values;
pub mod visibility;
pub mod wasmtime_layout;
