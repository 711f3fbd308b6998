pub mod antichain;
pub mod batch;
pub mod codec;
pub mod error;
pub mod field_diffs;
pub mod field_laws;
pub mod handle;
pub mod ids;
pub mod message_laws;
pub mod operation_laws;
pub mod ordered;
pub mod proto;
pub mod diff_fields;
pub mod diff_laws;
pub mod diff_values;
pub mod state;
pub mod state_diff;
pub mod state_laws;
pub mod trace;
pub mod version;
pub mod write;
