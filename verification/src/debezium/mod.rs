pub mod coordinates;
pub mod datum;
pub mod dedup;
pub mod dedup_history;
pub mod operation_laws;
pub mod position_laws;
pub mod record_laws;
pub mod render;
pub mod render_tx;
pub mod transactions;
pub mod tx_history;
pub mod tx_laws;
