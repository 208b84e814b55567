pub mod address;
pub mod address_reuse;
pub mod block_report;
pub mod change_detection;
pub mod cioh;
pub mod classifier;
pub mod classify;
pub mod coinbase;
pub mod coinjoin;
pub mod consolidation;
pub mod fees;
pub mod op_return;
pub mod pipeline;
pub mod round_number;
pub mod self_transfer;
pub mod summary;
