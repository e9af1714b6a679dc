//! Verified core logic of the Tepora backend: the workflow graph and the
//! decisions of its nodes, the agent executor's loop and tool approvals, the
//! search stages, episodic memory (segmentation, grouping, retrieval, decay
//! bookkeeping, sealing), the knowledge store's checks, chat history, model
//! server settings and stream decoding, log retention and runtime metrics.

pub mod graph;
pub mod history;
pub mod json;
pub mod knowledge;
pub mod llm;
pub mod log_retention;
pub mod memory;
pub mod metrics;
pub mod sentence;
pub mod text;
