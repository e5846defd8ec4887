//! Execution: the hardware dispatcher's device types, the symbolic
//! pipeline's stages, prediction kinds, task routing and concurrency
//! control.

pub mod dispatcher;
pub mod predict_exec;
pub mod pipeline;
pub mod task_router;
pub mod concurrency;
pub mod distributed_optimizer;
pub mod optimizer;
pub mod logic_optimizer_rule;
