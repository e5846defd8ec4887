//! Model management: layer freezing for fine-tuning, function-as-operator
//! device affinity, and the AI-Tables format enums.

pub mod ai_tables;
pub mod distillation;
pub mod fao;
pub mod finetune;
pub mod registry;
