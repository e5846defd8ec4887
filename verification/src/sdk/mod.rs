//! SDK: the pack hub, logic packs and the Python client surface.

pub mod hub;
pub mod logic_pack;
pub mod python;
