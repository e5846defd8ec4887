//! AI-Tables: the model catalog's format and device-affinity enums.

use vstd::prelude::*;

use crate::text::{push_str, string_of};

verus! {

/// Supported model serialization formats.
#[derive(Debug, Clone, Copy, PartialEq, Eq, Structural)]
pub enum ModelFormat {
    /// ONNX Runtime model.
    Onnx,
    /// Burn native model.
    Burn,
    /// User-supplied custom operator.
    Custom,
}

impl ModelFormat {
    /// The format's lowercase name (what `Display` writes).
    pub fn to_string(&self) -> (r: String)
        ensures
            r@ == match self {
                ModelFormat::Onnx => "onnx"@,
                ModelFormat::Burn => "burn"@,
                ModelFormat::Custom => "custom"@,
            },
    {
        let mut v: Vec<char> = Vec::new();
        match self {
            ModelFormat::Onnx => push_str(&mut v, "onnx"),
            ModelFormat::Burn => push_str(&mut v, "burn"),
            ModelFormat::Custom => push_str(&mut v, "custom"),
        }
        string_of(&v)
    }
}

/// Device affinity hint for the heterogeneous dispatcher.
#[derive(Debug, Clone, Copy, PartialEq, Eq, Structural)]
pub enum DeviceAffinity {
    /// Runs on any available CPU core.
    Cpu,
    /// Prefers GPU acceleration (CUDA / Metal).
    Gpu,
    /// Prefers Neural Processing Unit.
    Npu,
    /// No preference — dispatcher decides.
    Any,
}

impl Default for DeviceAffinity {
    /// No preference.
    fn default() -> (r: Self)
        ensures
            r == DeviceAffinity::Any,
    {
        DeviceAffinity::Any
    }
}

} // verus!
