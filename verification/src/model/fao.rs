//! Function-as-Operator (FAO) device affinity.

use vstd::prelude::*;

use crate::execution::dispatcher::DeviceType;

verus! {

/// Device affinity for hardware-dispatched inference.
#[derive(Debug, Clone, Copy, PartialEq, Eq, Structural)]
pub enum DeviceAffinity {
    /// No preference — use any available device.
    Any,
    /// Prefer CPU execution.
    Cpu,
    /// Prefer GPU execution.
    Gpu,
    /// Prefer NPU/accelerator execution.
    Npu,
}

impl DeviceAffinity {
    /// Map this affinity to the dispatcher's [`DeviceType`]: `None` for no
    /// preference, CUDA for a GPU (the default GPU backend).
    pub fn to_device_type(self) -> (r: Option<DeviceType>)
        ensures
            r == match self {
                DeviceAffinity::Any => None,
                DeviceAffinity::Cpu => Some(DeviceType::Cpu),
                DeviceAffinity::Gpu => Some(DeviceType::CudaGpu),
                DeviceAffinity::Npu => Some(DeviceType::Npu),
            },
    {
        match self {
            DeviceAffinity::Any => None,
            DeviceAffinity::Cpu => Some(DeviceType::Cpu),
            DeviceAffinity::Gpu => Some(DeviceType::CudaGpu),
            DeviceAffinity::Npu => Some(DeviceType::Npu),
        }
    }
}

} // verus!
