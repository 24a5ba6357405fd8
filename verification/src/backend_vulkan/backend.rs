//! The handle of the Vulkan backend.

use vstd::prelude::*;
use vstd::string::StringExecFns;

use super::runtime::{VulkanDeviceInfo, VulkanRuntime};
use crate::backend_arc::backend::{device_memory, estimate_device_memory};
use crate::text::{dec, push_dec};
use crate::types::{Ds4Error, Ds4ErrorKind, Ds4Result};

verus! {

/// Handle of the Vulkan backend.
#[derive(Debug, Clone, Copy, PartialEq, Eq, Structural)]
pub struct VulkanBackend {}

impl VulkanBackend {
    /// A handle.
    pub fn new() -> (b: Self) {
        VulkanBackend {  }
    }

    /// The name of the backend.
    pub fn name(&self) -> (r: &'static str)
        ensures
            r@ == "vulkan"@,
    {
        "vulkan"
    }

    /// The memory that a context takes.
    pub fn memory_estimate(ctx_size: usize, prefill_chunk: usize) -> (n: u64)
        ensures
            n == device_memory(ctx_size, prefill_chunk),
    {
        estimate_device_memory(ctx_size, prefill_chunk)
    }

    /// What is known of the device, once the runtime has been loaded.
    pub fn probe(&self, loaded: Ds4Result<VulkanRuntime>) -> (r: Ds4Result<VulkanDeviceInfo>)
        ensures
            match loaded {
                Ok(runtime) => r == Ok::<VulkanDeviceInfo, Ds4Error>(runtime.device_info),
                Err(e) => r == Err::<VulkanDeviceInfo, Ds4Error>(e),
            },
    {
        match loaded {
            Ok(runtime) => Ok(runtime.device_info),
            Err(e) => Err(e),
        }
    }

    /// Why a model cannot be loaded. `layers` is what reading the model file came to, its number of
    /// layers; `loaded` what loading the runtime came to, or the text of its error.
    pub fn load_model(
        &self,
        layers: Ds4Result<usize>,
        loaded: Result<&VulkanRuntime, &str>,
    ) -> (e: Ds4Error)
        ensures
            match layers {
                Err(unread) => e == unread,
                Ok(n) => match loaded {
                    Err(reason) => e.is(
                        Ds4ErrorKind::Backend,
                        "Vulkan backend unavailable: "@ + reason@,
                    ),
                    Ok(runtime) => e.is(
                        Ds4ErrorKind::Backend,
                        "Vulkan runtime is available on "@ + runtime.device_info.device_name@
                            + ", but DS4 Vulkan model execution requires SPIR-V kernels for "@
                            + dec(n as nat) + " layers"@,
                    ),
                },
            },
    {
        let n: usize = match layers {
            Ok(n) => n,
            Err(unread) => return unread,
        };
        match loaded {
            Err(reason) => {
                let mut m: String = String::from_str("Vulkan backend unavailable: ");
                m.append(reason);
                Ds4Error::new(Ds4ErrorKind::Backend, m)
            },
            Ok(runtime) => {
                let mut m: String = String::from_str("Vulkan runtime is available on ");
                m.append(runtime.device_name());
                m.append(", but DS4 Vulkan model execution requires SPIR-V kernels for ");
                push_dec(&mut m, n as u64);
                m.append(" layers");
                Ds4Error::new(Ds4ErrorKind::Backend, m)
            },
        }
    }
}

impl Default for VulkanBackend {
    fn default() -> (b: Self) {
        VulkanBackend::new()
    }
}

} // verus!
