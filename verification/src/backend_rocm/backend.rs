//! ROCm model: its buffers and its kernels.

use vstd::prelude::*;
use vstd::string::StringExecFns;

use crate::backend_cuda::buffers::{
    elem_bytes, first_suiting, fresh_buffer, swapped_out, Buffer, BufferPool, BufferView, DType,
};
use super::kernels::{kernel_set, kernel_sources};
use crate::toolchain::{first_missing, KernelCache, KernelSource};
use crate::types::{Ds4Error, Ds4ErrorKind, Ds4QuantKind, Ds4Result};

verus! {

/// Handle of the ROCm backend.
#[derive(Debug, Clone, Copy, PartialEq, Eq, Structural)]
pub struct RocmBackend {}

impl RocmBackend {
    /// A handle.
    pub fn new() -> (b: Self) {
        RocmBackend {  }
    }

    /// The name of the backend.
    pub fn name(&self) -> (r: &'static str)
        ensures
            r@ == "rocm"@,
    {
        "rocm"
    }

    /// How the weights count as quantised.
    pub fn quant_kind(&self) -> (k: Ds4QuantKind)
        ensures
            k == Ds4QuantKind::Q4_K,
    {
        Ds4QuantKind::Q4_K
    }

    /// The architecture that kernels are compiled for unless another is asked for.
    pub fn default_arch() -> (r: &'static str)
        ensures
            r@ == "gfx1151"@,
    {
        "gfx1151"
    }

    /// The memory that a context takes on the device; nothing is counted.
    pub fn memory_estimate(ctx_size: usize, prefill_chunk: usize) -> (n: u64)
        ensures
            n == 0,
    {
        0
    }

    /// Refuses to load a model: the device cannot be used.
    pub fn load_model(&self) -> (r: Ds4Result<RocmModel>)
        ensures
            r matches Err(e) && e.is(
                Ds4ErrorKind::NotImplemented,
                "ROCm device execution is unavailable in this build"@,
            ),
    {
        Err(
            Ds4Error::new(
                Ds4ErrorKind::NotImplemented,
                String::from_str("ROCm device execution is unavailable in this build"),
            ),
        )
    }
}

impl Default for RocmBackend {
    fn default() -> (b: Self) {
        RocmBackend::new()
    }
}

/// Buffers and kernels of a model.
#[derive(Debug)]
pub struct RocmModel {
    pub pool: BufferPool,
    pub cache: KernelCache,
    pub arch: String,
}

impl RocmModel {
    /// A model without buffers and kernels.
    pub fn new() -> (m: Self)
        ensures
            m.pool.wf(),
            m.pool.held() == Seq::<BufferView>::empty(),
            m.cache.kernels@ == Map::<Seq<char>, Vec<u8>>::empty(),
            m.arch@ == ""@,
    {
        RocmModel { pool: BufferPool::new(), cache: KernelCache::new(), arch: String::from_str("") }
    }

    /// The first kernel that has to be compiled.
    pub fn next_kernel(&self) -> (r: Option<KernelSource>)
        ensures
            exists|set: Seq<KernelSource>|
                #![trigger first_missing(set, self.cache.kernels@, 0)]
                {
                    &&& set.len() == kernel_set().len()
                    &&& forall|i: int|
                        0 <= i < set.len() ==> (#[trigger] set[i]).name@ == kernel_set()[i].0
                            && set[i].source@ == kernel_set()[i].1
                    &&& r == first_missing(set, self.cache.kernels@, 0)
                },
    {
        let set: Vec<KernelSource> = kernel_sources();
        let r: Option<KernelSource> = self.cache.next_kernel(&set);
        assert(r == first_missing(set@, self.cache.kernels@, 0));
        r
    }

    /// A buffer of `len` elements, all of them zero.
    pub fn alloc_buffer(&mut self, dtype: DType, len: usize) -> (b: Buffer)
        requires
            old(self).pool.wf(),
            len * elem_bytes(dtype) <= usize::MAX,
        ensures
            final(self).pool.wf(),
            final(self).cache == old(self).cache,
            final(self).arch == old(self).arch,
            b@.wf(),
            match first_suiting(old(self).pool.held(), dtype, len, 0) {
                Some(i) => {
                    &&& b@ == old(self).pool.held()[i].reused(len)
                    &&& final(self).pool.held() == swapped_out(old(self).pool.held(), i)
                },
                None => {
                    &&& b@ == fresh_buffer(dtype, len)
                    &&& final(self).pool.held() == old(self).pool.held()
                },
            },
    {
        self.pool.alloc_buffer(dtype, len)
    }
}

} // verus!
