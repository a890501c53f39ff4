//! Kernel attributes: which functions are GPU kernels, their launch limits, and the
//! wrappers that launch them.

use vstd::prelude::*;
use vstd::string::*;

use super::templates::{
    CUDA_WRAPPER_0, CUDA_WRAPPER_1, CUDA_WRAPPER_2, CUDA_WRAPPER_3, CUDA_WRAPPER_4, VULKAN_WRAPPER_0,
    VULKAN_WRAPPER_1, VULKAN_WRAPPER_2, VULKAN_WRAPPER_3, VULKAN_WRAPPER_4,
};
use super::{default_kernel_config, GpuBackend, GpuError, GpuResult, KernelConfig};
use crate::text::{chars_of, decimal, decimal_digits, occurs, occurs_at, occurs_in};

verus! {

/// What a kernel attribute says of a function.
#[derive(Debug, Clone, PartialEq)]
pub struct KernelInfo {
    pub is_kernel: bool,
    pub backend: GpuBackend,
    pub config: KernelConfig,
    pub name: String,
    /// `(max_threads_per_block, min_blocks_per_multiprocessor)`.
    pub launch_bounds: Option<(u32, u32)>,
}

/// The word whose presence in a function's name marks it as a kernel.
pub const KERNEL_WORD: &'static str = "kernel";

/// The prefix that marks a function as a GPU function.
pub const GPU_PREFIX: &'static str = "gpu_";

/// The comment line an `Auto` wrapper starts with, before the kernel name.
pub const AUTO_BANNER: &'static str = "// Auto-generated kernel wrapper for ";

/// The blank line between an `Auto` wrapper's two halves.
pub const BLANK_LINE: &'static str = "\n\n";

/// The most threads one block may hold.
pub const MAX_THREADS_PER_BLOCK: u32 = 1024;

/// The most shared memory a block may ask for: 48 KiB, the typical limit.
pub const MAX_SHARED_MEMORY_BYTES: u32 = 49152;

/// The text around the byte count of an over-large shared-memory request.
pub const SHARED_MEMORY_MESSAGE: &'static str = "Shared memory exceeds typical limit: ";

/// The unit after that byte count.
pub const BYTES_SUFFIX: &'static str = " bytes";

/// Whether a function named `name` is a kernel: it mentions `kernel`, or starts `gpu_`.
pub open spec fn names_kernel(name: Seq<char>) -> bool {
    occurs_in(name, KERNEL_WORD@) || occurs_at(name, GPU_PREFIX@, 0)
}

/// The kernel info a kernel function named `name` gets: a kernel for the `Auto`
/// backend with the default launch and no launch bounds.
pub open spec fn is_default_kernel(info: KernelInfo, name: Seq<char>) -> bool {
    &&& info.is_kernel
    &&& info.backend == GpuBackend::Auto
    &&& info.config == default_kernel_config()
    &&& info.name@ == name
    &&& info.launch_bounds is None
}

/// The CUDA launch wrapper of kernel `name`.
pub open spec fn cuda_wrapper_text(name: Seq<char>) -> Seq<char> {
    CUDA_WRAPPER_0@ + name + CUDA_WRAPPER_1@ + name + CUDA_WRAPPER_2@ + name + CUDA_WRAPPER_3@
        + name + CUDA_WRAPPER_4@
}

/// The Vulkan compute wrapper of kernel `name` with block extents `threads`.
pub open spec fn vulkan_wrapper_text(name: Seq<char>, threads: (u32, u32, u32)) -> Seq<char> {
    VULKAN_WRAPPER_0@ + name + VULKAN_WRAPPER_1@ + decimal_digits(threads.0 as nat)
        + VULKAN_WRAPPER_2@ + decimal_digits(threads.1 as nat) + VULKAN_WRAPPER_3@
        + decimal_digits(threads.2 as nat) + VULKAN_WRAPPER_4@
}

/// The launch wrapper of `info`: its backend's, or for `Auto` both under one banner.
pub open spec fn kernel_wrapper_text(info: KernelInfo) -> Seq<char> {
    match info.backend {
        GpuBackend::Cuda => cuda_wrapper_text(info.name@),
        GpuBackend::Vulkan => vulkan_wrapper_text(info.name@, info.config.threads_per_block),
        GpuBackend::Auto => AUTO_BANNER@ + info.name@ + NEWLINE_TEXT@ + cuda_wrapper_text(
            info.name@,
        ) + BLANK_LINE@ + vulkan_wrapper_text(info.name@, info.config.threads_per_block),
    }
}

/// A line break.
pub const NEWLINE_TEXT: &'static str = "\n";

/// The number of threads in one block of `config`.
pub open spec fn block_threads(config: KernelConfig) -> int {
    config.threads_per_block.0 * config.threads_per_block.1 * config.threads_per_block.2
}

/// Whether counting the threads of one block, `x * y` and then `* z`, stays in `u32`.
pub open spec fn block_threads_fit(config: KernelConfig) -> bool {
    &&& config.threads_per_block.0 * config.threads_per_block.1 <= u32::MAX
    &&& block_threads(config) <= u32::MAX
}

/// What validating `config` answers: `None` when it is within the limits, else the
/// error it is refused with (`Some(Ok(threads))` for too many threads per block,
/// `Some(Err(bytes))` for too much shared memory).
pub open spec fn config_violation(config: KernelConfig) -> Option<Result<int, int>> {
    if block_threads(config) > MAX_THREADS_PER_BLOCK {
        Some(Ok(block_threads(config)))
    } else if config.shared_memory_bytes > MAX_SHARED_MEMORY_BYTES {
        Some(Err(config.shared_memory_bytes as int))
    } else {
        None
    }
}

impl KernelInfo {
    /// A function named `name` that is not (yet) a kernel, with the default launch.
    pub fn new(name: String) -> (info: Self)
        ensures
            !info.is_kernel,
            info.backend == GpuBackend::Auto,
            info.config == default_kernel_config(),
            info.name == name,
            info.launch_bounds is None,
    {
        KernelInfo {
            is_kernel: false,
            backend: GpuBackend::Auto,
            config: KernelConfig::default(),
            name,
            launch_bounds: None,
        }
    }

    /// The kernel info of the function named `function_name`: `Some` for a kernel, by
    /// its name, else `None`.
    pub fn from_function(function_name: &str) -> (result: GpuResult<Option<Self>>)
        ensures
            result matches Ok(found) && (found is Some <==> names_kernel(function_name@)) && (
            found matches Some(info) ==> is_default_kernel(info, function_name@)),
    {
        let mut kernel_info = Self::new(String::from_str(function_name));
        let name = chars_of(function_name);
        let kernel_word = chars_of(KERNEL_WORD);
        let gpu_prefix = chars_of(GPU_PREFIX);
        if occurs(&name, &kernel_word) || crate::text::matches_at(&name, &gpu_prefix, 0) {
            kernel_info.is_kernel = true;
            kernel_info.backend = GpuBackend::Auto;
            Ok(Some(kernel_info))
        } else {
            Ok(None)
        }
    }

    /// The code that launches this kernel on its backend.
    pub fn generate_kernel_wrapper(&self) -> (code: String)
        ensures
            code@ == kernel_wrapper_text(*self),
    {
        match self.backend {
            GpuBackend::Cuda => self.generate_cuda_wrapper(),
            GpuBackend::Vulkan => self.generate_vulkan_wrapper(),
            GpuBackend::Auto => {
                let mut code = String::from_str(AUTO_BANNER);
                code.append(self.name.as_str());
                code.append(NEWLINE_TEXT);
                let cuda = self.generate_cuda_wrapper();
                code.append(cuda.as_str());
                code.append(BLANK_LINE);
                let vulkan = self.generate_vulkan_wrapper();
                code.append(vulkan.as_str());
                code
            },
        }
    }

    /// The CUDA launch wrapper of this kernel.
    fn generate_cuda_wrapper(&self) -> (code: String)
        ensures
            code@ == cuda_wrapper_text(self.name@),
    {
        let name = self.name.as_str();
        let mut code = String::from_str(CUDA_WRAPPER_0);
        code.append(name);
        code.append(CUDA_WRAPPER_1);
        code.append(name);
        code.append(CUDA_WRAPPER_2);
        code.append(name);
        code.append(CUDA_WRAPPER_3);
        code.append(name);
        code.append(CUDA_WRAPPER_4);
        code
    }

    /// The Vulkan compute wrapper of this kernel, sized by its block extents.
    fn generate_vulkan_wrapper(&self) -> (code: String)
        ensures
            code@ == vulkan_wrapper_text(self.name@, self.config.threads_per_block),
    {
        let (x, y, z) = self.config.threads_per_block;
        let mut code = String::from_str(VULKAN_WRAPPER_0);
        code.append(self.name.as_str());
        code.append(VULKAN_WRAPPER_1);
        code.append(decimal(x as u64).as_str());
        code.append(VULKAN_WRAPPER_2);
        code.append(decimal(y as u64).as_str());
        code.append(VULKAN_WRAPPER_3);
        code.append(decimal(z as u64).as_str());
        code.append(VULKAN_WRAPPER_4);
        code
    }

    /// Check the launch configuration against the block limits: at most 1024 threads,
    /// then at most 48 KiB of shared memory.
    pub fn validate(&self) -> (result: GpuResult<()>)
        requires
            block_threads_fit(self.config),
        ensures
            match config_violation(self.config) {
                None => result is Ok,
                Some(Ok(threads)) => result matches Err(GpuError::InvalidThreadBlockSize { size })
                    && size == threads,
                Some(Err(bytes)) => result matches Err(GpuError::MemoryCoalescingError { reason })
                    && reason@ == SHARED_MEMORY_MESSAGE@ + decimal_digits(bytes as nat)
                    + BYTES_SUFFIX@,
            },
    {
        let (x, y, z) = self.config.threads_per_block;
        let total_threads = x * y * z;
        if total_threads > MAX_THREADS_PER_BLOCK {
            return Err(GpuError::InvalidThreadBlockSize { size: total_threads as usize });
        }
        if self.config.shared_memory_bytes > MAX_SHARED_MEMORY_BYTES {
            let mut reason = String::from_str(SHARED_MEMORY_MESSAGE);
            reason.append(decimal(self.config.shared_memory_bytes as u64).as_str());
            reason.append(BYTES_SUFFIX);
            return Err(GpuError::MemoryCoalescingError { reason });
        }
        Ok(())
    }
}

/// The kernel infos of the kernels among `function_names`, in order, each validated.
pub fn process_kernel_attributes(function_names: &[String]) -> (result: GpuResult<Vec<KernelInfo>>)
    ensures
        result matches Ok(kernels) && kernels@.map_values(|k: KernelInfo| k.name@)
            == function_names@.map_values(|n: String| n@).filter(|n: Seq<char>| names_kernel(n))
            && forall|i: int|
            0 <= i < kernels@.len() ==> is_default_kernel(#[trigger] kernels@[i], kernels@[i].name@),
{
    let mut kernels: Vec<KernelInfo> = Vec::new();
    let ghost names = function_names@.map_values(|n: String| n@);
    let mut i: usize = 0;
    while i < function_names.len()
        invariant
            i <= function_names@.len(),
            names == function_names@.map_values(|n: String| n@),
            kernels@.map_values(|k: KernelInfo| k.name@) == names.take(i as int).filter(
                |n: Seq<char>| names_kernel(n),
            ),
            forall|k: int|
                0 <= k < kernels@.len() ==> is_default_kernel(
                    #[trigger] kernels@[k],
                    kernels@[k].name@,
                ),
        decreases function_names@.len() - i,
    {
        let found = KernelInfo::from_function(function_names[i].as_str());
        proof {
            reveal_with_fuel(Seq::<_>::filter, 1);
            assert(names.take(i + 1).drop_last() =~= names.take(i as int));
        }
        match found {
            Ok(Some(info)) => {
                let checked = info.validate();
                match checked {
                    Ok(()) => {},
                    Err(e) => { return Err(e); },
                }
                kernels.push(info);
                assert(kernels@.map_values(|k: KernelInfo| k.name@) =~= names.take(i as int).filter(
                    |n: Seq<char>| names_kernel(n),
                ).push(names[i as int]));
            },
            Ok(None) => {},
            Err(e) => { return Err(e); },
        }
        i = i + 1;
    }
    assert(names.take(function_names@.len() as int) =~= names);
    Ok(kernels)
}

} // verus!
