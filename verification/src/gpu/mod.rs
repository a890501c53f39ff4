//! GPU compilation: kernel configuration, backend selection, and the CUDA and Vulkan
//! source generators.

pub mod cuda_backend;
pub mod kernel_attribute;
pub mod templates;
pub mod vulkan_backend;

use vstd::prelude::*;
use vstd::string::*;

verus! {

/// Why a GPU compilation step failed.
#[derive(Debug, Clone)]
pub enum GpuError {
    AttributeError { message: String },
    UnsupportedOperation { op: String },
    CudaError { error: String },
    VulkanError { error: String },
    InvalidThreadBlockSize { size: usize },
    MemoryCoalescingError { reason: String },
}

/// The message a GPU error is displayed with.
pub open spec fn gpu_message(e: GpuError) -> Seq<char> {
    match e {
        GpuError::AttributeError { message } => "Kernel attribute parsing error: "@ + message@,
        GpuError::UnsupportedOperation { op } => "Unsupported GPU operation: "@ + op@,
        GpuError::CudaError { error } => "CUDA compilation error: "@ + error@,
        GpuError::VulkanError { error } => "Vulkan compilation error: "@ + error@,
        GpuError::InvalidThreadBlockSize { size } => "Thread block size invalid: "@ + crate::text::decimal_digits(
            size as nat,
        ),
        GpuError::MemoryCoalescingError { reason } => "Memory coalescing failed: "@ + reason@,
    }
}

impl GpuError {
    /// The message this error is displayed with.
    pub fn message(&self) -> (text: String)
        ensures
            text@ == gpu_message(*self),
    {
        let (head, tail) = match self {
            GpuError::AttributeError { message } => ("Kernel attribute parsing error: ", message.clone()),
            GpuError::UnsupportedOperation { op } => ("Unsupported GPU operation: ", op.clone()),
            GpuError::CudaError { error } => ("CUDA compilation error: ", error.clone()),
            GpuError::VulkanError { error } => ("Vulkan compilation error: ", error.clone()),
            GpuError::InvalidThreadBlockSize { size } => (
                "Thread block size invalid: ",
                crate::text::decimal(*size as u64),
            ),
            GpuError::MemoryCoalescingError { reason } => ("Memory coalescing failed: ", reason.clone()),
        };
        let mut text = String::from_str(head);
        text.append(tail.as_str());
        text
    }
}

/// The result of a GPU compilation step.
pub type GpuResult<T> = Result<T, GpuError>;

/// The GPU backend a kernel is compiled for; `Auto` picks the best one available.
#[derive(Debug, Clone, Copy, PartialEq, Eq, Structural)]
pub enum GpuBackend {
    Cuda,
    Vulkan,
    Auto,
}

/// A kernel's launch configuration.
#[derive(Debug, Clone, Copy, PartialEq, Eq)]
pub struct KernelConfig {
    pub threads_per_block: (u32, u32, u32),
    pub blocks_per_grid: (u32, u32, u32),
    pub shared_memory_bytes: u32,
}

/// The default launch: one grid block of 256 threads and no shared memory.
pub open spec fn default_kernel_config() -> KernelConfig {
    KernelConfig {
        threads_per_block: (256, 1, 1),
        blocks_per_grid: (1, 1, 1),
        shared_memory_bytes: 0,
    }
}

impl Default for KernelConfig {
    fn default() -> (config: Self)
        ensures
            config == default_kernel_config(),
    {
        KernelConfig {
            threads_per_block: (256, 1, 1),
            blocks_per_grid: (1, 1, 1),
            shared_memory_bytes: 0,
        }
    }
}

/// Which GPU toolchains the machine offers; the driver finds out and hands it in.
#[derive(Debug, Clone, Copy, PartialEq, Eq, Structural)]
pub struct BackendAvailability {
    pub cuda: bool,
    pub vulkan: bool,
}

/// A GPU compiler for one backend and one launch configuration.
pub struct GpuCompiler {
    backend: GpuBackend,
    config: KernelConfig,
}

impl View for GpuCompiler {
    type V = (GpuBackend, KernelConfig);

    closed spec fn view(&self) -> (GpuBackend, KernelConfig) {
        (self.backend, self.config)
    }
}

/// Whether `backend` can run on a machine offering `available`.
pub open spec fn backend_available(backend: GpuBackend, available: BackendAvailability) -> bool {
    match backend {
        GpuBackend::Cuda => available.cuda,
        GpuBackend::Vulkan => available.vulkan,
        GpuBackend::Auto => available.cuda || available.vulkan,
    }
}

/// The message of the error `Auto` gives on a machine without any GPU toolchain.
pub const NO_BACKEND_MESSAGE: &'static str = "No GPU backend available";

/// What compiling a kernel for `backend` yields on a machine offering `available`: the
/// text of the source it generates, or `None` where no backend can take it.
pub open spec fn compiled_kernel_text(
    backend: GpuBackend,
    available: BackendAvailability,
) -> Option<Seq<char>> {
    match backend {
        GpuBackend::Cuda => Some(templates::cuda_kernel_text()),
        GpuBackend::Vulkan => Some(templates::GLSL_COMPUTE_SHADER@),
        GpuBackend::Auto => if available.cuda {
            Some(templates::cuda_kernel_text())
        } else if available.vulkan {
            Some(templates::GLSL_COMPUTE_SHADER@)
        } else {
            None
        },
    }
}

impl GpuCompiler {
    /// A compiler for `backend` with the default launch configuration.
    pub fn new(backend: GpuBackend) -> (compiler: Self)
        ensures
            compiler@ == (backend, default_kernel_config()),
    {
        GpuCompiler { backend, config: KernelConfig::default() }
    }

    /// The same compiler with launch configuration `config`.
    pub fn with_config(self, config: KernelConfig) -> (compiler: Self)
        ensures
            compiler@ == (self@.0, config),
    {
        GpuCompiler { backend: self.backend, config }
    }

    /// Whether this compiler's backend can run on a machine offering `available`.
    pub fn is_backend_available(&self, available: BackendAvailability) -> (ok: bool)
        ensures
            ok == backend_available(self@.0, available),
    {
        match self.backend {
            GpuBackend::Cuda => available.cuda,
            GpuBackend::Vulkan => available.vulkan,
            GpuBackend::Auto => available.cuda || available.vulkan,
        }
    }

    /// Compile `kernel_source` for this compiler's backend; `Auto` takes CUDA where it
    /// is available, else Vulkan, else fails with `UnsupportedOperation`.
    pub fn compile_kernel(&self, kernel_source: &str, available: BackendAvailability) -> (result:
        GpuResult<String>)
        ensures
            match compiled_kernel_text(self@.0, available) {
                Some(text) => result matches Ok(code) && code@ == text,
                None => result matches Err(GpuError::UnsupportedOperation { op })
                    && op@ == NO_BACKEND_MESSAGE@,
            },
    {
        match self.backend {
            GpuBackend::Cuda => cuda_backend::compile_cuda_kernel(kernel_source),
            GpuBackend::Vulkan => vulkan_backend::compile_vulkan_kernel(kernel_source),
            GpuBackend::Auto => {
                if available.cuda {
                    cuda_backend::compile_cuda_kernel(kernel_source)
                } else if available.vulkan {
                    vulkan_backend::compile_vulkan_kernel(kernel_source)
                } else {
                    Err(GpuError::UnsupportedOperation { op: String::from_str(NO_BACKEND_MESSAGE) })
                }
            },
        }
    }
}

} // verus!
