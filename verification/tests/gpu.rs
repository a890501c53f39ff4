use neuro_compiler::gpu::cuda_backend::{compile_cuda_kernel, compile_to_ptx, optimize_for_architecture};
use neuro_compiler::gpu::kernel_attribute::{process_kernel_attributes, KernelInfo};
use neuro_compiler::gpu::vulkan_backend::{
    compile_to_spirv, compile_vulkan_kernel, generate_vulkan_host_code, optimize_for_device,
};
use neuro_compiler::gpu::{BackendAvailability, GpuBackend, GpuCompiler, GpuError, KernelConfig};

const NONE: BackendAvailability = BackendAvailability { cuda: false, vulkan: false };
const CUDA_ONLY: BackendAvailability = BackendAvailability { cuda: true, vulkan: false };
const VULKAN_ONLY: BackendAvailability = BackendAvailability { cuda: false, vulkan: true };

#[test]
fn the_default_launch_is_one_block_of_256_threads() {
    let config = KernelConfig::default();
    assert_eq!(config.threads_per_block, (256, 1, 1));
    assert_eq!(config.blocks_per_grid, (1, 1, 1));
    assert_eq!(config.shared_memory_bytes, 0);
}

#[test]
fn a_backend_is_available_where_its_toolchain_is() {
    assert!(GpuCompiler::new(GpuBackend::Cuda).is_backend_available(CUDA_ONLY));
    assert!(!GpuCompiler::new(GpuBackend::Cuda).is_backend_available(VULKAN_ONLY));
    assert!(GpuCompiler::new(GpuBackend::Vulkan).is_backend_available(VULKAN_ONLY));
    assert!(GpuCompiler::new(GpuBackend::Auto).is_backend_available(VULKAN_ONLY));
    assert!(!GpuCompiler::new(GpuBackend::Auto).is_backend_available(NONE));
}

#[test]
fn auto_prefers_cuda_then_vulkan() {
    let auto = GpuCompiler::new(GpuBackend::Auto);
    let cuda = auto.compile_kernel("f", CUDA_ONLY).expect("cuda is available");
    assert!(cuda.contains("__global__ void neuro_kernel"));
    let both = BackendAvailability { cuda: true, vulkan: true };
    assert_eq!(auto.compile_kernel("f", both).expect("cuda is available"), cuda);
    let vulkan = auto.compile_kernel("f", VULKAN_ONLY).expect("vulkan is available");
    assert!(vulkan.contains("#version 450"));
}

#[test]
fn auto_without_a_toolchain_is_unsupported() {
    match GpuCompiler::new(GpuBackend::Auto).compile_kernel("f", NONE) {
        Err(GpuError::UnsupportedOperation { op }) => assert_eq!(op, "No GPU backend available"),
        other => panic!("expected an unsupported operation, got {:?}", other),
    }
}

#[test]
fn an_explicit_backend_compiles_regardless_of_the_machine() {
    let cuda = GpuCompiler::new(GpuBackend::Cuda).compile_kernel("f", NONE).expect("always generates");
    assert_eq!(cuda, compile_cuda_kernel("f").expect("always generates"));
    let vulkan = GpuCompiler::new(GpuBackend::Vulkan).compile_kernel("f", NONE).expect("always generates");
    assert_eq!(vulkan, compile_vulkan_kernel("f").expect("always generates"));
}

#[test]
fn with_config_keeps_the_backend() {
    let config = KernelConfig { threads_per_block: (8, 8, 1), blocks_per_grid: (4, 1, 1), shared_memory_bytes: 16 };
    let compiler = GpuCompiler::new(GpuBackend::Vulkan).with_config(config);
    assert!(compiler.is_backend_available(VULKAN_ONLY));
    assert!(!compiler.is_backend_available(CUDA_ONLY));
}

#[test]
fn tuning_puts_a_banner_over_the_code() {
    assert_eq!(
        optimize_for_architecture("code", "8.6").expect("always tunes"),
        "// Optimized for compute capability 8.6\ncode"
    );
    assert_eq!(optimize_for_device("shader", "rtx").expect("always tunes"), "// Optimized for device: rtx\nshader");
}

#[test]
fn ptx_and_spirv_are_fixed_modules() {
    let ptx = compile_to_ptx("x").expect("always compiles");
    assert!(ptx.contains(".version"));
    let spirv = compile_to_spirv("x").expect("always compiles");
    assert_eq!(spirv.len(), 32);
    assert_eq!(&spirv[0..4], &[0x03, 0x02, 0x23, 0x07]);
    assert_eq!(u32::from_le_bytes([spirv[0], spirv[1], spirv[2], spirv[3]]), 0x07230203);
    assert_eq!(u32::from_le_bytes([spirv[4], spirv[5], spirv[6], spirv[7]]), 0x00010000);
}

#[test]
fn the_host_code_names_the_kernel() {
    let code = generate_vulkan_host_code("my_kernel");
    assert!(code.contains("my_kernel"));
}

#[test]
fn kernels_are_recognised_by_name() {
    let info = KernelInfo::from_function("gpu_add").expect("never fails").expect("a kernel");
    assert!(info.is_kernel);
    assert_eq!(info.backend, GpuBackend::Auto);
    assert_eq!(info.name, "gpu_add");
    assert!(KernelInfo::from_function("my_kernel_fn").expect("never fails").is_some());
    assert!(KernelInfo::from_function("add").expect("never fails").is_none());
    assert!(KernelInfo::from_function("add_gpu_").expect("never fails").is_none());
}

#[test]
fn a_new_kernel_info_is_not_a_kernel() {
    let info = KernelInfo::new("f".to_string());
    assert!(!info.is_kernel);
    assert_eq!(info.launch_bounds, None);
}

#[test]
fn the_vulkan_wrapper_is_sized_by_the_block() {
    let mut info = KernelInfo::new("k".to_string());
    info.backend = GpuBackend::Vulkan;
    info.config.threads_per_block = (16, 4, 2);
    let code = info.generate_kernel_wrapper();
    assert!(code.contains("local_size_x = 16, local_size_y = 4, local_size_z = 2"));
}

#[test]
fn the_auto_wrapper_holds_both_backends() {
    let info = KernelInfo::new("k".to_string());
    let code = info.generate_kernel_wrapper();
    assert!(code.starts_with("// Auto-generated kernel wrapper for k\n"));
    assert!(code.contains("k_cuda_kernel<<<grid_size, block_size>>>"));
    assert!(code.contains("local_size_x = 256"));
}

#[test]
fn validation_limits_threads_then_shared_memory() {
    let mut info = KernelInfo::new("k".to_string());
    assert!(info.validate().is_ok());
    info.config.threads_per_block = (32, 32, 2);
    match info.validate() {
        Err(GpuError::InvalidThreadBlockSize { size }) => assert_eq!(size, 2048),
        other => panic!("expected a block size error, got {:?}", other),
    }
    info.config.threads_per_block = (32, 32, 1);
    assert!(info.validate().is_ok());
    info.config.shared_memory_bytes = 49153;
    match info.validate() {
        Err(GpuError::MemoryCoalescingError { reason }) => {
            assert_eq!(reason, "Shared memory exceeds typical limit: 49153 bytes")
        }
        other => panic!("expected a shared memory error, got {:?}", other),
    }
}

#[test]
fn only_kernels_are_processed_in_order() {
    let names = vec!["main".to_string(), "gpu_b".to_string(), "helper".to_string(), "a_kernel".to_string()];
    let kernels = process_kernel_attributes(&names).expect("defaults validate");
    let found: Vec<&str> = kernels.iter().map(|k| k.name.as_str()).collect();
    assert_eq!(found, vec!["gpu_b", "a_kernel"]);
}

#[test]
fn gpu_errors_display_their_detail() {
    assert_eq!(
        GpuError::InvalidThreadBlockSize { size: 2048 }.message(),
        "Thread block size invalid: 2048"
    );
    assert_eq!(
        GpuError::UnsupportedOperation { op: "x".to_string() }.message(),
        "Unsupported GPU operation: x"
    );
    assert_eq!(GpuError::CudaError { error: "e".to_string() }.message(), "CUDA compilation error: e");
    assert_eq!(GpuError::VulkanError { error: "e".to_string() }.message(), "Vulkan compilation error: e");
    assert_eq!(
        GpuError::AttributeError { message: "m".to_string() }.message(),
        "Kernel attribute parsing error: m"
    );
    assert_eq!(
        GpuError::MemoryCoalescingError { reason: "r".to_string() }.message(),
        "Memory coalescing failed: r"
    );
}

#[test]
fn the_cuda_translation_unit_declares_the_kernel_and_its_launcher_whatever_the_source() {
    let first = compile_cuda_kernel("a").expect("always generates");
    let second = compile_cuda_kernel("fn other() {}").expect("always generates");
    assert_eq!(first, second);
    assert!(first.contains("__global__ void neuro_kernel(float* input, float* output, int size)"));
    assert!(first.contains("void launch_neuro_kernel(float* h_input, float* h_output, int size)"));
}
