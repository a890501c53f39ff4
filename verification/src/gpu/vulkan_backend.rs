//! The Vulkan backend: compute shader, SPIR-V, host code, and device tuning.

use vstd::prelude::*;
use vstd::string::*;

use super::cuda_backend::NEWLINE;
use super::templates::{GLSL_COMPUTE_SHADER, VULKAN_HOST_HEAD, VULKAN_HOST_TAIL};
use super::GpuResult;

verus! {

/// The comment line a device-tuned shader starts with, before the device.
pub const DEVICE_BANNER: &'static str = "// Optimized for device: ";

/// The SPIR-V magic number, the module's first word.
pub const SPIRV_MAGIC: u32 = 0x07230203;

/// SPIR-V version 1.0, the module's second word.
pub const SPIRV_VERSION: u32 = 0x00010000;

/// The 32-bit word at word position `k` of `bytes`, read little-endian.
pub open spec fn word_le(bytes: Seq<u8>, k: int) -> int {
    bytes[4 * k] + 256 * bytes[4 * k + 1] + 65536 * bytes[4 * k + 2] + 16777216 * bytes[4 * k + 3]
}

/// The SPIR-V module every shader compiles to, as little-endian words: the header
/// (magic number, version 1.0, generator, bound, schema) and one
/// `OpMemoryModel Logical GLSL450` instruction.
pub open spec fn spirv_module() -> Seq<u8> {
    seq![
        0x03u8, 0x02, 0x23, 0x07,
        0x00, 0x00, 0x01, 0x00,
        0x00, 0x00, 0x00, 0x00,
        0x00, 0x00, 0x00, 0x00,
        0x00, 0x00, 0x00, 0x00,
        0x0E, 0x00, 0x03, 0x00,
        0x00, 0x00, 0x00, 0x00,
        0x01, 0x00, 0x00, 0x00,
    ]
}

/// Compile a kernel to its GLSL compute shader.
pub fn compile_vulkan_kernel(kernel_source: &str) -> (result: GpuResult<String>)
    ensures
        result matches Ok(code) && code@ == GLSL_COMPUTE_SHADER@,
{
    Ok(String::from_str(GLSL_COMPUTE_SHADER))
}

/// Compile GLSL to SPIR-V bytecode.
pub fn compile_to_spirv(glsl_source: &str) -> (result: GpuResult<Vec<u8>>)
    ensures
        result matches Ok(code) && code@ == spirv_module() && word_le(code@, 0) == SPIRV_MAGIC
            && word_le(code@, 1) == SPIRV_VERSION,
{
    let mut spirv: Vec<u8> = vec![
        0x03, 0x02, 0x23, 0x07,
        0x00, 0x00, 0x01, 0x00,
        0x00, 0x00, 0x00, 0x00,
        0x00, 0x00, 0x00, 0x00,
        0x00, 0x00, 0x00, 0x00,
    ];
    let instruction: Vec<u8> = vec![
        0x0E, 0x00, 0x03, 0x00,
        0x00, 0x00, 0x00, 0x00,
        0x01, 0x00, 0x00, 0x00,
    ];
    let mut i: usize = 0;
    while i < instruction.len()
        invariant
            i <= instruction@.len(),
            instruction@.len() == 12,
            spirv@.len() == 20 + i,
            forall|k: int| 0 <= k < 20 + i ==> #[trigger] spirv@[k] == spirv_module()[k],
            forall|k: int| 0 <= k < 12 ==> #[trigger] instruction@[k] == spirv_module()[20 + k],
        decreases instruction@.len() - i,
    {
        spirv.push(instruction[i]);
        i = i + 1;
    }
    assert(spirv@ =~= spirv_module());
    Ok(spirv)
}

/// The host class that loads and dispatches `kernel_name`'s shader.
pub fn generate_vulkan_host_code(kernel_name: &str) -> (code: String)
    ensures
        code@ == VULKAN_HOST_HEAD@ + kernel_name@ + VULKAN_HOST_TAIL@,
{
    let mut code = String::from_str(VULKAN_HOST_HEAD);
    code.append(kernel_name);
    code.append(VULKAN_HOST_TAIL);
    code
}

/// `shader_code` under a banner naming `device_info`.
pub fn optimize_for_device(shader_code: &str, device_info: &str) -> (result: GpuResult<String>)
    ensures
        result matches Ok(code) && code@ == DEVICE_BANNER@ + device_info@ + NEWLINE@ + shader_code@,
{
    let mut code = String::from_str(DEVICE_BANNER);
    code.append(device_info);
    code.append(NEWLINE);
    code.append(shader_code);
    Ok(code)
}

} // verus!
