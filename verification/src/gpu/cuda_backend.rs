//! The CUDA backend: kernel source, architecture tuning, and PTX.

use vstd::prelude::*;
use vstd::string::*;

use super::templates::{
    cuda_kernel_text, CUDA_KERNEL_BODY, CUDA_KERNEL_SIGNATURE, CUDA_LAUNCHER_BODY, CUDA_LAUNCHER_SIGNATURE,
    CUDA_PREAMBLE, PTX_SOURCE,
};
use super::GpuResult;

verus! {

/// The comment line an architecture-tuned kernel starts with, before the capability.
pub const ARCHITECTURE_BANNER: &'static str = "// Optimized for compute capability ";

/// The line break after a banner.
pub const NEWLINE: &'static str = "\n";

/// Whether `text` occurs in `s`.
pub open spec fn contains_text(s: Seq<char>, text: Seq<char>) -> bool {
    exists|i: int| 0 <= i && i + text.len() <= s.len() && #[trigger] s.subrange(i, i + text.len()) == text
}

/// Compile a kernel to its CUDA translation unit: the same text whatever the source,
/// declaring the device kernel and the host function that launches it.
pub fn compile_cuda_kernel(kernel_source: &str) -> (result: GpuResult<String>)
    ensures
        result matches Ok(code) && code@ == cuda_kernel_text(),
        result matches Ok(code) && contains_text(code@, CUDA_KERNEL_SIGNATURE@) && contains_text(
            code@,
            CUDA_LAUNCHER_SIGNATURE@,
        ),
{
    let mut code = String::from_str(CUDA_PREAMBLE);
    code.append(CUDA_KERNEL_SIGNATURE);
    code.append(CUDA_KERNEL_BODY);
    code.append(CUDA_LAUNCHER_SIGNATURE);
    code.append(CUDA_LAUNCHER_BODY);
    proof {
        let a = CUDA_PREAMBLE@;
        let b = CUDA_KERNEL_SIGNATURE@;
        let c = CUDA_KERNEL_BODY@;
        let d = CUDA_LAUNCHER_SIGNATURE@;
        let e = CUDA_LAUNCHER_BODY@;
        assert(code@ =~= a + b + c + d + e);
        assert(code@.subrange(a.len() as int, (a.len() + b.len()) as int) =~= b);
        let at: int = (a.len() + b.len() + c.len()) as int;
        assert(code@.subrange(at, at + d.len() as int) =~= d);
    }
    Ok(code)
}

/// `kernel_code` under a banner naming `compute_capability`.
pub fn optimize_for_architecture(kernel_code: &str, compute_capability: &str) -> (result:
    GpuResult<String>)
    ensures
        result matches Ok(code) && code@ == ARCHITECTURE_BANNER@ + compute_capability@ + NEWLINE@
            + kernel_code@,
{
    let mut code = String::from_str(ARCHITECTURE_BANNER);
    code.append(compute_capability);
    code.append(NEWLINE);
    code.append(kernel_code);
    Ok(code)
}

/// Compile CUDA source to PTX assembly.
pub fn compile_to_ptx(cuda_source: &str) -> (result: GpuResult<String>)
    ensures
        result matches Ok(code) && code@ == PTX_SOURCE@,
{
    Ok(String::from_str(PTX_SOURCE))
}

} // verus!
