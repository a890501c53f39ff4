//! The fixed text of the generated GPU sources, split where a name or a number goes in.

use vstd::prelude::*;

verus! {

/// The CUDA translation unit up to the kernel's signature.
pub const CUDA_PREAMBLE: &'static str = r#"
#include <cuda_runtime.h>
#include <device_launch_parameters.h>

// Generated CUDA kernel from NEURO source
"#;

/// The signature of the generated device kernel.
pub const CUDA_KERNEL_SIGNATURE: &'static str = "__global__ void neuro_kernel(float* input, float* output, int size)";

/// The kernel's body, up to the host launcher's signature.
pub const CUDA_KERNEL_BODY: &'static str = r#" {
    int idx = blockIdx.x * blockDim.x + threadIdx.x;
    if (idx < size) {
        // NEURO function logic would be translated here
        // For now, just a placeholder operation
        output[idx] = input[idx] * 2.0f;
    }
}

// Host wrapper function
extern "C" "#;

/// The signature of the host function that launches the kernel.
pub const CUDA_LAUNCHER_SIGNATURE: &'static str = "void launch_neuro_kernel(float* h_input, float* h_output, int size)";

/// The host launcher's body.
pub const CUDA_LAUNCHER_BODY: &'static str = r#" {
    float *d_input, *d_output;
    
    // Allocate GPU memory
    cudaMalloc(&d_input, size * sizeof(float));
    cudaMalloc(&d_output, size * sizeof(float));
    
    // Copy data to GPU
    cudaMemcpy(d_input, h_input, size * sizeof(float), cudaMemcpyHostToDevice);
    
    // Launch kernel
    int threadsPerBlock = 256;
    int blocksPerGrid = (size + threadsPerBlock - 1) / threadsPerBlock;
    neuro_kernel<<<blocksPerGrid, threadsPerBlock>>>(d_input, d_output, size);
    
    // Copy result back
    cudaMemcpy(h_output, d_output, size * sizeof(float), cudaMemcpyDeviceToHost);
    
    // Free GPU memory
    cudaFree(d_input);
    cudaFree(d_output);
    
    // Check for errors
    cudaError_t err = cudaGetLastError();
    if (err != cudaSuccess) {
        // Error handling would go here
    }
}
"#;

/// The CUDA translation unit every kernel compiles to.
pub open spec fn cuda_kernel_text() -> Seq<char> {
    CUDA_PREAMBLE@ + CUDA_KERNEL_SIGNATURE@ + CUDA_KERNEL_BODY@ + CUDA_LAUNCHER_SIGNATURE@ + CUDA_LAUNCHER_BODY@
}

/// The PTX every CUDA source compiles to.
pub const PTX_SOURCE: &'static str = r#"
.version 6.4
.target sm_50
.address_size 64

// Generated PTX from NEURO CUDA kernel
.visible .entry neuro_kernel(
    .param .u64 neuro_kernel_param_0,
    .param .u64 neuro_kernel_param_1,
    .param .u32 neuro_kernel_param_2
) {
    .reg .f32   %f<4>;
    .reg .b32   %r<8>;
    .reg .b64   %rd<8>;
    
    ld.param.u64    %rd1, [neuro_kernel_param_0];
    ld.param.u64    %rd2, [neuro_kernel_param_1];
    ld.param.u32    %r1, [neuro_kernel_param_2];
    
    mov.u32         %r2, %ctaid.x;
    mov.u32         %r3, %ntid.x;
    mov.u32         %r4, %tid.x;
    mad.lo.s32      %r5, %r3, %r2, %r4;
    setp.ge.s32     %p1, %r5, %r1;
    @%p1 bra        BB0_2;
    
    cvta.to.global.u64      %rd3, %rd1;
    mul.wide.s32    %rd4, %r5, 4;
    add.s64         %rd5, %rd3, %rd4;
    ld.global.f32   %f1, [%rd5];
    
    add.f32         %f2, %f1, %f1;
    
    cvta.to.global.u64      %rd6, %rd2;
    add.s64         %rd7, %rd6, %rd4;
    st.global.f32   [%rd7], %f2;
    
BB0_2:
    ret;
}
"#;

/// The GLSL compute shader every kernel compiles to.
pub const GLSL_COMPUTE_SHADER: &'static str = r#"
#version 450

layout(local_size_x = 256, local_size_y = 1, local_size_z = 1) in;

layout(set = 0, binding = 0) buffer InputBuffer {
    float input_data[];
};

layout(set = 0, binding = 1) buffer OutputBuffer {
    float output_data[];
};

layout(set = 0, binding = 2) uniform UniformBuffer {
    uint size;
};

void main() {
    uint index = gl_GlobalInvocationID.x;
    
    if (index >= size) {
        return;
    }
    
    // NEURO function logic would be translated here
    // For now, just a placeholder operation  
    output_data[index] = input_data[index] * 2.0;
}
"#;

/// The Vulkan host class, around the kernel name. (part 1 of 2)
pub const VULKAN_HOST_HEAD: &'static str = r#"
// Vulkan host code for kernel: "#;

/// The Vulkan host class, around the kernel name. (part 2 of 2)
pub const VULKAN_HOST_TAIL: &'static str = r#"
#include <vulkan/vulkan.h>
#include <vector>
#include <iostream>

class NeuroVulkanKernel {
public:
    VkDevice device;
    VkCommandPool commandPool;
    VkDescriptorPool descriptorPool;
    VkDescriptorSetLayout descriptorSetLayout;
    VkPipelineLayout pipelineLayout;
    VkPipeline computePipeline;
    VkShaderModule shaderModule;
    
    bool initialize(VkDevice dev, const std::vector<uint8_t>& spirvCode) {
        device = dev;
        
        // Create shader module
        VkShaderModuleCreateInfo shaderCreateInfo = {};
        shaderCreateInfo.sType = VK_STRUCTURE_TYPE_SHADER_MODULE_CREATE_INFO;
        shaderCreateInfo.codeSize = spirvCode.size();
        shaderCreateInfo.pCode = reinterpret_cast<const uint32_t*>(spirvCode.data());
        
        if (vkCreateShaderModule(device, &shaderCreateInfo, nullptr, &shaderModule) != VK_SUCCESS) {
            return false;
        }
        
        // Set up descriptor set layout
        VkDescriptorSetLayoutBinding bindings[3];
        
        // Input buffer
        bindings[0].binding = 0;
        bindings[0].descriptorType = VK_DESCRIPTOR_TYPE_STORAGE_BUFFER;
        bindings[0].descriptorCount = 1;
        bindings[0].stageFlags = VK_SHADER_STAGE_COMPUTE_BIT;
        
        // Output buffer  
        bindings[1].binding = 1;
        bindings[1].descriptorType = VK_DESCRIPTOR_TYPE_STORAGE_BUFFER;
        bindings[1].descriptorCount = 1;
        bindings[1].stageFlags = VK_SHADER_STAGE_COMPUTE_BIT;
        
        // Uniform buffer
        bindings[2].binding = 2;
        bindings[2].descriptorType = VK_DESCRIPTOR_TYPE_UNIFORM_BUFFER;
        bindings[2].descriptorCount = 1;
        bindings[2].stageFlags = VK_SHADER_STAGE_COMPUTE_BIT;
        
        VkDescriptorSetLayoutCreateInfo layoutInfo = {};
        layoutInfo.sType = VK_STRUCTURE_TYPE_DESCRIPTOR_SET_LAYOUT_CREATE_INFO;
        layoutInfo.bindingCount = 3;
        layoutInfo.pBindings = bindings;
        
        if (vkCreateDescriptorSetLayout(device, &layoutInfo, nullptr, &descriptorSetLayout) != VK_SUCCESS) {
            return false;
        }
        
        // Create compute pipeline
        VkComputePipelineCreateInfo pipelineInfo = {};
        pipelineInfo.sType = VK_STRUCTURE_TYPE_COMPUTE_PIPELINE_CREATE_INFO;
        pipelineInfo.stage.sType = VK_STRUCTURE_TYPE_PIPELINE_SHADER_STAGE_CREATE_INFO;
        pipelineInfo.stage.stage = VK_SHADER_STAGE_COMPUTE_BIT;
        pipelineInfo.stage.module = shaderModule;
        pipelineInfo.stage.pName = "main";
        pipelineInfo.layout = pipelineLayout;
        
        if (vkCreateComputePipelines(device, VK_NULL_HANDLE, 1, &pipelineInfo, nullptr, &computePipeline) != VK_SUCCESS) {
            return false;
        }
        
        return true;
    }
    
    void execute(VkBuffer inputBuffer, VkBuffer outputBuffer, VkBuffer uniformBuffer, uint32_t size) {
        // Implementation would dispatch compute shader with buffers
        // This is a placeholder for the full Vulkan dispatch code
    }
    
    ~NeuroVulkanKernel() {
        if (device) {
            vkDestroyShaderModule(device, shaderModule, nullptr);
            vkDestroyPipeline(device, computePipeline, nullptr);
            vkDestroyPipelineLayout(device, pipelineLayout, nullptr);
            vkDestroyDescriptorSetLayout(device, descriptorSetLayout, nullptr);
        }
    }
};
"#;

/// The CUDA launch wrapper, around four copies of the kernel name. (part 1 of 5)
pub const CUDA_WRAPPER_0: &'static str = r#"
// CUDA kernel wrapper for "#;

/// The CUDA launch wrapper, around four copies of the kernel name. (part 2 of 5)
pub const CUDA_WRAPPER_1: &'static str = r#"
extern "C" __global__ void "#;

/// The CUDA launch wrapper, around four copies of the kernel name. (part 3 of 5)
pub const CUDA_WRAPPER_2: &'static str = r#"_cuda_kernel() {
    // Kernel implementation will be generated here
    int idx = blockIdx.x * blockDim.x + threadIdx.x;
    // Call original NEURO function logic
}

// Host launch function
void launch_"#;

/// The CUDA launch wrapper, around four copies of the kernel name. (part 4 of 5)
pub const CUDA_WRAPPER_3: &'static str = r#"(int grid_size, int block_size) {
    "#;

/// The CUDA launch wrapper, around four copies of the kernel name. (part 5 of 5)
pub const CUDA_WRAPPER_4: &'static str = r#"_cuda_kernel<<<grid_size, block_size>>>();
    cudaDeviceSynchronize();
}
"#;

/// The Vulkan compute wrapper, around the name and the three block extents. (part 1 of 5)
pub const VULKAN_WRAPPER_0: &'static str = r#"
// Vulkan compute shader for "#;

/// The Vulkan compute wrapper, around the name and the three block extents. (part 2 of 5)
pub const VULKAN_WRAPPER_1: &'static str = r#"
#version 450

layout(local_size_x = "#;

/// The Vulkan compute wrapper, around the name and the three block extents. (part 3 of 5)
pub const VULKAN_WRAPPER_2: &'static str = r#", local_size_y = "#;

/// The Vulkan compute wrapper, around the name and the three block extents. (part 4 of 5)
pub const VULKAN_WRAPPER_3: &'static str = r#", local_size_z = "#;

/// The Vulkan compute wrapper, around the name and the three block extents. (part 5 of 5)
pub const VULKAN_WRAPPER_4: &'static str = r#") in;

layout(set = 0, binding = 0) buffer InputBuffer {
    float input_data[];
};

layout(set = 0, binding = 1) buffer OutputBuffer {
    float output_data[];
};

void main() {
    uint index = gl_GlobalInvocationID.x;
    // Kernel implementation will be generated here
    // Call original NEURO function logic
}
"#;

} // verus!
