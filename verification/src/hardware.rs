//! Hardware: cores, memory, packets and workers.

pub mod core_pinner;
pub mod cpu_governor;
pub mod ebpf_filter;
pub mod hugetlb_fs;
pub mod numa_allocator;
pub mod thread_pool;
