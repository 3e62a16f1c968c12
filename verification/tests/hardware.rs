use std::cell::Cell;
use std::rc::Rc;

use trading_core::hardware::core_pinner::{cpu_list, is_cpu_online, CorePinner, CpuSet};
use trading_core::hardware::cpu_governor::CpuGovernor;
use trading_core::hardware::ebpf_filter::EbpfFilter;
use trading_core::hardware::hugetlb_fs::{HugeTlbAllocator, HUGE_PAGE_SIZE};
use trading_core::hardware::numa_allocator::{
    detect_numa_nodes, get_node_for_cpu, NumaAllocator, MAX_NUMA_NODES,
};
use trading_core::hardware::thread_pool::{ThreadPool, WorkQueue};

#[test]
fn test_cpu_set_creation() {
    let set = CpuSet::new();
    assert!(!set.is_set(0));

    let single = CpuSet::single(4);
    assert!(single.is_set(4));
    assert!(!single.is_set(5));
}

#[test]
fn test_cpu_set_operations() {
    let mut set = CpuSet::new();

    set.set(0);
    set.set(1);
    set.set(64);

    assert!(set.is_set(0));
    assert!(set.is_set(1));
    assert!(set.is_set(64));
    assert!(!set.is_set(2));

    set.clear(1);
    assert!(!set.is_set(1));
}

#[test]
fn set_has_one_bit_for_each_core() {
    let mut set = CpuSet::new();
    set.set(65);
    set.set(300);
    assert_eq!(set.as_ptr(), &[0, 2, 0, 0]);
    assert_eq!(CpuSet::size(), core::mem::size_of::<CpuSet>());
    assert!(!set.is_set(300));
}

#[test]
fn test_core_pinner_creation() {
    let pinner = CorePinner::new(&CpuSet::single(0));
    assert!(!pinner.is_pinned());
    assert!(pinner.current_cpu().is_none());
}

#[test]
fn isolated_cores_are_reserved() {
    let mut online = CpuSet::new();
    for c in 0..4 {
        online.set(c);
    }
    let mut pinner = CorePinner::new(&online);
    pinner.isolate_cpus(&[2, 3]);
    assert_eq!(pinner.available_cpus(), vec![0, 1]);
    assert_eq!(pinner.isolated_cpus(), vec![2, 3]);
    assert!(!pinner.pin_to_isolated(1, true));
    assert!(!pinner.pin_current(9, true));
    assert!(!pinner.pin_current(2, false));
    assert!(pinner.pin_to_isolated(2, true));
    assert_eq!(pinner.current_cpu(), Some(2));
    pinner.unpin_current();
    assert!(!pinner.is_pinned());
}

#[test]
fn core_zero_is_always_online() {
    assert!(is_cpu_online(0, None));
    assert!(!is_cpu_online(1, None));
    assert!(is_cpu_online(1, Some(b"1\n")));
    assert!(is_cpu_online(1, Some(b" 1")));
    assert!(!is_cpu_online(0, Some(b"0\n")));
    assert!(!is_cpu_online(0, Some(b"11")));
    assert!(!is_cpu_online(0, Some(b"")));
}

#[test]
fn core_list_joins_runs() {
    let mut set = CpuSet::new();
    assert_eq!(cpu_list(&set), b"");
    for c in [0, 2, 3, 4, 100, 254, 255] {
        set.set(c);
    }
    assert_eq!(cpu_list(&set), b"0,2-4,100,254-255");
}

#[test]
fn governor_locks_only_when_active() {
    let mut governor = CpuGovernor::new(3);
    assert!(!governor.lock_to_performance(3_000));
    governor.activate();
    assert!(governor.is_active());
    assert!(governor.lock_to_performance(3_000));
    assert!(governor.is_locked());
    assert_eq!(governor.current_freq, 3_000);
    governor.unlock();
    assert!(!governor.is_locked());
}

#[test]
fn close_packets_are_dropped() {
    let mut filter = EbpfFilter::new();
    assert!(filter.filter_packet(1));
    filter.activate();
    assert!(filter.is_active());
    assert!(filter.filter_packet(5_000));
    assert!(!filter.filter_packet(5_999));
    assert!(!filter.filter_packet(6_500));
    assert!(filter.filter_packet(7_500));
    assert_eq!(filter.packet_count, 4);
    assert_eq!(filter.dropped_count, 2);
}

#[test]
fn huge_pages_are_whole() {
    let mut pages = HugeTlbAllocator::new(3);
    assert!(pages.allocate(1).is_none());
    pages.activate();
    assert!(pages.is_active());
    assert!(pages.allocate(1).is_none());
    pages.base = 1 << 30;
    assert_eq!(pages.allocate(1), Some(1 << 30));
    assert_eq!(pages.allocate(HUGE_PAGE_SIZE + 1), Some((1 << 30) + HUGE_PAGE_SIZE));
    assert_eq!(pages.allocate(1), None);
}

#[test]
fn test_numa_allocator_creation() {
    let allocator = NumaAllocator::new();
    assert!(allocator.node_count(&Vec::new()) >= 1);
}

#[test]
fn test_default_node() {
    let mut allocator = NumaAllocator::new();
    assert_eq!(allocator.default_node(), 0);

    allocator.set_default_node(0);
    assert_eq!(allocator.default_node(), 0);
}

#[test]
fn test_detect_numa_nodes() {
    let names = vec![b"node0".to_vec(), b"online".to_vec(), b"node1".to_vec(), b"nod".to_vec()];
    let count = detect_numa_nodes(&names);
    assert!(count >= 1);
    assert!(count <= MAX_NUMA_NODES);
    assert_eq!(count, 2);
}

#[test]
fn node_pools_are_separate() {
    let mut allocator = NumaAllocator::new();
    assert_eq!(allocator.allocate(8, 8), None);
    assert!(!allocator.init_node(8, 100, Some(1)));
    assert!(!allocator.init_node(1, 100, None));
    assert!(allocator.init_node(1, 100, Some(0x1000)));
    assert_eq!(allocator.allocate_on_node(1, 10, 1), Some(0x1000));
    assert_eq!(allocator.allocate_on_node(1, 10, 64), Some(0x1040));
    assert_eq!(allocator.allocate_on_node(1, 27, 1), None);
    assert_eq!(allocator.total_allocated(), 20);
    allocator.set_default_node(1);
    allocator.set_default_node(8);
    assert_eq!(allocator.default_node(), 1);
    allocator.reset_node(1);
    assert_eq!(allocator.allocate(100, 1), Some(0x1000));
}

#[test]
fn node_of_a_core_is_read() {
    assert_eq!(get_node_for_cpu(None), 0);
    assert_eq!(get_node_for_cpu(Some(b"3\n")), 3);
    assert_eq!(get_node_for_cpu(Some(b" \t+12 \n")), 12);
    assert_eq!(get_node_for_cpu(Some("\u{2003}\u{a0}7\u{3000}\n\u{85}".as_bytes())), 7);
    assert_eq!(get_node_for_cpu(Some("\u{200b}7".as_bytes())), 0);
    assert_eq!(get_node_for_cpu(Some(b"")), 0);
    assert_eq!(get_node_for_cpu(Some(b"+")), 0);
    assert_eq!(get_node_for_cpu(Some(b"1x")), 0);
    assert_eq!(get_node_for_cpu(Some(b"99999999999999999999999")), 0);
}

#[test]
fn test_thread_pool_creation() {
    let pool = ThreadPool::<u8>::new(4, 8);
    assert_eq!(pool.worker_count, 4);
    assert!(!pool.is_shutdown());
}

#[test]
fn test_work_queue() {
    let mut queue: WorkQueue<Box<dyn FnOnce()>> = WorkQueue::new();

    let counter = Rc::new(Cell::new(0));
    let counter_clone = counter.clone();

    let task = Box::new(move || {
        counter_clone.set(counter_clone.get() + 1);
    });

    assert!(queue.push(task));
    assert_eq!(queue.len(), 1);

    let popped = queue.pop();
    assert!(popped.is_some());
    popped.unwrap()();

    assert_eq!(counter.get(), 1);
    assert!(queue.is_empty());
}

#[test]
fn queue_is_bounded_and_first_in_first_out() {
    let mut queue = WorkQueue::new();
    for i in 0..1024 {
        assert!(queue.push(i));
    }
    assert!(!queue.push(1024));
    for i in 0..1024 {
        assert_eq!(queue.pop(), Some(i));
    }
    assert_eq!(queue.pop(), None);
}

#[test]
fn tasks_go_to_the_workers_in_turn() {
    let mut pool = ThreadPool::new(2, 3);
    assert_eq!(pool.workers[4].core_id, 1);
    for i in 0..3 {
        assert!(pool.submit(i));
    }
    assert_eq!(pool.pending_tasks(), 3);
    assert_eq!(pool.spawn_workers(), vec![0, 1]);
    assert_eq!(pool.take_task(1), Some(1));
    assert_eq!(pool.take_task(1), Some(0));
    assert_eq!(pool.take_task(0), Some(2));
    assert_eq!(pool.take_task(0), None);
    assert_eq!(pool.total_executed(), 3);
    assert!(!pool.submit_to(2, 9));
    assert!(pool.submit_to(1, 9));
    assert_eq!(pool.take_task(0), None);
    pool.shutdown();
    assert!(pool.is_shutdown());
    assert!(!pool.submit(5));
    assert!(!pool.workers[0].running);
}
