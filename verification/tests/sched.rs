use kernel::arch::amd64::cpu::{setup_tls, CpuTable, TlsData};
use kernel::memory::addr::VirtAddr;
use kernel::memory::frame::FrameAllocError;
use kernel::memory::layout::{MemoryMapEntry, MetadataLayout};
use kernel::memory::region::MemoryRegion;
use kernel::memory::{init, PhysicalMemory};
use kernel::sched::queue::Queue;
use kernel::sched::thread::{
    CpuRegsOnStack, SchedState, Stack, Thread, ThreadIds, ThreadState, ThreadTable, REGS_SIZE,
};
use kernel::sched::{
    do_load_balance, get_random_online_cpu, maybe_load_balance, switch, BalanceAction,
};
use kernel::util::random_u64;

const HHDM: u64 = 0xffff_8000_0000_0000;

/// Physical memory with `frames` free frames from 0x10_1000 on.
fn memory(frames: u64) -> PhysicalMemory<'static> {
    let entries =
        [MemoryMapEntry { base: 0x10_0000, length: (frames + 1) * 4096, usable: true }];
    let layout = MetadataLayout::plan(&entries, HHDM).unwrap();
    let place = layout.placement(&entries, 0);
    let data = Box::leak(vec![0u8; place.bitmap_bytes].into_boxed_slice());
    let region = MemoryRegion::new(place.entry.base, place.entry.length, data);
    let mut memory = PhysicalMemory::new();
    init(&mut memory, HHDM, Box::leak(vec![region].into_boxed_slice()), &layout);
    memory
}

fn thread(id: u64) -> Thread {
    Thread {
        regs: 0,
        id,
        kernel_stack: Stack { base: 0x8000, size: 0x1000 },
        sched_state: SchedState { cpu: None, state: ThreadState::Born },
    }
}

fn cpu(id: u32, ready: &[u64]) -> TlsData {
    let mut tls = setup_tls(&mut CpuTable::new(), id, 0, thread(0));
    for addr in ready {
        tls.ready_queue.push(*addr).unwrap();
    }
    tls
}

fn queue(items: &[u64]) -> Queue<u64> {
    let mut queue = Queue::new();
    for item in items {
        queue.push(*item).unwrap();
    }
    queue
}

fn drain(queue: &mut Queue<u64>) -> Vec<u64> {
    let mut items = Vec::new();
    while let Some(item) = queue.pop() {
        items.push(item);
    }
    items
}

#[test]
fn queue_is_first_in_first_out() {
    let mut queue = Queue::new();
    assert_eq!(queue.pop(), None::<String>);
    queue.push("a".to_string()).unwrap();
    queue.push("b".to_string()).unwrap();
    assert_eq!(queue.len(), 2);
    assert_eq!(queue.pop(), Some("a".to_string()));
    queue.push("c".to_string()).unwrap();
    assert_eq!(queue.pop(), Some("b".to_string()));
    assert_eq!(queue.pop(), Some("c".to_string()));
    assert_eq!(queue.pop(), None);
    assert_eq!(queue.len(), 0);
}

#[test]
fn queue_wraps_around_and_refuses_when_full() {
    let mut queue = Queue::new();
    for i in 0..200u64 {
        queue.push(i).unwrap();
    }
    for i in 0..150 {
        assert_eq!(queue.pop(), Some(i));
    }
    for i in 200..406 {
        assert_eq!(queue.push(i), Ok(()));
    }
    assert_eq!(queue.len(), 256);
    assert_eq!(queue.push(1000), Err(1000));
    assert_eq!(queue.len(), 256);
    for i in 150..406 {
        assert_eq!(queue.pop(), Some(i));
    }
    assert_eq!(queue.pop(), None);
}

#[test]
fn registers_of_a_new_thread() {
    let regs = CpuRegsOnStack::new_inside_kernel(0x1234, 0x9000);
    assert_eq!((regs.rip, regs.rsp, regs.rbp), (0x1234, 0x9000, 0x9000));
    assert_eq!((regs.cs, regs.ss, regs.rflags), (8, 16, 0x202));
    assert_eq!((regs.rdi, regs.rsi, regs.rdx, regs.rcx, regs.rax), (0, 0, 0, 0, 0));
    assert_eq!((regs.r8, regs.r9, regs.r10, regs.r11, regs.rbx), (0, 0, 0, 0, 0));
    assert_eq!((regs.r12, regs.r13, regs.r14, regs.r15), (0, 0, 0, 0));
    assert_eq!(core::mem::size_of::<CpuRegsOnStack>() as u64, REGS_SIZE);
}

#[test]
fn stacks_come_from_the_frame_allocator() {
    let mut memory = memory(6);
    let stack = Stack::new(&mut memory, 2).unwrap();
    assert_eq!(stack, Stack { base: HHDM + 0x10_1000, size: 0x2000 });
    assert_eq!(stack.get_top_address(), HHDM + 0x10_3000);
    assert_eq!(Stack::new(&mut memory, 5), Err(FrameAllocError::OutOfMemory));
    assert_eq!(Stack::new(&mut memory, 4).unwrap().base, HHDM + 0x10_3000);
    assert_eq!(
        Stack::new(&mut PhysicalMemory::new(), 1),
        Err(FrameAllocError::NotInitialized)
    );
}

#[test]
fn idle_thread_is_ready_from_the_start() {
    let mut memory = memory(1);
    let (thread, regs) = Thread::new_idle(&mut memory, 0x4444).unwrap();
    let top = HHDM + 0x10_2000;
    assert_eq!(thread.id, 0);
    assert_eq!(thread.regs, top - 160);
    assert_eq!(thread.kernel_stack, Stack { base: HHDM + 0x10_1000, size: 4096 });
    assert_eq!(thread.sched_state, SchedState { cpu: None, state: ThreadState::Ready });
    assert_eq!(regs, CpuRegsOnStack::new_inside_kernel(0x4444, top));
    assert!(matches!(
        Thread::new_idle(&mut memory, 0x4444),
        Err(FrameAllocError::OutOfMemory)
    ));
}

#[test]
fn spawned_thread_is_in_the_table() {
    let mut memory = memory(8);
    let mut table = ThreadTable::new();
    let mut ids = ThreadIds { last: 6 };
    assert!(table.get_thread_mut(7).is_none());
    let spawned =
        Thread::spawn_raw(&mut memory, &mut table, &mut ids, 0x5555, 0x77).unwrap().unwrap();
    let top = HHDM + 0x10_5000;
    assert_eq!(spawned.id, 7);
    assert_eq!(spawned.regs_addr, top - 160);
    let mut expected = CpuRegsOnStack::new_inside_kernel(0x5555, top);
    expected.rdi = 0x77;
    assert_eq!(spawned.regs, expected);

    let thread = table.get_thread_mut(7).unwrap();
    assert_eq!(thread.id, 7);
    assert_eq!(thread.regs, spawned.regs_addr);
    assert_eq!(thread.kernel_stack, Stack { base: HHDM + 0x10_1000, size: 4 * 4096 });
    assert_eq!(thread.sched_state, SchedState { cpu: None, state: ThreadState::Born });

    let mut ready = Queue::new();
    assert!(!table.make_ready(8, 0xdead0, 3, &mut ready));
    assert_eq!(ready.len(), 0);
    assert!(table.make_ready(7, 0xdead0, 3, &mut ready));
    assert_eq!(
        table.get_thread_mut(7).unwrap().sched_state,
        SchedState { cpu: Some(3), state: ThreadState::Ready }
    );
    assert_eq!(drain(&mut ready), [0xdead0]);

    let second =
        Thread::spawn_raw(&mut memory, &mut table, &mut ids, 0x5555, 0).unwrap().unwrap();
    assert_eq!(second.id, 8);
    assert!(matches!(
        Thread::spawn_raw(&mut memory, &mut table, &mut ids, 0x5555, 0),
        Err(FrameAllocError::OutOfMemory)
    ));
    assert_eq!(ids.last, 9);
    assert!(table.get_thread_mut(9).is_none());
}

#[test]
fn ids_start_at_one_and_grow() {
    let mut ids = ThreadIds::new();
    assert_eq!(ids.next(), 1);
    assert_eq!(ids.next(), 2);
    assert_eq!(ids.last, 2);
}

#[test]
fn ready_takes_the_last_place_of_the_queue() {
    let mut ready = Queue::new();
    for i in 0..255 {
        ready.push(i).unwrap();
    }
    let mut thread = thread(4);
    thread.ready(0xbeef0, 1, &mut ready);
    assert_eq!(thread.sched_state, SchedState { cpu: Some(1), state: ThreadState::Ready });
    assert_eq!((thread.id, thread.regs), (4, 0));
    assert_eq!(ready.len(), 256);
    assert_eq!(drain(&mut ready).last(), Some(&0xbeef0));
}

#[test]
fn table_is_filled_from_the_front() {
    let mut memory = memory(4);
    let mut table = ThreadTable::new();
    for id in 0..256 {
        assert!(table.add_thread(thread(id)));
    }
    assert!(!table.add_thread(thread(256)));
    assert!(table.get_thread_mut(256).is_none());
    assert_eq!(table.get_thread_mut(255).unwrap().id, 255);
    let mut ids = ThreadIds { last: 299 };
    assert_eq!(Thread::spawn_raw(&mut memory, &mut table, &mut ids, 1, 2), Ok(None));
    assert_eq!(ids.last, 300);
}

#[test]
fn first_thread_with_an_id_is_found() {
    let mut table = ThreadTable::new();
    let mut first = thread(5);
    first.regs = 1;
    let mut second = thread(5);
    second.regs = 2;
    assert!(table.add_thread(thread(4)));
    assert!(table.add_thread(first));
    assert!(table.add_thread(second));
    let found = table.get_thread_mut(5).unwrap();
    assert_eq!(found.regs, 1);
    found.regs = 3;
    assert_eq!(table.get_thread_mut(5).unwrap().regs, 3);
}

#[test]
fn closure_page() {
    let mut memory = memory(1);
    let place = Thread::closure_page(&mut memory, 4031).unwrap();
    assert_eq!(place.page, VirtAddr(HHDM + 0x10_1000));
    assert_eq!(place.closure_slot, HHDM + 0x10_1040);
    assert_eq!(Thread::closure_page(&mut memory, 0), Err(FrameAllocError::OutOfMemory));
}

#[test]
fn switch_runs_the_next_thread() {
    const IDLE: u64 = 0x100;
    let mut cpu = cpu(2, &[0x1, 0x2]);
    cpu.thread_addr = IDLE;
    switch(&mut cpu.ready_queue, &mut cpu.thread_addr, IDLE);
    assert_eq!(cpu.thread_addr, 0x1);
    assert_eq!(cpu.ready_queue.len(), 1);
    switch(&mut cpu.ready_queue, &mut cpu.thread_addr, IDLE);
    assert_eq!(cpu.thread_addr, 0x2);
    switch(&mut cpu.ready_queue, &mut cpu.thread_addr, IDLE);
    assert_eq!(cpu.thread_addr, 0x1);
    assert_eq!(drain(&mut cpu.ready_queue), [0x2]);
    // No thread is ready: the current one goes on.
    switch(&mut cpu.ready_queue, &mut cpu.thread_addr, IDLE);
    assert_eq!(cpu.thread_addr, 0x1);
    assert_eq!(cpu.cpu_id, 2);
}

#[test]
fn threads_take_turns() {
    let ready: Vec<u64> = (1..=256).collect();
    let mut cpu = cpu(0, &ready);
    cpu.thread_addr = 1000;
    for turn in 1..=256 {
        switch(&mut cpu.ready_queue, &mut cpu.thread_addr, 0);
        assert_eq!(cpu.thread_addr, turn);
    }
    switch(&mut cpu.ready_queue, &mut cpu.thread_addr, 0);
    assert_eq!(cpu.thread_addr, 1000);
    assert_eq!(drain(&mut cpu.ready_queue), ready);
}

#[test]
fn load_is_balanced_by_moving_half_of_the_difference() {
    let mut a = queue(&[1, 2, 3, 4, 5]);
    let mut b = queue(&[9]);
    let moved = do_load_balance(&mut a, &mut b, 3, 4).unwrap();
    assert_eq!((moved.from, moved.to, moved.count), (3, 4, 2));
    assert_eq!(moved.threads[..2], [1, 2]);
    let mut mover = thread(5);
    moved.hand_over(&mut mover);
    assert_eq!(mover.sched_state, SchedState { cpu: Some(4), state: ThreadState::Born });
    assert!(do_load_balance(&mut a, &mut b, 3, 4).is_none());
    assert_eq!(drain(&mut a), [3, 4, 5]);
    assert_eq!(drain(&mut b), [9, 1, 2]);
}

#[test]
fn load_is_balanced_in_both_directions() {
    let mut a = queue(&[]);
    let mut b = queue(&[1, 2, 3]);
    let moved = do_load_balance(&mut a, &mut b, 3, 4).unwrap();
    assert_eq!((moved.from, moved.to, moved.count), (4, 3, 1));
    assert_eq!(moved.threads[0], 1);
    assert_eq!(drain(&mut a), [1]);
    assert_eq!(drain(&mut b), [2, 3]);
}

#[test]
fn a_difference_of_one_is_balanced_enough() {
    let mut a = queue(&[1, 2]);
    let mut b = queue(&[3]);
    assert!(do_load_balance(&mut a, &mut b, 3, 4).is_none());
    assert!(do_load_balance(&mut b, &mut a, 4, 3).is_none());
    assert_eq!(drain(&mut a), [1, 2]);
    assert_eq!(drain(&mut b), [3]);
}

#[test]
fn a_full_queue_gives_half_away() {
    let all: Vec<u64> = (0..256).collect();
    let mut a = queue(&all);
    let mut b = queue(&[]);
    let moved = do_load_balance(&mut a, &mut b, 0, 1).unwrap();
    assert_eq!(moved.count, 128);
    assert_eq!(moved.threads[..], all[..128]);
    assert_eq!(drain(&mut a), all[128..]);
    assert_eq!(drain(&mut b), all[..128]);
}

#[test]
fn queues_are_locked_in_the_order_of_the_ids() {
    assert_eq!(maybe_load_balance(3, None), BalanceAction::Skip);
    assert_eq!(maybe_load_balance(3, Some(3)), BalanceAction::Skip);
    assert_eq!(maybe_load_balance(3, Some(4)), BalanceAction::OwnQueueFirst);
    assert_eq!(maybe_load_balance(4, Some(3)), BalanceAction::OtherQueueFirst);
}

#[test]
fn random_cpu_is_one_of_the_first_twelve() {
    let mut table = CpuTable::new();
    assert_eq!(get_random_online_cpu(&table, 1), None);
    for id in 0..12u32 {
        setup_tls(&mut table, id, 0x1000 * (id as u64 + 1), thread(0));
    }
    // 129 % 12 = 9
    assert_eq!(random_u64(1), 129);
    assert_eq!(get_random_online_cpu(&table, 1), Some(0xa000));
    for tsc in [0, 5, 1 << 40, u64::MAX] {
        let id = random_u64(tsc) as u32 % 12;
        assert_eq!(
            get_random_online_cpu(&table, tsc),
            Some(0x1000 * (id as u64 + 1))
        );
    }
}

#[test]
fn either_cpu_can_do_the_balancing() {
    let items: Vec<u64> = (1..=7).collect();
    let mut a = queue(&items);
    let mut b = queue(&[8, 9]);
    let mut c = queue(&items);
    let mut d = queue(&[8, 9]);
    let moved = do_load_balance(&mut a, &mut b, 0, 1).unwrap();
    let mirrored = do_load_balance(&mut d, &mut c, 1, 0).unwrap();
    assert_eq!((moved.from, moved.to, moved.count), (mirrored.from, mirrored.to, mirrored.count));
    assert_eq!(moved.threads, mirrored.threads);
    let (a, b) = (drain(&mut a), drain(&mut b));
    assert_eq!(a, drain(&mut c));
    assert_eq!(b, drain(&mut d));
    let mut all = [a, b].concat();
    all.sort();
    assert_eq!(all, (1..=9).collect::<Vec<u64>>());
}

#[test]
fn spawned_thread_is_handed_its_closure_page() {
    let mut memory = memory(9);
    let mut table = ThreadTable::new();
    let mut ids = ThreadIds::new();
    let (place, spawned) =
        Thread::spawn(&mut memory, &mut table, &mut ids, 0x5555, 100).unwrap();
    let spawned = spawned.unwrap();
    assert_eq!(place.page, VirtAddr(HHDM + 0x10_1000));
    assert_eq!(place.closure_slot, HHDM + 0x10_1040);
    assert_eq!(spawned.id, 1);
    assert_eq!(spawned.regs.rdi, place.page.0);
    assert_eq!(spawned.regs.rip, 0x5555);
    assert_eq!(spawned.regs_addr, HHDM + 0x10_6000 - 160);
    assert_eq!(table.get_thread_mut(1).unwrap().regs, spawned.regs_addr);

    // Four frames are left: one for the page, too few for the stack.
    assert_eq!(
        Thread::spawn(&mut memory, &mut table, &mut ids, 0x5555, 100),
        Err(FrameAllocError::OutOfMemory)
    );
    assert_eq!(ids.last, 2);
}

#[test]
fn full_table_still_gives_the_closure_page() {
    let mut memory = memory(5);
    let mut table = ThreadTable::new();
    for id in 0..256 {
        assert!(table.add_thread(thread(id)));
    }
    let mut ids = ThreadIds { last: 255 };
    let (place, spawned) =
        Thread::spawn(&mut memory, &mut table, &mut ids, 0x5555, 100).unwrap();
    assert_eq!(place.page, VirtAddr(HHDM + 0x10_1000));
    assert_eq!(spawned, None);
    assert_eq!(
        Thread::spawn(&mut memory, &mut table, &mut ids, 0x5555, 100),
        Err(FrameAllocError::OutOfMemory)
    );
    assert_eq!(ids.last, 256);
}
