use kernel::arch::amd64::cpu::{get_cpu_tls, setup_tls, CpuData, CpuTable};
use kernel::arch::amd64::gdt::{setup_gdt, KERNEL_CS, KERNEL_DS, USER_CS, USER_DS};
use kernel::arch::amd64::idt::{setup_idt, Gate, Handler};
use kernel::arch::amd64::lapic::{
    current_lapic, end_timer_interrupt, lapic_phys_addr, setup_lapic_timer, Lapic, RegisterWrite,
};
use kernel::boot::{bootstrap_cpu, cpu_role, CpuRole};
use kernel::memory::PhysicalMemory;
use kernel::sched::thread::{SchedState, Stack, Thread, ThreadState};
use x86_64::structures::gdt::SegmentSelector;
use x86_64::PrivilegeLevel;

fn thread(id: u64) -> Thread {
    Thread {
        regs: 0x9000 - 160,
        id,
        kernel_stack: Stack { base: 0x8000, size: 0x1000 },
        sched_state: SchedState { cpu: None, state: ThreadState::Ready },
    }
}

fn write(address: u64, value: u32) -> RegisterWrite {
    RegisterWrite { address, value }
}

#[test]
fn gdt_holds_the_flat_segments() {
    let gdt = setup_gdt();
    let raw: Vec<u64> = gdt.entries().iter().map(|entry| entry.raw()).collect();
    assert_eq!(
        raw,
        [
            0,
            0x00af_9b00_0000_ffff,
            0x00cf_9300_0000_ffff,
            0x00cf_f300_0000_ffff,
            0x00af_fb00_0000_ffff
        ]
    );
}

#[test]
fn selectors_are_those_of_the_table() {
    assert_eq!(SegmentSelector::new(1, PrivilegeLevel::Ring0).0, KERNEL_CS);
    assert_eq!(SegmentSelector::new(2, PrivilegeLevel::Ring0).0, KERNEL_DS);
    assert_eq!(SegmentSelector::new(3, PrivilegeLevel::Ring3).0, USER_DS);
    assert_eq!(SegmentSelector::new(4, PrivilegeLevel::Ring3).0, USER_CS);
}

#[test]
fn idt_handles_breakpoints_page_faults_and_the_timer() {
    assert_eq!(
        setup_idt(),
        [
            Gate { vector: 3, handler: Handler::Breakpoint, ring: 3 },
            Gate { vector: 14, handler: Handler::PageFault, ring: 0 },
            Gate { vector: 32, handler: Handler::Timer, ring: 0 },
        ]
    );
}

#[test]
fn lapic_address_drops_the_flags() {
    assert_eq!(lapic_phys_addr(0xfee0_0900), 0xfee0_0000);
    assert_eq!(lapic_phys_addr(0xfff), 0);
    let mut memory = PhysicalMemory::new();
    memory.hhdm_offset = 0xffff_8000_0000_0000;
    assert_eq!(current_lapic(&memory, 0xfee0_0900), Lapic::new(0xffff_8000_fee0_0000));
}

#[test]
fn lapic_registers() {
    let lapic = Lapic::new(0x1000);
    assert_eq!(lapic.read(0xf0), 0x10f0);
    assert_eq!(lapic.write(0x380, 5), write(0x1380, 5));
    assert_eq!(lapic.send_eoi(), write(0x10b0, 0));
}

#[test]
fn timer_is_enabled_and_started() {
    let lapic = Lapic::new(0x1000);
    assert_eq!(
        setup_lapic_timer(&lapic, 0x2f),
        [write(0x10f0, 0x12f), write(0x13e0, 3), write(0x1320, 32), write(0x1380, 0xfff)]
    );
    assert_eq!(setup_lapic_timer(&lapic, 0x12f)[0], write(0x10f0, 0x12f));
    assert_eq!(end_timer_interrupt(&lapic), [write(0x1380, 0xfff), write(0x10b0, 0)]);
}

#[test]
fn cpus_are_found_once_they_are_set_up() {
    let mut table = CpuTable::new();
    assert_eq!(get_cpu_tls(&table, 0), None);
    assert_eq!(get_cpu_tls(&table, 256), None);
    assert_eq!(get_cpu_tls(&table, u32::MAX), None);
    let mut tls = setup_tls(&mut table, 255, 0xabc000, thread(0));
    assert_eq!(get_cpu_tls(&table, 255), Some(0xabc000));
    assert_eq!(get_cpu_tls(&table, 254), None);
    assert_eq!(table.cpus[255], CpuData { online: true, tls: 0xabc000 });
    assert_eq!(tls.cpu_id, 255);
    assert_eq!((tls.idt_addr, tls.gdt_addr, tls.thread_addr), (0, 0, 0));
    assert_eq!(tls.idle_thread.id, 0);
    assert_eq!(tls.ready_queue.len(), 0);
    assert_eq!(tls.ready_queue.pop(), None);
}

#[test]
fn bootstrap_cpu_is_told_by_its_controller() {
    assert_eq!(cpu_role(3, 3), CpuRole::Bootstrap);
    assert_eq!(cpu_role(4, 3), CpuRole::Application);
}

#[test]
fn last_matching_cpu_goes_on() {
    assert_eq!(bootstrap_cpu(&[5, 3, 7], 3), Some(1));
    assert_eq!(bootstrap_cpu(&[3, 5, 3, 7], 3), Some(2));
    assert_eq!(bootstrap_cpu(&[5, 7], 3), None);
    assert_eq!(bootstrap_cpu(&[], 3), None);
}
