use kernel_core::address::Frame;
use kernel_core::cell::{SyncOnceCell, SyncRefCell};
use kernel_core::cpuid::{cpu_features, cpuid, CPUFeatures, APIC, FPU, PBE, SSE3, X2APIC};
use kernel_core::frame_manager::FrameManager;
use kernel_core::global_memory::{
    global_free, global_freed, global_lock, global_lock_next, global_locked, global_memory,
    global_reserved, global_top_offset, global_total, init_global_memory, GlobalMemory,
};
use kernel_core::icr::{
    should_wake, wake_commands, DestinationShorthand, InterruptCommandRegister, ONLINE_CAPABLE,
    PROCESSOR_ENABLED,
};
use kernel_core::idt::{CallbackError, InterruptHandlers, InterruptOffset};
use kernel_core::ioapic::{
    DeliveryMode, DestinationMode, IoApic, Polarity, RedirectionEntry, TriggerMode,
};
use kernel_core::memory_map::{FrameType, MemoryAttributes, MemoryDescriptor, MemoryType};
use kernel_core::msix::{Data, Message, MessageControl, PendingBit, StandardRegister, MSIX};
use kernel_core::nvme_queue::{Command, Completion, CompletionQueue, SubmissionQueue};
use kernel_core::serial::{PortWrite, Serial, SerialPort, SerialSpeed, COM1};
use kernel_core::structures::{decode_selector_error, DescriptorTablePointer, IndexType};

#[test]
fn redirection_fields_are_read_from_their_bits() {
    let entry = RedirectionEntry::from_parts(0x0001_A931, 0xAB00_0000);
    assert_eq!(entry.get_vector(), 0x31);
    assert_eq!(entry.get_delivery_mode(), DeliveryMode::LowPriority);
    assert_eq!(entry.get_destination_mode(), DestinationMode::Logical);
    assert!(!entry.is_awaiting_delivery());
    assert_eq!(entry.get_pin_polarity(), Polarity::ActiveLow);
    assert_eq!(entry.get_trigger_mode(), TriggerMode::Level);
    assert!(entry.get_masked());
    assert_eq!(entry.get_destination_id(), 0xAB);
    assert_eq!(entry.to_parts(), (0x0001_A931, 0xAB00_0000));
    let pending = RedirectionEntry::from_parts(0x1000, 0);
    assert!(pending.is_awaiting_delivery());
    assert_eq!(pending.get_pin_polarity(), Polarity::ActiveHigh);
    assert_eq!(pending.get_trigger_mode(), TriggerMode::Edge);
    assert_eq!(pending.get_destination_mode(), DestinationMode::Physical);
    assert_eq!(pending.get_delivery_mode(), DeliveryMode::Fixed);
}

#[test]
fn redirection_setters_change_one_field() {
    let mut entry = RedirectionEntry::from_parts(0, 0);
    entry.set_vector(0x40);
    assert_eq!(entry.to_parts(), (0x40, 0));
    entry.set_delivery_mode(DeliveryMode::ExtINT);
    assert_eq!(entry.to_parts(), (0x740, 0));
    entry.set_destination_mode(DestinationMode::Logical);
    assert_eq!(entry.to_parts(), (0xF40, 0));
    entry.set_pin_polarity(Polarity::ActiveLow);
    assert_eq!(entry.to_parts(), (0x2F40, 0));
    entry.set_trigger_mode(TriggerMode::Level);
    assert_eq!(entry.to_parts(), (0xAF40, 0));
    entry.set_masked(true);
    assert_eq!(entry.to_parts(), (0x1_AF40, 0));
    entry.set_destination_id(0xFE);
    assert_eq!(entry.to_parts(), (0x1_AF40, 0xFE00_0000));
    entry.set_vector(0xFF);
    entry.set_delivery_mode(DeliveryMode::NMI);
    entry.set_destination_mode(DestinationMode::Physical);
    entry.set_pin_polarity(Polarity::SameAsBus);
    entry.set_trigger_mode(TriggerMode::SameAsBus);
    entry.set_masked(false);
    entry.set_destination_id(1);
    assert_eq!(entry.to_parts(), (0x4FF, 0x0100_0000));
    assert_eq!(entry.get_vector(), 0xFF);
    assert_eq!(entry.get_delivery_mode(), DeliveryMode::NMI);
    assert_eq!(entry.get_destination_id(), 1);
}

#[test]
fn delivery_modes_have_their_codes() {
    for (mode, code) in [
        (DeliveryMode::Fixed, 0u8),
        (DeliveryMode::LowPriority, 1),
        (DeliveryMode::SMI, 2),
        (DeliveryMode::NMI, 4),
        (DeliveryMode::INIT, 5),
        (DeliveryMode::StartUp, 6),
        (DeliveryMode::ExtINT, 7),
    ] {
        assert_eq!(mode.to_code(), code);
        assert_eq!(DeliveryMode::from_code(code), Some(mode));
    }
    assert_eq!(DeliveryMode::from_code(3), None);
    assert_eq!(DeliveryMode::from_code(8), None);
}

#[test]
fn a_controller_keeps_entries_in_register_pairs() {
    let registers = vec![0u32; 0x40];
    let mut apic = IoApic::new(0x0700_0000, 0x0017_0011, 8, registers).unwrap();
    assert_eq!(apic.get_id(), 7);
    assert_eq!(apic.get_version(), 0x11);
    assert_eq!(apic.handled_irqs(), (8, 32));
    let mut entry = RedirectionEntry::from_parts(0, 0);
    entry.set_vector(0x55);
    entry.set_destination_id(3);
    apic.set_redirection(9, entry);
    assert_eq!(apic.get_redirection(9), entry);
    assert_eq!(apic.get_redirection(9).to_parts(), (0x55, 0x0300_0000));
    assert_eq!(apic.get_redirection(8).to_parts(), (0, 0));
    assert_eq!(apic.get_redirection(10).to_parts(), (0, 0));
    assert!(IoApic::new(0, 0x00FF_0000, u32::MAX - 0xFF, Vec::new()).is_none());
}

#[test]
fn commands_are_composed_from_their_fields() {
    let mut register = InterruptCommandRegister::new(0, 0);
    assert!(!register.is_pending());
    register.send_init(3);
    assert_eq!(register.high, 0x0300_0000);
    assert_eq!(register.low, 0x4500);
    register.send_sipi(0x08, 0xFF);
    assert_eq!(register.high, 0xFF00_0000);
    assert_eq!(register.low, 0x4608);
    register.send(
        0x30,
        DeliveryMode::Fixed,
        DestinationMode::Logical,
        false,
        DestinationShorthand::AllIncludingSelf,
        1,
    );
    assert_eq!(register.high, 0x0100_0000);
    assert_eq!(register.low, 0x30 | (1 << 11) | (2 << 18));
    register.send(
        0,
        DeliveryMode::NMI,
        DestinationMode::Physical,
        false,
        DestinationShorthand::AllExcludingSelf,
        0,
    );
    assert_eq!(register.low, (4 << 8) | (1 << 18));
    assert!(InterruptCommandRegister::new(0x1000, 0).is_pending());
    assert!(!InterruptCommandRegister::new(!0x1000, 0).is_pending());
    assert_eq!(DestinationShorthand::NoShorthand.to_code(), 0);
}

#[test]
fn a_processor_is_woken_by_a_reset_and_two_starts() {
    let commands = wake_commands(0x08, 2);
    assert_eq!(
        commands,
        vec![
            InterruptCommandRegister::new(0x4500, 0x0200_0000),
            InterruptCommandRegister::new(0x4608, 0x0200_0000),
            InterruptCommandRegister::new(0x4608, 0x0200_0000),
        ]
    );
    assert!(should_wake(1, 0, PROCESSOR_ENABLED));
    assert!(should_wake(1, 0, ONLINE_CAPABLE));
    assert!(!should_wake(1, 0, 0));
    assert!(!should_wake(1, 0, 4));
    assert!(!should_wake(3, 3, PROCESSOR_ENABLED | ONLINE_CAPABLE));
}

#[test]
fn message_control_reads_its_fields() {
    let control = MessageControl { reg0: 0x8007_0000 };
    assert_eq!(control.get_table_len(), 7);
    assert!(control.get_enable());
    assert!(!control.get_force_mask());
    let masked = MessageControl { reg0: 0x47FF_FFFF };
    assert_eq!(masked.get_table_len(), 0x7FF);
    assert!(!masked.get_enable());
    assert!(masked.get_force_mask());
}

#[test]
fn a_message_is_configured_while_it_is_masked() {
    let mut message = Message { addr_low: 0xFFFF_FFFF, addr_high: 0xFFFF_FFFF, data: 0xFFFF_FFFF, mask: 0 };
    assert!(!message.get_masked());
    message.set_masked(true);
    assert!(message.get_masked());
    assert_eq!(message.mask, 1);
    message.configure(5, 0x42, DeliveryMode::LowPriority);
    assert_eq!(message.data, 0x142);
    assert_eq!(message.addr_low, 0xFEE0_5000);
    assert_eq!(message.addr_high, 0);
    assert_eq!(message.mask, 1);
    message.set_masked(false);
    assert!(!message.get_masked());
    assert_eq!(message.mask, 0);
}

#[test]
fn capability_registers_are_switched_bit_by_bit() {
    let mut data = Data { reg0: 0x0003_0000, reg1: 0x2003, reg2: 0x3007 };
    assert_eq!(data.get_table_len(), 4);
    assert!(!data.get_enable());
    data.set_enable(true);
    assert!(data.get_enable());
    assert_eq!(data.reg0, 0x8003_0000);
    data.set_function_mask(true);
    assert!(data.get_function_mask());
    assert_eq!(data.reg0, 0xC003_0000);
    data.set_enable(false);
    assert_eq!(data.reg0, 0x4003_0000);
    data.set_function_mask(false);
    assert_eq!(data.reg0, 0x0003_0000);
    assert_eq!(data.get_table_info(), Some((StandardRegister::Register3, 0x2000)));
    assert_eq!(data.get_pending_info(), None);
    let blank = Message { addr_low: 0, addr_high: 0, data: 0, mask: 1 };
    assert!(MSIX::try_new(data, vec![blank; 3]).is_none());
    let mut capability = MSIX::try_new(data, vec![blank; 4]).unwrap();
    assert!(!capability.get_enable());
    capability.set_enable(true);
    assert!(capability.get_enable());
    assert!(!capability.get_function_mask());
    capability.set_function_mask(true);
    assert!(capability.get_function_mask());
    assert_eq!(capability.index(3), Some(&blank));
    assert_eq!(capability.index(4), None);
    assert_eq!(StandardRegister::from_number(6), None);
}

#[test]
fn pending_bits_are_bits() {
    assert_eq!(PendingBit::from_value(0), Some(PendingBit::Unset));
    assert_eq!(PendingBit::from_value(1), Some(PendingBit::Raised));
    assert_eq!(PendingBit::from_value(2), None);
    assert_eq!(PendingBit::Unset.value(), 0);
    assert_eq!(PendingBit::Raised.value(), 1);
}

#[test]
fn completions_are_taken_while_their_phase_is_new() {
    let old = Completion { result: 0, reserved: 0, submission: 0, status: 0 };
    let new = Completion { result: 9, reserved: 0, submission: 0, status: 0x1_0000 };
    let base = Frame::new(0x8000).unwrap();
    assert!(new.phase_tag());
    assert!(!old.phase_tag());
    assert!(CompletionQueue::new(base, Vec::new()).is_none());
    let mut queue = CompletionQueue::new(base, vec![old; 2]).unwrap();
    assert_eq!(queue.base_phys_addr(), 0x8000);
    assert_eq!(queue.next_entry(), None);
    queue.post(0, new);
    queue.post(1, new);
    assert_eq!(queue.next_entry(), Some(new));
    assert_eq!(queue.next_entry(), Some(new));
    // the ring was gone round: reports with the old phase are new now
    assert_eq!(queue.next_entry(), None);
    queue.post(0, old);
    assert_eq!(queue.next_entry(), Some(old));
    assert_eq!(queue.next_entry(), None);
}

#[test]
fn commands_wait_until_they_are_flushed() {
    let blank = Command { opcode: 0xFF, flags: 0xFF, command_id: 0xFFFF };
    let base = Frame::new(0x9000).unwrap();
    assert!(SubmissionQueue::new(base, Vec::new()).is_none());
    let mut queue = SubmissionQueue::new(base, vec![blank; 3]).unwrap();
    assert_eq!(queue.base_phys_addr(), 0x9000);
    assert_eq!(queue.next_entry(6), Some(0));
    assert_eq!(queue.next_entry(2), Some(1));
    assert_eq!(queue.next_entry(1), Some(2));
    assert_eq!(queue.next_entry(1), None);
    queue.flush_commands();
    assert_eq!(queue.next_entry(9), Some(0));
    assert_eq!(queue.next_entry(9), Some(1));
}

#[test]
fn features_come_from_the_third_and_fourth_register() {
    assert!(cpuid(1, 0, 0, 0, 0).is_none());
    let answer = cpuid(1, 0x306A9, 7, 0x0020_0001, 0x8000_0201).unwrap();
    assert_eq!(answer.eax(), 0x306A9);
    assert_eq!(answer.ebx(), 7);
    assert_eq!(answer.ecx(), 0x0020_0001);
    assert_eq!(answer.edx(), 0x8000_0201);
    let features = cpu_features(&answer);
    assert_eq!(features.bits(), SSE3 | X2APIC | FPU | APIC | PBE);
    assert!(features.contains(SSE3 | APIC));
    assert!(!features.contains(SSE3 | (1 << 33)));
    // bits that name no feature are dropped
    let odd = cpuid(0, 0, 0, 1 << 11, 1 << 10).unwrap();
    assert_eq!(cpu_features(&odd).bits(), 0);
    assert_eq!(CPUFeatures::from_bits_truncate(u64::MAX).bits(), 0xFFEF_FBFF_1EFE_F7FF);
}

#[test]
fn a_serial_line_is_set_up_in_six_writes() {
    let (serial, writes) = Serial::init(COM1, SerialSpeed::S38400);
    assert_eq!(serial.data_port, 0x3FB);
    assert_eq!(serial.fifo_port, 0x3FD);
    assert_eq!(serial.line_port, 0x3FE);
    assert_eq!(serial.modem_port, 0x3FF);
    assert_eq!(serial.status_port, 0x400);
    assert_eq!(
        writes,
        vec![
            PortWrite { port: 0x3FE, value: 0x80 },
            PortWrite { port: 0x3FB, value: 0 },
            PortWrite { port: 0x3FB, value: 3 },
            PortWrite { port: 0x3FE, value: 3 },
            PortWrite { port: 0x3FD, value: 0xC7 },
            PortWrite { port: 0x3FF, value: 0x0B },
        ]
    );
    assert_eq!(SerialPort::LineStatusPort.to_offset(), 5);
    assert_eq!(SerialSpeed::S115200.to_divisor(), 1);
    assert_eq!(SerialSpeed::S57600.to_divisor(), 2);
}

#[test]
fn protection_fault_codes_are_taken_apart() {
    let error = decode_selector_error(0b1_0101_0101_1011);
    assert!(error.external);
    assert_eq!(error.table, IndexType::IDT0);
    assert_eq!(error.index, 0b10_1010_1011);
    assert_eq!(decode_selector_error(0).table, IndexType::GDT);
    assert_eq!(decode_selector_error(4).table, IndexType::LDT);
    assert_eq!(decode_selector_error(6).table, IndexType::IDT1);
    assert!(!decode_selector_error(6).external);
    assert_eq!(decode_selector_error(u64::MAX).index, 0x1FFF);
    let pointer = DescriptorTablePointer::new(0xFFF, 0xFFFF_8000_0000_1000);
    assert_eq!(pointer.limit(), 0xFFF);
    assert_eq!(pointer.base(), 0xFFFF_8000_0000_1000);
}

#[test]
fn handlers_are_replaced_line_by_line() {
    let mut table = InterruptHandlers::init(10u32, 20u32);
    assert_eq!(*table.handler(InterruptOffset::Timer), 10);
    assert_eq!(*table.handler(InterruptOffset::Keyboard), 20);
    table.set_interrupt_handler(InterruptOffset::Keyboard, 21);
    assert_eq!(*table.handler(InterruptOffset::Timer), 10);
    assert_eq!(*table.handler(InterruptOffset::Keyboard), 21);
    assert_eq!(table.enable_interrupt_callbacks(), Ok(()));
    assert_eq!(table.enable_interrupt_callbacks(), Err(CallbackError::AlreadyEnabled));
    assert_eq!(InterruptOffset::Timer.vector(), 32);
    assert_eq!(InterruptOffset::Keyboard.vector(), 33);
    assert_eq!(InterruptOffset::Keyboard.without_base(), 1);
}

#[test]
fn cells_hold_what_was_put_in() {
    let mut cell: SyncRefCell<u32> = SyncRefCell::empty();
    assert_eq!(cell.borrow(), None);
    cell.set(4);
    assert_eq!(cell.borrow(), Some(&4));
    cell.set(5);
    assert_eq!(cell.borrow(), Some(&5));
    assert_eq!(SyncRefCell::new(7u8).borrow(), Some(&7));
    let mut once: SyncOnceCell<u32> = SyncOnceCell::new();
    assert_eq!(once.get(), None);
    assert!(once.get_mut().is_none());
    assert_eq!(once.set(1), Ok(()));
    assert_eq!(once.set(2), Err(2));
    assert_eq!(once.get(), Some(&1));
    *once.get_mut().unwrap() = 3;
    assert_eq!(once.get(), Some(&3));
    assert_eq!(once.take(), Some(3));
    assert_eq!(once.get(), None);
}

#[test]
fn the_global_frame_manager_is_set_once() {
    let map = vec![
        MemoryDescriptor {
            ty: MemoryType::Reserved,
            phys_start: 0,
            page_count: 4,
            att: MemoryAttributes::from_bits(0),
        },
        MemoryDescriptor {
            ty: MemoryType::Conventional,
            phys_start: 0x4000,
            page_count: 12,
            att: MemoryAttributes::from_bits(0),
        },
    ];
    let mut memory = GlobalMemory::new();
    init_global_memory(&mut memory, &map);
    assert_eq!(global_total(&memory), 16 * 0x1000);
    assert_eq!(global_reserved(&memory), 4 * 0x1000);
    assert_eq!(global_freed(&memory), 12 * 0x1000);
    assert_eq!(global_locked(&memory), 0);
    let first = global_lock_next(&mut memory).unwrap();
    assert_eq!(first.get(), 0x4000);
    let chosen = Frame::new(0x8000).unwrap();
    global_lock(&mut memory, chosen);
    global_lock(&mut memory, chosen);
    assert_eq!(global_locked(&memory), 2 * 0x1000);
    global_free(&mut memory, first);
    global_free(&mut memory, first);
    assert_eq!(global_locked(&memory), 0x1000);
    assert_eq!(global_freed(&memory), 11 * 0x1000);
    assert_eq!(global_memory(&memory).get_frame_type(chosen), Some(FrameType::Generic));
    assert_eq!(global_top_offset(&memory), Some(0xFFFF_FFFF_FFFF_0000));
    let mut empty = GlobalMemory::new();
    empty.set_allocator(FrameManager::try_initialize(&Vec::new()).unwrap());
    assert_eq!(global_top_offset(&empty), None);
}
