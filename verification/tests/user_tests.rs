use kernel_core::cap::{CapError, CapabilityTable, KernelObject};
use kernel_core::e820::{E820Info, MemoryRegion};
use kernel_core::memory::{AddressSpace, AllocError, MAX_PAGE};
use kernel_core::user::{
    allocate_user_stack, init, load_user_code_section, switch_to_user, user_code_image,
    SyscallEntry, SyscallEntryPhase, RFLAGS_INTERRUPT_FLAG,
};

#[test]
fn code_section_is_mapped_with_guard_pages() {
    let mut space = AddressSpace::new(16);
    let mut table = CapabilityTable::new();
    let (h, entry) = load_user_code_section(&mut space, &mut table).unwrap();
    // The entry point is the start of the inner page: base 16, guard at 16,
    // code page at 17.
    assert_eq!(entry, 17 * 4096);
    let region = table.vm_region(&h).unwrap();
    assert_eq!(region.start(), entry);
    assert_eq!(region.page_count(), 1);
    // The code page is present; the guard pages around it are not.
    assert!(space.is_mapped(17));
    assert!(!space.is_mapped(16));
    assert!(!space.is_mapped(18));
    let flags = space.page_flags(17).unwrap();
    assert!(flags.present && flags.writable && flags.user_accessible);
    assert!(!flags.no_execute);
}

#[test]
fn stack_is_mapped_non_executable_with_guard_pages() {
    let mut space = AddressSpace::new(16);
    let mut table = CapabilityTable::new();
    let h = allocate_user_stack(&mut space, &mut table).unwrap();
    let region = table.vm_region(&h).unwrap();
    let start_page = region.start() / 4096;
    let pages = region.page_count();
    assert_eq!(start_page, 17);
    for p in start_page..start_page + pages {
        assert!(space.is_mapped(p));
        let flags = space.page_flags(p).unwrap();
        assert!(flags.present && flags.writable && flags.user_accessible);
        assert!(flags.no_execute);
    }
    assert!(!space.is_mapped(start_page - 1));
    assert!(!space.is_mapped(start_page + pages));
}

#[test]
fn switch_to_user_stack_pointer_is_top_of_stack() {
    let mut space = AddressSpace::new(16);
    let mut table = CapabilityTable::new();
    let (code, entry) = load_user_code_section(&mut space, &mut table).unwrap();
    let stack = allocate_user_stack(&mut space, &mut table).unwrap();
    let (stack_start, stack_len) = {
        let region = table.vm_region(&stack).unwrap();
        (region.start(), region.len())
    };
    let ctx = switch_to_user(&table, (code, entry), stack, 0x2).unwrap();
    assert_eq!(ctx.rip, entry);
    // Stack pointer = region start + region length in bytes.
    assert_eq!(ctx.rsp, stack_start + stack_len);
    // Interrupt-enable flag forced on; other bits kept.
    assert_eq!(ctx.rflags, 0x2 | RFLAGS_INTERRUPT_FLAG);
    assert_eq!(ctx.rflags & RFLAGS_INTERRUPT_FLAG, RFLAGS_INTERRUPT_FLAG);
}

#[test]
fn switch_to_user_rejects_non_region_stack_handle() {
    let mut space = AddressSpace::new(16);
    let mut table = CapabilityTable::new();
    let (code, entry) = load_user_code_section(&mut space, &mut table).unwrap();
    let records = vec![MemoryRegion { base: 0, length: 4096, region_type: 1, acpi: 0 }];
    let inv = table.register(KernelObject::MemoryInventory(E820Info::read(&records, 1)));
    let err = switch_to_user(&table, (code, entry), inv, 0).unwrap_err();
    assert_eq!(err, CapError::TypeMismatch);
}

#[test]
fn allocation_fails_when_address_space_is_exhausted() {
    let mut space = AddressSpace::new(MAX_PAGE);
    let mut table = CapabilityTable::new();
    assert_eq!(
        load_user_code_section(&mut space, &mut table).unwrap_err(),
        AllocError::OutOfVirtualSpace
    );
    assert_eq!(
        allocate_user_stack(&mut space, &mut table).unwrap_err(),
        AllocError::OutOfVirtualSpace
    );
}

#[test]
fn fast_syscall_register_values() {
    let c = init(1, 4, 0xFFFF_8000_0010_0000);
    // Kernel base = selector index 1 * 8 in bits 47:32; user base =
    // selector index 4 * 8 - 8 in bits 63:48.
    assert_eq!(c.star, (8u64 << 32) | (24u64 << 48));
    assert_eq!(c.lstar, 0xFFFF_8000_0010_0000);
    assert_eq!(c.fmask, 0);
}

#[test]
fn user_code_image_is_loop_then_nops() {
    let image = user_code_image();
    assert_eq!(image.len(), 10);
    assert_eq!(image[0], 0xEB);
    assert_eq!(image[1], 0xFE);
    for i in 2..10 {
        assert_eq!(image[i], 0x90);
    }
}

#[test]
fn syscall_entry_protocol_order() {
    let mut entry = SyscallEntry::enter();
    assert_eq!(entry.current_phase(), SyscallEntryPhase::EnteredOnUserStack);
    entry.save_on_kernel_stack();
    assert_eq!(entry.current_phase(), SyscallEntryPhase::OnKernelStack);
    entry.dispatch();
    assert_eq!(entry.current_phase(), SyscallEntryPhase::Dispatched);
    entry.restore_and_return();
    assert_eq!(entry.current_phase(), SyscallEntryPhase::Returning);
}
