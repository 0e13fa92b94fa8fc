//! User-mode launch: code and stack region setup, the register state for the
//! one-way kernel-to-user privilege transition, and the fast-syscall
//! configuration values.

use vstd::prelude::*;

use crate::cap::{CapError, CapabilityTable, KernelObject, ObjectType, ResourceHandle};
use crate::memory::{
    lemma_guard_pages_unmapped, AddressSpace, AllocError, PageFlags,
    VirtualMemoryRegion, MAX_PAGE,
};

verus! {

use vstd::arithmetic::div_mod::lemma_fundamental_div_mod;

/// Number of pages of a user stack region.
pub const USER_STACK_SIZE: u64 = 1;

/// The interrupt-enable bit of the rflags register.
pub const RFLAGS_INTERRUPT_FLAG: u64 = 0x200;

/// Register state loaded by the privilege transition: target instruction
/// pointer, target stack pointer, target flags-register value. Constructed
/// immediately before the mode switch; never persisted.
#[derive(Clone, Copy, Debug, PartialEq, Eq, Structural)]
pub struct TransitionContext {
    pub rip: u64,
    pub rsp: u64,
    pub rflags: u64,
}

/// The code image written into a fresh user code region: an infinite loop
/// followed by no-ops.
pub fn user_code_image() -> (v: Vec<u8>)
    ensures
        v@ =~= seq![0xEBu8, 0xFEu8, 0x90u8, 0x90u8, 0x90u8, 0x90u8, 0x90u8, 0x90u8, 0x90u8, 0x90u8],
{
    let mut v: Vec<u8> = Vec::new();
    v.push(0xEB);  // here: jmp here
    v.push(0xFE);
    v.push(0x90);  // nop
    v.push(0x90);
    v.push(0x90);
    v.push(0x90);
    v.push(0x90);
    v.push(0x90);
    v.push(0x90);
    v.push(0x90);
    v
}

/// Allocates a one-page guarded region for user code, registers it as a
/// capability, and maps it present, writable and user accessible (writable
/// only until the code image is written). Returns the handle and the
/// region's start address, the first instruction pointer to execute. The
/// hardware-facing caller writes the code image into the region.
pub fn load_user_code_section(space: &mut AddressSpace, table: &mut CapabilityTable) -> (r: Result<
    (ResourceHandle, u64),
    AllocError,
>)
    requires
        old(space).wf(),
        old(table).wf(),
    ensures
        final(space).wf(),
        final(table).wf(),
        final(space).spec_base_page() == old(space).spec_base_page(),
        (r is Ok) <==> old(space).spec_next_page() + 3 <= MAX_PAGE,
        match r {
            Ok((h, entry)) => {
                &&& entry == (old(space).spec_next_page() + 1) * 4096
                &&& h.slot() == old(table)@.len()
                &&& h.expected() == ObjectType::VmRegion
                &&& final(table)@.len() == old(table)@.len() + 1
                &&& final(table).resolves_vm(&h)
                &&& final(table).vm_of(&h).spec_pages() == 1
                &&& final(table).vm_of(&h).spec_start() == entry
                &&& final(space).is_allocated(final(table).vm_of(&h))
                &&& forall|p: int|
                    final(space).mapped(p) <==> (old(space).mapped(p) || final(table).vm_of(
                        &h,
                    ).contains_page(p))
                &&& forall|p: int|
                    final(table).vm_of(&h).contains_page(p) ==> final(space).mapped_with(
                        p,
                        (PageFlags {
                            present: true,
                            writable: true,
                            user_accessible: true,
                            no_execute: false,
                        }),
                    )
                &&& !final(space).mapped(old(space).spec_next_page() as int)
                &&& !final(space).mapped(old(space).spec_next_page() + 2)
            },
            Err(e) => {
                &&& e == AllocError::OutOfVirtualSpace
                &&& final(table)@ == old(table)@
                &&& final(space).regions() == old(space).regions()
            },
        },
{
    let region = match space.alloc_with_guard(1) {
        Ok(region) => region,
        Err(e) => { return Err(e) },
    };
    let entry = region.start();
    let h = table.register(KernelObject::VmRegion(region));
    let res = space.map_region(table, &h, PageFlags::user_code());
    proof {
        assert(res is Ok);
        lemma_guard_pages_unmapped(*space, region);
    }
    Ok((h, entry))
}

/// Allocates a fixed-size guarded region for the user stack, registers it as
/// a capability, and maps it present, writable, user accessible and never
/// executable. The first and last pages of the reservation stay unmapped as
/// guard pages; the stack is used from its high end, since it grows downward.
pub fn allocate_user_stack(space: &mut AddressSpace, table: &mut CapabilityTable) -> (r: Result<
    ResourceHandle,
    AllocError,
>)
    requires
        old(space).wf(),
        old(table).wf(),
    ensures
        final(space).wf(),
        final(table).wf(),
        final(space).spec_base_page() == old(space).spec_base_page(),
        (r is Ok) <==> old(space).spec_next_page() + USER_STACK_SIZE + 2 <= MAX_PAGE,
        match r {
            Ok(h) => {
                &&& h.slot() == old(table)@.len()
                &&& h.expected() == ObjectType::VmRegion
                &&& final(table)@.len() == old(table)@.len() + 1
                &&& final(table).resolves_vm(&h)
                &&& final(table).vm_of(&h).spec_pages() == USER_STACK_SIZE
                &&& final(table).vm_of(&h).spec_start() == (old(space).spec_next_page() + 1) * 4096
                &&& final(space).is_allocated(final(table).vm_of(&h))
                &&& forall|p: int|
                    final(space).mapped(p) <==> (old(space).mapped(p) || final(table).vm_of(
                        &h,
                    ).contains_page(p))
                &&& forall|p: int|
                    final(table).vm_of(&h).contains_page(p) ==> final(space).mapped_with(
                        p,
                        (PageFlags {
                            present: true,
                            writable: true,
                            user_accessible: true,
                            no_execute: true,
                        }),
                    )
                &&& !final(space).mapped(old(space).spec_next_page() as int)
                &&& !final(space).mapped(old(space).spec_next_page() + USER_STACK_SIZE + 1)
            },
            Err(e) => {
                &&& e == AllocError::OutOfVirtualSpace
                &&& final(table)@ == old(table)@
                &&& final(space).regions() == old(space).regions()
            },
        },
{
    let region = match space.alloc_with_guard(USER_STACK_SIZE) {
        Ok(region) => region,
        Err(e) => { return Err(e) },
    };
    let h = table.register(KernelObject::VmRegion(region));
    let res = space.map_region(table, &h, PageFlags::user_stack());
    proof {
        assert(res is Ok);
        lemma_guard_pages_unmapped(*space, region);
    }
    Ok(h)
}

/// Computes the register state for the one-way transition to user mode:
/// the instruction pointer is the given entry point, the stack pointer is
/// the top of the stack region (the stack grows downward, so the trailing
/// guard page catches overflow), and the flags are the current flags with
/// the interrupt-enable bit forced on. Both handles are consumed. The
/// hardware-facing caller disables interrupts, clears the remaining
/// general-purpose registers, loads this context and executes the
/// privilege-dropping instruction, which never returns.
pub fn switch_to_user(
    table: &CapabilityTable,
    code: (ResourceHandle, u64),
    stack: ResourceHandle,
    current_rflags: u64,
) -> (r: Result<TransitionContext, CapError>)
    requires
        table.wf(),
    ensures
        (r is Ok) <==> table.resolves_vm(&stack),
        match r {
            Ok(ctx) => {
                &&& ctx.rip == code.1
                &&& ctx.rsp == table.vm_of(&stack).spec_start() + table.vm_of(&stack).spec_pages()
                    * 4096
                &&& ctx.rflags == (current_rflags | RFLAGS_INTERRUPT_FLAG)
                &&& ctx.rflags & RFLAGS_INTERRUPT_FLAG == RFLAGS_INTERRUPT_FLAG
            },
            Err(CapError::UnknownSlot) => stack.slot() >= table@.len(),
            Err(CapError::TypeMismatch) => stack.slot() < table@.len() && !table.resolves_vm(
                &stack,
            ),
        },
{
    let region = match table.vm_region(&stack) {
        Ok(region) => *region,
        Err(e) => { return Err(e) },
    };
    proof {
        assert(crate::cap::obj_wf(table@[stack.slot()]));
        assert(region.wf());
        lemma_fundamental_div_mod(region.spec_start() as int, 4096);
        assert(region.spec_start() as int == 4096 * (region.spec_start() as int / 4096));
        assert(region.spec_start() + region.spec_pages() * 4096 == 4096 * (
        region.spec_start() as int / 4096 + region.spec_pages()));
        assert(region.spec_start() as int / 4096 + region.spec_pages() + 1 <= MAX_PAGE);
    }
    let rsp = region.start() + region.len();
    let rflags = current_rflags | RFLAGS_INTERRUPT_FLAG;
    proof {
        assert(rflags & 0x200u64 == 0x200u64) by (bit_vector)
            requires
                rflags == current_rflags | 0x200u64,
        ;
    }
    Ok(TransitionContext { rip: code.1, rsp, rflags })
}

/// The values of the three fast-syscall configuration registers, computed
/// once at boot: the segment-selector register packs the kernel code-segment
/// selector (index times eight) in bits 47:32 and the user segment-selector
/// base (one selector slot below the user stack-segment selector) in bits
/// 63:48; the entry-point register holds the address of the syscall trap
/// handler; the flags-mask register holds the rflags bits cleared on syscall
/// entry, currently none.
#[derive(Clone, Copy, Debug, PartialEq, Eq, Structural)]
pub struct FastSyscallConfig {
    pub star: u64,
    pub lstar: u64,
    pub fmask: u64,
}

/// Address of the segment-selector configuration register.
pub const MSR_STAR: u32 = 0xC000_0081;

/// Address of the syscall entry-point register.
pub const MSR_LSTAR: u32 = 0xC000_0082;

/// Address of the syscall flags-mask register.
pub const MSR_FMASK: u32 = 0xC000_0084;

/// Computes the one-time fast-syscall register configuration from the
/// kernel code-segment and user stack-segment selector indices and the
/// syscall handler address. The hardware-facing boot code writes these
/// values to the configuration registers and sets the fast-syscall enable
/// flag; that must happen before the first transition to user mode.
pub fn init(kernel_cs_index: u16, user_ss_index: u16, syscall_entry: u64) -> (c: FastSyscallConfig)
    requires
        kernel_cs_index <= 8191,
        1 <= user_ss_index <= 8191,
    ensures
        c.star == ((kernel_cs_index * 8) as u64) << 32u64 | ((user_ss_index * 8 - 8) as u64)
            << 48u64,
        c.lstar == syscall_entry,
        c.fmask == 0,
{
    let kernel_base: u16 = kernel_cs_index * 8;
    let user_base: u16 = user_ss_index * 8 - 8;
    let star: u64 = ((kernel_base as u64) << 32u64) | ((user_base as u64) << 48u64);
    FastSyscallConfig { star, lstar: syscall_entry, fmask: 0 }
}

/// The phase of the syscall entry protocol.
#[derive(Clone, Copy, Debug, PartialEq, Eq, Structural)]
pub enum SyscallEntryPhase {
    EnteredOnUserStack,
    OnKernelStack,
    Dispatched,
    Returning,
}

/// The contract of the syscall trap target, as a state machine: entered by
/// hardware on the user's stack pointer, it must switch to a dedicated
/// kernel stack and save all user-visible registers before anything else,
/// then dispatch, then restore the registers and resume user execution.
/// The transitions can only be taken in that order.
pub struct SyscallEntry {
    phase: SyscallEntryPhase,
}

impl SyscallEntry {
    /// Current phase of the protocol.
    pub closed spec fn phase(&self) -> SyscallEntryPhase {
        self.phase
    }

    /// Reads the current phase of the protocol.
    pub fn current_phase(&self) -> (p: SyscallEntryPhase)
        ensures
            p == self.phase(),
    {
        self.phase
    }

    /// Hardware entry: execution begins on the user's stack pointer.
    pub fn enter() -> (s: SyscallEntry)
        ensures
            s.phase() == SyscallEntryPhase::EnteredOnUserStack,
    {
        SyscallEntry { phase: SyscallEntryPhase::EnteredOnUserStack }
    }

    /// Switch to the dedicated kernel stack and save all user-visible
    /// registers: the only action allowed on the user's stack.
    pub fn save_on_kernel_stack(&mut self)
        requires
            old(self).phase() == SyscallEntryPhase::EnteredOnUserStack,
        ensures
            final(self).phase() == SyscallEntryPhase::OnKernelStack,
    {
        self.phase = SyscallEntryPhase::OnKernelStack;
    }

    /// Dispatch on the syscall-number convention; allowed only once the
    /// kernel stack is in use and registers are saved.
    pub fn dispatch(&mut self)
        requires
            old(self).phase() == SyscallEntryPhase::OnKernelStack,
        ensures
            final(self).phase() == SyscallEntryPhase::Dispatched,
    {
        self.phase = SyscallEntryPhase::Dispatched;
    }

    /// Restore the saved registers and resume user execution.
    pub fn restore_and_return(&mut self)
        requires
            old(self).phase() == SyscallEntryPhase::Dispatched,
        ensures
            final(self).phase() == SyscallEntryPhase::Returning,
    {
        self.phase = SyscallEntryPhase::Returning;
    }
}

} // verus!
