use kernel_core::cap::{CapError, CapabilityTable, KernelObject};
use kernel_core::e820::{E820Info, MemoryRegion};
use kernel_core::memory::AddressSpace;

fn sample_inventory() -> E820Info {
    let records = vec![MemoryRegion { base: 0, length: 4 * 4096, region_type: 1, acpi: 0 }];
    E820Info::read(&records, 1)
}

#[test]
fn register_and_access_region() {
    let mut space = AddressSpace::new(16);
    let region = space.alloc_with_guard(2).unwrap();
    let start = region.start();
    let mut table = CapabilityTable::new();
    let h = table.register(KernelObject::VmRegion(region));
    let got = table.vm_region(&h).unwrap();
    assert_eq!(got.start(), start);
    assert_eq!(got.page_count(), 2);
    // The first allocation begins one guard page past the base.
    assert_eq!(start, 17 * 4096);
}

#[test]
fn register_and_access_inventory() {
    let mut table = CapabilityTable::new();
    let h = table.register(KernelObject::MemoryInventory(sample_inventory()));
    let info = table.memory_inventory(&h).unwrap();
    assert_eq!(info.num_phys_pages(), 4);
}

#[test]
fn wrong_expected_type_is_rejected() {
    // A handle issued for the inventory kind never yields a region, and a
    // handle issued for a region never yields the inventory.
    let mut space = AddressSpace::new(16);
    let region = space.alloc_with_guard(1).unwrap();
    let mut table = CapabilityTable::new();
    let hi = table.register(KernelObject::MemoryInventory(sample_inventory()));
    let hr = table.register(KernelObject::VmRegion(region));
    assert_eq!(table.vm_region(&hi).unwrap_err(), CapError::TypeMismatch);
    assert_eq!(table.memory_inventory(&hr).unwrap_err(), CapError::TypeMismatch);
}

#[test]
fn unknown_slot_is_rejected() {
    // A handle from one table does not resolve in a table without that slot.
    let mut space = AddressSpace::new(16);
    let region = space.alloc_with_guard(1).unwrap();
    let mut big = CapabilityTable::new();
    let _ = big.register(KernelObject::MemoryInventory(sample_inventory()));
    let h = big.register(KernelObject::VmRegion(region));
    let empty = CapabilityTable::new();
    assert_eq!(empty.vm_region(&h).unwrap_err(), CapError::UnknownSlot);
    assert_eq!(big.len(), 2);
}
