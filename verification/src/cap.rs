//! The capability table: kernel objects stored behind unforgeable handles,
//! with a type tag per slot checked on every access.

use vstd::prelude::*;

use crate::e820::E820Info;
use crate::memory::VirtualMemoryRegion;

verus! {

/// The kind of kernel object a capability refers to.
#[derive(Clone, Copy, Debug, PartialEq, Eq, Structural)]
pub enum ObjectType {
    VmRegion,
    MemoryInventory,
}

/// A kernel object stored in a capability slot.
pub enum KernelObject {
    VmRegion(VirtualMemoryRegion),
    MemoryInventory(E820Info),
}

/// The type tag of a kernel object.
pub open spec fn type_of(obj: KernelObject) -> ObjectType {
    match obj {
        KernelObject::VmRegion(_) => ObjectType::VmRegion,
        KernelObject::MemoryInventory(_) => ObjectType::MemoryInventory,
    }
}

/// A stored object is well-formed; for a region, its shape is valid.
pub open spec fn obj_wf(obj: KernelObject) -> bool {
    match obj {
        KernelObject::VmRegion(region) => region.wf(),
        KernelObject::MemoryInventory(_) => true,
    }
}

/// Capability misuse: dereferencing a handle against the wrong expected
/// type, or against a slot this table does not have. It signals a kernel
/// bug, never an environmental condition.
#[derive(Clone, Copy, Debug, PartialEq, Eq, Structural)]
pub enum CapError {
    TypeMismatch,
    UnknownSlot,
}

/// An unforgeable token identifying one capability slot together with the
/// object type it was issued for. A handle never grants access to an object
/// of another type. It is deliberately neither copyable nor clonable, so
/// that passing it by value transfers ownership.
#[derive(Debug)]
pub struct ResourceHandle {
    slot: usize,
    expected: ObjectType,
}

impl ResourceHandle {
    /// Index of the slot this handle refers to.
    pub closed spec fn slot(&self) -> int {
        self.slot as int
    }

    /// The object type the handle was issued for.
    pub closed spec fn expected(&self) -> ObjectType {
        self.expected
    }
}

/// The capability table: an arena of slots, each holding one kernel object.
/// Slots are never removed or overwritten.
pub struct CapabilityTable {
    slots: Vec<KernelObject>,
}

impl View for CapabilityTable {
    type V = Seq<KernelObject>;

    closed spec fn view(&self) -> Seq<KernelObject> {
        self.slots@
    }
}

impl CapabilityTable {
    /// Every stored object is well-formed.
    pub open spec fn wf(&self) -> bool {
        forall|i: int| 0 <= i < self@.len() ==> obj_wf(#[trigger] self@[i])
    }

    /// The handle names a slot of this table and the slot holds an object of
    /// the type the handle was issued for.
    pub open spec fn valid_handle(&self, h: &ResourceHandle) -> bool {
        0 <= h.slot() < self@.len() && type_of(self@[h.slot()]) == h.expected()
    }

    /// The handle resolves, through this table, to a virtual memory region.
    pub open spec fn resolves_vm(&self, h: &ResourceHandle) -> bool {
        &&& 0 <= h.slot() < self@.len()
        &&& self@[h.slot()] is VmRegion
        &&& h.expected() == ObjectType::VmRegion
    }

    /// The region the handle resolves to (meaningful under `resolves_vm`).
    pub open spec fn vm_of(&self, h: &ResourceHandle) -> VirtualMemoryRegion {
        self@[h.slot()]->VmRegion_0
    }

    /// An empty capability table.
    pub fn new() -> (t: CapabilityTable)
        ensures
            t@.len() == 0,
            t.wf(),
    {
        CapabilityTable { slots: Vec::new() }
    }

    /// Registers a kernel object in a fresh slot and returns the handle
    /// issued for exactly that slot and that object type.
    pub fn register(&mut self, obj: KernelObject) -> (h: ResourceHandle)
        requires
            old(self).wf(),
            obj_wf(obj),
        ensures
            final(self).wf(),
            final(self)@ == old(self)@.push(obj),
            h.slot() == old(self)@.len(),
            h.expected() == type_of(obj),
            final(self).valid_handle(&h),
    {
        let slot = self.slots.len();
        let expected = match &obj {
            KernelObject::VmRegion(_) => ObjectType::VmRegion,
            KernelObject::MemoryInventory(_) => ObjectType::MemoryInventory,
        };
        self.slots.push(obj);
        proof {
            assert forall|i: int| 0 <= i < self@.len() implies obj_wf(#[trigger] self@[i]) by {
                if i < old(self)@.len() {
                    assert(self@[i] == old(self)@[i]);
                    assert(obj_wf(old(self)@[i]));
                } else {
                    assert(self@[i] == obj);
                }
            }
        }
        ResourceHandle { slot, expected }
    }

    /// Number of occupied slots.
    pub fn len(&self) -> (r: usize)
        ensures
            r == self@.len(),
    {
        self.slots.len()
    }

    /// Dereferences a handle, expecting a virtual memory region. Succeeds
    /// exactly when the handle was issued for the region kind and its slot
    /// holds a region; any other access is a contract violation reported as
    /// an error, never a silently wrong reference.
    pub fn vm_region(&self, h: &ResourceHandle) -> (r: Result<&VirtualMemoryRegion, CapError>)
        ensures
            (r is Ok) <==> self.resolves_vm(h),
            match r {
                Ok(region) => self@[h.slot()] == KernelObject::VmRegion(*region) && *region
                    == self.vm_of(h),
                Err(CapError::UnknownSlot) => h.slot() >= self@.len(),
                Err(CapError::TypeMismatch) => h.slot() < self@.len() && !self.resolves_vm(h),
            },
    {
        if h.slot >= self.slots.len() {
            return Err(CapError::UnknownSlot);
        }
        match (&self.slots[h.slot], h.expected) {
            (KernelObject::VmRegion(region), ObjectType::VmRegion) => Ok(region),
            _ => Err(CapError::TypeMismatch),
        }
    }

    /// Dereferences a handle, expecting the memory inventory. Succeeds
    /// exactly when the handle was issued for the inventory kind and its
    /// slot holds the inventory.
    pub fn memory_inventory(&self, h: &ResourceHandle) -> (r: Result<&E820Info, CapError>)
        ensures
            (r is Ok) <==> (0 <= h.slot() < self@.len() && self@[h.slot()] is MemoryInventory
                && h.expected() == ObjectType::MemoryInventory),
            match r {
                Ok(info) => self@[h.slot()] == KernelObject::MemoryInventory(*info),
                Err(CapError::UnknownSlot) => h.slot() >= self@.len(),
                Err(CapError::TypeMismatch) => h.slot() < self@.len() && !(self@[h.slot()] is MemoryInventory
                    && h.expected() == ObjectType::MemoryInventory),
            },
    {
        if h.slot >= self.slots.len() {
            return Err(CapError::UnknownSlot);
        }
        match (&self.slots[h.slot], h.expected) {
            (KernelObject::MemoryInventory(info), ObjectType::MemoryInventory) => Ok(info),
            _ => Err(CapError::TypeMismatch),
        }
    }
}

} // verus!
