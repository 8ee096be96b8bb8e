use vstd::prelude::*;
use core::marker::PhantomData;
use crate::ref_table::RefTable;

verus! {

/// A handle to a managed object: a stable reference to one slot of the
/// reference table.  The slot holds the object's current direct address,
/// so the handle survives relocation — a collector that moves the object
/// rewrites the slot, never the handle.  Handles are copied freely and
/// compared by slot identity.
#[derive(Hash, Ord, PartialOrd, Eq, PartialEq, Debug)]
pub struct GcPtr<T> {
    pub slot: usize,
    pub marker: PhantomData<T>,
}

impl<T> Clone for GcPtr<T> {
    /// Handles are plain copies: the clone refers to the same slot.
    fn clone(&self) -> (r: Self)
        ensures
            r == *self,
    {
        GcPtr { slot: self.slot, marker: PhantomData }
    }
}

impl<T> Copy for GcPtr<T> {

}

impl<T> GcPtr<T> {
    /// The direct address of the object this handle refers to, read out
    /// of the slot.  The address may shift at the next collection; it is
    /// read under an access-counter hold.
    pub fn direct_ptr(&self, table: &RefTable<T>) -> (r: u64)
        requires
            table.blocks_wf(),
            self.slot < table.n_slots(),
        ensures
            r == table.slot_word(self.slot as int),
    {
        table.read_slot(self.slot)
    }
}

/// A handle extended with the identity of its virtual machine and a
/// generation stamp, letting a later check refuse handles from another
/// machine or from objects already reclaimed.
pub struct SafeGcPtr<T> {
    pub vm: u64,
    pub ptr: u64,
    pub generation: u64,
    pub marker: PhantomData<T>,
}

} // verus!
