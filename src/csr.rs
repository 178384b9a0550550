use vstd::prelude::*;

verus! {

/// The SSTATUS bit that lets supervisor code touch user pages.
pub const SSTATUS_SUM: u32 = 0x4_0000;

/// Proof that user memory may be touched: taken by setting SSTATUS.SUM,
/// given back by clearing it.
pub struct AllowUserModeMemory {
    _marker: (),
}

impl AllowUserModeMemory {
    /// Set SSTATUS.SUM in `sstatus` and hand out the permission.
    pub fn allow(sstatus: &mut u32) -> (r: AllowUserModeMemory)
        ensures
            *final(sstatus) == *old(sstatus) | SSTATUS_SUM,
    {
        *sstatus = *sstatus | SSTATUS_SUM;
        AllowUserModeMemory { _marker: () }
    }

    /// Give the permission back, clearing SSTATUS.SUM.
    pub fn release(self, sstatus: &mut u32)
        ensures
            *final(sstatus) == *old(sstatus) & !SSTATUS_SUM,
    {
        *sstatus = *sstatus & !SSTATUS_SUM;
    }
}

/// The SATP value that makes the table at `addr` active in Sv32 mode.
pub fn satp_for(addr: usize) -> (r: u32)
    requires
        addr % 4096 == 0,
        addr <= 0xffff_ffff,
    ensures
        r == ((addr / 4096) as u32 | 0x8000_0000u32),
{
    (addr / 4096) as u32 | 0x8000_0000u32
}

/// The root table address that a SATP value names, if paging is on; page
/// numbers are those of memory below 4 GiB.
pub fn page_table_for_satp(satp: u32) -> (r: Option<usize>)
    ensures
        satp & 0x8000_0000u32 == 0 ==> r is None,
        satp & 0x8000_0000u32 != 0 ==> r == Some((((satp & 0xf_ffffu32) as usize) * 4096) as usize),
{
    if satp & 0x8000_0000u32 == 0 {
        None
    } else {
        proof {
            assert(satp & 0xf_ffffu32 <= 0xf_ffffu32) by (bit_vector);
        }
        Some(((satp & 0xf_ffffu32) as usize) * 4096)
    }
}

} // verus!
