//! The architecture-neutral memory map: the validated, process-wide answer to
//! "which physical memory ranges are safe to use".

use vstd::prelude::*;
use crate::BootError;

verus! {

/// The most regions a memory map can hold; all fixed-size buffers are
/// bounded by it.
pub const MEMORY_REGIONS_MAX: usize = 32;

/// A contiguous span `[address, address + size)` of physical memory.
#[derive(Clone, Copy, Debug, PartialEq, Eq, Structural)]
pub struct MemoryRegion {
    pub address: u64,
    pub size: u64,
}

/// Adjacent regions are in ascending address order and do not overlap:
/// each region starts at or after the end of the one before it.
pub open spec fn regions_sorted(s: Seq<MemoryRegion>) -> bool {
    forall|i: int|
        0 <= i && i + 1 < s.len() ==> s[i + 1].address >= s[i].address + s[i].size
}

/// The frozen, process-wide collection of usable memory regions.
///
/// It is created empty, filled exactly once by [`MemoryMap::init`], and
/// immutable afterwards: a second initialization is a detectable error, not
/// silent state corruption.
pub struct MemoryMap {
    regions: Vec<MemoryRegion>,
    initialized: bool,
}

impl MemoryMap {
    /// The published regions, in ascending address order.
    pub closed spec fn regions(self) -> Seq<MemoryRegion> {
        self.regions@
    }

    /// Whether the map has been initialized.
    pub closed spec fn is_init(self) -> bool {
        self.initialized
    }

    /// An initialized map holds a validated, bounded region list; an
    /// uninitialized one holds nothing.
    pub open spec fn wf(self) -> bool {
        &&& self.is_init() ==> regions_sorted(self.regions())
        &&& self.regions().len() <= MEMORY_REGIONS_MAX
        &&& !self.is_init() ==> self.regions().len() == 0
    }

    /// An empty, not-yet-initialized map.
    pub fn new() -> (r: MemoryMap)
        ensures
            r.wf(),
            !r.is_init(),
            r.regions().len() == 0,
    {
        MemoryMap { regions: Vec::new(), initialized: false }
    }

    /// Validates and freezes the reconciled region list.
    ///
    /// Succeeds exactly once, and only when the input is sorted,
    /// non-overlapping and within capacity; on success the map publishes a
    /// copy of the input for the remainder of execution. Any failure leaves
    /// the map unchanged.
    pub fn init(&mut self, available: &[MemoryRegion]) -> (r: Result<(), BootError>)
        requires
            old(self).wf(),
        ensures
            final(self).wf(),
            r is Ok <==> {
                &&& !old(self).is_init()
                &&& available@.len() <= MEMORY_REGIONS_MAX
                &&& regions_sorted(available@)
            },
            r is Ok ==> final(self).is_init() && final(self).regions() == available@,
            r is Err ==> *final(self) == *old(self),
            old(self).is_init() ==> r == Result::<(), BootError>::Err(
                BootError::AlreadyInitialized,
            ),
            !old(self).is_init() && available@.len() > MEMORY_REGIONS_MAX ==> r == Result::<
                (),
                BootError,
            >::Err(BootError::TooManyRegions),
            !old(self).is_init() && available@.len() <= MEMORY_REGIONS_MAX && !regions_sorted(
                available@,
            ) ==> r == Result::<(), BootError>::Err(BootError::UnsortedRegions),
    {
        if self.initialized {
            return Err(BootError::AlreadyInitialized);
        }
        if available.len() > MEMORY_REGIONS_MAX {
            return Err(BootError::TooManyRegions);
        }
        let n = available.len();
        let mut i: usize = 0;
        while i + 1 < n
            invariant
                i <= n,
                n <= MEMORY_REGIONS_MAX,
                n == available@.len(),
                *self == *old(self),
                self.wf(),
                !self.is_init(),
                forall|j: int|
                    0 <= j && j + 1 <= i ==> available@[j + 1].address >= available@[j].address
                        + available@[j].size,
            decreases n - i,
        {
            let prev = available[i];
            let cur = available[i + 1];
            if !(cur.address >= prev.address && cur.address - prev.address >= prev.size) {
                proof {
                    assert(!regions_sorted(available@)) by {
                        assert(available@[i + 1].address < available@[i as int].address
                            + available@[i as int].size);
                    }
                }
                return Err(BootError::UnsortedRegions);
            }
            i = i + 1;
        }
        let mut copied: Vec<MemoryRegion> = Vec::new();
        let mut k: usize = 0;
        while k < n
            invariant
                k <= n,
                n == available@.len(),
                copied@ == available@.subrange(0, k as int),
            decreases n - k,
        {
            copied.push(available[k]);
            proof {
                assert(copied@ =~= available@.subrange(0, k + 1 as int));
            }
            k = k + 1;
        }
        proof {
            assert(copied@ =~= available@);
        }
        self.regions = copied;
        self.initialized = true;
        Ok(())
    }

    /// The validated region list: what was frozen by `init`, or nothing
    /// before initialization.
    pub fn available(&self) -> (r: &Vec<MemoryRegion>)
        ensures
            r@ == self.regions(),
    {
        &self.regions
    }

    /// Whether `init` has already succeeded.
    pub fn initialized(&self) -> (r: bool)
        ensures
            r == self.is_init(),
    {
        self.initialized
    }
}

/// The running kernel image's own address span, computed from its link-time
/// begin and end boundary addresses.
pub fn kernel_memory_region(kbaddr: u64, keaddr: u64) -> (r: MemoryRegion)
    requires
        kbaddr <= keaddr,
    ensures
        r.address == kbaddr,
        r.size == keaddr - kbaddr,
{
    MemoryRegion { address: kbaddr, size: keaddr - kbaddr }
}

} // verus!
