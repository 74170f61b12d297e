//! Virtual-address-space region bookkeeping.
//!
//! An [`AddressSpace`] tracks the set of user-mapped ranges of one task
//! together with the mappings installed in the backing page table, and
//! keeps the two in exact agreement.  Requests are validated against a
//! snapshot of every existing range before anything is mutated, so a
//! rejected request never leaves a partial change behind.

use vstd::prelude::*;
use crate::config::PAGE_SIZE;

verus! {

/// Access rights asked of one mapped region.  Raw permission bits are
/// validated into this closed form at the syscall boundary; a value with
/// all three rights absent never reaches the tracker.
#[derive(Clone, Copy, PartialEq, Eq, Structural, Debug)]
pub struct MapPermission {
    pub read: bool,
    pub write: bool,
    pub execute: bool,
}

impl MapPermission {
    /// At least one right must be requested.
    pub open spec fn spec_valid(self) -> bool {
        self.read || self.write || self.execute
    }

    /// Raw permission bits are acceptable when no bit above the third is
    /// set and at least one of the low three is.
    pub open spec fn spec_bits_ok(port: usize) -> bool {
        port & !0x7usize == 0 && port & 0x7usize != 0
    }

    /// Validates raw syscall permission bits (bit 0 read, bit 1 write,
    /// bit 2 execute) into a `MapPermission`.
    pub fn from_bits(port: usize) -> (r: Option<MapPermission>)
        ensures
            r is Some <==> Self::spec_bits_ok(port),
            r is Some ==> r == Some((MapPermission {
                read: port & 1 != 0,
                write: port & 2 != 0,
                execute: port & 4 != 0,
            })),
            r is Some ==> r.unwrap().spec_valid(),
    {
        if port & !0x7usize != 0 || port & 0x7usize == 0 {
            None
        } else {
            proof {
                assert(port & 1 != 0 || port & 2 != 0 || port & 4 != 0) by (bit_vector)
                    requires port & 0x7usize != 0;
            }
            Some(MapPermission {
                read: port & 1 != 0,
                write: port & 2 != 0,
                execute: port & 4 != 0,
            })
        }
    }
}

/// One tracked user mapping: the half-open range `[start, end)` and its
/// permission.
#[derive(Clone, Copy, PartialEq, Eq, Structural, Debug)]
pub struct Region {
    pub start: usize,
    pub end: usize,
    pub perm: MapPermission,
}

impl Region {
    /// Both boundaries page-aligned, the range non-empty, the permission
    /// meaningful.
    pub open spec fn wf(self) -> bool {
        &&& self.start % PAGE_SIZE == 0
        &&& self.end % PAGE_SIZE == 0
        &&& self.start < self.end
        &&& self.perm.spec_valid()
    }

    /// The two regions share no address.
    pub open spec fn disjoint(self, other: Region) -> bool {
        self.end <= other.start || other.end <= self.start
    }

    /// The region shares no address with `[start, end)`.
    pub open spec fn disjoint_range(self, start: int, end: int) -> bool {
        self.end <= start || end <= self.start
    }

    /// The region lies entirely inside `[start, end)`.
    pub open spec fn inside(self, start: int, end: int) -> bool {
        start <= self.start && self.end <= end
    }

    /// The address `a` belongs to the region.
    pub open spec fn contains_addr(self, a: int) -> bool {
        self.start <= a < self.end
    }
}

/// `[start, end)` is exactly tiled by tracked regions: a region begins at
/// `start`, ends no later than `end`, and the rest of the range is tiled
/// in turn.  An unmap request succeeds exactly when its range is tiled.
pub open spec fn tiles(regions: Seq<Region>, start: int, end: int) -> bool
    decreases end - start,
{
    if start >= end {
        start == end
    } else {
        exists|i: int|
            #![trigger regions[i]]
            0 <= i < regions.len()
                && regions[i].start == start
                && start < regions[i].end
                && regions[i].end <= end
                && tiles(regions, regions[i].end as int, end)
    }
}

/// The mappings actually installed in the backing page table, at area
/// granularity: `(start, end, permission)` triples.  Kept as a structure
/// of its own, updated by its own code path, so that its agreement with
/// the tracker is a stated invariant rather than a restatement.
pub struct PageTable {
    pub areas: Vec<(usize, usize, MapPermission)>,
}

impl PageTable {
    /// Installs one mapped area.
    pub fn install(&mut self, start: usize, end: usize, perm: MapPermission)
        ensures
            final(self).areas@ == old(self).areas@.push((start, end, perm)),
    {
        self.areas.push((start, end, perm));
    }
}

/// The address space of one task: the region tracker, the installed page
/// mappings, and the heap boundaries adjusted by the break syscall.
/// The page table here carries exactly the tracker-governed mappings;
/// the heap's own backing pages belong to the external memory module
/// and appear only as the two break boundaries.
pub struct AddressSpace {
    /// Tracked user-mapped regions, pairwise disjoint.
    pub regions: Vec<Region>,
    /// The installed mappings backing them.
    pub page_table: PageTable,
    /// Lowest address of the heap.
    pub heap_bottom: usize,
    /// Current end of the heap, moved by the break syscall.
    pub program_brk: usize,
}

impl AddressSpace {
    /// Every tracked region is well formed.
    pub open spec fn regions_wf(self) -> bool {
        forall|i: int| 0 <= i < self.regions@.len() ==> (#[trigger] self.regions@[i]).wf()
    }

    /// Tracked regions are pairwise non-overlapping.
    pub open spec fn regions_disjoint(self) -> bool {
        forall|i: int, j: int|
            0 <= i < self.regions@.len() && 0 <= j < self.regions@.len() && i != j
                ==> (#[trigger] self.regions@[i]).disjoint(#[trigger] self.regions@[j])
    }

    /// Tracker entry `i` and installed mapping `i` agree exactly: no
    /// dangling tracker entry without a backing mapping, and no mapping
    /// without its tracker entry.
    pub open spec fn matches_page_table(self) -> bool {
        &&& self.page_table.areas@.len() == self.regions@.len()
        &&& forall|i: int| 0 <= i < self.regions@.len()
            ==> #[trigger] self.page_table.areas@[i]
                == (self.regions@[i].start, self.regions@[i].end, self.regions@[i].perm)
    }

    /// The address-space invariant.  The break stays representable in
    /// the break syscall's signed return value.
    pub open spec fn wf(self) -> bool {
        &&& self.regions_wf()
        &&& self.regions_disjoint()
        &&& self.matches_page_table()
        &&& self.heap_bottom <= self.program_brk
        &&& self.program_brk <= isize::MAX as usize
    }

    /// A fresh address space with no user mappings and an empty heap.
    pub fn new_empty(heap_bottom: usize) -> (r: AddressSpace)
        requires
            heap_bottom <= isize::MAX as usize,
        ensures
            r.wf(),
            r.regions@.len() == 0,
            r.page_table.areas@.len() == 0,
            r.heap_bottom == heap_bottom,
            r.program_brk == heap_bottom,
    {
        AddressSpace {
            regions: Vec::new(),
            page_table: PageTable { areas: Vec::new() },
            heap_bottom,
            program_brk: heap_bottom,
        }
    }

    /// An exact logical copy, as the fork operation needs.
    pub fn duplicate(&self) -> (r: AddressSpace)
        ensures
            r.regions@ == self.regions@,
            r.page_table.areas@ == self.page_table.areas@,
            r.heap_bottom == self.heap_bottom,
            r.program_brk == self.program_brk,
            self.wf() ==> r.wf(),
    {
        let mut regions: Vec<Region> = Vec::new();
        let mut areas: Vec<(usize, usize, MapPermission)> = Vec::new();
        let n = self.regions.len();
        let mut k: usize = 0;
        while k < n
            invariant
                n == self.regions@.len(),
                k <= n,
                regions@ == self.regions@.subrange(0, k as int),
            decreases n - k,
        {
            regions.push(self.regions[k]);
            proof {
                assert(regions@ == self.regions@.subrange(0, k + 1 as int));
            }
            k += 1;
        }
        let m = self.page_table.areas.len();
        let mut j: usize = 0;
        while j < m
            invariant
                m == self.page_table.areas@.len(),
                j <= m,
                areas@ == self.page_table.areas@.subrange(0, j as int),
            decreases m - j,
        {
            areas.push(self.page_table.areas[j]);
            proof {
                assert(areas@ == self.page_table.areas@.subrange(0, j + 1 as int));
            }
            j += 1;
        }
        proof {
            assert(regions@ == self.regions@);
            assert(areas@ == self.page_table.areas@);
        }
        AddressSpace {
            regions,
            page_table: PageTable { areas },
            heap_bottom: self.heap_bottom,
            program_brk: self.program_brk,
        }
    }

    /// Records `[start, end)` with `perm` in the tracker and installs the
    /// matching page mapping.  The whole request is checked against a
    /// snapshot of every existing region first: a rejected request — any
    /// overlap, or an empty range, which never names a mapping — changes
    /// nothing.
    pub fn insert_area(&mut self, start: usize, end: usize, perm: MapPermission) -> (r: bool)
        requires
            old(self).wf(),
            start % PAGE_SIZE == 0,
            end % PAGE_SIZE == 0,
            start <= end,
            perm.spec_valid(),
        ensures
            final(self).wf(),
            r <==> (start < end
                && forall|i: int| 0 <= i < old(self).regions@.len()
                    ==> (#[trigger] old(self).regions@[i]).disjoint_range(start as int, end as int)),
            r ==> final(self).regions@
                == old(self).regions@.push((Region { start, end, perm })),
            r ==> final(self).page_table.areas@
                == old(self).page_table.areas@.push((start, end, perm)),
            !r ==> *final(self) == *old(self),
            final(self).heap_bottom == old(self).heap_bottom,
            final(self).program_brk == old(self).program_brk,
    {
        if start == end {
            return false;
        }
        let n = self.regions.len();
        let mut k: usize = 0;
        while k < n
            invariant
                *self == *old(self),
                old(self).wf(),
                n == self.regions@.len(),
                k <= n,
                start < end,
                forall|i: int| 0 <= i < k
                    ==> (#[trigger] self.regions@[i]).disjoint_range(start as int, end as int),
            decreases n - k,
        {
            let reg = self.regions[k];
            if !(reg.end <= start || end <= reg.start) {
                return false;
            }
            k += 1;
        }
        let fresh = Region { start, end, perm };
        self.regions.push(fresh);
        self.page_table.install(start, end, perm);
        proof {
            let new_regions = self.regions@;
            let old_regions = old(self).regions@;
            assert forall|i: int, j: int|
                0 <= i < new_regions.len() && 0 <= j < new_regions.len() && i != j
                implies (#[trigger] new_regions[i]).disjoint(#[trigger] new_regions[j]) by {
                if i < old_regions.len() && j < old_regions.len() {
                    assert(old(self).regions_disjoint());
                } else if i == old_regions.len() {
                    assert(old_regions[j].disjoint_range(start as int, end as int));
                } else {
                    assert(old_regions[i].disjoint_range(start as int, end as int));
                }
            }
        }
        true
    }

    /// Removes the tracked regions that exactly tile `[start, end)`,
    /// together with their installed mappings.  The request succeeds only
    /// when the non-empty range matches one or more whole tracked regions
    /// with no gap and no partial cut; an empty range names no region and
    /// fails.  A failed request mutates nothing; every region not
    /// touching the range stays, in its old order.
    pub fn remove_area(&mut self, start: usize, end: usize) -> (r: bool)
        requires
            old(self).wf(),
            start % PAGE_SIZE == 0,
            end % PAGE_SIZE == 0,
            start <= end,
        ensures
            final(self).wf(),
            r <==> start < end && tiles(old(self).regions@, start as int, end as int),
            r ==> final(self).regions@ == old(self).regions@.filter(
                |reg: Region| reg.disjoint_range(start as int, end as int)),
            r ==> final(self).page_table.areas@ == old(self).page_table.areas@.filter(
                |a: (usize, usize, MapPermission)| a.1 <= start || end <= a.0),
            !r ==> *final(self) == *old(self),
            final(self).heap_bottom == old(self).heap_bottom,
            final(self).program_brk == old(self).program_brk,
    {
        if start == end {
            return false;
        }
        let n = self.regions.len();
        let mut cur: usize = start;
        while cur < end
            invariant
                *self == *old(self),
                old(self).wf(),
                n == self.regions@.len(),
                start <= cur <= end,
                tiles(self.regions@, start as int, end as int)
                    <==> tiles(self.regions@, cur as int, end as int),
            decreases end - cur,
        {
            let mut k: usize = 0;
            let mut step: usize = 0;
            let mut found: bool = false;
            while k < n && !found
                invariant
                    *self == *old(self),
                    old(self).wf(),
                    n == self.regions@.len(),
                    k <= n,
                    start <= cur < end,
                    !found ==> forall|i: int| 0 <= i < k
                        ==> !((#[trigger] self.regions@[i]).start == cur
                            && self.regions@[i].end <= end),
                    found ==> exists|i: int|
                        #![trigger self.regions@[i]]
                        0 <= i < n
                            && self.regions@[i].start == cur
                            && cur < self.regions@[i].end
                            && self.regions@[i].end <= end
                            && self.regions@[i].end == step,
                decreases n - k + (if found { 0int } else { 1int }),
            {
                let reg = self.regions[k];
                if reg.start == cur && reg.end <= end {
                    proof {
                        assert(reg.wf());
                    }
                    found = true;
                    step = reg.end;
                } else {
                    k += 1;
                }
            }
            if !found {
                proof {
                    // No region begins at `cur`, so the remainder is not
                    // tiled, so the whole range is not.
                    let s = self.regions@;
                    if tiles(s, cur as int, end as int) {
                        let j = choose|j: int|
                            #![trigger s[j]]
                            0 <= j < s.len() && s[j].start == cur && cur < s[j].end
                                && s[j].end <= end && tiles(s, s[j].end as int, end as int);
                        assert(!(s[j].start == cur && s[j].end <= end));
                        assert(false);
                    }
                }
                return false;
            }
            proof {
                let s = self.regions@;
                let i = choose|i: int|
                    #![trigger s[i]]
                    0 <= i < n && s[i].start == cur && cur < s[i].end
                        && s[i].end <= end && s[i].end == step;
                // Any tiling of `[cur, end)` must begin with this very
                // region: two distinct regions both holding `cur` would
                // overlap.
                assert(tiles(s, cur as int, end as int) ==> tiles(s, step as int, end as int)) by {
                    if tiles(s, cur as int, end as int) {
                        let j = choose|j: int|
                            #![trigger s[j]]
                            0 <= j < s.len() && s[j].start == cur && cur < s[j].end
                                && s[j].end <= end && tiles(s, s[j].end as int, end as int);
                        if i != j {
                            assert(s[i].disjoint(s[j]));
                            assert(false);
                        }
                    }
                }
                assert(tiles(s, step as int, end as int) ==> tiles(s, cur as int, end as int)) by {
                    if tiles(s, step as int, end as int) {
                        assert(0 <= i < s.len() && s[i].start == cur && cur < s[i].end
                            && s[i].end <= end && tiles(s, s[i].end as int, end as int));
                    }
                }
            }
            cur = step;
        }
        proof {
            assert(tiles(self.regions@, cur as int, end as int));
            assert(tiles(old(self).regions@, start as int, end as int));
        }
        let mut new_regions: Vec<Region> = Vec::new();
        let mut new_areas: Vec<(usize, usize, MapPermission)> = Vec::new();
        let ghost pred = |reg: Region| reg.disjoint_range(start as int, end as int);
        let ghost apred = (|a: (usize, usize, MapPermission)| a.1 <= start || end <= a.0);
        let ghost mut srcs: Seq<int> = Seq::empty();
        let mut k: usize = 0;
        while k < n
            invariant
                *self == *old(self),
                old(self).wf(),
                n == self.regions@.len(),
                k <= n,
                pred == (|reg: Region| reg.disjoint_range(start as int, end as int)),
                apred == (|a: (usize, usize, MapPermission)| a.1 <= start || end <= a.0),
                new_regions@ == self.regions@.subrange(0, k as int).filter(pred),
                new_areas@ == self.page_table.areas@.subrange(0, k as int).filter(apred),
                new_areas@.len() == new_regions@.len(),
                forall|a: int| 0 <= a < new_regions@.len()
                    ==> #[trigger] new_areas@[a] == (new_regions@[a].start,
                        new_regions@[a].end, new_regions@[a].perm),
                srcs.len() == new_regions@.len(),
                forall|a: int| 0 <= a < srcs.len()
                    ==> 0 <= #[trigger] srcs[a] < k && new_regions@[a] == self.regions@[srcs[a]],
                forall|a: int, b: int| 0 <= a < b < srcs.len() ==> #[trigger] srcs[a] < #[trigger] srcs[b],
            decreases n - k,
        {
            let reg = self.regions[k];
            proof {
                reveal(Seq::filter);
                let sub_next = self.regions@.subrange(0, k + 1int);
                assert(sub_next.drop_last() =~= self.regions@.subrange(0, k as int));
                assert(sub_next.last() == reg);
                let asub_next = self.page_table.areas@.subrange(0, k + 1int);
                assert(asub_next.drop_last() =~= self.page_table.areas@.subrange(0, k as int));
                assert(asub_next.last() == self.page_table.areas@[k as int]);
                assert(self.page_table.areas@[k as int] == (reg.start, reg.end, reg.perm));
            }
            if reg.end <= start || end <= reg.start {
                new_regions.push(reg);
                new_areas.push(self.page_table.areas[k]);
                proof {
                    srcs = srcs.push(k as int);
                }
            }
            k += 1;
        }
        proof {
            assert(self.regions@.subrange(0, n as int) =~= self.regions@);
            assert(self.page_table.areas@.subrange(0, n as int) =~= self.page_table.areas@);
            let final_regions = new_regions@;
            assert forall|a: int, b: int|
                0 <= a < final_regions.len() && 0 <= b < final_regions.len() && a != b
                implies (#[trigger] final_regions[a]).disjoint(#[trigger] final_regions[b]) by {
                assert(srcs[a] != srcs[b]);
                assert(old(self).regions@[srcs[a]].disjoint(old(self).regions@[srcs[b]]));
            }
            assert forall|a: int| 0 <= a < final_regions.len()
                implies (#[trigger] final_regions[a]).wf() by {
                assert(old(self).regions@[srcs[a]].wf());
            }
        }
        self.regions = new_regions;
        self.page_table.areas = new_areas;
        true
    }

    /// The translation capability for syscall out-pointers: every byte of
    /// `[vaddr, vaddr + size)` resolves with write access — inside one
    /// tracked writable region, or inside the heap below the current
    /// break.
    pub open spec fn spec_resolves_writable(self, vaddr: int, size: int) -> bool {
        (exists|i: int|
            #![trigger self.regions@[i]]
            0 <= i < self.regions@.len()
                && self.regions@[i].perm.write
                && self.regions@[i].start <= vaddr
                && vaddr + size <= self.regions@[i].end)
            || (self.heap_bottom <= vaddr && vaddr + size <= self.program_brk)
    }

    /// Decides whether a user virtual range may be written through this
    /// address space.  The kernel core never dereferences an address that
    /// this check refuses.
    pub fn resolves_writable(&self, vaddr: usize, size: usize) -> (r: bool)
        ensures
            r == self.spec_resolves_writable(vaddr as int, size as int),
    {
        if vaddr <= self.program_brk && self.heap_bottom <= vaddr
            && size <= self.program_brk - vaddr {
            return true;
        }
        let n = self.regions.len();
        let mut k: usize = 0;
        while k < n
            invariant
                n == self.regions@.len(),
                k <= n,
                forall|i: int| 0 <= i < k
                    ==> !((#[trigger] self.regions@[i]).perm.write
                        && self.regions@[i].start <= vaddr
                        && vaddr + size <= self.regions@[i].end),
            decreases n - k,
        {
            let reg = self.regions[k];
            if reg.perm.write && reg.start <= vaddr && vaddr <= reg.end
                && size <= reg.end - vaddr {
                return true;
            }
            k += 1;
        }
        false
    }

    /// Moves the program break by `delta` bytes.  Fails, changing
    /// nothing, when the new break would fall below the heap bottom or
    /// past the representable range; on success returns the previous
    /// break.
    pub fn change_brk(&mut self, delta: i32) -> (r: Option<usize>)
        requires
            old(self).wf(),
        ensures
            final(self).wf(),
            r is Some <==> old(self).heap_bottom <= old(self).program_brk + delta
                && old(self).program_brk + delta <= isize::MAX as usize,
            r is Some ==> r == Some(old(self).program_brk)
                && final(self).program_brk == old(self).program_brk + delta,
            r is Some ==> final(self).regions@ == old(self).regions@
                && final(self).page_table.areas@ == old(self).page_table.areas@
                && final(self).heap_bottom == old(self).heap_bottom,
            r is None ==> *final(self) == *old(self),
    {
        let cap: usize = isize::MAX as usize;
        if delta >= 0 {
            let d = delta as usize;
            if d <= cap - self.program_brk {
                let prev = self.program_brk;
                self.program_brk = prev + d;
                Some(prev)
            } else {
                None
            }
        } else {
            let d: usize = if delta == i32::MIN {
                0x8000_0000usize
            } else {
                (-delta) as usize
            };
            if d <= self.program_brk && self.program_brk - d >= self.heap_bottom {
                let prev = self.program_brk;
                self.program_brk = prev - d;
                Some(prev)
            } else {
                None
            }
        }
    }
}

} // verus!
