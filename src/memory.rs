//! A task's user address space: disjoint areas of bytes, each readable
//! and/or writable. Every access by a user-supplied address goes through a
//! lookup that checks the address is mapped with the permission needed.
use vstd::prelude::*;

verus! {

/// A contiguous run of user memory starting at address `start`.
pub struct MapArea {
    pub start: usize,
    pub data: Vec<u8>,
    pub readable: bool,
    pub writable: bool,
}

impl MapArea {
    /// One past the last address of the area.
    pub open spec fn end(&self) -> int {
        self.start + self.data@.len()
    }

    pub open spec fn contains(&self, addr: int) -> bool {
        self.start <= addr < self.end()
    }

    /// The area's addresses fit in a machine word.
    pub open spec fn wf(&self) -> bool {
        self.end() <= usize::MAX
    }

    pub open spec fn disjoint(&self, other: &MapArea) -> bool {
        self.end() <= other.start || other.end() <= self.start
    }
}

/// The areas mapped into one task's address space.
pub struct AddressSpace {
    pub areas: Vec<MapArea>,
}

impl AddressSpace {
    /// Every area fits in the address range and no two areas overlap.
    pub open spec fn wf(&self) -> bool {
        &&& forall|i: int| 0 <= i < self.areas@.len() ==> (#[trigger] self.areas@[i]).wf()
        &&& forall|i: int, j: int|
            #![trigger self.areas@[i], self.areas@[j]]
            0 <= i < self.areas@.len() && 0 <= j < self.areas@.len() && i != j
                ==> self.areas@[i].disjoint(&self.areas@[j])
    }

    pub open spec fn mapped(&self, addr: int) -> bool {
        exists|i: int| 0 <= i < self.areas@.len() && (#[trigger] self.areas@[i]).contains(addr)
    }

    /// The index of the area that holds `addr`, where `addr` is mapped.
    pub open spec fn area_of(&self, addr: int) -> int {
        choose|i: int| 0 <= i < self.areas@.len() && (#[trigger] self.areas@[i]).contains(addr)
    }

    pub open spec fn readable(&self, addr: int) -> bool {
        self.mapped(addr) && self.areas@[self.area_of(addr)].readable
    }

    pub open spec fn writable(&self, addr: int) -> bool {
        self.mapped(addr) && self.areas@[self.area_of(addr)].writable
    }

    /// The byte stored at a mapped address.
    pub open spec fn byte(&self, addr: int) -> u8 {
        let a = self.areas@[self.area_of(addr)];
        a.data@[addr - a.start]
    }

    /// Both spaces map the same areas with the same permissions.
    pub open spec fn same_layout(&self, other: &AddressSpace) -> bool {
        &&& self.areas@.len() == other.areas@.len()
        &&& forall|i: int|
            0 <= i < self.areas@.len() ==> {
                let a = #[trigger] self.areas@[i];
                let b = other.areas@[i];
                a.start == b.start && a.data@.len() == b.data@.len() && a.readable == b.readable
                    && a.writable == b.writable
            }
    }

    /// `new` is this space with the byte at `addr` replaced by `b`, and
    /// nothing else changed.
    pub open spec fn written(&self, new: &AddressSpace, addr: int, b: u8) -> bool {
        &&& self.same_layout(new)
        &&& forall|i: int|
            0 <= i < self.areas@.len() ==> {
                let a = #[trigger] self.areas@[i];
                new.areas@[i].data@ == if a.contains(addr) {
                    a.data@.update(addr - a.start, b)
                } else {
                    a.data@
                }
            }
    }

    /// Writing one byte keeps the layout and permissions of every address,
    /// puts `b` at `addr` and leaves every other byte as it was.
    pub proof fn lemma_written(&self, new: &AddressSpace, addr: int, b: u8)
        requires
            self.wf(),
            self.mapped(addr),
            self.written(new, addr, b),
        ensures
            new.wf(),
            forall|a: int| #[trigger] new.mapped(a) == self.mapped(a),
            forall|a: int| #[trigger] new.readable(a) == self.readable(a),
            forall|a: int| #[trigger] new.writable(a) == self.writable(a),
            new.byte(addr) == b,
            forall|a: int| self.mapped(a) && a != addr ==> #[trigger] new.byte(a) == self.byte(a),
    {
        assert forall|k: int| 0 <= k < new.areas@.len() implies (#[trigger] new.areas@[k]).wf() by {
            assert(self.areas@[k].wf());
        }
        assert forall|k: int, j: int|
            0 <= k < new.areas@.len() && 0 <= j < new.areas@.len() && k != j
                implies #[trigger] new.areas@[k].disjoint(&new.areas@[j]) by {
            assert(self.areas@[k].disjoint(&self.areas@[j]));
        }
        assert forall|a: int| self.mapped(a) implies new.mapped(a) && #[trigger] new.area_of(a) == self.area_of(a) by {
            let i = self.area_of(a);
            assert(new.areas@[i].contains(a));
            let j = new.area_of(a);
            if i != j {
                assert(new.areas@[i].disjoint(&new.areas@[j]));
            }
        }
        assert forall|a: int| new.mapped(a) implies self.mapped(a) by {
            let j = new.area_of(a);
            assert(self.areas@[j].contains(a));
        }
    }

    /// An address space with nothing mapped.
    pub fn new() -> (r: AddressSpace)
        ensures
            r.wf(),
            r.areas@.len() == 0,
    {
        AddressSpace { areas: Vec::new() }
    }

    /// Maps `area` into the space. Fails, leaving the space unchanged, where
    /// the area runs past the end of the address range or overlaps an area
    /// already mapped.
    pub fn map_area(&mut self, area: MapArea) -> (ok: bool)
        requires
            old(self).wf(),
        ensures
            final(self).wf(),
            ok == (area.wf() && forall|i: int|
                0 <= i < old(self).areas@.len() ==> (#[trigger] old(self).areas@[i]).disjoint(&area)),
            ok ==> final(self).areas@ == old(self).areas@.push(area),
            !ok ==> *final(self) == *old(self),
    {
        if area.data.len() > usize::MAX - area.start {
            return false;
        }
        let end = area.start + area.data.len();
        let mut i: usize = 0;
        while i < self.areas.len()
            invariant
                0 <= i <= self.areas@.len(),
                self.wf(),
                *self == *old(self),
                area.wf(),
                end == area.end(),
                forall|k: int| 0 <= k < i ==> (#[trigger] self.areas@[k]).disjoint(&area),
            decreases self.areas@.len() - i,
        {
            let a = &self.areas[i];
            let a_end = a.start + a.data.len();
            if !(a_end <= area.start || end <= a.start) {
                return false;
            }
            i += 1;
        }
        self.areas.push(area);
        true
    }

    /// Index of the area holding `addr`, or `None` where `addr` is unmapped.
    pub fn find_area(&self, addr: usize) -> (r: Option<usize>)
        requires
            self.wf(),
        ensures
            r.is_some() == self.mapped(addr as int),
            r matches Some(i) ==> i == self.area_of(addr as int) && self.areas@[i as int].contains(
                addr as int,
            ),
    {
        let mut i: usize = 0;
        while i < self.areas.len()
            invariant
                0 <= i <= self.areas@.len(),
                self.wf(),
                forall|k: int| 0 <= k < i ==> !(#[trigger] self.areas@[k]).contains(addr as int),
            decreases self.areas@.len() - i,
        {
            let a = &self.areas[i];
            if a.start <= addr && addr - a.start < a.data.len() {
                proof {
                    assert(self.areas@[i as int].contains(addr as int));
                    assert(self.mapped(addr as int));
                    let j = self.area_of(addr as int);
                    assert(0 <= j < self.areas@.len() && self.areas@[j].contains(addr as int));
                    if j != i {
                        assert(self.areas@[i as int].disjoint(&self.areas@[j]));
                    }
                }
                return Some(i);
            }
            i += 1;
        }
        None
    }

    /// Whether `addr` is mapped readable.
    pub fn validate_readable(&self, addr: usize) -> (r: bool)
        requires
            self.wf(),
        ensures
            r == self.readable(addr as int),
    {
        match self.find_area(addr) {
            Some(i) => self.areas[i].readable,
            None => false,
        }
    }

    /// Whether `addr` is mapped writable.
    pub fn validate_writable(&self, addr: usize) -> (r: bool)
        requires
            self.wf(),
        ensures
            r == self.writable(addr as int),
    {
        match self.find_area(addr) {
            Some(i) => self.areas[i].writable,
            None => false,
        }
    }

    /// Reads the byte at `addr`; `None` where `addr` is not mapped readable.
    pub fn read_byte(&self, addr: usize) -> (r: Option<u8>)
        requires
            self.wf(),
        ensures
            r == if self.readable(addr as int) {
                Some(self.byte(addr as int))
            } else {
                None::<u8>
            },
    {
        match self.find_area(addr) {
            Some(i) => {
                let a = &self.areas[i];
                if a.readable {
                    Some(a.data[addr - a.start])
                } else {
                    None
                }
            },
            None => None,
        }
    }

    /// Writes `b` at `addr`. Fails, leaving the space unchanged, where `addr`
    /// is not mapped writable.
    pub fn write_byte(&mut self, addr: usize, b: u8) -> (ok: bool)
        requires
            old(self).wf(),
        ensures
            final(self).wf(),
            ok == old(self).writable(addr as int),
            ok ==> old(self).written(final(self), addr as int, b),
            !ok ==> *final(self) == *old(self),
    {
        match self.find_area(addr) {
            Some(i) => {
                if !self.areas[i].writable {
                    return false;
                }
                let ghost before = *self;
                let off = addr - self.areas[i].start;
                self.areas[i].data.set(off, b);
                proof {
                    assert forall|k: int| 0 <= k < self.areas@.len() implies (
                    #[trigger] before.areas@[k]).contains(addr as int) == (k == i) by {
                        if k != i && before.areas@[k].contains(addr as int) {
                            assert(before.areas@[k].disjoint(&before.areas@[i as int]));
                        }
                    }
                    assert forall|k: int| 0 <= k < self.areas@.len() implies (
                    #[trigger] self.areas@[k]).wf() by {
                        assert(before.areas@[k].wf());
                    }
                    assert forall|k: int, j: int|
                        0 <= k < self.areas@.len() && 0 <= j < self.areas@.len() && k != j
                            implies #[trigger] self.areas@[k].disjoint(&self.areas@[j]) by {
                        assert(before.areas@[k].disjoint(&before.areas@[j]));
                    }
                }
                true
            },
            None => false,
        }
    }

    /// Unmaps every area.
    pub fn clear(&mut self)
        ensures
            final(self).wf(),
            final(self).areas@.len() == 0,
    {
        self.areas = Vec::new();
    }
}

} // verus!
