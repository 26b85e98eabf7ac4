use vstd::prelude::*;

use crate::vm::Halt;

verus! {

/// What a region does with the bytes that reach it.
#[derive(Clone, Copy, Debug, PartialEq, Eq, Structural)]
pub enum RegionMeta {
    /// Backed by the guest's RAM: reads and writes go to the byte array.
    Memory,
    /// Each written byte goes to the host's standard output; reads come from RAM.
    Serial,
    /// A write ends the guest with the written byte as exit status; reads come from RAM.
    Exit,
}

pub struct MemoryMeta;

impl MemoryMeta {
    pub fn new() -> (r: RegionMeta)
        ensures
            r == RegionMeta::Memory,
    {
        RegionMeta::Memory
    }
}

pub struct SerialMeta;

impl SerialMeta {
    pub fn new() -> (r: RegionMeta)
        ensures
            r == RegionMeta::Serial,
    {
        RegionMeta::Serial
    }
}

pub struct ExitMeta;

impl ExitMeta {
    pub fn new() -> (r: RegionMeta)
        ensures
            r == RegionMeta::Exit,
    {
        RegionMeta::Exit
    }
}

/// The half-open interval `[addr, addr + size)` of the address space, with its behaviour.
#[derive(Clone, Copy, Debug)]
pub struct Region {
    pub meta: RegionMeta,
    pub addr: usize,
    pub size: usize,
}

impl Region {
    pub open spec fn end(self) -> int {
        self.addr + self.size
    }

    pub open spec fn contains(self, a: int) -> bool {
        self.addr <= a < self.end()
    }

    /// Hands `bytes`, which start `off` bytes into the region, to the region's handler.
    /// RAM stores them at their addresses, the serial port appends them to `output`, and
    /// the exit port stops the guest with the first of them.
    pub fn write(&self, ram: &mut Vec<u8>, output: &mut Vec<u8>, off: usize, bytes: &[u8]) -> (r:
        Result<(), Halt>)
        requires
            0 < bytes@.len(),
            off + bytes@.len() <= self.size,
            self.end() <= old(ram)@.len(),
        ensures
            final(ram)@.len() == old(ram)@.len(),
            self.meta == RegionMeta::Memory ==> {
                &&& r == Ok::<(), Halt>(())
                &&& final(ram)@ == old(ram)@.take(self.addr + off) + bytes@ + old(ram)@.skip(
                    self.addr + off + bytes@.len(),
                )
                &&& final(output)@ == old(output)@
            },
            self.meta == RegionMeta::Serial ==> {
                &&& r == Ok::<(), Halt>(())
                &&& final(ram)@ == old(ram)@
                &&& final(output)@ == old(output)@ + bytes@
            },
            self.meta == RegionMeta::Exit ==> {
                &&& r == Err::<(), Halt>(Halt::Exit(bytes@[0]))
                &&& final(ram)@ == old(ram)@
                &&& final(output)@ == old(output)@
            },
    {
        match self.meta {
            RegionMeta::Memory => {
                let _ = ram.len();
                let start = self.addr + off;
                let mut i: usize = 0;
                while i < bytes.len()
                    invariant
                        start == self.addr + off,
                        start + bytes@.len() <= old(ram)@.len() <= usize::MAX,
                        i <= bytes@.len(),
                        ram@.len() == old(ram)@.len(),
                        forall|k: int|
                            0 <= k < ram@.len() ==> #[trigger] ram@[k] == if start <= k < start + i {
                                bytes@[k - start]
                            } else {
                                old(ram)@[k]
                            },
                    decreases bytes@.len() - i,
                {
                    ram.set(start + i, bytes[i]);
                    i = i + 1;
                }
                assert(ram@ =~= old(ram)@.take(start as int) + bytes@ + old(ram)@.skip(
                    start + bytes@.len(),
                ));
                Ok(())
            },
            RegionMeta::Serial => {
                let mut i: usize = 0;
                while i < bytes.len()
                    invariant
                        i <= bytes@.len(),
                        output@ == old(output)@ + bytes@.take(i as int),
                    decreases bytes@.len() - i,
                {
                    output.push(bytes[i]);
                    i = i + 1;
                    assert(output@ =~= old(output)@ + bytes@.take(i as int));
                }
                assert(bytes@.take(bytes@.len() as int) =~= bytes@);
                Ok(())
            },
            RegionMeta::Exit => Err(Halt::Exit(bytes[0])),
        }
    }

    /// Appends the `len` bytes that start `off` bytes into the region to `bytes`. Every
    /// kind of region reads from RAM.
    pub fn read(&self, ram: &Vec<u8>, off: usize, len: usize, bytes: &mut Vec<u8>)
        requires
            off + len <= self.size,
            self.end() <= ram@.len(),
        ensures
            final(bytes)@ == old(bytes)@ + ram@.subrange(
                self.addr + off,
                self.addr + off + len,
            ),
    {
        let _ = ram.len();
        let start = self.addr + off;
        let mut i: usize = 0;
        while i < len
            invariant
                start == self.addr + off,
                start + len <= ram@.len() <= usize::MAX,
                i <= len,
                bytes@ == old(bytes)@ + ram@.subrange(start as int, start + i),
            decreases len - i,
        {
            bytes.push(ram[start + i]);
            i = i + 1;
            assert(bytes@ =~= old(bytes)@ + ram@.subrange(start as int, start + i));
        }
    }
}

/// The regions of a machine, in order of address.
pub struct RegionList(pub Vec<Region>);

impl RegionList {
    /// Regions end within the address type and follow each other without overlap.
    pub open spec fn wf(self) -> bool {
        &&& forall|i: int| 0 <= i < self.0@.len() ==> #[trigger] self.0@[i].end() <= usize::MAX
        &&& forall|i: int, j: int|
            0 <= i < j < self.0@.len() ==> #[trigger] self.0@[i].end() <= #[trigger] self.0@[j].addr
    }

    /// Every region lies within a RAM of `len` bytes.
    pub open spec fn within(self, len: nat) -> bool {
        forall|i: int| 0 <= i < self.0@.len() ==> #[trigger] self.0@[i].end() <= len
    }

    /// Some region holds address `a`.
    pub open spec fn covers(self, a: int) -> bool {
        exists|i: int| 0 <= i < self.0@.len() && #[trigger] self.0@[i].contains(a)
    }

    /// The region that holds `a`, where one does.
    pub open spec fn region_at(self, a: int) -> Region
        recommends
            self.covers(a),
    {
        self.0@[choose|i: int| 0 <= i < self.0@.len() && #[trigger] self.0@[i].contains(a)]
    }

    /// Whether the list is well formed and lies within a RAM of `ram_len` bytes.
    pub fn fits(&self, ram_len: usize) -> (r: bool)
        ensures
            r == (self.wf() && self.within(ram_len as nat)),
    {
        let n = self.0.len();
        let mut k: usize = 0;
        while k < n
            invariant
                n == self.0@.len(),
                k <= n,
                forall|i: int| 0 <= i < k ==> #[trigger] self.0@[i].end() <= ram_len,
                forall|i: int, j: int| 0 <= i < j < k ==> #[trigger] self.0@[i].end() <= #[trigger] self.0@[j].addr,
            decreases n - k,
        {
            let r = &self.0[k];
            if r.size > ram_len || r.addr > ram_len - r.size {
                assert(self.0@[k as int].end() > ram_len);
                return false;
            }
            if k > 0 {
                let p = &self.0[k - 1];
                assert(self.0@[k - 1].end() <= ram_len);
                if p.addr + p.size > r.addr {
                    assert(!self.wf());
                    return false;
                }
                assert forall|i: int, j: int| 0 <= i < j < k + 1 implies #[trigger] self.0@[i].end() <= #[trigger] self.0@[j].addr by {
                    if j == k && i < k - 1 {
                        assert(self.0@[i].end() <= self.0@[k - 1].addr);
                    }
                }
            }
            k = k + 1;
        }
        true
    }

    /// Finds the region that holds `addr` by binary search.
    pub fn find_region(&self, addr: usize) -> (r: Option<&Region>)
        requires
            self.wf(),
        ensures
            r is None <==> !self.covers(addr as int),
            r matches Some(reg) ==> exists|i: int|
                0 <= i < self.0@.len() && self.0@[i] == *reg && reg.contains(addr as int),
    {
        let mut lo: usize = 0;
        let mut hi: usize = self.0.len();
        while lo < hi
            invariant
                self.wf(),
                lo <= hi <= self.0@.len(),
                forall|i: int| 0 <= i < lo ==> #[trigger] self.0@[i].end() <= addr,
                forall|i: int| hi <= i < self.0@.len() ==> addr < #[trigger] self.0@[i].addr,
            decreases hi - lo,
        {
            let mid = lo + (hi - lo) / 2;
            let x = &self.0[mid];
            if addr < x.addr {
                assert forall|i: int| mid <= i < self.0@.len() implies addr < #[trigger] self.0@[i].addr by {
                    if mid < i {
                        assert(self.0@[mid as int].end() <= self.0@[i].addr);
                    }
                }
                hi = mid;
            } else if addr - x.addr >= x.size {
                assert forall|i: int| 0 <= i <= mid implies #[trigger] self.0@[i].end() <= addr by {
                    if i < mid {
                        assert(self.0@[i].end() <= self.0@[mid as int].addr);
                    }
                }
                lo = mid + 1;
            } else {
                assert(self.0@[mid as int].contains(addr as int));
                return Some(x);
            }
        }
        assert forall|i: int| 0 <= i < self.0@.len() implies !#[trigger] self.0@[i].contains(
            addr as int,
        ) by {
            if i < lo {
                assert(self.0@[i].end() <= addr);
            } else {
                assert(addr < self.0@[i].addr);
            }
        }
        None
    }
}

/// In a well-formed list at most one region holds a given address.
pub proof fn lemma_region_unique(l: RegionList, a: int, i: int, j: int)
    requires
        l.wf(),
        0 <= i < l.0@.len(),
        0 <= j < l.0@.len(),
        l.0@[i].contains(a),
        l.0@[j].contains(a),
    ensures
        i == j,
{
    if i < j {
        assert(l.0@[i].end() <= l.0@[j].addr);
    } else if j < i {
        assert(l.0@[j].end() <= l.0@[i].addr);
    }
}

/// Each address that the list covers lies in exactly one region, the one `region_at` names.
pub proof fn lemma_region_at(l: RegionList, a: int)
    requires
        l.wf(),
        l.covers(a),
    ensures
        l.region_at(a).contains(a),
        forall|i: int|
            0 <= i < l.0@.len() && #[trigger] l.0@[i].contains(a) ==> l.0@[i] == l.region_at(a),
{
    let k = choose|i: int| 0 <= i < l.0@.len() && #[trigger] l.0@[i].contains(a);
    assert forall|i: int| 0 <= i < l.0@.len() && #[trigger] l.0@[i].contains(a) implies l.0@[i]
        == l.region_at(a) by {
        lemma_region_unique(l, a, i, k);
    }
}

} // verus!
