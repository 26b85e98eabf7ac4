use vstd::prelude::*;

use crate::region::{Region, RegionList, RegionMeta, lemma_region_at};
use crate::vm::{Fault, Halt};

verus! {

/// The RAM bytes and the serial output after a run of stores, and what stopped it, if
/// anything did.
pub struct Bus {
    pub ram: Seq<u8>,
    pub output: Seq<u8>,
    pub halt: Option<Halt>,
}

/// Every address in `[addr, addr + len)` lies in some region.
pub open spec fn mapped(l: RegionList, addr: int, len: int) -> bool {
    forall|a: int| addr <= a < addr + len ==> #[trigger] l.covers(a)
}

/// `a` is the first address of `[addr, addr + len)` that no region holds.
pub open spec fn is_gap(l: RegionList, addr: int, len: int, a: int) -> bool {
    addr <= a < addr + len && !l.covers(a) && mapped(l, addr, a - addr)
}

/// The first address of `[addr, addr + len)` that no region holds.
pub open spec fn gap(l: RegionList, addr: int, len: int) -> int {
    choose|a: int| is_gap(l, addr, len, a)
}

/// Reading `len` bytes at `addr`: the RAM bytes there when every address is mapped, else
/// an out-of-bounds fault at the first unmapped one.
pub open spec fn load(l: RegionList, ram: Seq<u8>, addr: int, len: int, ip: i32) -> Result<
    Seq<u8>,
    Fault,
> {
    if mapped(l, addr, len) {
        Ok(Seq::new(len as nat, |k: int| ram[addr + k]))
    } else {
        Err(Fault::OutOfBounds { addr: gap(l, addr, len) as usize, ip })
    }
}

/// Storing the byte `b` at address `a`, unless an earlier byte already stopped the store.
pub open spec fn store_byte(l: RegionList, s: Bus, a: int, b: u8, ip: i32) -> Bus {
    if s.halt is Some {
        s
    } else if !l.covers(a) {
        Bus { halt: Some(Halt::Fault(Fault::OutOfBounds { addr: a as usize, ip })), ..s }
    } else {
        match l.region_at(a).meta {
            RegionMeta::Memory => Bus { ram: s.ram.update(a, b), ..s },
            RegionMeta::Serial => Bus { output: s.output.push(b), ..s },
            RegionMeta::Exit => Bus { halt: Some(Halt::Exit(b)), ..s },
        }
    }
}

/// Storing `bytes` at `addr`, one byte after the other.
pub open spec fn store(
    l: RegionList,
    ram: Seq<u8>,
    output: Seq<u8>,
    addr: int,
    bytes: Seq<u8>,
    ip: i32,
) -> Bus
    decreases bytes.len(),
{
    if bytes.len() == 0 {
        Bus { ram, output, halt: None }
    } else {
        store_byte(
            l,
            store(l, ram, output, addr, bytes.drop_last(), ip),
            addr + bytes.len() - 1,
            bytes.last(),
            ip,
        )
    }
}

pub(crate) proof fn lemma_store_step(
    l: RegionList,
    ram: Seq<u8>,
    output: Seq<u8>,
    addr: int,
    bytes: Seq<u8>,
    ip: i32,
    k: int,
)
    requires
        0 <= k < bytes.len(),
    ensures
        store(l, ram, output, addr, bytes.take(k + 1), ip) == store_byte(
            l,
            store(l, ram, output, addr, bytes.take(k), ip),
            addr + k,
            bytes[k],
            ip,
        ),
{
    assert(bytes.take(k + 1).drop_last() =~= bytes.take(k));
}

/// Once a store has stopped, the bytes after it change nothing.
pub(crate) proof fn lemma_store_stays(
    l: RegionList,
    ram: Seq<u8>,
    output: Seq<u8>,
    addr: int,
    bytes: Seq<u8>,
    ip: i32,
    k: int,
    n: int,
)
    requires
        0 <= k <= n <= bytes.len(),
        store(l, ram, output, addr, bytes.take(k), ip).halt is Some,
    ensures
        store(l, ram, output, addr, bytes.take(n), ip) == store(
            l,
            ram,
            output,
            addr,
            bytes.take(k),
            ip,
        ),
    decreases n - k,
{
    if k < n {
        lemma_store_step(l, ram, output, addr, bytes, ip, k);
        lemma_store_stays(l, ram, output, addr, bytes, ip, k + 1, n);
    }
}

/// Storing `t` bytes that all land in one region `reg` of the list.
pub(crate) proof fn lemma_store_chunk(
    l: RegionList,
    ram: Seq<u8>,
    output: Seq<u8>,
    addr: int,
    bytes: Seq<u8>,
    ip: i32,
    done: int,
    t: int,
    reg: Region,
)
    requires
        l.wf(),
        0 <= done,
        0 <= t,
        done + t <= bytes.len(),
        store(l, ram, output, addr, bytes.take(done), ip).halt is None,
        exists|i: int| 0 <= i < l.0@.len() && l.0@[i] == reg,
        forall|a: int| addr + done <= a < addr + done + t ==> #[trigger] reg.contains(a),
        reg.meta != RegionMeta::Exit,
        reg.end() <= store(l, ram, output, addr, bytes.take(done), ip).ram.len(),
    ensures
        ({
            let s0 = store(l, ram, output, addr, bytes.take(done), ip);
            let s1 = store(l, ram, output, addr, bytes.take(done + t), ip);
            &&& s1.halt is None
            &&& reg.meta == RegionMeta::Memory ==> {
                &&& s1.output == s0.output
                &&& s1.ram.len() == s0.ram.len()
                &&& forall|a: int|
                    0 <= a < s0.ram.len() ==> #[trigger] s1.ram[a] == if addr + done <= a < addr
                        + done + t {
                        bytes[a - addr]
                    } else {
                        s0.ram[a]
                    }
            }
            &&& reg.meta == RegionMeta::Serial ==> {
                &&& s1.ram == s0.ram
                &&& s1.output == s0.output + bytes.subrange(done, done + t)
            }
        }),
    decreases t,
{
    if t > 0 {
        lemma_store_chunk(l, ram, output, addr, bytes, ip, done, t - 1, reg);
        let a = addr + done + t - 1;
        assert(reg.contains(a));
        let i = choose|i: int| 0 <= i < l.0@.len() && l.0@[i] == reg;
        assert(l.0@[i].contains(a));
        lemma_region_at(l, a);
        lemma_store_step(l, ram, output, addr, bytes, ip, done + t - 1);
        let s0 = store(l, ram, output, addr, bytes.take(done), ip);
        let sp = store(l, ram, output, addr, bytes.take(done + t - 1), ip);
        let s1 = store(l, ram, output, addr, bytes.take(done + t), ip);
        assert(l.region_at(a) == reg);
        if reg.meta == RegionMeta::Memory {
            assert forall|x: int| 0 <= x < s0.ram.len() && x != a implies #[trigger] s1.ram[x]
                == sp.ram[x] by {}
        }
        if reg.meta == RegionMeta::Serial {
            assert(s0.output + bytes.subrange(done, done + t) =~= (s0.output + bytes.subrange(
                done,
                done + t - 1,
            )).push(bytes[done + t - 1]));
        }
    } else {
        let s0 = store(l, ram, output, addr, bytes.take(done), ip);
        assert(s0.output + bytes.subrange(done, done) =~= s0.output);
    }
}

/// There is only one first unmapped address.
pub(crate) proof fn lemma_gap(l: RegionList, addr: int, len: int, a: int)
    requires
        is_gap(l, addr, len, a),
    ensures
        gap(l, addr, len) == a,
{
    let g = gap(l, addr, len);
    assert(is_gap(l, addr, len, g));
    if g < a {
        assert(l.covers(g));
    } else if a < g {
        assert(l.covers(a));
    }
}

/// Bytes written into one RAM region read back unchanged, and nothing reaches the serial
/// port on the way.
pub proof fn lemma_write_read(
    l: RegionList,
    ram: Seq<u8>,
    output: Seq<u8>,
    addr: int,
    bytes: Seq<u8>,
    ip: i32,
    i: int,
)
    requires
        l.wf(),
        l.within(ram.len()),
        0 <= i < l.0@.len(),
        l.0@[i].meta == RegionMeta::Memory,
        l.0@[i].addr <= addr,
        addr + bytes.len() <= l.0@[i].end(),
    ensures
        ({
            let s = store(l, ram, output, addr, bytes, ip);
            &&& s.halt is None
            &&& s.output == output
            &&& s.ram.len() == ram.len()
            &&& forall|ip2: i32|
                load(l, s.ram, addr, bytes.len() as int, ip2) == Ok::<Seq<u8>, Fault>(bytes)
        }),
{
    let reg = l.0@[i];
    assert(bytes.take(0) =~= Seq::<u8>::empty());
    assert(bytes.take(bytes.len() as int) =~= bytes);
    assert(l.0@[i].end() <= ram.len());
    lemma_store_chunk(l, ram, output, addr, bytes, ip, 0, bytes.len() as int, reg);
    let s = store(l, ram, output, addr, bytes, ip);
    assert forall|a: int| addr <= a < addr + bytes.len() implies #[trigger] l.covers(a) by {
        assert(l.0@[i].contains(a));
    }
    assert(Seq::new(bytes.len(), |k: int| s.ram[addr + k]) =~= bytes);
}

/// What reading `len` bytes gives, as the bytes of a `Vec`.
pub open spec fn loaded(
    r: Result<Vec<u8>, Fault>,
    l: RegionList,
    ram: Seq<u8>,
    addr: int,
    len: int,
    ip: i32,
) -> bool {
    match r {
        Ok(v) => load(l, ram, addr, len, ip) == Ok::<Seq<u8>, Fault>(v@),
        Err(f) => load(l, ram, addr, len, ip) == Err::<Seq<u8>, Fault>(f),
    }
}

} // verus!
